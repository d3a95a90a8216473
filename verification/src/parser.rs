use vstd::prelude::*;
use vstd::string::StrSliceExecFns;
use crate::ace::{Ace, AceFlags, AceType};
use crate::acl::{Acl, ACL_REVISION};
use crate::descriptor::{view_acl_opt, view_trustee_opt, SdV, SecurityDescriptor};
use crate::rights::AccessRights;
use crate::sddl::{
    flag_of, hexv, is_digit, is_hexd, is_sid_char, is_upper, right_of, sd_empty, sp_ace, sp_aces,
    sp_ctrl, sp_flags, sp_hexrun, sp_mask, sp_rights, sp_run_sid, sp_sddl, sp_sections,
    sp_trustee, sp_type, type_ok, vdd, vdd_tail, AcesOut, SpOutcome,
    CTRL_DACL_AUTO_INHERITED, CTRL_DACL_AUTO_INHERIT_REQ, CTRL_DACL_PROTECTED,
    CTRL_SACL_AUTO_INHERITED, CTRL_SACL_AUTO_INHERIT_REQ, CTRL_SACL_PROTECTED,
};
use crate::strutil::chars_to_string;
use crate::trustee::Trustee;

verus! {

/// How a parse can fail. Absence (a missing section, an out-of-range index,
/// a trustee with no matching entries) is never an error.
#[derive(PartialEq, Eq, Debug)]
pub enum SddlError {
    /// Syntax error at character `position`; the parse is atomic and no
    /// partial descriptor escapes.
    Malformed { position: usize, reason: String },
    /// A syntactically valid entry of a kind its containing section refuses
    /// (an allow or deny entry in a system list, an audit-class entry in a
    /// discretionary list).
    UnsupportedEntryForSection,
}

fn malformed(position: usize, reason: &str) -> (r: SddlError)
    ensures
        r is Malformed,
{
    SddlError::Malformed { position, reason: reason.to_owned() }
}

/// The whole input as a character vector.
fn to_chars(text: &str) -> (v: Vec<char>)
    ensures
        v@ == text@,
{
    let n = text.unicode_len();
    let mut v: Vec<char> = Vec::new();
    proof {
        assert(text@.take(0) =~= v@);
    }
    let mut k: usize = 0;
    while k < n
        invariant
            k <= n,
            n == text@.len(),
            v@ == text@.take(k as int),
        decreases n - k,
    {
        v.push(text.get_char(k));
        proof {
            assert(text@.take(k as int).push(text@[k as int]) =~= text@.take(k as int + 1));
        }
        k = k + 1;
    }
    proof {
        assert(text@.take(n as int) =~= text@);
    }
    v
}

fn digit(c: char) -> (r: bool)
    ensures
        r == is_digit(c),
{
    let u = c as u32;
    48 <= u && u <= 57
}

fn upper(c: char) -> (r: bool)
    ensures
        r == is_upper(c),
{
    let u = c as u32;
    65 <= u && u <= 90
}

fn sid_char(c: char) -> (r: bool)
    ensures
        r == is_sid_char(c),
{
    digit(c) || c == '-'
}

fn hex_val(c: char) -> (r: Option<u32>)
    ensures
        (r is Some) == is_hexd(c),
        r matches Some(x) ==> x == hexv(c) && x < 16,
{
    let u = c as u32;
    if 48 <= u && u <= 57 {
        Some(u - 48)
    } else if 97 <= u && u <= 102 {
        Some(u - 87)
    } else if 65 <= u && u <= 70 {
        Some(u - 55)
    } else {
        None
    }
}

fn flag_code(a: char, b: char) -> (r: Option<u8>)
    ensures
        r == flag_of(a, b),
{
    if a == 'O' && b == 'I' {
        Some(crate::ace::ACE_FLAG_OBJECT_INHERIT)
    } else if a == 'C' && b == 'I' {
        Some(crate::ace::ACE_FLAG_CONTAINER_INHERIT)
    } else if a == 'N' && b == 'P' {
        Some(crate::ace::ACE_FLAG_NO_PROPAGATE)
    } else if a == 'I' && b == 'O' {
        Some(crate::ace::ACE_FLAG_INHERIT_ONLY)
    } else if a == 'I' && b == 'D' {
        Some(crate::ace::ACE_FLAG_INHERITED)
    } else if a == 'S' && b == 'A' {
        Some(crate::ace::ACE_FLAG_AUDIT_SUCCESS)
    } else if a == 'F' && b == 'A' {
        Some(crate::ace::ACE_FLAG_AUDIT_FAILURE)
    } else {
        None
    }
}

fn right_code(a: char, b: char) -> (r: Option<u32>)
    ensures
        r == right_of(a, b),
{
    if a == 'G' && b == 'A' {
        Some(0x10000000)
    } else if a == 'G' && b == 'X' {
        Some(0x20000000)
    } else if a == 'G' && b == 'W' {
        Some(0x40000000)
    } else if a == 'G' && b == 'R' {
        Some(0x80000000)
    } else if a == 'R' && b == 'C' {
        Some(0x00020000)
    } else if a == 'S' && b == 'D' {
        Some(0x00010000)
    } else if a == 'W' && b == 'D' {
        Some(0x00040000)
    } else if a == 'W' && b == 'O' {
        Some(0x00080000)
    } else if a == 'F' && b == 'A' {
        Some(0x001F01FF)
    } else if a == 'F' && b == 'R' {
        Some(0x00120089)
    } else if a == 'F' && b == 'W' {
        Some(0x00120116)
    } else if a == 'F' && b == 'X' {
        Some(0x001200A0)
    } else {
        None
    }
}

fn type_class_ok(ty: AceType, sacl: bool) -> (r: bool)
    ensures
        r == type_ok(ty, sacl),
{
    if sacl {
        match ty {
            AceType::SystemAudit => true,
            AceType::SystemAlarm => true,
            _ => false,
        }
    } else {
        match ty {
            AceType::AccessAllowed => true,
            AceType::AccessDenied => true,
            _ => false,
        }
    }
}

fn p_type(v: &Vec<char>, i: usize) -> (r: Option<(AceType, usize)>)
    requires
        i <= v@.len(),
    ensures
        (r is Some) == (sp_type(v@.skip(i as int)) is Some),
        r matches Some((ty, j)) ==> sp_type(v@.skip(i as int)) matches Some((ty2, rest)) && ty
            == ty2 && i <= j <= v@.len() && v@.skip(j as int) == rest,
{
    let ghost s = v@.skip(i as int);
    let n = v.len();
    if n - i >= 2 && v[i] == 'A' && v[i + 1] == ';' {
        proof {
            assert(v@.skip(i as int + 1) =~= s.skip(1));
        }
        Some((AceType::AccessAllowed, i + 1))
    } else if n - i >= 2 && v[i] == 'D' && v[i + 1] == ';' {
        proof {
            assert(v@.skip(i as int + 1) =~= s.skip(1));
        }
        Some((AceType::AccessDenied, i + 1))
    } else if n - i >= 3 && v[i] == 'A' && v[i + 1] == 'U' && v[i + 2] == ';' {
        proof {
            assert(v@.skip(i as int + 2) =~= s.skip(2));
        }
        Some((AceType::SystemAudit, i + 2))
    } else if n - i >= 3 && v[i] == 'A' && v[i + 1] == 'L' && v[i + 2] == ';' {
        proof {
            assert(v@.skip(i as int + 2) =~= s.skip(2));
        }
        Some((AceType::SystemAlarm, i + 2))
    } else {
        None
    }
}

fn p_flags(v: &Vec<char>, i: usize) -> (r: Option<(u8, usize)>)
    requires
        i <= v@.len(),
    ensures
        (r is Some) == (sp_flags(v@.skip(i as int)) is Some),
        r matches Some((f, j)) ==> sp_flags(v@.skip(i as int)) matches Some((f2, rest)) && f == f2
            && i <= j <= v@.len() && v@.skip(j as int) == rest,
    decreases v@.len() - i,
{
    let ghost s = v@.skip(i as int);
    let n = v.len();
    if i >= n {
        None
    } else if v[i] == ';' {
        Some((0u8, i))
    } else if n - i >= 2 {
        match flag_code(v[i], v[i + 1]) {
            Some(b) => {
                proof {
                    assert(v@.skip(i as int + 2) =~= s.skip(2));
                }
                match p_flags(v, i + 2) {
                    Some((f, j)) => Some((b | f, j)),
                    None => None,
                }
            },
            None => None,
        }
    } else {
        None
    }
}

fn p_rights(v: &Vec<char>, i: usize) -> (r: Option<(u32, usize)>)
    requires
        i <= v@.len(),
    ensures
        (r is Some) == (sp_rights(v@.skip(i as int)) is Some),
        r matches Some((m, j)) ==> sp_rights(v@.skip(i as int)) matches Some((m2, rest)) && m == m2
            && i <= j <= v@.len() && v@.skip(j as int) == rest,
    decreases v@.len() - i,
{
    let ghost s = v@.skip(i as int);
    let n = v.len();
    if i >= n {
        None
    } else if v[i] == ';' {
        Some((0u32, i))
    } else if n - i >= 2 {
        match right_code(v[i], v[i + 1]) {
            Some(b) => {
                proof {
                    assert(v@.skip(i as int + 2) =~= s.skip(2));
                }
                match p_rights(v, i + 2) {
                    Some((m, j)) => Some((b | m, j)),
                    None => None,
                }
            },
            None => None,
        }
    } else {
        None
    }
}

fn p_hexrun(v: &Vec<char>, i: usize, acc32: u32, big: bool, Ghost(acc): Ghost<nat>) -> (r: (
    u32,
    bool,
    usize,
))
    requires
        i <= v@.len(),
        big == (acc > u32::MAX),
        !big ==> acc32 == acc,
    ensures
        ({
            let (g, rest) = sp_hexrun(v@.skip(i as int), acc);
            i <= r.2 <= v@.len() && v@.skip(r.2 as int) == rest && r.1 == (g > u32::MAX) && (!r.1
                ==> r.0 == g)
        }),
    decreases v@.len() - i,
{
    let ghost s = v@.skip(i as int);
    let n = v.len();
    if i < n {
        match hex_val(v[i]) {
            Some(d) => {
                proof {
                    assert(v@.skip(i as int + 1) =~= s.skip(1));
                }
                let ghost acc2 = (acc * 16 + hexv(s[0])) as nat;
                if big {
                    p_hexrun(v, i + 1, acc32, true, Ghost(acc2))
                } else {
                    let w: u64 = (acc32 as u64) * 16 + (d as u64);
                    if w <= u32::MAX as u64 {
                        p_hexrun(v, i + 1, w as u32, false, Ghost(acc2))
                    } else {
                        p_hexrun(v, i + 1, 0, true, Ghost(acc2))
                    }
                }
            },
            None => (acc32, big, i),
        }
    } else {
        (acc32, big, i)
    }
}

fn p_mask(v: &Vec<char>, i: usize) -> (r: Option<(u32, usize)>)
    requires
        i <= v@.len(),
    ensures
        (r is Some) == (sp_mask(v@.skip(i as int)) is Some),
        r matches Some((m, j)) ==> sp_mask(v@.skip(i as int)) matches Some((m2, rest)) && m == m2
            && i <= j <= v@.len() && v@.skip(j as int) == rest,
{
    let ghost s = v@.skip(i as int);
    let n = v.len();
    if i >= n {
        None
    } else if v[i] == ';' {
        Some((0u32, i))
    } else {
        proof {
            assert(s.len() == n - i);
            if n - i >= 3 {
                assert(s[0] == v@[i as int] && s[1] == v@[i as int + 1] && s[2] == v@[i as int
                    + 2]);
            }
        }
        let hex_head = if n - i >= 3 && v[i] == '0' && (v[i + 1] == 'x' || v[i + 1] == 'X') {
            match hex_val(v[i + 2]) {
                Some(_) => true,
                None => false,
            }
        } else {
            false
        };
        if hex_head {
            proof {
                assert(s.len() >= 3 && s[0] == '0' && (s[1] == 'x' || s[1] == 'X') && is_hexd(
                    s[2],
                ));
                assert(v@.skip(i as int + 2) =~= s.skip(2));
            }
            let (val, big, j) = p_hexrun(v, i + 2, 0, false, Ghost(0nat));
            if big {
                None
            } else {
                Some((val, j))
            }
        } else {
            proof {
                assert(sp_mask(s) == sp_rights(s));
            }
            p_rights(v, i)
        }
    }
}

fn p_run_sid(v: &Vec<char>, i: usize) -> (j: usize)
    requires
        i <= v@.len(),
    ensures
        ({
            let (run, rest) = sp_run_sid(v@.skip(i as int));
            i <= j <= v@.len() && v@.skip(j as int) == rest && run == v@.subrange(
                i as int,
                j as int,
            )
        }),
    decreases v@.len() - i,
{
    let ghost s = v@.skip(i as int);
    let n = v.len();
    if i < n && sid_char(v[i]) {
        proof {
            assert(v@.skip(i as int + 1) =~= s.skip(1));
        }
        let j = p_run_sid(v, i + 1);
        proof {
            assert(v@.subrange(i as int, j as int) =~= seq![v@[i as int]] + v@.subrange(
                i as int + 1,
                j as int,
            ));
        }
        j
    } else {
        proof {
            assert(v@.subrange(i as int, i as int) =~= Seq::<char>::empty());
        }
        i
    }
}

fn p_vdd_tail(v: &Vec<char>, i: usize, j: usize) -> (r: bool)
    requires
        i <= j <= v@.len(),
    ensures
        r == vdd_tail(v@.subrange(i as int, j as int)),
    decreases j - i,
{
    let ghost s = v@.subrange(i as int, j as int);
    if i >= j {
        true
    } else {
        let c = v[i];
        if digit(c) {
            proof {
                assert(v@.subrange(i as int + 1, j as int) =~= s.skip(1));
            }
            p_vdd_tail(v, i + 1, j)
        } else if c == '-' {
            if j - i >= 2 && digit(v[i + 1]) {
                proof {
                    assert(v@.subrange(i as int + 1, j as int) =~= s.skip(1));
                }
                p_vdd_tail(v, i + 1, j)
            } else {
                false
            }
        } else {
            false
        }
    }
}

fn p_vdd(v: &Vec<char>, i: usize, j: usize) -> (r: bool)
    requires
        i <= j <= v@.len(),
    ensures
        r == vdd(v@.subrange(i as int, j as int)),
{
    let ghost s = v@.subrange(i as int, j as int);
    if i >= j {
        false
    } else if digit(v[i]) {
        proof {
            assert(v@.subrange(i as int + 1, j as int) =~= s.skip(1));
        }
        p_vdd_tail(v, i + 1, j)
    } else {
        false
    }
}

fn p_trustee(v: &Vec<char>, i: usize) -> (r: Option<(Trustee, usize)>)
    requires
        i <= v@.len(),
    ensures
        (r is Some) == (sp_trustee(v@.skip(i as int)) is Some),
        r matches Some((t, j)) ==> sp_trustee(v@.skip(i as int)) matches Some((tv, rest)) && t@
            == tv && i <= j <= v@.len() && v@.skip(j as int) == rest,
{
    let ghost s = v@.skip(i as int);
    let n = v.len();
    if n - i >= 2 && v[i] == 'S' && v[i + 1] == '-' {
        proof {
            assert(v@.skip(i as int + 2) =~= s.skip(2));
        }
        let j = p_run_sid(v, i + 2);
        if p_vdd(v, i + 2, j) {
            let t = chars_to_string(v, i, j);
            proof {
                assert(seq!['S', '-'] + v@.subrange(i as int + 2, j as int) =~= v@.subrange(
                    i as int,
                    j as int,
                ));
            }
            Some((Trustee::new(t), j))
        } else {
            None
        }
    } else if n - i >= 2 && upper(v[i]) && upper(v[i + 1]) {
        let t = chars_to_string(v, i, i + 2);
        proof {
            assert(s.take(2) =~= v@.subrange(i as int, i as int + 2));
            assert(v@.skip(i as int + 2) =~= s.skip(2));
        }
        Some((Trustee::new(t), i + 2))
    } else {
        None
    }
}

fn p_ace(v: &Vec<char>, i: usize) -> (r: Option<(Ace, usize)>)
    requires
        i <= v@.len(),
    ensures
        (r is Some) == (sp_ace(v@.skip(i as int)) is Some),
        r matches Some((a, j)) ==> sp_ace(v@.skip(i as int)) matches Some((av, rest)) && a@ == av
            && i < j <= v@.len() && v@.skip(j as int) == rest,
{
    let ghost s = v@.skip(i as int);
    let n = v.len();
    if !(i < n && v[i] == '(') {
        return None;
    }
    proof {
        assert(v@.skip(i as int + 1) =~= s.skip(1));
    }
    let (ty, i1) = match p_type(v, i + 1) {
        Some(p) => p,
        None => {
            return None;
        },
    };
    if !(i1 < n && v[i1] == ';') {
        return None;
    }
    proof {
        assert(v@.skip(i1 as int + 1) =~= v@.skip(i1 as int).skip(1));
    }
    let (fl, i2) = match p_flags(v, i1 + 1) {
        Some(p) => p,
        None => {
            return None;
        },
    };
    if !(i2 < n && v[i2] == ';') {
        return None;
    }
    proof {
        assert(v@.skip(i2 as int + 1) =~= v@.skip(i2 as int).skip(1));
    }
    let (m, i3) = match p_mask(v, i2 + 1) {
        Some(p) => p,
        None => {
            return None;
        },
    };
    if !(n - i3 >= 3 && v[i3] == ';' && v[i3 + 1] == ';' && v[i3 + 2] == ';') {
        return None;
    }
    proof {
        assert(v@.skip(i3 as int + 3) =~= v@.skip(i3 as int).skip(3));
    }
    let (t, i4) = match p_trustee(v, i3 + 3) {
        Some(p) => p,
        None => {
            return None;
        },
    };
    if !(i4 < n && v[i4] == ')') {
        return None;
    }
    proof {
        assert(v@.skip(i4 as int + 1) =~= v@.skip(i4 as int).skip(1));
    }
    let a = Ace::new(ty, AceFlags::new(fl), AccessRights::new(m), t);
    proof {
        let av = sp_ace(s).unwrap().0;
        assert(a@ =~= av);
    }
    Some((a, i4 + 1))
}

fn p_aces(v: &Vec<char>, i: usize, sacl: bool) -> (r: Result<(Vec<Ace>, usize), SddlError>)
    requires
        i <= v@.len(),
    ensures
        match sp_aces(v@.skip(i as int), sacl) {
            AcesOut::Parsed(lv, rest) => r matches Ok(p) && p.0@.map_values(|a: Ace| a@) == lv && i
                <= p.1 <= v@.len() && v@.skip(p.1 as int) == rest,
            AcesOut::Wrong => r matches Err(e) && e is UnsupportedEntryForSection,
            AcesOut::Bad => r matches Err(e) && e is Malformed,
        },
{
    let mut acc: Vec<Ace> = Vec::new();
    let mut k: usize = i;
    let n = v.len();
    proof {
        assert(acc@.map_values(|a: Ace| a@) =~= Seq::<crate::ace::AceV>::empty());
    }
    while k < n && v[k] == '('
        invariant
            i <= k <= v@.len(),
            n == v@.len(),
            match sp_aces(v@.skip(k as int), sacl) {
                AcesOut::Parsed(lv, rest) => sp_aces(v@.skip(i as int), sacl) == AcesOut::Parsed(
                    acc@.map_values(|a: Ace| a@) + lv,
                    rest,
                ),
                AcesOut::Wrong => sp_aces(v@.skip(i as int), sacl) is Wrong,
                AcesOut::Bad => sp_aces(v@.skip(i as int), sacl) is Bad,
            },
        decreases v@.len() - k,
    {
        let ghost s = v@.skip(k as int);
        proof {
            assert(s.len() == n - k);
            assert(s[0] == v@[k as int]);
        }
        match p_ace(v, k) {
            None => {
                proof {
                    assert(sp_aces(s, sacl) is Bad);
                }
                return Err(malformed(k, "malformed entry record"));
            },
            Some((a, j)) => {
                if !type_class_ok(a.ace_type(), sacl) {
                    proof {
                        assert(sp_aces(s, sacl) is Wrong);
                    }
                    return Err(SddlError::UnsupportedEntryForSection);
                }
                proof {
                    let av = sp_ace(s).unwrap().0;
                    let old_map = acc@.map_values(|x: Ace| x@);
                    assert(old_map.push(a@) =~= acc@.push(a).map_values(|x: Ace| x@));
                    if let AcesOut::Parsed(lv, rest) = sp_aces(v@.skip(j as int), sacl) {
                        assert(old_map + (seq![av] + lv) =~= old_map.push(av) + lv);
                    }
                }
                acc.push(a);
                k = j;
            },
        }
    }
    proof {
        assert(sp_aces(v@.skip(k as int), sacl) == AcesOut::Parsed(
            Seq::<crate::ace::AceV>::empty(),
            v@.skip(k as int),
        ));
        if let AcesOut::Parsed(lv, rest) = sp_aces(v@.skip(i as int), sacl) {
            assert(acc@.map_values(|a: Ace| a@) + Seq::<crate::ace::AceV>::empty() =~= acc@
                .map_values(|a: Ace| a@));
        }
    }
    Ok((acc, k))
}

fn p_ctrl(v: &Vec<char>, i: usize, sacl: bool) -> (r: (u16, usize))
    requires
        i <= v@.len(),
    ensures
        ({
            let (c, rest) = sp_ctrl(v@.skip(i as int), sacl);
            r.0 == c && i <= r.1 <= v@.len() && v@.skip(r.1 as int) == rest
        }),
    decreases v@.len() - i,
{
    let ghost s = v@.skip(i as int);
    let n = v.len();
    if n - i >= 2 && v[i] == 'A' && v[i + 1] == 'R' {
        proof {
            assert(v@.skip(i as int + 2) =~= s.skip(2));
        }
        let (c, j) = p_ctrl(v, i + 2, sacl);
        let bit = if sacl {
            CTRL_SACL_AUTO_INHERIT_REQ
        } else {
            CTRL_DACL_AUTO_INHERIT_REQ
        };
        (bit | c, j)
    } else if n - i >= 2 && v[i] == 'A' && v[i + 1] == 'I' {
        proof {
            assert(v@.skip(i as int + 2) =~= s.skip(2));
        }
        let (c, j) = p_ctrl(v, i + 2, sacl);
        let bit = if sacl {
            CTRL_SACL_AUTO_INHERITED
        } else {
            CTRL_DACL_AUTO_INHERITED
        };
        (bit | c, j)
    } else if i < n && v[i] == 'P' {
        proof {
            assert(v@.skip(i as int + 1) =~= s.skip(1));
        }
        let (c, j) = p_ctrl(v, i + 1, sacl);
        let bit = if sacl {
            CTRL_SACL_PROTECTED
        } else {
            CTRL_DACL_PROTECTED
        };
        (bit | c, j)
    } else {
        (0u16, i)
    }
}

/// Parse a descriptor string. Parsing is atomic: on any malformed token the
/// whole operation fails and no partial descriptor is produced. Section
/// order is free, each section at most once; entry order within a section is
/// preserved exactly as written.
pub fn parse_sddl(text: &str) -> (r: Result<SecurityDescriptor, SddlError>)
    ensures
        match sp_sddl(text@) {
            SpOutcome::Done(sdv) => r matches Ok(sd) && sd@ == sdv,
            SpOutcome::Unsupported => r matches Err(e) && e is UnsupportedEntryForSection,
            SpOutcome::Bad => r matches Err(e) && e is Malformed,
        },
{
    let v = to_chars(text);
    let n = v.len();
    let mut owner: Option<Trustee> = None;
    let mut group: Option<Trustee> = None;
    let mut dacl: Option<Acl> = None;
    let mut sacl: Option<Acl> = None;
    let mut control: u16 = 0;
    let mut i: usize = 0;
    let mut seen: u8 = 4;
    proof {
        assert(v@.skip(0) =~= text@);
        assert((SdV {
            owner: view_trustee_opt(owner),
            group: view_trustee_opt(group),
            dacl: view_acl_opt(dacl),
            sacl: view_acl_opt(sacl),
            control,
        }) =~= sd_empty());
    }
    while i < n
        invariant
            i <= n,
            n == v@.len(),
            v@ == text@,
            seen <= 4,
            sp_sddl(text@) == sp_sections(
                v@.skip(i as int),
                SdV {
                    owner: view_trustee_opt(owner),
                    group: view_trustee_opt(group),
                    dacl: view_acl_opt(dacl),
                    sacl: view_acl_opt(sacl),
                    control,
                },
                seen as nat,
            ),
        decreases v@.len() - i,
    {
        let ghost s = v@.skip(i as int);
        if seen == 0 {
            return Err(malformed(i, "too many sections"));
        }
        if n - i >= 2 && v[i] == 'O' && v[i + 1] == ':' {
            if owner.is_some() {
                return Err(malformed(i, "duplicate owner section"));
            }
            proof {
                assert(v@.skip(i as int + 2) =~= s.skip(2));
            }
            match p_trustee(&v, i + 2) {
                None => {
                    return Err(malformed(i + 2, "malformed owner trustee"));
                },
                Some((t, j)) => {
                    owner = Some(t);
                    i = j;
                    seen = seen - 1;
                },
            }
        } else if n - i >= 2 && v[i] == 'G' && v[i + 1] == ':' {
            if group.is_some() {
                return Err(malformed(i, "duplicate group section"));
            }
            proof {
                assert(v@.skip(i as int + 2) =~= s.skip(2));
            }
            match p_trustee(&v, i + 2) {
                None => {
                    return Err(malformed(i + 2, "malformed group trustee"));
                },
                Some((t, j)) => {
                    group = Some(t);
                    i = j;
                    seen = seen - 1;
                },
            }
        } else if n - i >= 2 && v[i] == 'D' && v[i + 1] == ':' {
            if dacl.is_some() {
                return Err(malformed(i, "duplicate discretionary section"));
            }
            proof {
                assert(v@.skip(i as int + 2) =~= s.skip(2));
            }
            let (cf, j1) = p_ctrl(&v, i + 2, false);
            match p_aces(&v, j1, false) {
                Err(e) => {
                    return Err(e);
                },
                Ok((list, j2)) => {
                    if list.len() as u64 > u32::MAX as u64 {
                        return Err(malformed(i, "entry count exceeds the declared-count limit"));
                    }
                    let a = Acl::from_entries(ACL_REVISION, list);
                    dacl = Some(a);
                    control = control | cf;
                    i = j2;
                    seen = seen - 1;
                },
            }
        } else if n - i >= 2 && v[i] == 'S' && v[i + 1] == ':' {
            if sacl.is_some() {
                return Err(malformed(i, "duplicate system section"));
            }
            proof {
                assert(v@.skip(i as int + 2) =~= s.skip(2));
            }
            let (cf, j1) = p_ctrl(&v, i + 2, true);
            match p_aces(&v, j1, true) {
                Err(e) => {
                    return Err(e);
                },
                Ok((list, j2)) => {
                    if list.len() as u64 > u32::MAX as u64 {
                        return Err(malformed(i, "entry count exceeds the declared-count limit"));
                    }
                    let a = Acl::from_entries(ACL_REVISION, list);
                    sacl = Some(a);
                    control = control | cf;
                    i = j2;
                    seen = seen - 1;
                },
            }
        } else {
            return Err(malformed(i, "expected a section label"));
        }
    }
    proof {
        assert(v@.skip(i as int) =~= Seq::<char>::empty());
    }
    Ok(SecurityDescriptor::new(owner, group, dacl, sacl, control))
}

} // verus!
