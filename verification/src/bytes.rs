use vstd::prelude::*;
use crate::ace::{Ace, AceFlags, AceType, AceV};
use crate::acl::{Acl, AclV};
use crate::rights::AccessRights;
use crate::strutil::push_char;
use crate::trustee::Trustee;

verus! {

// ---------------------------------------------------------------------------
// The on-the-wire shape: a fixed eight-byte header (revision, a reserved
// byte, the total size, the entry count, two reserved bytes), followed by
// packed variable-size entries. Each entry is a four-byte header (type,
// flags, entry size), a four-byte rights mask, and the trustee's binary
// identifier (revision, group count, a six-byte authority, the groups).
// A region is taken only when it is self-consistent: the declared size is
// the region's length and the declared entries fill it exactly.
// ---------------------------------------------------------------------------
pub open spec fn u16le(b: Seq<u8>, i: int) -> u16 {
    (b[i] + b[i + 1] * 0x100) as u16
}

pub open spec fn u32le(b: Seq<u8>, i: int) -> u32 {
    (b[i] + b[i + 1] * 0x100 + b[i + 2] * 0x10000 + b[i + 3] * 0x1000000) as u32
}

/// Six-byte big-endian authority value.
pub open spec fn auth48(b: Seq<u8>, i: int) -> u64 {
    (b[i] * 0x10000000000 + b[i + 1] * 0x100000000 + b[i + 2] * 0x1000000 + b[i + 3] * 0x10000 + b[
        i + 4] * 0x100 + b[i + 5]) as u64
}

/// Decimal digit character of a value below ten.
pub open spec fn decd(n: u64) -> char {
    if n == 0 {
        '0'
    } else if n == 1 {
        '1'
    } else if n == 2 {
        '2'
    } else if n == 3 {
        '3'
    } else if n == 4 {
        '4'
    } else if n == 5 {
        '5'
    } else if n == 6 {
        '6'
    } else if n == 7 {
        '7'
    } else if n == 8 {
        '8'
    } else {
        '9'
    }
}

/// Decimal digits of a value, most significant first, no leading zeros.
pub open spec fn dec_of(n: u64) -> Seq<char>
    decreases n,
{
    if n < 10 {
        seq![decd(n)]
    } else {
        dec_of((n / 10) as u64).push(decd(n % 10))
    }
}

/// The subauthority values packed after the identifier header.
pub open spec fn subs_of(b: Seq<u8>, i: int, k: nat) -> Seq<u32> {
    Seq::new(k, |j: int| u32le(b, i + 4 * j))
}

pub open spec fn dec_subs(subs: Seq<u32>) -> Seq<char>
    decreases subs.len(),
{
    if subs.len() == 0 {
        Seq::empty()
    } else {
        seq!['-'] + dec_of(subs[0] as u64) + dec_subs(subs.drop_first())
    }
}

/// The textual identifier of a binary trustee identifier.
pub open spec fn sid_text(rev: u8, auth: u64, subs: Seq<u32>) -> Seq<char> {
    seq!['S', '-'] + dec_of(rev as u64) + seq!['-'] + dec_of(auth) + dec_subs(subs)
}

/// Decode the trustee identifier at `i`: its text and its byte length.
pub open spec fn sp_sid_bytes(b: Seq<u8>, i: int) -> Option<(Seq<char>, int)> {
    if i + 8 <= b.len() {
        let cnt = b[i + 1] as nat;
        if i + 8 + 4 * cnt <= b.len() {
            Some((sid_text(b[i], auth48(b, i + 2), subs_of(b, i + 8, cnt)), 8 + 4 * cnt as int))
        } else {
            None
        }
    } else {
        None
    }
}

pub open spec fn ace_type_of(t: u8) -> AceType {
    if t == 0 {
        AceType::AccessAllowed
    } else if t == 1 {
        AceType::AccessDenied
    } else if t == 2 {
        AceType::SystemAudit
    } else if t == 3 {
        AceType::SystemAlarm
    } else {
        AceType::Unknown(t)
    }
}

/// Decode the entry at `i`: the entry and the index just past it. The
/// declared entry size must be exactly its header, mask and trustee.
pub open spec fn sp_ace_bytes(b: Seq<u8>, i: int) -> Option<(AceV, int)> {
    if i + 8 <= b.len() {
        match sp_sid_bytes(b, i + 8) {
            Some((t, sidlen)) => if u16le(b, i + 2) == 8 + sidlen {
                Some(
                    (
                        AceV {
                            ace_type: ace_type_of(b[i]),
                            flags: b[i + 1],
                            mask: u32le(b, i + 4),
                            trustee: t,
                        },
                        i + 8 + sidlen,
                    ),
                )
            } else {
                None
            },
            None => None,
        }
    } else {
        None
    }
}

/// Decode `n` packed entries from `i`; they must end exactly at the region's
/// end.
pub open spec fn sp_aces_bytes(b: Seq<u8>, i: int, n: nat) -> Option<Seq<AceV>>
    decreases n,
{
    if n == 0 {
        if i == b.len() {
            Some(Seq::empty())
        } else {
            None
        }
    } else {
        match sp_ace_bytes(b, i) {
            Some((a, j)) => match sp_aces_bytes(b, j, (n - 1) as nat) {
                Some(list) => Some(seq![a] + list),
                None => None,
            },
            None => None,
        }
    }
}

/// Decode a whole region—`None` when its layout is inconsistent.
pub open spec fn sp_acl_bytes(b: Seq<u8>) -> Option<AclV> {
    if b.len() >= 8 && u16le(b, 2) == b.len() {
        match sp_aces_bytes(b, 8, u16le(b, 4) as nat) {
            Some(list) => Some(AclV { revision: b[0], entries: list }),
            None => None,
        }
    } else {
        None
    }
}

/// Refusal to build a list view over a binary region whose declared counts
/// do not match its actual structure.
#[derive(PartialEq, Eq, Debug)]
pub enum ValidationError {
    InconsistentLayout,
}


fn read_u16le(v: &[u8], i: usize) -> (r: u16)
    requires
        i + 2 <= v@.len(),
    ensures
        r == u16le(v@, i as int),
{
    v[i] as u16 + v[i + 1] as u16 * 0x100
}

fn read_u32le(v: &[u8], i: usize) -> (r: u32)
    requires
        i + 4 <= v@.len(),
    ensures
        r == u32le(v@, i as int),
{
    v[i] as u32 + v[i + 1] as u32 * 0x100 + v[i + 2] as u32 * 0x10000 + v[i + 3] as u32
        * 0x1000000
}

fn read_auth48(v: &[u8], i: usize) -> (r: u64)
    requires
        i + 6 <= v@.len(),
    ensures
        r == auth48(v@, i as int),
{
    v[i] as u64 * 0x10000000000 + v[i + 1] as u64 * 0x100000000 + v[i + 2] as u64 * 0x1000000 + v[i
        + 3] as u64 * 0x10000 + v[i + 4] as u64 * 0x100 + v[i + 5] as u64
}

fn dec_digit_char(n: u64) -> (r: char)
    requires
        n < 10,
    ensures
        r == decd(n),
{
    if n == 0 {
        '0'
    } else if n == 1 {
        '1'
    } else if n == 2 {
        '2'
    } else if n == 3 {
        '3'
    } else if n == 4 {
        '4'
    } else if n == 5 {
        '5'
    } else if n == 6 {
        '6'
    } else if n == 7 {
        '7'
    } else if n == 8 {
        '8'
    } else {
        '9'
    }
}

fn push_dec(out: &mut String, n: u64)
    ensures
        final(out)@ == old(out)@ + dec_of(n),
    decreases n,
{
    if n < 10 {
        push_char(out, dec_digit_char(n));
        proof {
            assert(out@ =~= old(out)@ + dec_of(n));
        }
    } else {
        push_dec(out, n / 10);
        push_char(out, dec_digit_char(n % 10));
        proof {
            assert(out@ =~= old(out)@ + dec_of(n));
        }
    }
}

fn write_subs(out: &mut String, v: &[u8], off: usize, k: u8)
    requires
        off + 4 * (k as int) <= v@.len(),
    ensures
        final(out)@ == old(out)@ + dec_subs(subs_of(v@, off as int, k as nat)),
    decreases k,
{
    let n = v.len();
    if k == 0 {
        proof {
            assert(subs_of(v@, off as int, 0) =~= Seq::<u32>::empty());
            assert(out@ =~= old(out)@ + dec_subs(Seq::<u32>::empty()));
        }
    } else {
        push_char(out, '-');
        let x = read_u32le(v, off);
        push_dec(out, x as u64);
        write_subs(out, v, off + 4, k - 1);
        proof {
            let subs = subs_of(v@, off as int, k as nat);
            assert(subs[0] == u32le(v@, off as int));
            assert(subs.drop_first() =~= subs_of(v@, off as int + 4, (k - 1) as nat));
            assert(out@ =~= old(out)@ + dec_subs(subs));
        }
    }
}

fn sid_string(v: &[u8], i: usize) -> (r: Option<(Trustee, usize)>)
    requires
        i <= v@.len(),
    ensures
        (r is Some) == (sp_sid_bytes(v@, i as int) is Some),
        r matches Some((t, l)) ==> sp_sid_bytes(v@, i as int) matches Some((tv, l2)) && t@ == tv
            && l == l2 && i + l <= v@.len(),
{
    let n = v.len();
    if n - i >= 8 {
        let cnt = v[i + 1];
        if (n - (i + 8)) >= 4 * (cnt as usize) {
            let mut out = String::new();
            push_char(&mut out, 'S');
            push_char(&mut out, '-');
            push_dec(&mut out, v[i] as u64);
            push_char(&mut out, '-');
            let auth = read_auth48(v, i + 2);
            push_dec(&mut out, auth);
            write_subs(&mut out, v, i + 8, cnt);
            proof {
                assert(out@ =~= sid_text(
                    v@[i as int],
                    auth48(v@, i as int + 2),
                    subs_of(v@, i as int + 8, cnt as nat),
                ));
            }
            Some((Trustee::new(out), 8 + 4 * (cnt as usize)))
        } else {
            None
        }
    } else {
        None
    }
}

fn ace_kind(t: u8) -> (r: AceType)
    ensures
        r == ace_type_of(t),
{
    if t == 0 {
        AceType::AccessAllowed
    } else if t == 1 {
        AceType::AccessDenied
    } else if t == 2 {
        AceType::SystemAudit
    } else if t == 3 {
        AceType::SystemAlarm
    } else {
        AceType::Unknown(t)
    }
}

fn p_ace_bytes(v: &[u8], i: usize) -> (r: Option<(Ace, usize)>)
    requires
        i <= v@.len(),
    ensures
        (r is Some) == (sp_ace_bytes(v@, i as int) is Some),
        r matches Some((a, j)) ==> sp_ace_bytes(v@, i as int) matches Some((av, j2)) && a@ == av
            && j == j2 && i < j <= v@.len(),
{
    let n = v.len();
    if n - i >= 8 {
        match sid_string(v, i + 8) {
            Some((t, sidlen)) => {
                let size = read_u16le(v, i + 2);
                if size as usize == 8 + sidlen {
                    let a = Ace::new(
                        ace_kind(v[i]),
                        AceFlags::new(v[i + 1]),
                        AccessRights::new(read_u32le(v, i + 4)),
                        t,
                    );
                    proof {
                        assert(a@ =~= sp_ace_bytes(v@, i as int).unwrap().0);
                    }
                    Some((a, i + 8 + sidlen))
                } else {
                    None
                }
            },
            None => None,
        }
    } else {
        None
    }
}

impl Acl {
    /// Validating factory for a list read from a caller-supplied binary
    /// region: the structure is checked before any derived count is trusted,
    /// and an inconsistent region is refused rather than read past its
    /// declared bound. The entries are decoded into an owned list, so
    /// nothing borrows the region afterwards and nothing ever frees it.
    pub fn from_bytes(bytes: &[u8]) -> (r: Result<Acl, ValidationError>)
        ensures
            match sp_acl_bytes(bytes@) {
                Some(av) => r matches Ok(acl) && acl@ == av,
                None => r matches Err(e) && e == ValidationError::InconsistentLayout,
            },
    {
        let n = bytes.len();
        if n < 8 {
            return Err(ValidationError::InconsistentLayout);
        }
        let size = read_u16le(bytes, 2);
        if size as usize != n {
            return Err(ValidationError::InconsistentLayout);
        }
        let count = read_u16le(bytes, 4);
        let mut entries: Vec<Ace> = Vec::new();
        let mut i: usize = 8;
        let mut remaining: u16 = count;
        proof {
            assert(entries@.map_values(|x: Ace| x@) =~= Seq::<AceV>::empty());
            if let Some(lv) = sp_aces_bytes(bytes@, 8, count as nat) {
                assert(entries@.map_values(|x: Ace| x@) + lv =~= lv);
            }
        }
        while remaining > 0
            invariant
                8 <= i <= n,
                n == bytes@.len(),
                bytes@.len() >= 8,
                u16le(bytes@, 2) == bytes@.len(),
                count == u16le(bytes@, 4),
                remaining <= count,
                entries@.len() == count - remaining,
                match sp_aces_bytes(bytes@, i as int, remaining as nat) {
                    Some(lv) => sp_aces_bytes(bytes@, 8, count as nat) == Some(
                        entries@.map_values(|x: Ace| x@) + lv,
                    ),
                    None => sp_aces_bytes(bytes@, 8, count as nat) is None,
                },
            decreases remaining,
        {
            match p_ace_bytes(bytes, i) {
                None => {
                    return Err(ValidationError::InconsistentLayout);
                },
                Some((a, j)) => {
                    proof {
                        let av = sp_ace_bytes(bytes@, i as int).unwrap().0;
                        let old_map = entries@.map_values(|x: Ace| x@);
                        assert(old_map.push(a@) =~= entries@.push(a).map_values(|x: Ace| x@));
                        if let Some(lv) = sp_aces_bytes(bytes@, j as int, (remaining - 1) as nat) {
                            assert(old_map + (seq![av] + lv) =~= old_map.push(av) + lv);
                        }
                    }
                    entries.push(a);
                    i = j;
                    remaining = remaining - 1;
                },
            }
        }
        if i != n {
            return Err(ValidationError::InconsistentLayout);
        }
        proof {
            if let Some(lv) = sp_aces_bytes(bytes@, i as int, 0) {
                assert(entries@.map_values(|x: Ace| x@) + lv =~= entries@.map_values(
                    |x: Ace| x@,
                ));
            }
        }
        let acl = Acl::from_entries(bytes[0], entries);
        proof {
            assert(acl@ =~= sp_acl_bytes(bytes@).unwrap());
        }
        Ok(acl)
    }
}

} // verus!
