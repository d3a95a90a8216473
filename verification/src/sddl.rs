use vstd::prelude::*;
use crate::ace::{AceType, AceV};
use crate::acl::{AclV, ACL_REVISION};
use crate::descriptor::SdV;

verus! {

// ---------------------------------------------------------------------------
// Character classes
// ---------------------------------------------------------------------------
pub open spec fn is_digit(c: char) -> bool {
    48 <= c as u32 && c as u32 <= 57
}

pub open spec fn is_upper(c: char) -> bool {
    65 <= c as u32 && c as u32 <= 90
}

pub open spec fn is_hexd(c: char) -> bool {
    is_digit(c) || (97 <= c as u32 && c as u32 <= 102) || (65 <= c as u32 && c as u32 <= 70)
}

/// Numeric value of a hexadecimal digit.
pub open spec fn hexv(c: char) -> u32 {
    if is_digit(c) {
        (c as u32 - 48) as u32
    } else if 97 <= c as u32 && c as u32 <= 102 {
        (c as u32 - 87) as u32
    } else {
        (c as u32 - 55) as u32
    }
}

/// The characters a structured identifier may contain after its "S-" prefix.
pub open spec fn is_sid_char(c: char) -> bool {
    is_digit(c) || c == '-'
}

// ---------------------------------------------------------------------------
// Mnemonic tables
// ---------------------------------------------------------------------------
/// Inheritance-flag mnemonics: a two-letter token and its flag bit.
pub open spec fn flag_of(a: char, b: char) -> Option<u8> {
    if a == 'O' && b == 'I' {
        Some(crate::ace::ACE_FLAG_OBJECT_INHERIT)
    } else if a == 'C' && b == 'I' {
        Some(crate::ace::ACE_FLAG_CONTAINER_INHERIT)
    } else if a == 'N' && b == 'P' {
        Some(crate::ace::ACE_FLAG_NO_PROPAGATE)
    } else if a == 'I' && b == 'O' {
        Some(crate::ace::ACE_FLAG_INHERIT_ONLY)
    } else if a == 'I' && b == 'D' {
        Some(crate::ace::ACE_FLAG_INHERITED)
    } else if a == 'S' && b == 'A' {
        Some(crate::ace::ACE_FLAG_AUDIT_SUCCESS)
    } else if a == 'F' && b == 'A' {
        Some(crate::ace::ACE_FLAG_AUDIT_FAILURE)
    } else {
        None
    }
}

/// Access-rights mnemonics: a two-letter token and its rights mask.
pub open spec fn right_of(a: char, b: char) -> Option<u32> {
    if a == 'G' && b == 'A' {
        Some(0x10000000)
    } else if a == 'G' && b == 'X' {
        Some(0x20000000)
    } else if a == 'G' && b == 'W' {
        Some(0x40000000)
    } else if a == 'G' && b == 'R' {
        Some(0x80000000)
    } else if a == 'R' && b == 'C' {
        Some(0x00020000)
    } else if a == 'S' && b == 'D' {
        Some(0x00010000)
    } else if a == 'W' && b == 'D' {
        Some(0x00040000)
    } else if a == 'W' && b == 'O' {
        Some(0x00080000)
    } else if a == 'F' && b == 'A' {
        Some(0x001F01FF)
    } else if a == 'F' && b == 'R' {
        Some(0x00120089)
    } else if a == 'F' && b == 'W' {
        Some(0x00120116)
    } else if a == 'F' && b == 'X' {
        Some(0x001200A0)
    } else {
        None
    }
}

// ---------------------------------------------------------------------------
// Control flags of a descriptor, set by section-level tokens (P, AR, AI)
// ---------------------------------------------------------------------------
pub const CTRL_DACL_AUTO_INHERIT_REQ: u16 = 0x0100;

pub const CTRL_SACL_AUTO_INHERIT_REQ: u16 = 0x0200;

pub const CTRL_DACL_AUTO_INHERITED: u16 = 0x0400;

pub const CTRL_SACL_AUTO_INHERITED: u16 = 0x0800;

pub const CTRL_DACL_PROTECTED: u16 = 0x1000;

pub const CTRL_SACL_PROTECTED: u16 = 0x2000;

pub open spec fn p_bit(sacl: bool) -> u16 {
    if sacl {
        CTRL_SACL_PROTECTED
    } else {
        CTRL_DACL_PROTECTED
    }
}

pub open spec fn ar_bit(sacl: bool) -> u16 {
    if sacl {
        CTRL_SACL_AUTO_INHERIT_REQ
    } else {
        CTRL_DACL_AUTO_INHERIT_REQ
    }
}

pub open spec fn ai_bit(sacl: bool) -> u16 {
    if sacl {
        CTRL_SACL_AUTO_INHERITED
    } else {
        CTRL_DACL_AUTO_INHERITED
    }
}

/// All control bits a DACL section may set.
pub open spec fn dacl_ctrl_mask() -> u16 {
    CTRL_DACL_PROTECTED | CTRL_DACL_AUTO_INHERIT_REQ | CTRL_DACL_AUTO_INHERITED
}

/// All control bits a SACL section may set.
pub open spec fn sacl_ctrl_mask() -> u16 {
    CTRL_SACL_PROTECTED | CTRL_SACL_AUTO_INHERIT_REQ | CTRL_SACL_AUTO_INHERITED
}

// ---------------------------------------------------------------------------
// Grammar: each parser consumes a prefix of the input and yields the value
// and the remaining suffix. Failure is `None`: the whole parse is atomic.
// ---------------------------------------------------------------------------
/// Entry-type mnemonic, left looking at the `;` that ends its field.
pub open spec fn sp_type(s: Seq<char>) -> Option<(AceType, Seq<char>)> {
    if s.len() >= 2 && s[0] == 'A' && s[1] == ';' {
        Some((AceType::AccessAllowed, s.skip(1)))
    } else if s.len() >= 2 && s[0] == 'D' && s[1] == ';' {
        Some((AceType::AccessDenied, s.skip(1)))
    } else if s.len() >= 3 && s[0] == 'A' && s[1] == 'U' && s[2] == ';' {
        Some((AceType::SystemAudit, s.skip(2)))
    } else if s.len() >= 3 && s[0] == 'A' && s[1] == 'L' && s[2] == ';' {
        Some((AceType::SystemAlarm, s.skip(2)))
    } else {
        None
    }
}

/// Concatenated inheritance-flag mnemonics, up to the `;` that ends the field.
pub open spec fn sp_flags(s: Seq<char>) -> Option<(u8, Seq<char>)>
    decreases s.len(),
{
    if s.len() == 0 {
        None
    } else if s[0] == ';' {
        Some((0u8, s))
    } else if s.len() >= 2 && flag_of(s[0], s[1]) is Some {
        match sp_flags(s.skip(2)) {
            Some((f, rest)) => Some(((flag_of(s[0], s[1]).unwrap() | f) as u8, rest)),
            None => None,
        }
    } else {
        None
    }
}

/// A run of hexadecimal digits, folded into `acc` base 16. Total: stops at
/// the first character that is no hexadecimal digit.
pub open spec fn sp_hexrun(s: Seq<char>, acc: nat) -> (nat, Seq<char>)
    decreases s.len(),
{
    if s.len() > 0 && is_hexd(s[0]) {
        sp_hexrun(s.skip(1), (acc * 16 + hexv(s[0])) as nat)
    } else {
        (acc, s)
    }
}

/// Concatenated rights mnemonics, up to the `;` that ends the field.
pub open spec fn sp_rights(s: Seq<char>) -> Option<(u32, Seq<char>)>
    decreases s.len(),
{
    if s.len() == 0 {
        None
    } else if s[0] == ';' {
        Some((0u32, s))
    } else if s.len() >= 2 && right_of(s[0], s[1]) is Some {
        match sp_rights(s.skip(2)) {
            Some((m, rest)) => Some(((right_of(s[0], s[1]).unwrap() | m) as u32, rest)),
            None => None,
        }
    } else {
        None
    }
}

/// The access-mask field: empty (zero), a `0x` hexadecimal value that must
/// fit in 32 bits, or concatenated rights mnemonics.
pub open spec fn sp_mask(s: Seq<char>) -> Option<(u32, Seq<char>)> {
    if s.len() == 0 {
        None
    } else if s[0] == ';' {
        Some((0u32, s))
    } else if s.len() >= 3 && s[0] == '0' && (s[1] == 'x' || s[1] == 'X') && is_hexd(s[2]) {
        let (v, rest) = sp_hexrun(s.skip(2), 0);
        if v <= u32::MAX {
            Some((v as u32, rest))
        } else {
            None
        }
    } else {
        sp_rights(s)
    }
}

/// A run of identifier characters (digits and dashes). Total.
pub open spec fn sp_run_sid(s: Seq<char>) -> (Seq<char>, Seq<char>)
    decreases s.len(),
{
    if s.len() > 0 && is_sid_char(s[0]) {
        let (run, rest) = sp_run_sid(s.skip(1));
        (seq![s[0]] + run, rest)
    } else {
        (Seq::empty(), s)
    }
}

/// Dash-separated digit groups: digits, each dash followed by digits again.
pub open spec fn vdd_tail(s: Seq<char>) -> bool
    decreases s.len(),
{
    if s.len() == 0 {
        true
    } else if is_digit(s[0]) {
        vdd_tail(s.skip(1))
    } else if s[0] == '-' {
        s.len() >= 2 && is_digit(s[1]) && vdd_tail(s.skip(1))
    } else {
        false
    }
}

pub open spec fn vdd(s: Seq<char>) -> bool {
    s.len() > 0 && is_digit(s[0]) && vdd_tail(s.skip(1))
}

/// A trustee token: a structured "S-..." identifier or a two-letter alias.
pub open spec fn sp_trustee(s: Seq<char>) -> Option<(Seq<char>, Seq<char>)> {
    if s.len() >= 2 && s[0] == 'S' && s[1] == '-' {
        let (run, rest) = sp_run_sid(s.skip(2));
        if vdd(run) {
            Some((seq!['S', '-'] + run, rest))
        } else {
            None
        }
    } else if s.len() >= 2 && is_upper(s[0]) && is_upper(s[1]) {
        Some((s.take(2), s.skip(2)))
    } else {
        None
    }
}

/// One parenthesized entry record:
/// `(type;flags;mask;object;inherited_object;trustee)`, where the two object
/// fields must be empty.
pub open spec fn sp_ace(s: Seq<char>) -> Option<(AceV, Seq<char>)> {
    if s.len() > 0 && s[0] == '(' {
        match sp_type(s.skip(1)) {
            Some((ty, r1)) => if r1.len() >= 1 && r1[0] == ';' {
                match sp_flags(r1.skip(1)) {
                    Some((fl, r2)) => if r2.len() >= 1 && r2[0] == ';' {
                        match sp_mask(r2.skip(1)) {
                            Some((m, r3)) => if r3.len() >= 3 && r3[0] == ';' && r3[1] == ';'
                                && r3[2] == ';' {
                                match sp_trustee(r3.skip(3)) {
                                    Some((t, r4)) => if r4.len() >= 1 && r4[0] == ')' {
                                        Some(
                                            (
                                                AceV {
                                                    ace_type: ty,
                                                    flags: fl,
                                                    mask: m,
                                                    trustee: t,
                                                },
                                                r4.skip(1),
                                            ),
                                        )
                                    } else {
                                        None
                                    },
                                    None => None,
                                }
                            } else {
                                None
                            },
                            None => None,
                        }
                    } else {
                        None
                    },
                    None => None,
                }
            } else {
                None
            },
            None => None,
        }
    } else {
        None
    }
}

/// Which entry kinds a section accepts: discretionary lists take allow and
/// deny entries, system lists take the audit-class entries.
pub open spec fn type_ok(ty: AceType, sacl: bool) -> bool {
    if sacl {
        ty == AceType::SystemAudit || ty == AceType::SystemAlarm
    } else {
        ty == AceType::AccessAllowed || ty == AceType::AccessDenied
    }
}

/// Outcome of parsing an entry list: the entries and the remaining suffix, a
/// syntactically valid entry of a kind the section refuses, or a syntax
/// error.
pub ghost enum AcesOut {
    Parsed(Seq<AceV>, Seq<char>),
    Wrong,
    Bad,
}

/// Zero or more records, immediately concatenated.
pub open spec fn sp_aces(s: Seq<char>, sacl: bool) -> AcesOut
    decreases s.len(),
        via sp_aces_decreases
{
    if s.len() > 0 && s[0] == '(' {
        match sp_ace(s) {
            Some((a, rest)) => if !type_ok(a.ace_type, sacl) {
                AcesOut::Wrong
            } else {
                match sp_aces(rest, sacl) {
                    AcesOut::Parsed(list, r2) => AcesOut::Parsed(seq![a] + list, r2),
                    AcesOut::Wrong => AcesOut::Wrong,
                    AcesOut::Bad => AcesOut::Bad,
                }
            },
            None => AcesOut::Bad,
        }
    } else {
        AcesOut::Parsed(Seq::empty(), s)
    }
}

#[via_fn]
proof fn sp_aces_decreases(s: Seq<char>, sacl: bool) {
    if s.len() > 0 && s[0] == '(' {
        lemma_sp_ace_len(s);
    }
}

/// Section-level control tokens (`P`, `AR`, `AI`) before the records. Total.
pub open spec fn sp_ctrl(s: Seq<char>, sacl: bool) -> (u16, Seq<char>)
    decreases s.len(),
{
    if s.len() >= 2 && s[0] == 'A' && s[1] == 'R' {
        let (c, rest) = sp_ctrl(s.skip(2), sacl);
        ((ar_bit(sacl) | c) as u16, rest)
    } else if s.len() >= 2 && s[0] == 'A' && s[1] == 'I' {
        let (c, rest) = sp_ctrl(s.skip(2), sacl);
        ((ai_bit(sacl) | c) as u16, rest)
    } else if s.len() >= 1 && s[0] == 'P' {
        let (c, rest) = sp_ctrl(s.skip(1), sacl);
        ((p_bit(sacl) | c) as u16, rest)
    } else {
        (0u16, s)
    }
}

/// Outcome of a whole parse.
pub ghost enum SpOutcome {
    Done(SdV),
    Unsupported,
    Bad,
}

/// The labeled sections, in any order, each at most once. `seen` counts the
/// sections still permitted; since duplicates are refused, four suffice.
pub open spec fn sp_sections(s: Seq<char>, sd: SdV, seen: nat) -> SpOutcome
    decreases seen,
{
    if s.len() == 0 {
        SpOutcome::Done(sd)
    } else if seen == 0 {
        SpOutcome::Bad
    } else if s.len() >= 2 && s[0] == 'O' && s[1] == ':' {
        if sd.owner is Some {
            SpOutcome::Bad
        } else {
            match sp_trustee(s.skip(2)) {
                Some((t, rest)) => sp_sections(
                    rest,
                    SdV { owner: Some(t), ..sd },
                    (seen - 1) as nat,
                ),
                None => SpOutcome::Bad,
            }
        }
    } else if s.len() >= 2 && s[0] == 'G' && s[1] == ':' {
        if sd.group is Some {
            SpOutcome::Bad
        } else {
            match sp_trustee(s.skip(2)) {
                Some((t, rest)) => sp_sections(
                    rest,
                    SdV { group: Some(t), ..sd },
                    (seen - 1) as nat,
                ),
                None => SpOutcome::Bad,
            }
        }
    } else if s.len() >= 2 && s[0] == 'D' && s[1] == ':' {
        if sd.dacl is Some {
            SpOutcome::Bad
        } else {
            let (cf, r1) = sp_ctrl(s.skip(2), false);
            match sp_aces(r1, false) {
                AcesOut::Parsed(list, r2) => if list.len() > u32::MAX {
                    SpOutcome::Bad
                } else {
                    sp_sections(
                        r2,
                        SdV {
                            dacl: Some(AclV { revision: ACL_REVISION, entries: list }),
                            control: (sd.control | cf) as u16,
                            ..sd
                        },
                        (seen - 1) as nat,
                    )
                },
                AcesOut::Wrong => SpOutcome::Unsupported,
                AcesOut::Bad => SpOutcome::Bad,
            }
        }
    } else if s.len() >= 2 && s[0] == 'S' && s[1] == ':' {
        if sd.sacl is Some {
            SpOutcome::Bad
        } else {
            let (cf, r1) = sp_ctrl(s.skip(2), true);
            match sp_aces(r1, true) {
                AcesOut::Parsed(list, r2) => if list.len() > u32::MAX {
                    SpOutcome::Bad
                } else {
                    sp_sections(
                        r2,
                        SdV {
                            sacl: Some(AclV { revision: ACL_REVISION, entries: list }),
                            control: (sd.control | cf) as u16,
                            ..sd
                        },
                        (seen - 1) as nat,
                    )
                },
                AcesOut::Wrong => SpOutcome::Unsupported,
                AcesOut::Bad => SpOutcome::Bad,
            }
        }
    } else {
        SpOutcome::Bad
    }
}

/// The empty descriptor the parse starts from.
pub open spec fn sd_empty() -> SdV {
    SdV { owner: None, group: None, dacl: None, sacl: None, control: 0 }
}

/// What a descriptor string means: the mathematical parse of the whole text.
pub open spec fn sp_sddl(s: Seq<char>) -> SpOutcome {
    sp_sections(s, sd_empty(), 4)
}

// ---------------------------------------------------------------------------
// Consumption bounds, used for termination and by the laws
// ---------------------------------------------------------------------------
pub proof fn lemma_sp_flags_len(s: Seq<char>)
    ensures
        sp_flags(s) matches Some((f, rest)) ==> rest.len() <= s.len(),
    decreases s.len(),
{
    if s.len() >= 2 && s[0] != ';' && flag_of(s[0], s[1]) is Some {
        lemma_sp_flags_len(s.skip(2));
    }
}

pub proof fn lemma_sp_hexrun_len(s: Seq<char>, acc: nat)
    ensures
        sp_hexrun(s, acc).1.len() <= s.len(),
    decreases s.len(),
{
    if s.len() > 0 && is_hexd(s[0]) {
        lemma_sp_hexrun_len(s.skip(1), (acc * 16 + hexv(s[0])) as nat);
    }
}

pub proof fn lemma_sp_rights_len(s: Seq<char>)
    ensures
        sp_rights(s) matches Some((m, rest)) ==> rest.len() <= s.len(),
    decreases s.len(),
{
    if s.len() >= 2 && s[0] != ';' && right_of(s[0], s[1]) is Some {
        lemma_sp_rights_len(s.skip(2));
    }
}

pub proof fn lemma_sp_mask_len(s: Seq<char>)
    ensures
        sp_mask(s) matches Some((m, rest)) ==> rest.len() <= s.len(),
{
    if s.len() >= 3 && s[0] == '0' && (s[1] == 'x' || s[1] == 'X') && is_hexd(s[2]) {
        lemma_sp_hexrun_len(s.skip(2), 0);
    } else {
        lemma_sp_rights_len(s);
    }
}

pub proof fn lemma_sp_run_sid_len(s: Seq<char>)
    ensures
        sp_run_sid(s).1.len() <= s.len(),
        sp_run_sid(s).0.len() + sp_run_sid(s).1.len() == s.len(),
    decreases s.len(),
{
    if s.len() > 0 && is_sid_char(s[0]) {
        lemma_sp_run_sid_len(s.skip(1));
    }
}

pub proof fn lemma_sp_trustee_len(s: Seq<char>)
    ensures
        sp_trustee(s) matches Some((t, rest)) ==> rest.len() + 2 <= s.len(),
{
    if s.len() >= 2 && s[0] == 'S' && s[1] == '-' {
        lemma_sp_run_sid_len(s.skip(2));
    }
}

pub proof fn lemma_sp_ace_len(s: Seq<char>)
    ensures
        sp_ace(s) matches Some((a, rest)) ==> rest.len() < s.len(),
{
    if s.len() > 0 && s[0] == '(' {
        if let Some((ty, r1)) = sp_type(s.skip(1)) {
            assert(r1.len() <= s.len() - 2);
            if r1.len() >= 1 && r1[0] == ';' {
                lemma_sp_flags_len(r1.skip(1));
                if let Some((fl, r2)) = sp_flags(r1.skip(1)) {
                    if r2.len() >= 1 && r2[0] == ';' {
                        lemma_sp_mask_len(r2.skip(1));
                        if let Some((m, r3)) = sp_mask(r2.skip(1)) {
                            if r3.len() >= 3 && r3[0] == ';' && r3[1] == ';' && r3[2] == ';' {
                                lemma_sp_trustee_len(r3.skip(3));
                            }
                        }
                    }
                }
            }
        }
    }
}


// ---------------------------------------------------------------------------
// Serialization model. Formatting choices are canonical: sections in the
// order owner, group, discretionary, system; masks always hexadecimal.
// ---------------------------------------------------------------------------
/// Hexadecimal digit character (lower case) of a value below 16.
pub open spec fn hexd(n: u32) -> char {
    if n == 0 {
        '0'
    } else if n == 1 {
        '1'
    } else if n == 2 {
        '2'
    } else if n == 3 {
        '3'
    } else if n == 4 {
        '4'
    } else if n == 5 {
        '5'
    } else if n == 6 {
        '6'
    } else if n == 7 {
        '7'
    } else if n == 8 {
        '8'
    } else if n == 9 {
        '9'
    } else if n == 10 {
        'a'
    } else if n == 11 {
        'b'
    } else if n == 12 {
        'c'
    } else if n == 13 {
        'd'
    } else if n == 14 {
        'e'
    } else {
        'f'
    }
}

/// Hexadecimal digits of a value, most significant first, no leading zeros.
pub open spec fn hex_of(m: u32) -> Seq<char>
    decreases m,
{
    if m < 16 {
        seq![hexd(m)]
    } else {
        hex_of((m / 16) as u32).push(hexd(m % 16))
    }
}

/// The textual tag of an entry kind. A reserved kind has no tag in the
/// grammar; its placeholder reparses as no record, which is sound because
/// the round-trip law covers parsed descriptors, whose kinds are all known.
pub open spec fn ser_type(ty: AceType) -> Seq<char> {
    match ty {
        AceType::AccessAllowed => seq!['A'],
        AceType::AccessDenied => seq!['D'],
        AceType::SystemAudit => seq!['A', 'U'],
        AceType::SystemAlarm => seq!['A', 'L'],
        AceType::Unknown(_) => seq!['?'],
    }
}

/// The flag tokens in the order they are written out.
pub open spec fn flag_tok(i: int) -> (Seq<char>, u8) {
    if i == 0 {
        (seq!['O', 'I'], crate::ace::ACE_FLAG_OBJECT_INHERIT)
    } else if i == 1 {
        (seq!['C', 'I'], crate::ace::ACE_FLAG_CONTAINER_INHERIT)
    } else if i == 2 {
        (seq!['N', 'P'], crate::ace::ACE_FLAG_NO_PROPAGATE)
    } else if i == 3 {
        (seq!['I', 'O'], crate::ace::ACE_FLAG_INHERIT_ONLY)
    } else if i == 4 {
        (seq!['I', 'D'], crate::ace::ACE_FLAG_INHERITED)
    } else if i == 5 {
        (seq!['S', 'A'], crate::ace::ACE_FLAG_AUDIT_SUCCESS)
    } else {
        (seq!['F', 'A'], crate::ace::ACE_FLAG_AUDIT_FAILURE)
    }
}

pub open spec fn ser_flags_from(f: u8, i: int) -> Seq<char>
    decreases 7 - i,
    when i <= 7
{
    if i >= 7 {
        Seq::empty()
    } else {
        (if f & flag_tok(i).1 != 0 {
            flag_tok(i).0
        } else {
            Seq::empty()
        }) + ser_flags_from(f, i + 1)
    }
}

pub open spec fn ser_flags(f: u8) -> Seq<char> {
    ser_flags_from(f, 0)
}

pub open spec fn ser_mask(m: u32) -> Seq<char> {
    seq!['0', 'x'] + hex_of(m)
}

pub open spec fn ser_ace(a: AceV) -> Seq<char> {
    seq!['('] + ser_type(a.ace_type) + seq![';'] + ser_flags(a.flags) + seq![';'] + ser_mask(
        a.mask,
    ) + seq![';', ';', ';'] + a.trustee + seq![')']
}

pub open spec fn ser_aces(list: Seq<AceV>) -> Seq<char>
    decreases list.len(),
{
    if list.len() == 0 {
        Seq::empty()
    } else {
        ser_ace(list[0]) + ser_aces(list.drop_first())
    }
}

pub open spec fn ser_ctrl(c: u16, sacl: bool) -> Seq<char> {
    (if c & p_bit(sacl) != 0 {
        seq!['P']
    } else {
        Seq::empty()
    }) + (if c & ar_bit(sacl) != 0 {
        seq!['A', 'R']
    } else {
        Seq::empty()
    }) + (if c & ai_bit(sacl) != 0 {
        seq!['A', 'I']
    } else {
        Seq::empty()
    })
}

pub open spec fn ser_owner_part(sd: SdV) -> Seq<char> {
    match sd.owner {
        Some(t) => seq!['O', ':'] + t,
        None => Seq::empty(),
    }
}

pub open spec fn ser_group_part(sd: SdV) -> Seq<char> {
    match sd.group {
        Some(t) => seq!['G', ':'] + t,
        None => Seq::empty(),
    }
}

pub open spec fn ser_dacl_part(sd: SdV) -> Seq<char> {
    match sd.dacl {
        Some(a) => seq!['D', ':'] + ser_ctrl(sd.control, false) + ser_aces(a.entries),
        None => Seq::empty(),
    }
}

pub open spec fn ser_sacl_part(sd: SdV) -> Seq<char> {
    match sd.sacl {
        Some(a) => seq!['S', ':'] + ser_ctrl(sd.control, true) + ser_aces(a.entries),
        None => Seq::empty(),
    }
}

/// The canonical text of a descriptor.
pub open spec fn ser_sd(sd: SdV) -> Seq<char> {
    ser_owner_part(sd) + ser_group_part(sd) + ser_dacl_part(sd) + ser_sacl_part(sd)
}

// ---------------------------------------------------------------------------
// What a parse produces: the domain over which serialization inverts it.
// ---------------------------------------------------------------------------
/// A trustee identifier as the grammar writes it: a two-letter alias or a
/// structured "S-..." identifier.
pub open spec fn wf_trustee(t: Seq<char>) -> bool {
    (t.len() == 2 && is_upper(t[0]) && is_upper(t[1])) || (t.len() >= 2 && t[0] == 'S' && t[1]
        == '-' && vdd(t.skip(2)))
}

pub open spec fn wf_ace(a: AceV, sacl: bool) -> bool {
    type_ok(a.ace_type, sacl) && a.flags & 0x80 == 0 && wf_trustee(a.trustee)
}

pub open spec fn wf_acl(a: AclV, sacl: bool) -> bool {
    a.revision == ACL_REVISION && a.entries.len() <= u32::MAX && forall|i: int|
        0 <= i < a.entries.len() ==> wf_ace(#[trigger] a.entries[i], sacl)
}

/// Every descriptor a successful parse can yield is of this shape.
pub open spec fn wf_sd(sd: SdV) -> bool {
    &&& match sd.owner {
        Some(t) => wf_trustee(t),
        None => true,
    }
    &&& match sd.group {
        Some(t) => wf_trustee(t),
        None => true,
    }
    &&& match sd.dacl {
        Some(a) => wf_acl(a, false),
        None => sd.control & dacl_ctrl_mask() == 0,
    }
    &&& match sd.sacl {
        Some(a) => wf_acl(a, true),
        None => sd.control & sacl_ctrl_mask() == 0,
    }
    &&& sd.control & !(dacl_ctrl_mask() | sacl_ctrl_mask()) == 0
}

} // verus!
