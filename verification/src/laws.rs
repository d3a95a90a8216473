use vstd::prelude::*;
use vstd::arithmetic::div_mod::lemma_fundamental_div_mod;
use crate::ace::{AceType, AceV};
use crate::acl::{AclV, ACL_REVISION};
use crate::descriptor::SdV;
use crate::sddl::{
    ai_bit, ar_bit, dacl_ctrl_mask, flag_of, flag_tok, hex_of, hexd, hexv, is_hexd, is_sid_char,
    is_upper, lemma_sp_ace_len, p_bit, sacl_ctrl_mask, sd_empty, ser_ace, ser_aces, ser_ctrl,
    ser_dacl_part, ser_flags, ser_flags_from, ser_group_part, ser_mask, ser_sacl_part, ser_sd,
    ser_type, sp_ace, sp_aces, sp_ctrl, sp_flags, sp_hexrun, sp_mask,
    sp_rights, sp_run_sid, sp_sddl, sp_sections, sp_trustee, sp_type, type_ok, vdd, vdd_tail,
    wf_ace, wf_sd, wf_trustee, AcesOut, SpOutcome,
};

verus! {

// ---------------------------------------------------------------------------
// Small bit-level facts
// ---------------------------------------------------------------------------
proof fn lemma_u8_single_bits(f: u8)
    ensures
        f & 0x01 == 0 || f & 0x01 == 0x01,
        f & 0x02 == 0 || f & 0x02 == 0x02,
        f & 0x04 == 0 || f & 0x04 == 0x04,
        f & 0x08 == 0 || f & 0x08 == 0x08,
        f & 0x10 == 0 || f & 0x10 == 0x10,
        f & 0x20 == 0 || f & 0x20 == 0x20,
        f & 0x40 == 0 || f & 0x40 == 0x40,
{
    assert((f & 0x01 == 0 || f & 0x01 == 0x01) && (f & 0x02 == 0 || f & 0x02 == 0x02) && (f & 0x04
        == 0 || f & 0x04 == 0x04) && (f & 0x08 == 0 || f & 0x08 == 0x08) && (f & 0x10 == 0 || f
        & 0x10 == 0x10) && (f & 0x20 == 0 || f & 0x20 == 0x20) && (f & 0x40 == 0 || f & 0x40
        == 0x40)) by (bit_vector);
}

proof fn lemma_u8_step_set(f: u8, b: u8, r: u8)
    requires
        f & b == b,
    ensures
        b | (f & r) == f & (b | r),
{
    assert(f & b == b ==> (b | (f & r)) == f & (b | r)) by (bit_vector);
}

proof fn lemma_u8_step_clear(f: u8, b: u8, r: u8)
    requires
        f & b == 0,
    ensures
        f & (b | r) == f & r,
{
    assert(f & b == 0 ==> f & (b | r) == f & r) by (bit_vector);
}

proof fn lemma_u8_and_zero(f: u8)
    ensures
        f & 0 == 0,
{
    assert(f & 0 == 0) by (bit_vector);
}

proof fn lemma_u16_single_bits(c: u16)
    ensures
        c & 0x0100 == 0 || c & 0x0100 == 0x0100,
        c & 0x0200 == 0 || c & 0x0200 == 0x0200,
        c & 0x0400 == 0 || c & 0x0400 == 0x0400,
        c & 0x0800 == 0 || c & 0x0800 == 0x0800,
        c & 0x1000 == 0 || c & 0x1000 == 0x1000,
        c & 0x2000 == 0 || c & 0x2000 == 0x2000,
{
    assert((c & 0x0100 == 0 || c & 0x0100 == 0x0100) && (c & 0x0200 == 0 || c & 0x0200 == 0x0200)
        && (c & 0x0400 == 0 || c & 0x0400 == 0x0400) && (c & 0x0800 == 0 || c & 0x0800 == 0x0800)
        && (c & 0x1000 == 0 || c & 0x1000 == 0x1000) && (c & 0x2000 == 0 || c & 0x2000
        == 0x2000)) by (bit_vector);
}

proof fn lemma_u16_or_zero(x: u16)
    ensures
        x | 0 == x,
        0 | x == x,
        x & 0 == 0,
{
    assert((x | 0 == x) && (0 | x == x) && (x & 0 == 0)) by (bit_vector);
}

// ---------------------------------------------------------------------------
// Flags field: writing the set bits back and reparsing yields the same bits
// ---------------------------------------------------------------------------
/// The flag bits written at or after token index `i`.
spec fn bits_from(i: int) -> u8
    decreases 7 - i,
    when i <= 7
{
    if i >= 7 {
        0
    } else {
        flag_tok(i).1 | bits_from(i + 1)
    }
}

proof fn lemma_flags_rt_from(f: u8, i: int, rest: Seq<char>)
    requires
        0 <= i <= 7,
        rest.len() > 0,
        rest[0] == ';',
    ensures
        sp_flags(ser_flags_from(f, i) + rest) == Some(((f & bits_from(i)) as u8, rest)),
    decreases 7 - i,
{
    if i >= 7 {
        assert(ser_flags_from(f, i) + rest =~= rest);
        lemma_u8_and_zero(f);
    } else {
        let b = flag_tok(i).1;
        let tok = flag_tok(i).0;
        lemma_flags_rt_from(f, i + 1, rest);
        let tail = ser_flags_from(f, i + 1) + rest;
        lemma_u8_single_bits(f);
        if f & b != 0 {
            let s = tok + tail;
            assert(ser_flags_from(f, i) + rest =~= s);
            assert(s[0] == tok[0] && s[1] == tok[1]);
            assert(flag_of(tok[0], tok[1]) == Some(b));
            assert(s.skip(2) =~= tail);
            assert(sp_flags(s) == Some(((b | (f & bits_from(i + 1))) as u8, rest)));
            lemma_u8_step_set(f, b, bits_from(i + 1));
        } else {
            assert(ser_flags_from(f, i) + rest =~= tail);
            lemma_u8_step_clear(f, b, bits_from(i + 1));
        }
    }
}

proof fn lemma_bits_from_all()
    ensures
        bits_from(0) == 0x7fu8,
{
    assert((0x40u8 | 0u8) == 0x40u8 && (0x20u8 | 0x40u8) == 0x60u8 && (0x10u8 | 0x60u8) == 0x70u8
        && (0x08u8 | 0x70u8) == 0x78u8 && (0x04u8 | 0x78u8) == 0x7cu8 && (0x02u8 | 0x7cu8)
        == 0x7eu8 && (0x01u8 | 0x7eu8) == 0x7fu8) by (bit_vector);
    assert(bits_from(7) == 0);
    assert(bits_from(6) == 0x40);
    assert(bits_from(5) == 0x60);
    assert(bits_from(4) == 0x70);
    assert(bits_from(3) == 0x78);
    assert(bits_from(2) == 0x7c);
    assert(bits_from(1) == 0x7e);
    assert(bits_from(0) == 0x7f);
}

proof fn lemma_flags_rt(f: u8, rest: Seq<char>)
    requires
        f & 0x80 == 0,
        rest.len() > 0,
        rest[0] == ';',
    ensures
        sp_flags(ser_flags(f) + rest) == Some((f, rest)),
{
    lemma_flags_rt_from(f, 0, rest);
    lemma_bits_from_all();
    assert(f & 0x80 == 0 ==> f & 0x7f == f) by (bit_vector);
}

// ---------------------------------------------------------------------------
// Mask field: the hexadecimal text of a mask reparses to the same value
// ---------------------------------------------------------------------------
spec fn all_hexd(s: Seq<char>) -> bool {
    forall|k: int| 0 <= k < s.len() ==> is_hexd(#[trigger] s[k])
}

proof fn lemma_hexd_is_hex(n: u32)
    requires
        n < 16,
    ensures
        is_hexd(hexd(n)),
        hexv(hexd(n)) == n,
{
}

proof fn lemma_hex_of_digits(m: u32)
    ensures
        hex_of(m).len() >= 1,
        all_hexd(hex_of(m)),
    decreases m,
{
    if m < 16 {
        lemma_hexd_is_hex(m);
    } else {
        lemma_hex_of_digits(m / 16);
        lemma_hexd_is_hex(m % 16);
        assert forall|k: int| 0 <= k < hex_of(m).len() implies is_hexd(#[trigger] hex_of(m)[k]) by {
            if k < hex_of(m / 16).len() {
                assert(hex_of(m)[k] == hex_of((m / 16) as u32)[k]);
            } else {
                assert(hex_of(m)[k] == hexd(m % 16));
            }
        }
    }
}

/// Base-16 left fold of a digit run.
spec fn hv(ds: Seq<char>, acc: nat) -> nat
    decreases ds.len(),
{
    if ds.len() == 0 {
        acc
    } else {
        hv(ds.skip(1), (acc * 16 + hexv(ds[0])) as nat)
    }
}

proof fn lemma_hexrun_is_hv(ds: Seq<char>, rest: Seq<char>, acc: nat)
    requires
        all_hexd(ds),
        rest.len() == 0 || !is_hexd(rest[0]),
    ensures
        sp_hexrun(ds + rest, acc) == (hv(ds, acc), rest),
    decreases ds.len(),
{
    if ds.len() == 0 {
        assert(ds + rest =~= rest);
    } else {
        assert((ds + rest)[0] == ds[0]);
        assert((ds + rest).skip(1) =~= ds.skip(1) + rest);
        lemma_hexrun_is_hv(ds.skip(1), rest, (acc * 16 + hexv(ds[0])) as nat);
    }
}

proof fn lemma_hv_push(ds: Seq<char>, d: char, acc: nat)
    ensures
        hv(ds.push(d), acc) == hv(ds, acc) * 16 + hexv(d),
    decreases ds.len(),
{
    if ds.len() == 0 {
        assert(ds.push(d)[0] == d);
        assert(ds.push(d).skip(1) =~= Seq::<char>::empty());
        assert(hv(Seq::<char>::empty(), (acc * 16 + hexv(d)) as nat) == (acc * 16 + hexv(d)) as nat);
        assert(hv(ds.push(d), acc) == (acc * 16 + hexv(d)) as nat);
        assert(hv(ds, acc) == acc);
    } else {
        assert(ds.push(d)[0] == ds[0]);
        assert(ds.push(d).skip(1) =~= ds.skip(1).push(d));
        lemma_hv_push(ds.skip(1), d, (acc * 16 + hexv(ds[0])) as nat);
        assert(hv(ds.push(d), acc) == hv(ds.skip(1).push(d), (acc * 16 + hexv(ds[0])) as nat));
        assert(hv(ds, acc) == hv(ds.skip(1), (acc * 16 + hexv(ds[0])) as nat));
    }
}

proof fn lemma_hv_hex_of(m: u32)
    ensures
        hv(hex_of(m), 0) == m,
    decreases m,
{
    if m < 16 {
        lemma_hexd_is_hex(m);
        assert(hex_of(m)[0] == hexd(m));
        assert(hex_of(m).skip(1) =~= Seq::<char>::empty());
        assert(hv(Seq::<char>::empty(), (0 * 16 + hexv(hexd(m))) as nat) == m as nat);
        assert(hv(hex_of(m), 0) == m);
    } else {
        lemma_hv_hex_of(m / 16);
        lemma_hv_push(hex_of((m / 16) as u32), hexd(m % 16), 0);
        lemma_hexd_is_hex(m % 16);
        lemma_fundamental_div_mod(m as int, 16);
    }
}

proof fn lemma_mask_rt(m: u32, rest: Seq<char>)
    requires
        rest.len() > 0,
        rest[0] == ';',
    ensures
        sp_mask(ser_mask(m) + rest) == Some((m, rest)),
{
    let ds = hex_of(m);
    lemma_hex_of_digits(m);
    let s = ser_mask(m) + rest;
    assert(s[0] == '0' && s[1] == 'x');
    assert(s[2] == ds[0]);
    assert(s.skip(2) =~= ds + rest);
    lemma_hexrun_is_hv(ds, rest, 0);
    lemma_hv_hex_of(m);
}

// ---------------------------------------------------------------------------
// Trustee token
// ---------------------------------------------------------------------------
proof fn lemma_run_sid_exact(x: Seq<char>, rest: Seq<char>)
    requires
        forall|k: int| 0 <= k < x.len() ==> is_sid_char(#[trigger] x[k]),
        rest.len() == 0 || !is_sid_char(rest[0]),
    ensures
        sp_run_sid(x + rest) == (x, rest),
    decreases x.len(),
{
    if x.len() == 0 {
        assert(x + rest =~= rest);
        assert(sp_run_sid(rest) == (Seq::<char>::empty(), rest));
        assert(x =~= Seq::<char>::empty());
    } else {
        assert((x + rest)[0] == x[0]);
        assert((x + rest).skip(1) =~= x.skip(1) + rest);
        lemma_run_sid_exact(x.skip(1), rest);
        assert(seq![x[0]] + x.skip(1) =~= x);
    }
}

proof fn lemma_vdd_tail_chars(s: Seq<char>)
    requires
        vdd_tail(s),
    ensures
        forall|k: int| 0 <= k < s.len() ==> is_sid_char(#[trigger] s[k]),
    decreases s.len(),
{
    if s.len() > 0 {
        lemma_vdd_tail_chars(s.skip(1));
        assert forall|k: int| 0 <= k < s.len() implies is_sid_char(#[trigger] s[k]) by {
            if k > 0 {
                assert(s[k] == s.skip(1)[k - 1]);
            }
        }
    }
}

proof fn lemma_trustee_rt(t: Seq<char>, rest: Seq<char>)
    requires
        wf_trustee(t),
        rest.len() == 0 || !is_sid_char(rest[0]),
    ensures
        sp_trustee(t + rest) == Some((t, rest)),
{
    let s = t + rest;
    assert(s[0] == t[0] && s[1] == t[1]);
    if t[0] == 'S' && t[1] == '-' {
        assert(t.len() >= 2 && vdd(t.skip(2)));
        assert(s.skip(2) =~= t.skip(2) + rest);
        lemma_vdd_tail_chars(t.skip(2).skip(1));
        assert forall|k: int| 0 <= k < t.skip(2).len() implies is_sid_char(
            #[trigger] t.skip(2)[k],
        ) by {
            if k > 0 {
                assert(t.skip(2)[k] == t.skip(2).skip(1)[k - 1]);
            }
        }
        lemma_run_sid_exact(t.skip(2), rest);
        assert(seq!['S', '-'] + t.skip(2) =~= t);
    } else {
        assert(t.len() == 2 && is_upper(t[0]) && is_upper(t[1]));
        assert(s.take(2) =~= t);
        assert(s.skip(2) =~= rest);
    }
}

// ---------------------------------------------------------------------------
// Entry-type tag
// ---------------------------------------------------------------------------
proof fn lemma_type_rt(ty: AceType, rest: Seq<char>)
    requires
        !(ty is Unknown),
        rest.len() > 0,
        rest[0] == ';',
    ensures
        sp_type(ser_type(ty) + rest) == Some((ty, rest)),
{
    let s = ser_type(ty) + rest;
    match ty {
        AceType::AccessAllowed => {
            assert(s[0] == 'A' && s[1] == ';');
            assert(s.skip(1) =~= rest);
        },
        AceType::AccessDenied => {
            assert(s[0] == 'D' && s[1] == ';');
            assert(s.skip(1) =~= rest);
        },
        AceType::SystemAudit => {
            assert(s[0] == 'A' && s[1] == 'U' && s[2] == ';');
            assert(s.skip(2) =~= rest);
        },
        AceType::SystemAlarm => {
            assert(s[0] == 'A' && s[1] == 'L' && s[2] == ';');
            assert(s.skip(2) =~= rest);
        },
        AceType::Unknown(_) => {
            assert(false);
        },
    }
}


// ---------------------------------------------------------------------------
// Control tokens of a section
// ---------------------------------------------------------------------------
/// The control bits a section of the given kind may carry.
pub open spec fn sect_mask(sacl: bool) -> u16 {
    if sacl {
        sacl_ctrl_mask()
    } else {
        dacl_ctrl_mask()
    }
}

proof fn lemma_ctrl_ai(c: u16, sacl: bool, rest: Seq<char>)
    requires
        rest.len() == 0 || (rest[0] != 'P' && rest[0] != 'A'),
    ensures
        sp_ctrl(
            (if c & ai_bit(sacl) != 0 {
                seq!['A', 'I']
            } else {
                Seq::<char>::empty()
            }) + rest,
            sacl,
        ) == (((c & ai_bit(sacl))) as u16, rest),
{
    lemma_u16_single_bits(c);
    lemma_u16_or_zero(c & ai_bit(sacl));
    assert(sp_ctrl(rest, sacl) == (0u16, rest));
    if c & ai_bit(sacl) != 0 {
        let s = seq!['A', 'I'] + rest;
        assert(s[0] == 'A' && s[1] == 'I');
        assert(s.skip(2) =~= rest);
        assert((if c & ai_bit(sacl) != 0 {
            seq!['A', 'I']
        } else {
            Seq::<char>::empty()
        }) + rest =~= s);
    } else {
        assert((if c & ai_bit(sacl) != 0 {
            seq!['A', 'I']
        } else {
            Seq::<char>::empty()
        }) + rest =~= rest);
    }
}

proof fn lemma_ctrl_ar(c: u16, sacl: bool, rest: Seq<char>)
    requires
        rest.len() == 0 || (rest[0] != 'P' && rest[0] != 'A'),
    ensures
        sp_ctrl(
            (if c & ar_bit(sacl) != 0 {
                seq!['A', 'R']
            } else {
                Seq::<char>::empty()
            }) + ((if c & ai_bit(sacl) != 0 {
                seq!['A', 'I']
            } else {
                Seq::<char>::empty()
            }) + rest),
            sacl,
        ) == (((c & ar_bit(sacl)) | (c & ai_bit(sacl))) as u16, rest),
{
    lemma_ctrl_ai(c, sacl, rest);
    lemma_u16_single_bits(c);
    let tail = (if c & ai_bit(sacl) != 0 {
        seq!['A', 'I']
    } else {
        Seq::<char>::empty()
    }) + rest;
    if c & ar_bit(sacl) != 0 {
        let s = seq!['A', 'R'] + tail;
        assert(s[0] == 'A' && s[1] == 'R');
        assert(s.skip(2) =~= tail);
        assert((if c & ar_bit(sacl) != 0 {
            seq!['A', 'R']
        } else {
            Seq::<char>::empty()
        }) + tail =~= s);
    } else {
        assert((if c & ar_bit(sacl) != 0 {
            seq!['A', 'R']
        } else {
            Seq::<char>::empty()
        }) + tail =~= tail);
        lemma_u16_or_zero(c & ai_bit(sacl));
    }
}

proof fn lemma_ctrl_rt(c: u16, sacl: bool, rest: Seq<char>)
    requires
        rest.len() == 0 || (rest[0] != 'P' && rest[0] != 'A'),
    ensures
        sp_ctrl(ser_ctrl(c, sacl) + rest, sacl) == ((c & sect_mask(sacl)) as u16, rest),
{
    lemma_ctrl_ar(c, sacl, rest);
    lemma_u16_single_bits(c);
    let tail_ar = (if c & ar_bit(sacl) != 0 {
        seq!['A', 'R']
    } else {
        Seq::<char>::empty()
    }) + ((if c & ai_bit(sacl) != 0 {
        seq!['A', 'I']
    } else {
        Seq::<char>::empty()
    }) + rest);
    if c & p_bit(sacl) != 0 {
        let s = seq!['P'] + tail_ar;
        assert(s[0] == 'P');
        assert(s.skip(1) =~= tail_ar);
        assert(ser_ctrl(c, sacl) + rest =~= s);
    } else {
        assert(ser_ctrl(c, sacl) + rest =~= tail_ar);
        lemma_u16_or_zero((c & ar_bit(sacl)) | (c & ai_bit(sacl)));
    }
    assert((c & 0x1000u16) | ((c & 0x0100u16) | (c & 0x0400u16)) == c & ((0x1000u16 | 0x0100u16)
        | 0x0400u16)) by (bit_vector);
    assert((c & 0x2000u16) | ((c & 0x0200u16) | (c & 0x0800u16)) == c & ((0x2000u16 | 0x0200u16)
        | 0x0800u16)) by (bit_vector);
}

// ---------------------------------------------------------------------------
// One record, then a record list
// ---------------------------------------------------------------------------
proof fn lemma_ser_ace_first(a: AceV)
    ensures
        ser_ace(a).len() > 0,
        ser_ace(a)[0] == '(',
{
    assert(ser_ace(a)[0] == '(');
}

#[verifier::rlimit(60)]
proof fn lemma_ace_rt(a: AceV, sacl: bool, rest: Seq<char>)
    requires
        wf_ace(a, sacl),
    ensures
        sp_ace(ser_ace(a) + rest) == Some((a, rest)),
{
    let t1 = ser_type(a.ace_type);
    let fl = ser_flags(a.flags);
    let mk = ser_mask(a.mask);
    let r5 = seq![')'] + rest;
    let r4 = a.trustee + r5;
    let r3 = seq![';', ';', ';'] + r4;
    let r2a = mk + r3;
    let r2 = seq![';'] + r2a;
    let r1a = fl + r2;
    let r1 = seq![';'] + r1a;
    let r0 = t1 + r1;
    let s = ser_ace(a) + rest;
    assert(s =~= seq!['('] + r0);
    assert(s[0] == '(');
    assert(s.skip(1) =~= r0);
    lemma_type_rt(a.ace_type, r1);
    assert(r1[0] == ';');
    assert(r1.skip(1) =~= r1a);
    lemma_flags_rt(a.flags, r2);
    assert(r2[0] == ';');
    assert(r2.skip(1) =~= r2a);
    lemma_mask_rt(a.mask, r3);
    assert(r3.len() >= 3 && r3[0] == ';' && r3[1] == ';' && r3[2] == ';');
    assert(r3.skip(3) =~= r4);
    assert(r5[0] == ')');
    assert(!is_sid_char(')'));
    lemma_trustee_rt(a.trustee, r5);
    assert(r5.skip(1) =~= rest);
    assert(sp_ace(s) matches Some((av, r)) && r == rest && av =~= a);
}

proof fn lemma_aces_rt(list: Seq<AceV>, sacl: bool, rest: Seq<char>)
    requires
        forall|k: int| 0 <= k < list.len() ==> wf_ace(#[trigger] list[k], sacl),
        rest.len() == 0 || rest[0] != '(',
    ensures
        sp_aces(ser_aces(list) + rest, sacl) == AcesOut::Parsed(list, rest),
    decreases list.len(),
{
    if list.len() == 0 {
        assert(ser_aces(list) + rest =~= rest);
        assert(sp_aces(rest, sacl) == AcesOut::Parsed(Seq::<AceV>::empty(), rest));
        assert(list =~= Seq::<AceV>::empty());
    } else {
        let tail = ser_aces(list.drop_first()) + rest;
        lemma_ace_rt(list[0], sacl, tail);
        let s = ser_ace(list[0]) + tail;
        assert(ser_aces(list) + rest =~= s);
        lemma_ser_ace_first(list[0]);
        assert(s[0] == '(');
        assert(forall|k: int|
            0 <= k < list.drop_first().len() ==> #[trigger] list.drop_first()[k] == list[k + 1]);
        lemma_aces_rt(list.drop_first(), sacl, rest);
        assert(type_ok(list[0].ace_type, sacl));
        assert(sp_aces(s, sacl) == AcesOut::Parsed(seq![list[0]] + list.drop_first(), rest));
        assert(seq![list[0]] + list.drop_first() =~= list);
    }
}

// ---------------------------------------------------------------------------
// Section composition
// ---------------------------------------------------------------------------
spec fn fill_owner(sd: SdV, acc: SdV) -> SdV {
    match sd.owner {
        Some(t) => SdV { owner: Some(t), ..acc },
        None => acc,
    }
}

spec fn fill_group(sd: SdV, acc: SdV) -> SdV {
    match sd.group {
        Some(t) => SdV { group: Some(t), ..acc },
        None => acc,
    }
}

spec fn fill_dacl(sd: SdV, acc: SdV) -> SdV {
    match sd.dacl {
        Some(a) => SdV {
            dacl: Some(a),
            control: (acc.control | (sd.control & dacl_ctrl_mask())) as u16,
            ..acc
        },
        None => acc,
    }
}

spec fn fill_sacl(sd: SdV, acc: SdV) -> SdV {
    match sd.sacl {
        Some(a) => SdV {
            sacl: Some(a),
            control: (acc.control | (sd.control & sacl_ctrl_mask())) as u16,
            ..acc
        },
        None => acc,
    }
}

proof fn lemma_ser_aces_first(list: Seq<AceV>, rest: Seq<char>)
    requires
        rest.len() == 0 || (rest[0] != 'P' && rest[0] != 'A' && rest[0] != '('),
    ensures
        (ser_aces(list) + rest).len() == 0 || ((ser_aces(list) + rest)[0] != 'P' && (ser_aces(list)
            + rest)[0] != 'A'),
{
    if list.len() == 0 {
        assert(ser_aces(list) + rest =~= rest);
    } else {
        lemma_ser_ace_first(list[0]);
        assert((ser_aces(list) + rest)[0] == ser_ace(list[0])[0]);
    }
}

proof fn lemma_tail_sacl(sd: SdV, acc: SdV, k: nat)
    requires
        k >= 1,
        acc.sacl is None,
        wf_sd(sd),
    ensures
        sp_sections(ser_sacl_part(sd), acc, k) == SpOutcome::Done(fill_sacl(sd, acc)),
{
    match sd.sacl {
        None => {
            assert(ser_sacl_part(sd).len() == 0);
        },
        Some(a) => {
            let s = ser_sacl_part(sd);
            let aces_text = ser_aces(a.entries);
            assert(s =~= seq!['S', ':'] + (ser_ctrl(sd.control, true) + aces_text));
            assert(s[0] == 'S' && s[1] == ':');
            assert(s.skip(2) =~= ser_ctrl(sd.control, true) + aces_text);
            assert(aces_text =~= aces_text + Seq::<char>::empty());
            lemma_ser_aces_first(a.entries, Seq::<char>::empty());
            lemma_ctrl_rt(sd.control, true, aces_text);
            lemma_aces_rt(a.entries, true, Seq::<char>::empty());
            assert(a.entries.len() <= u32::MAX);
            let acc2 = SdV {
                sacl: Some(AclV { revision: ACL_REVISION, entries: a.entries }),
                control: (acc.control | (sd.control & sacl_ctrl_mask())) as u16,
                ..acc
            };
            assert(sp_sections(s, acc, k) == sp_sections(
                Seq::<char>::empty(),
                acc2,
                (k - 1) as nat,
            ));
            assert(AclV { revision: ACL_REVISION, entries: a.entries } =~= a);
            assert(acc2 =~= fill_sacl(sd, acc));
        },
    }
}

proof fn lemma_tail_dacl(sd: SdV, acc: SdV, k: nat)
    requires
        k >= 2,
        acc.dacl is None,
        acc.sacl is None,
        wf_sd(sd),
    ensures
        sp_sections(ser_dacl_part(sd) + ser_sacl_part(sd), acc, k) == SpOutcome::Done(
            fill_sacl(sd, fill_dacl(sd, acc)),
        ),
{
    match sd.dacl {
        None => {
            assert(ser_dacl_part(sd) + ser_sacl_part(sd) =~= ser_sacl_part(sd));
            lemma_tail_sacl(sd, acc, k);
        },
        Some(a) => {
            let s = ser_dacl_part(sd) + ser_sacl_part(sd);
            let aces_text = ser_aces(a.entries);
            let after = ser_sacl_part(sd);
            assert(after.len() == 0 || after[0] == 'S');
            assert(s =~= seq!['D', ':'] + (ser_ctrl(sd.control, false) + (aces_text + after)));
            assert(s[0] == 'D' && s[1] == ':');
            assert(s.skip(2) =~= ser_ctrl(sd.control, false) + (aces_text + after));
            lemma_ser_aces_first(a.entries, after);
            lemma_ctrl_rt(sd.control, false, aces_text + after);
            lemma_aces_rt(a.entries, false, after);
            assert(a.entries.len() <= u32::MAX);
            let acc2 = SdV {
                dacl: Some(AclV { revision: ACL_REVISION, entries: a.entries }),
                control: (acc.control | (sd.control & dacl_ctrl_mask())) as u16,
                ..acc
            };
            assert(sp_sections(s, acc, k) == sp_sections(after, acc2, (k - 1) as nat));
            lemma_tail_sacl(sd, acc2, (k - 1) as nat);
            assert(AclV { revision: ACL_REVISION, entries: a.entries } =~= a);
            assert(acc2 =~= fill_dacl(sd, acc));
            assert(fill_sacl(sd, acc2) =~= fill_sacl(sd, fill_dacl(sd, acc)));
        },
    }
}

proof fn lemma_first_of_lists(sd: SdV)
    ensures
        (ser_dacl_part(sd) + ser_sacl_part(sd)).len() == 0 || !is_sid_char(
            (ser_dacl_part(sd) + ser_sacl_part(sd))[0],
        ),
        (ser_dacl_part(sd) + ser_sacl_part(sd)).len() == 0 || (ser_dacl_part(sd)
            + ser_sacl_part(sd))[0] != '(',
{
    let s = ser_dacl_part(sd) + ser_sacl_part(sd);
    if ser_dacl_part(sd).len() > 0 {
        assert(s[0] == 'D');
    } else if ser_sacl_part(sd).len() > 0 {
        assert(s =~= ser_sacl_part(sd));
        assert(s[0] == 'S');
    }
}

proof fn lemma_tail_group(sd: SdV, acc: SdV, k: nat)
    requires
        k >= 3,
        acc.group is None,
        acc.dacl is None,
        acc.sacl is None,
        wf_sd(sd),
    ensures
        sp_sections(ser_group_part(sd) + (ser_dacl_part(sd) + ser_sacl_part(sd)), acc, k)
            == SpOutcome::Done(fill_sacl(sd, fill_dacl(sd, fill_group(sd, acc)))),
{
    let lists = ser_dacl_part(sd) + ser_sacl_part(sd);
    match sd.group {
        None => {
            assert(ser_group_part(sd) + lists =~= lists);
            lemma_tail_dacl(sd, acc, k);
        },
        Some(t) => {
            let s = ser_group_part(sd) + lists;
            assert(s =~= seq!['G', ':'] + (t + lists));
            assert(s[0] == 'G' && s[1] == ':');
            assert(s.skip(2) =~= t + lists);
            lemma_first_of_lists(sd);
            lemma_trustee_rt(t, lists);
            let acc2 = SdV { group: Some(t), ..acc };
            assert(sp_sections(s, acc, k) == sp_sections(lists, acc2, (k - 1) as nat));
            lemma_tail_dacl(sd, acc2, (k - 1) as nat);
            assert(fill_sacl(sd, fill_dacl(sd, acc2)) =~= fill_sacl(
                sd,
                fill_dacl(sd, fill_group(sd, acc)),
            ));
        },
    }
}

/// Law (round trip, model side): serializing a well-formed descriptor and
/// parsing the text back yields exactly that descriptor.
pub proof fn lemma_serialize_then_parse(sd: SdV)
    requires
        wf_sd(sd),
    ensures
        sp_sddl(ser_sd(sd)) == SpOutcome::Done(sd),
{
    let lists = ser_dacl_part(sd) + ser_sacl_part(sd);
    let gl = ser_group_part(sd) + lists;
    let s = ser_sd(sd);
    let acc0 = sd_empty();
    match sd.owner {
        None => {
            assert(s =~= gl);
            lemma_tail_group(sd, acc0, 4);
        },
        Some(t) => {
            assert(s =~= seq!['O', ':'] + (t + gl));
            assert(s[0] == 'O' && s[1] == ':');
            assert(s.skip(2) =~= t + gl);
            if gl.len() > 0 {
                if ser_group_part(sd).len() > 0 {
                    assert(gl[0] == 'G');
                } else {
                    assert(gl =~= lists);
                    lemma_first_of_lists(sd);
                }
            }
            lemma_trustee_rt(t, gl);
            let acc1 = SdV { owner: Some(t), ..acc0 };
            assert(sp_sections(s, acc0, 4) == sp_sections(gl, acc1, 3));
            lemma_tail_group(sd, acc1, 3);
        },
    }
    let filled = fill_sacl(sd, fill_dacl(sd, fill_group(sd, fill_owner(sd, acc0))));
    assert(sp_sddl(s) == SpOutcome::Done(filled));
    lemma_fill_is_sd(sd);
}

proof fn lemma_fill_is_sd(sd: SdV)
    requires
        wf_sd(sd),
    ensures
        fill_sacl(sd, fill_dacl(sd, fill_group(sd, fill_owner(sd, sd_empty())))) == sd,
{
    let c = sd.control;
    assert((0x1000u16 | 0x0100u16 | 0x0400u16) == 0x1500u16) by (bit_vector);
    assert((0x2000u16 | 0x0200u16 | 0x0800u16) == 0x2A00u16) by (bit_vector);
    assert((0x1500u16 | 0x2A00u16) == 0x3F00u16 && !0x3F00u16 == 0xC0FFu16) by (bit_vector);
    assert(c & !(dacl_ctrl_mask() | sacl_ctrl_mask()) == 0);
    assert(c & 0xC0FFu16 == 0);
    assert(c & 0xC0FFu16 == 0 ==> ((0u16 | (c & 0x1500u16)) | (c & 0x2A00u16)) == c) by (bit_vector);
    assert(c & 0xC0FFu16 == 0 && c & 0x2A00u16 == 0 ==> (0u16 | (c & 0x1500u16)) == c) by (bit_vector);
    assert(c & 0xC0FFu16 == 0 && c & 0x1500u16 == 0 ==> (0u16 | (c & 0x2A00u16)) == c) by (bit_vector);
    assert(c & 0xC0FFu16 == 0 && c & 0x1500u16 == 0 && c & 0x2A00u16 == 0 ==> c == 0) by (bit_vector);
    let filled = fill_sacl(sd, fill_dacl(sd, fill_group(sd, fill_owner(sd, sd_empty()))));
    assert(filled =~= sd);
}


// ---------------------------------------------------------------------------
// Everything a parse yields is well-formed
// ---------------------------------------------------------------------------
proof fn lemma_mask_consts()
    ensures
        dacl_ctrl_mask() == 0x1500u16,
        sacl_ctrl_mask() == 0x2A00u16,
{
    assert((0x1000u16 | 0x0100u16 | 0x0400u16) == 0x1500u16 && (0x2000u16 | 0x0200u16 | 0x0800u16)
        == 0x2A00u16) by (bit_vector);
}

proof fn lemma_sp_trustee_wf(x: Seq<char>)
    ensures
        sp_trustee(x) matches Some((t, r)) ==> wf_trustee(t),
{
    if x.len() >= 2 && x[0] == 'S' && x[1] == '-' {
        let (run, rest) = sp_run_sid(x.skip(2));
        if vdd(run) {
            let t = seq!['S', '-'] + run;
            assert(t[0] == 'S' && t[1] == '-');
            assert(t.skip(2) =~= run);
        }
    } else if x.len() >= 2 && is_upper(x[0]) && is_upper(x[1]) {
        assert(x.take(2).len() == 2);
        assert(x.take(2)[0] == x[0] && x.take(2)[1] == x[1]);
    }
}

proof fn lemma_sp_flags_wf(x: Seq<char>)
    ensures
        sp_flags(x) matches Some((f, r)) ==> f & 0x80 == 0,
    decreases x.len(),
{
    assert(0u8 & 0x80 == 0 && 0x01u8 & 0x80 == 0 && 0x02u8 & 0x80 == 0 && 0x04u8 & 0x80 == 0
        && 0x08u8 & 0x80 == 0 && 0x10u8 & 0x80 == 0 && 0x20u8 & 0x80 == 0 && 0x40u8 & 0x80
        == 0) by (bit_vector);
    if x.len() == 0 {
    } else if x[0] == ';' {
    } else if x.len() >= 2 && flag_of(x[0], x[1]) is Some {
        lemma_sp_flags_wf(x.skip(2));
        if let Some((f, r)) = sp_flags(x.skip(2)) {
            let b = flag_of(x[0], x[1]).unwrap();
            assert(b & 0x80 == 0);
            assert(b & 0x80 == 0 && f & 0x80 == 0 ==> (b | f) & 0x80 == 0) by (bit_vector);
        }
    }
}

proof fn lemma_sp_ace_wf(x: Seq<char>)
    ensures
        sp_ace(x) matches Some((a, r)) ==> a.flags & 0x80 == 0 && wf_trustee(a.trustee),
{
    if x.len() > 0 && x[0] == '(' {
        if let Some((ty, r1)) = sp_type(x.skip(1)) {
            if r1.len() >= 1 && r1[0] == ';' {
                lemma_sp_flags_wf(r1.skip(1));
                if let Some((fl, r2)) = sp_flags(r1.skip(1)) {
                    if r2.len() >= 1 && r2[0] == ';' {
                        if let Some((m, r3)) = sp_mask(r2.skip(1)) {
                            if r3.len() >= 3 && r3[0] == ';' && r3[1] == ';' && r3[2] == ';' {
                                lemma_sp_trustee_wf(r3.skip(3));
                            }
                        }
                    }
                }
            }
        }
    }
}

proof fn lemma_sp_aces_wf(x: Seq<char>, sacl: bool)
    ensures
        sp_aces(x, sacl) matches AcesOut::Parsed(list, r) ==> forall|k: int|
            0 <= k < list.len() ==> wf_ace(#[trigger] list[k], sacl),
    decreases x.len(),
{
    if x.len() > 0 && x[0] == '(' {
        lemma_sp_ace_wf(x);
        if let Some((a, rest)) = sp_ace(x) {
            if type_ok(a.ace_type, sacl) {
                lemma_sp_ace_len(x);
                lemma_sp_aces_wf(rest, sacl);
                if let AcesOut::Parsed(tail, r2) = sp_aces(rest, sacl) {
                    assert forall|k: int| 0 <= k < (seq![a] + tail).len() implies wf_ace(
                        #[trigger] (seq![a] + tail)[k],
                        sacl,
                    ) by {
                        if k == 0 {
                            assert((seq![a] + tail)[0] == a);
                        } else {
                            assert((seq![a] + tail)[k] == tail[k - 1]);
                        }
                    }
                }
            }
        }
    }
}

proof fn lemma_sp_ctrl_wf(x: Seq<char>, sacl: bool)
    ensures
        sp_ctrl(x, sacl).0 & !sect_mask(sacl) == 0,
    decreases x.len(),
{
    lemma_mask_consts();
    assert(0x0100u16 & !0x1500u16 == 0 && 0x0400u16 & !0x1500u16 == 0 && 0x1000u16 & !0x1500u16
        == 0 && 0x0200u16 & !0x2A00u16 == 0 && 0x0800u16 & !0x2A00u16 == 0 && 0x2000u16
        & !0x2A00u16 == 0 && 0u16 & !0x1500u16 == 0 && 0u16 & !0x2A00u16 == 0) by (bit_vector);
    let m = sect_mask(sacl);
    if x.len() >= 2 && x[0] == 'A' && x[1] == 'R' {
        lemma_sp_ctrl_wf(x.skip(2), sacl);
        lemma_u16_or_in_mask(ar_bit(sacl), sp_ctrl(x.skip(2), sacl).0, m);
    } else if x.len() >= 2 && x[0] == 'A' && x[1] == 'I' {
        lemma_sp_ctrl_wf(x.skip(2), sacl);
        lemma_u16_or_in_mask(ai_bit(sacl), sp_ctrl(x.skip(2), sacl).0, m);
    } else if x.len() >= 1 && x[0] == 'P' {
        lemma_sp_ctrl_wf(x.skip(1), sacl);
        lemma_u16_or_in_mask(p_bit(sacl), sp_ctrl(x.skip(1), sacl).0, m);
    }
}

proof fn lemma_u16_or_in_mask(a: u16, b: u16, m: u16)
    requires
        a & !m == 0,
        b & !m == 0,
    ensures
        (a | b) & !m == 0,
{
    assert(a & !m == 0 && b & !m == 0 ==> (a | b) & !m == 0) by (bit_vector);
}

proof fn lemma_sections_wf(s: Seq<char>, acc: SdV, k: nat, sd: SdV)
    requires
        sp_sections(s, acc, k) == SpOutcome::Done(sd),
        wf_sd(acc),
    ensures
        wf_sd(sd),
    decreases k,
{
    lemma_mask_consts();
    assert(!(0x1500u16 | 0x2A00u16) == 0xC0FFu16) by (bit_vector);
    if s.len() == 0 {
    } else if k == 0 {
    } else if s.len() >= 2 && s[0] == 'O' && s[1] == ':' {
        if acc.owner is None {
            if let Some((t, rest)) = sp_trustee(s.skip(2)) {
                lemma_sp_trustee_wf(s.skip(2));
                let acc2 = SdV { owner: Some(t), ..acc };
                lemma_sections_wf(rest, acc2, (k - 1) as nat, sd);
            }
        }
    } else if s.len() >= 2 && s[0] == 'G' && s[1] == ':' {
        if acc.group is None {
            if let Some((t, rest)) = sp_trustee(s.skip(2)) {
                lemma_sp_trustee_wf(s.skip(2));
                let acc2 = SdV { group: Some(t), ..acc };
                lemma_sections_wf(rest, acc2, (k - 1) as nat, sd);
            }
        }
    } else if s.len() >= 2 && s[0] == 'D' && s[1] == ':' {
        if acc.dacl is None {
            let (cf, r1) = sp_ctrl(s.skip(2), false);
            lemma_sp_ctrl_wf(s.skip(2), false);
            lemma_sp_aces_wf(r1, false);
            if let AcesOut::Parsed(list, r2) = sp_aces(r1, false) {
                if list.len() <= u32::MAX {
                    let acc2 = SdV {
                        dacl: Some(AclV { revision: ACL_REVISION, entries: list }),
                        control: (acc.control | cf) as u16,
                        ..acc
                    };
                    let ac = acc.control;
                    assert(cf & !0x1500u16 == 0 ==> cf & 0x2A00u16 == 0 && cf & 0xC0FFu16
                        == 0) by (bit_vector);
                    assert(ac & 0xC0FFu16 == 0 && cf & 0xC0FFu16 == 0 ==> (ac | cf) & 0xC0FFu16
                        == 0) by (bit_vector);
                    assert(ac & 0x2A00u16 == 0 && cf & 0x2A00u16 == 0 ==> (ac | cf) & 0x2A00u16
                        == 0) by (bit_vector);
                    assert(wf_sd(acc2));
                    lemma_sections_wf(r2, acc2, (k - 1) as nat, sd);
                }
            }
        }
    } else if s.len() >= 2 && s[0] == 'S' && s[1] == ':' {
        if acc.sacl is None {
            let (cf, r1) = sp_ctrl(s.skip(2), true);
            lemma_sp_ctrl_wf(s.skip(2), true);
            lemma_sp_aces_wf(r1, true);
            if let AcesOut::Parsed(list, r2) = sp_aces(r1, true) {
                if list.len() <= u32::MAX {
                    let acc2 = SdV {
                        sacl: Some(AclV { revision: ACL_REVISION, entries: list }),
                        control: (acc.control | cf) as u16,
                        ..acc
                    };
                    let ac = acc.control;
                    assert(cf & !0x2A00u16 == 0 ==> cf & 0x1500u16 == 0 && cf & 0xC0FFu16
                        == 0) by (bit_vector);
                    assert(ac & 0xC0FFu16 == 0 && cf & 0xC0FFu16 == 0 ==> (ac | cf) & 0xC0FFu16
                        == 0) by (bit_vector);
                    assert(ac & 0x1500u16 == 0 && cf & 0x1500u16 == 0 ==> (ac | cf) & 0x1500u16
                        == 0) by (bit_vector);
                    assert(wf_sd(acc2));
                    lemma_sections_wf(r2, acc2, (k - 1) as nat, sd);
                }
            }
        }
    }
}

/// Law: every descriptor a successful parse yields is well-formed.
pub proof fn lemma_parse_wf(s: Seq<char>, sd: SdV)
    requires
        sp_sddl(s) == SpOutcome::Done(sd),
    ensures
        wf_sd(sd),
{
    lemma_mask_consts();
    assert(0u16 & 0x1500u16 == 0 && 0u16 & 0x2A00u16 == 0 && 0u16 & 0xC0FFu16 == 0) by (bit_vector);
    assert(!(0x1500u16 | 0x2A00u16) == 0xC0FFu16) by (bit_vector);
    assert(wf_sd(sd_empty()));
    lemma_sections_wf(s, sd_empty(), 4, sd);
}

/// Law (round trip): parsing a valid descriptor string, serializing the
/// result and parsing that text again yields a descriptor equal in every
/// field - owner, group, control flags, and every entry's kind, flags, mask
/// and trustee, in order.
pub proof fn lemma_round_trip(s: Seq<char>, sd: SdV)
    requires
        sp_sddl(s) == SpOutcome::Done(sd),
    ensures
        sp_sddl(ser_sd(sd)) == SpOutcome::Done(sd),
{
    lemma_parse_wf(s, sd);
    lemma_serialize_then_parse(sd);
}


// ---------------------------------------------------------------------------
// One entry per parenthesized record
// ---------------------------------------------------------------------------
/// The number of record openers in a text.
pub open spec fn count_open(s: Seq<char>) -> nat
    decreases s.len(),
{
    if s.len() == 0 {
        0
    } else {
        ((if s[0] == '(' {
            1nat
        } else {
            0nat
        }) + count_open(s.skip(1))) as nat
    }
}

proof fn lemma_count_skip(s: Seq<char>, k: int)
    requires
        0 <= k <= s.len(),
        forall|i: int| 0 <= i < k ==> s[i] != '(',
    ensures
        count_open(s.skip(k)) == count_open(s),
    decreases k,
{
    if k > 0 {
        assert(s[0] != '(');
        assert(forall|i: int| 0 <= i < k - 1 ==> s.skip(1)[i] == s[i + 1]);
        lemma_count_skip(s.skip(1), k - 1);
        assert(s.skip(1).skip(k - 1) =~= s.skip(k));
    } else {
        assert(s.skip(0) =~= s);
    }
}

proof fn lemma_count_flags(s: Seq<char>)
    ensures
        sp_flags(s) matches Some((f, rest)) ==> count_open(rest) == count_open(s),
    decreases s.len(),
{
    if s.len() >= 2 && s[0] != ';' && flag_of(s[0], s[1]) is Some {
        assert(s[0] != '(' && s[1] != '(');
        lemma_count_skip(s, 2);
        lemma_count_flags(s.skip(2));
    }
}

proof fn lemma_count_rights(s: Seq<char>)
    ensures
        sp_rights(s) matches Some((m, rest)) ==> count_open(rest) == count_open(s),
    decreases s.len(),
{
    if s.len() >= 2 && s[0] != ';' && crate::sddl::right_of(s[0], s[1]) is Some {
        assert(s[0] != '(' && s[1] != '(');
        lemma_count_skip(s, 2);
        lemma_count_rights(s.skip(2));
    }
}

proof fn lemma_count_hexrun(s: Seq<char>, acc: nat)
    ensures
        count_open(sp_hexrun(s, acc).1) == count_open(s),
    decreases s.len(),
{
    if s.len() > 0 && is_hexd(s[0]) {
        assert(s[0] != '(');
        lemma_count_skip(s, 1);
        lemma_count_hexrun(s.skip(1), (acc * 16 + hexv(s[0])) as nat);
    }
}

proof fn lemma_count_mask(s: Seq<char>)
    ensures
        sp_mask(s) matches Some((m, rest)) ==> count_open(rest) == count_open(s),
{
    if s.len() == 0 {
    } else if s[0] == ';' {
    } else if s.len() >= 3 && s[0] == '0' && (s[1] == 'x' || s[1] == 'X') && is_hexd(s[2]) {
        assert(s[0] != '(' && s[1] != '(');
        lemma_count_skip(s, 2);
        lemma_count_hexrun(s.skip(2), 0);
    } else {
        lemma_count_rights(s);
    }
}

proof fn lemma_count_run_sid(s: Seq<char>)
    ensures
        count_open(sp_run_sid(s).1) == count_open(s),
    decreases s.len(),
{
    if s.len() > 0 && is_sid_char(s[0]) {
        assert(s[0] != '(');
        lemma_count_skip(s, 1);
        lemma_count_run_sid(s.skip(1));
    }
}

proof fn lemma_count_trustee(s: Seq<char>)
    ensures
        sp_trustee(s) matches Some((t, rest)) ==> count_open(rest) == count_open(s),
{
    if s.len() >= 2 && s[0] == 'S' && s[1] == '-' {
        assert(s[0] != '(' && s[1] != '(');
        lemma_count_skip(s, 2);
        lemma_count_run_sid(s.skip(2));
    } else if s.len() >= 2 && is_upper(s[0]) && is_upper(s[1]) {
        assert(s[0] != '(' && s[1] != '(');
        lemma_count_skip(s, 2);
    }
}

proof fn lemma_count_type(s: Seq<char>)
    ensures
        sp_type(s) matches Some((ty, rest)) ==> count_open(rest) == count_open(s),
{
    if sp_type(s) is Some {
        assert(s[0] != '(');
        if s.len() >= 2 && s[1] == ';' && (s[0] == 'A' || s[0] == 'D') {
            lemma_count_skip(s, 1);
        } else {
            assert(s[1] != '(');
            lemma_count_skip(s, 2);
        }
    }
}

proof fn lemma_count_ace(s: Seq<char>)
    ensures
        sp_ace(s) matches Some((a, rest)) ==> count_open(s) == 1 + count_open(rest),
{
    if s.len() > 0 && s[0] == '(' {
        assert(count_open(s) == 1 + count_open(s.skip(1)));
        lemma_count_type(s.skip(1));
        if let Some((ty, r1)) = sp_type(s.skip(1)) {
            if r1.len() >= 1 && r1[0] == ';' {
                assert(count_open(r1) == count_open(r1.skip(1))) by {
                    lemma_count_skip(r1, 1);
                }
                lemma_count_flags(r1.skip(1));
                if let Some((fl, r2)) = sp_flags(r1.skip(1)) {
                    if r2.len() >= 1 && r2[0] == ';' {
                        assert(count_open(r2) == count_open(r2.skip(1))) by {
                            lemma_count_skip(r2, 1);
                        }
                        lemma_count_mask(r2.skip(1));
                        if let Some((m, r3)) = sp_mask(r2.skip(1)) {
                            if r3.len() >= 3 && r3[0] == ';' && r3[1] == ';' && r3[2] == ';' {
                                assert(count_open(r3) == count_open(r3.skip(3))) by {
                                    lemma_count_skip(r3, 3);
                                }
                                lemma_count_trustee(r3.skip(3));
                                if let Some((t, r4)) = sp_trustee(r3.skip(3)) {
                                    if r4.len() >= 1 && r4[0] == ')' {
                                        assert(count_open(r4) == count_open(r4.skip(1))) by {
                                            lemma_count_skip(r4, 1);
                                        }
                                    }
                                }
                            }
                        }
                    }
                }
            }
        }
    }
}

/// Law: a parsed entry list holds exactly one entry per parenthesized record
/// of the section text: the entry count plus the openers left in the
/// remainder equals the openers of the whole text.
pub proof fn lemma_entry_count(s: Seq<char>, sacl: bool)
    ensures
        sp_aces(s, sacl) matches AcesOut::Parsed(list, rest) ==> list.len() + count_open(rest)
            == count_open(s),
    decreases s.len(),
{
    if s.len() > 0 && s[0] == '(' {
        lemma_count_ace(s);
        if let Some((a, rest)) = sp_ace(s) {
            if type_ok(a.ace_type, sacl) {
                lemma_sp_ace_len(s);
                lemma_entry_count(rest, sacl);
            }
        }
    }
}

} // verus!
