use vstd::prelude::*;
use vstd::string::StringExecFns;
use crate::ace::{Ace, AceType, AceV};
use crate::descriptor::SecurityDescriptor;
use crate::sddl::{
    flag_tok, hex_of, hexd, ser_ace, ser_aces, ser_ctrl, ser_dacl_part, ser_flags_from,
    ser_group_part, ser_owner_part, ser_sacl_part, ser_sd, ser_type,
    CTRL_DACL_AUTO_INHERITED, CTRL_DACL_AUTO_INHERIT_REQ, CTRL_DACL_PROTECTED,
    CTRL_SACL_AUTO_INHERITED, CTRL_SACL_AUTO_INHERIT_REQ, CTRL_SACL_PROTECTED,
};
use crate::strutil::push_char;

verus! {

fn hex_digit_char(n: u32) -> (r: char)
    requires
        n < 16,
    ensures
        r == hexd(n),
{
    if n == 0 {
        '0'
    } else if n == 1 {
        '1'
    } else if n == 2 {
        '2'
    } else if n == 3 {
        '3'
    } else if n == 4 {
        '4'
    } else if n == 5 {
        '5'
    } else if n == 6 {
        '6'
    } else if n == 7 {
        '7'
    } else if n == 8 {
        '8'
    } else if n == 9 {
        '9'
    } else if n == 10 {
        'a'
    } else if n == 11 {
        'b'
    } else if n == 12 {
        'c'
    } else if n == 13 {
        'd'
    } else if n == 14 {
        'e'
    } else {
        'f'
    }
}

fn push_hex(out: &mut String, m: u32)
    ensures
        final(out)@ == old(out)@ + hex_of(m),
    decreases m,
{
    if m < 16 {
        push_char(out, hex_digit_char(m));
        proof {
            assert(out@ =~= old(out)@ + hex_of(m));
        }
    } else {
        push_hex(out, m / 16);
        push_char(out, hex_digit_char(m % 16));
        proof {
            assert(out@ =~= old(out)@ + hex_of(m));
        }
    }
}

fn push_type(out: &mut String, ty: AceType)
    ensures
        final(out)@ == old(out)@ + ser_type(ty),
{
    match ty {
        AceType::AccessAllowed => {
            push_char(out, 'A');
        },
        AceType::AccessDenied => {
            push_char(out, 'D');
        },
        AceType::SystemAudit => {
            push_char(out, 'A');
            push_char(out, 'U');
        },
        AceType::SystemAlarm => {
            push_char(out, 'A');
            push_char(out, 'L');
        },
        AceType::Unknown(_) => {
            push_char(out, '?');
        },
    }
    proof {
        assert(out@ =~= old(out)@ + ser_type(ty));
    }
}

fn flag_tok_exec(i: usize) -> (r: (char, char, u8))
    requires
        i < 7,
    ensures
        seq![r.0, r.1] == flag_tok(i as int).0,
        r.2 == flag_tok(i as int).1,
{
    if i == 0 {
        ('O', 'I', crate::ace::ACE_FLAG_OBJECT_INHERIT)
    } else if i == 1 {
        ('C', 'I', crate::ace::ACE_FLAG_CONTAINER_INHERIT)
    } else if i == 2 {
        ('N', 'P', crate::ace::ACE_FLAG_NO_PROPAGATE)
    } else if i == 3 {
        ('I', 'O', crate::ace::ACE_FLAG_INHERIT_ONLY)
    } else if i == 4 {
        ('I', 'D', crate::ace::ACE_FLAG_INHERITED)
    } else if i == 5 {
        ('S', 'A', crate::ace::ACE_FLAG_AUDIT_SUCCESS)
    } else {
        ('F', 'A', crate::ace::ACE_FLAG_AUDIT_FAILURE)
    }
}

fn push_flags_from(out: &mut String, f: u8, i: usize)
    requires
        i <= 7,
    ensures
        final(out)@ == old(out)@ + ser_flags_from(f, i as int),
    decreases 7 - i,
{
    if i >= 7 {
        proof {
            assert(out@ =~= old(out)@ + ser_flags_from(f, i as int));
        }
    } else {
        let (a, b, bit) = flag_tok_exec(i);
        let ghost o0 = out@;
        if f & bit != 0 {
            push_char(out, a);
            push_char(out, b);
            proof {
                assert(out@ =~= o0 + flag_tok(i as int).0);
            }
        }
        push_flags_from(out, f, i + 1);
        proof {
            assert(out@ =~= old(out)@ + ser_flags_from(f, i as int));
        }
    }
}

fn push_ctrl(out: &mut String, c: u16, sacl: bool)
    ensures
        final(out)@ == old(out)@ + ser_ctrl(c, sacl),
{
    let pb = if sacl {
        CTRL_SACL_PROTECTED
    } else {
        CTRL_DACL_PROTECTED
    };
    let arb = if sacl {
        CTRL_SACL_AUTO_INHERIT_REQ
    } else {
        CTRL_DACL_AUTO_INHERIT_REQ
    };
    let aib = if sacl {
        CTRL_SACL_AUTO_INHERITED
    } else {
        CTRL_DACL_AUTO_INHERITED
    };
    if c & pb != 0 {
        push_char(out, 'P');
    }
    if c & arb != 0 {
        push_char(out, 'A');
        push_char(out, 'R');
    }
    if c & aib != 0 {
        push_char(out, 'A');
        push_char(out, 'I');
    }
    proof {
        assert(out@ =~= old(out)@ + ser_ctrl(c, sacl));
    }
}

fn push_ace(out: &mut String, a: &Ace)
    ensures
        final(out)@ == old(out)@ + ser_ace(a@),
{
    push_char(out, '(');
    push_type(out, a.ace_type());
    push_char(out, ';');
    push_flags_from(out, a.flags().bits(), 0);
    push_char(out, ';');
    push_char(out, '0');
    push_char(out, 'x');
    push_hex(out, a.access_mask().bits());
    push_char(out, ';');
    push_char(out, ';');
    push_char(out, ';');
    out.append(a.trustee().id());
    push_char(out, ')');
    proof {
        assert(out@ =~= old(out)@ + ser_ace(a@));
    }
}

proof fn lemma_ser_aces_snoc(list: Seq<AceV>, a: AceV)
    ensures
        ser_aces(list.push(a)) == ser_aces(list) + ser_ace(a),
    decreases list.len(),
{
    if list.len() == 0 {
        assert(list.push(a).drop_first() =~= Seq::<AceV>::empty());
        assert(list.push(a)[0] == a);
        assert(ser_aces(Seq::<AceV>::empty()) =~= Seq::<char>::empty());
        assert(ser_aces(list) =~= Seq::<char>::empty());
        assert(ser_aces(list.push(a)) =~= ser_ace(a) + Seq::<char>::empty());
        assert(ser_ace(a) + Seq::<char>::empty() =~= Seq::<char>::empty() + ser_ace(a));
        assert(ser_aces(list.push(a)) =~= ser_aces(list) + ser_ace(a));
    } else {
        lemma_ser_aces_snoc(list.drop_first(), a);
        assert(list.push(a).drop_first() =~= list.drop_first().push(a));
        assert(ser_ace(list[0]) + (ser_aces(list.drop_first()) + ser_ace(a)) =~= (ser_ace(list[0])
            + ser_aces(list.drop_first())) + ser_ace(a));
    }
}

fn push_aces(out: &mut String, entries: &Vec<Ace>)
    ensures
        final(out)@ == old(out)@ + ser_aces(entries@.map_values(|x: Ace| x@)),
{
    let ghost list = entries@.map_values(|x: Ace| x@);
    let mut i: usize = 0;
    proof {
        assert(list.take(0) =~= Seq::<AceV>::empty());
        assert(out@ =~= old(out)@ + ser_aces(list.take(0)));
    }
    while i < entries.len()
        invariant
            i <= entries@.len(),
            list == entries@.map_values(|x: Ace| x@),
            out@ == old(out)@ + ser_aces(list.take(i as int)),
        decreases entries@.len() - i,
    {
        push_ace(out, &entries[i]);
        proof {
            assert(list.take(i as int).push(list[i as int]) =~= list.take(i as int + 1));
            lemma_ser_aces_snoc(list.take(i as int), list[i as int]);
            assert((old(out)@ + ser_aces(list.take(i as int))) + ser_ace(list[i as int]) =~= old(
                out,
            )@ + ser_aces(list.take(i as int + 1)));
        }
        i = i + 1;
    }
    proof {
        assert(list.take(entries@.len() as int) =~= list);
    }
}

/// Write a descriptor back to its canonical text. Serializing a parsed
/// descriptor and parsing the result yields a field-equal descriptor; the
/// formatting (hexadecimal masks, canonical section order) may differ from
/// the text it was parsed from, the semantic content may not.
#[verifier::rlimit(60)]
pub fn serialize_sddl(sd: &SecurityDescriptor) -> (r: String)
    ensures
        r@ == ser_sd(sd@),
{
    let mut out = String::new();
    match sd.owner() {
        Some(t) => {
            push_char(&mut out, 'O');
            push_char(&mut out, ':');
            out.append(t.id());
        },
        None => {},
    }
    proof {
        assert(out@ =~= ser_owner_part(sd@));
    }
    let ghost o1 = out@;
    match sd.group() {
        Some(t) => {
            push_char(&mut out, 'G');
            push_char(&mut out, ':');
            out.append(t.id());
        },
        None => {},
    }
    proof {
        assert(out@ =~= o1 + ser_group_part(sd@));
    }
    let ghost o2 = out@;
    match sd.dacl() {
        Some(a) => {
            push_char(&mut out, 'D');
            push_char(&mut out, ':');
            push_ctrl(&mut out, sd.control(), false);
            push_aces(&mut out, a.entries_ref());
        },
        None => {},
    }
    proof {
        assert(out@ =~= o2 + ser_dacl_part(sd@));
    }
    let ghost o3 = out@;
    match sd.sacl() {
        Some(a) => {
            push_char(&mut out, 'S');
            push_char(&mut out, ':');
            push_ctrl(&mut out, sd.control(), true);
            push_aces(&mut out, a.entries_ref());
        },
        None => {},
    }
    proof {
        assert(out@ =~= o3 + ser_sacl_part(sd@));
        assert(out@ == ((ser_owner_part(sd@) + ser_group_part(sd@)) + ser_dacl_part(sd@))
            + ser_sacl_part(sd@));
        assert(out@ == ser_sd(sd@));
    }
    out
}

} // verus!
