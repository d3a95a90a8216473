use vstd::prelude::*;
use crate::ace::{Ace, AceType, AceV, spec_is_inherited};
use crate::acl::Acl;
use crate::rights::AccessRights;
use crate::trustee::{Trustee, spec_matches};

verus! {

/// One evaluation step over a single entry. An entry takes part in the pass
/// whose inherited marker it carries and only when its trustee matches; a
/// deny finalizes the bits of its mask without granting them, an allow
/// grants the not-yet-finalized bits and finalizes them, and audit-class
/// entries are skipped.
pub open spec fn eval_step(
    a: AceV,
    member: Seq<char>,
    inherited_pass: bool,
    granted: u32,
    finalized: u32,
) -> (u32, u32) {
    if spec_is_inherited(a.flags) == inherited_pass && spec_matches(a.trustee, member) {
        match a.ace_type {
            AceType::AccessDenied => (granted, finalized | a.mask),
            AceType::AccessAllowed => ((granted | (a.mask & !finalized)), (finalized | a.mask)),
            _ => (granted, finalized),
        }
    } else {
        (granted, finalized)
    }
}

/// One pass over the entries in original order, threading the granted and
/// finalized masks through `eval_step`.
pub open spec fn eval_pass(
    aces: Seq<AceV>,
    member: Seq<char>,
    inherited_pass: bool,
    granted: u32,
    finalized: u32,
) -> (u32, u32)
    decreases aces.len(),
{
    if aces.len() == 0 {
        (granted, finalized)
    } else {
        let (g, f) = eval_step(aces[0], member, inherited_pass, granted, finalized);
        eval_pass(aces.drop_first(), member, inherited_pass, g, f)
    }
}

/// The rights a trustee effectively holds under an entry sequence: all
/// explicit entries are evaluated strictly before any inherited entry,
/// regardless of position, and within each group encounter order decides.
pub open spec fn spec_effective_rights(aces: Seq<AceV>, member: Seq<char>) -> u32 {
    let (g1, f1) = eval_pass(aces, member, false, 0, 0);
    let (g2, f2) = eval_pass(aces, member, true, g1, f1);
    g2
}

/// One pass of the evaluator over `entries`.
fn run_pass(entries: &Vec<Ace>, member: &Trustee, inherited_pass: bool, g0: u32, f0: u32) -> (r: (
    u32,
    u32,
))
    ensures
        r == eval_pass(entries@.map_values(|a: Ace| a@), member@, inherited_pass, g0, f0),
{
    let ghost aces = entries@.map_values(|a: Ace| a@);
    let mut granted: u32 = g0;
    let mut finalized: u32 = f0;
    let mut i: usize = 0;
    proof {
        assert(aces.skip(0) =~= aces);
    }
    while i < entries.len()
        invariant
            i <= aces.len(),
            aces == entries@.map_values(|a: Ace| a@),
            eval_pass(aces, member@, inherited_pass, g0, f0) == eval_pass(
                aces.skip(i as int),
                member@,
                inherited_pass,
                granted,
                finalized,
            ),
        decreases aces.len() - i,
    {
        let ace = &entries[i];
        proof {
            assert(aces.skip(i as int)[0] == aces[i as int]);
            assert(aces.skip(i as int).drop_first() =~= aces.skip(i as int + 1));
        }
        let in_pass = ace.flags().is_inherited() == inherited_pass;
        if in_pass && ace.trustee().matches(member) {
            match ace.ace_type() {
                AceType::AccessDenied => {
                    finalized = finalized | ace.access_mask().bits();
                },
                AceType::AccessAllowed => {
                    granted = granted | (ace.access_mask().bits() & !finalized);
                    finalized = finalized | ace.access_mask().bits();
                },
                _ => {},
            }
        }
        i = i + 1;
    }
    proof {
        assert(aces.skip(i as int) =~= Seq::<AceV>::empty());
    }
    (granted, finalized)
}

impl Acl {
    /// Determine what rights the given trustee effectively holds under this
    /// list, by Windows' canonical precedence: explicit deny over explicit
    /// allow over inherited deny over inherited allow. The evaluator never
    /// errors; a trustee matching no entries holds the empty mask.
    pub fn effective_rights(&self, member: &Trustee) -> (r: AccessRights)
        ensures
            r@ == spec_effective_rights(self@.entries, member@),
    {
        let entries = self.entries_ref();
        let (g1, f1) = run_pass(entries, member, false, 0, 0);
        let (g2, _f2) = run_pass(entries, member, true, g1, f1);
        AccessRights::new(g2)
    }
}

/// Effective rights under an optional discretionary list: an absent list
/// yields the empty mask (the platform convention for a missing list, which
/// the caller reads as "no access").
pub fn effective_rights(dacl: Option<&Acl>, member: &Trustee) -> (r: AccessRights)
    ensures
        (dacl matches Some(a) ==> r@ == spec_effective_rights(a@.entries, member@)),
        (dacl is None ==> r@ == 0),
{
    match dacl {
        Some(a) => a.effective_rights(member),
        None => AccessRights::empty(),
    }
}

/// A pass leaves the masks unchanged when no entry matches the trustee.
proof fn lemma_pass_no_match(
    aces: Seq<AceV>,
    member: Seq<char>,
    inherited_pass: bool,
    granted: u32,
    finalized: u32,
)
    requires
        forall|i: int| 0 <= i < aces.len() ==> !spec_matches(#[trigger] aces[i].trustee, member),
    ensures
        eval_pass(aces, member, inherited_pass, granted, finalized) == (granted, finalized),
    decreases aces.len(),
{
    if aces.len() > 0 {
        assert(!spec_matches(aces[0].trustee, member));
        assert(forall|i: int|
            0 <= i < aces.drop_first().len() ==> #[trigger] aces.drop_first()[i] == aces[i + 1]);
        lemma_pass_no_match(aces.drop_first(), member, inherited_pass, granted, finalized);
    }
}

/// Law: a trustee matched by no entry effectively holds the empty mask.
pub proof fn lemma_no_match_no_rights(aces: Seq<AceV>, member: Seq<char>)
    requires
        forall|i: int| 0 <= i < aces.len() ==> !spec_matches(#[trigger] aces[i].trustee, member),
    ensures
        spec_effective_rights(aces, member) == 0,
{
    lemma_pass_no_match(aces, member, false, 0, 0);
    lemma_pass_no_match(aces, member, true, 0, 0);
}

/// Law: an explicit deny entry takes the denied bits away from a later
/// explicit allow for the same trustee, even when the allow mask is a
/// superset: every bit of the denied mask is excluded from the result.
pub proof fn lemma_deny_precedence(
    deny_flags: u8,
    allow_flags: u8,
    deny_mask: u32,
    allow_mask: u32,
    holder: Seq<char>,
    member: Seq<char>,
    aces: Seq<AceV>,
)
    requires
        aces.len() == 2,
        aces[0] == (AceV {
            ace_type: AceType::AccessDenied,
            flags: deny_flags,
            mask: deny_mask,
            trustee: holder,
        }),
        aces[1] == (AceV {
            ace_type: AceType::AccessAllowed,
            flags: allow_flags,
            mask: allow_mask,
            trustee: holder,
        }),
        !spec_is_inherited(deny_flags),
        !spec_is_inherited(allow_flags),
        spec_matches(holder, member),
        deny_mask & allow_mask == deny_mask,
    ensures
        spec_effective_rights(aces, member) & deny_mask == 0,
        spec_effective_rights(aces, member) == allow_mask & !deny_mask,
{
    let s1 = aces.drop_first();
    assert(s1.len() == 1 && s1[0] == aces[1]);
    let s2 = s1.drop_first();
    assert(s2.len() == 0);
    let ga = 0u32;
    let fa = 0u32 | deny_mask;
    assert(eval_step(aces[0], member, false, 0, 0) == (ga, fa));
    let gb = ga | (allow_mask & !fa);
    let fb = fa | allow_mask;
    assert(eval_step(s1[0], member, false, ga, fa) == (gb, fb));
    assert(eval_pass(s1, member, false, ga, fa) == eval_pass(s2, member, false, gb, fb));
    assert(eval_pass(aces, member, false, 0, 0) == (gb, fb));
    assert(eval_step(aces[0], member, true, gb, fb) == (gb, fb));
    assert(eval_step(s1[0], member, true, gb, fb) == (gb, fb));
    assert(eval_pass(s1, member, true, gb, fb) == eval_pass(s2, member, true, gb, fb));
    assert(eval_pass(aces, member, true, gb, fb) == (gb, fb));
    assert(spec_effective_rights(aces, member) == gb);
    assert(0u32 | (allow_mask & !(0u32 | deny_mask)) == allow_mask & !deny_mask) by (bit_vector);
    assert((allow_mask & !deny_mask) & deny_mask == 0) by (bit_vector);
}

} // verus!
