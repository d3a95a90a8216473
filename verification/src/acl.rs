use vstd::prelude::*;
use crate::ace::{Ace, AceV};

verus! {

/// Mathematical model of an access-control list: a revision tag and the
/// ordered entry sequence. The order is semantically load-bearing.
#[verifier::ext_equal]
pub ghost struct AclV {
    pub revision: u8,
    pub entries: Seq<AceV>,
}

/// The revision tag given to lists built from text.
pub const ACL_REVISION: u8 = 2;

/// An ordered, read-only access-control list with bounds-checked indexed
/// access. Construction preserves insertion order exactly; there is no
/// sorting, deduplication or coalescing.
#[derive(PartialEq, Eq, Debug)]
pub struct Acl {
    revision: u8,
    entries: Vec<Ace>,
}

impl View for Acl {
    type V = AclV;

    closed spec fn view(&self) -> AclV {
        AclV { revision: self.revision, entries: self.entries@.map_values(|a: Ace| a@) }
    }
}

impl Clone for Acl {
    fn clone(&self) -> (r: Self)
        ensures
            r@ == self@,
    {
        proof {
            use_type_invariant(self);
        }
        let mut entries: Vec<Ace> = Vec::new();
        let mut i: usize = 0;
        while i < self.entries.len()
            invariant
                i <= self.entries@.len(),
                entries@.len() == i,
                forall|j: int| 0 <= j < i ==> entries@[j]@ == self.entries@[j]@,
            decreases self.entries@.len() - i,
        {
            entries.push(self.entries[i].clone());
            i = i + 1;
        }
        let r = Acl { revision: self.revision, entries };
        proof {
            assert(r@.entries =~= self@.entries);
        }
        r
    }
}

impl Acl {
    #[verifier::type_invariant]
    spec fn type_inv(self) -> bool {
        self.entries@.len() <= u32::MAX
    }

    /// Build a list from an entry sequence, preserving its order exactly.
    /// The length bound is a machine limit: the declared count is a `u32`.
    pub fn from_entries(revision: u8, entries: Vec<Ace>) -> (r: Acl)
        requires
            entries@.len() <= u32::MAX,
        ensures
            r@.revision == revision,
            r@.entries == entries@.map_values(|a: Ace| a@),
    {
        Acl { revision, entries }
    }

    /// The declared entry count; equals the number of retrievable entries.
    pub fn len(&self) -> (r: u32)
        ensures
            r as nat == self@.entries.len(),
    {
        proof {
            use_type_invariant(self);
        }
        self.entries.len() as u32
    }

    /// The revision tag carried for round-trip fidelity; the rights
    /// evaluator ignores it.
    pub fn revision(&self) -> (r: u8)
        ensures
            r == self@.revision,
    {
        self.revision
    }

    pub(crate) fn entries_ref(&self) -> (r: &Vec<Ace>)
        ensures
            r@.map_values(|a: Ace| a@) == self@.entries,
    {
        &self.entries
    }

    /// Bounds-checked access: the entry at `index` when `index < len()`,
    /// `None` otherwise. Absence is a normal outcome, never a panic.
    pub fn get_ace(&self, index: u32) -> (r: Option<&Ace>)
        ensures
            (index < self@.entries.len()) <==> (r is Some),
            r matches Some(a) ==> a@ == self@.entries[index as int],
    {
        proof {
            use_type_invariant(self);
        }
        if (index as usize) < self.entries.len() {
            Some(&self.entries[index as usize])
        } else {
            None
        }
    }
}

} // verus!
