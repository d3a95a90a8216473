use vstd::prelude::*;

verus! {

/// An access-rights bitmask (generic, standard and specific rights bits).
/// A mask of zero is a valid value, distinct from an absent list.
#[derive(Clone, Copy, PartialEq, Eq, Structural, Debug)]
pub struct AccessRights {
    bits: u32,
}

impl View for AccessRights {
    type V = u32;

    closed spec fn view(&self) -> u32 {
        self.bits
    }
}

impl AccessRights {
    pub fn new(bits: u32) -> (r: AccessRights)
        ensures
            r@ == bits,
    {
        AccessRights { bits }
    }

    pub fn empty() -> (r: AccessRights)
        ensures
            r@ == 0,
    {
        AccessRights { bits: 0 }
    }

    pub fn bits(&self) -> (r: u32)
        ensures
            r == self@,
    {
        self.bits
    }

    /// Union of two masks is bitwise or.
    pub fn union(self, other: AccessRights) -> (r: AccessRights)
        ensures
            r@ == (self@ | other@),
    {
        AccessRights { bits: self.bits | other.bits }
    }

    /// Intersection of two masks is bitwise and.
    pub fn intersect(self, other: AccessRights) -> (r: AccessRights)
        ensures
            r@ == (self@ & other@),
    {
        AccessRights { bits: self.bits & other.bits }
    }

    pub fn is_empty(&self) -> (r: bool)
        ensures
            r == (self@ == 0),
    {
        self.bits == 0
    }
}

} // verus!
