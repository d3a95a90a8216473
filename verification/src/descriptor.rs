use vstd::prelude::*;
use crate::acl::{Acl, AclV};
use crate::trustee::Trustee;

verus! {

/// The identifier of an optional trustee.
pub open spec fn view_trustee_opt(o: Option<Trustee>) -> Option<Seq<char>> {
    match o {
        Some(t) => Some(t@),
        None => None,
    }
}

/// The model of an optional list.
pub open spec fn view_acl_opt(o: Option<Acl>) -> Option<AclV> {
    match o {
        Some(a) => Some(a@),
        None => None,
    }
}

/// Mathematical model of a security descriptor. Either list may be absent,
/// which is distinct from present-but-empty.
#[verifier::ext_equal]
pub ghost struct SdV {
    pub owner: Option<Seq<char>>,
    pub group: Option<Seq<char>>,
    pub dacl: Option<AclV>,
    pub sacl: Option<AclV>,
    pub control: u16,
}

/// A security descriptor: owner, primary group, optional discretionary and
/// system lists, and control flags. An immutable value type, constructed
/// wholesale; modifications produce a new value.
#[derive(PartialEq, Eq, Debug)]
pub struct SecurityDescriptor {
    owner: Option<Trustee>,
    group: Option<Trustee>,
    dacl: Option<Acl>,
    sacl: Option<Acl>,
    control: u16,
}

impl View for SecurityDescriptor {
    type V = SdV;

    closed spec fn view(&self) -> SdV {
        SdV {
            owner: view_trustee_opt(self.owner),
            group: view_trustee_opt(self.group),
            dacl: view_acl_opt(self.dacl),
            sacl: view_acl_opt(self.sacl),
            control: self.control,
        }
    }
}

impl SecurityDescriptor {
    /// Explicit wholesale construction.
    pub fn new(
        owner: Option<Trustee>,
        group: Option<Trustee>,
        dacl: Option<Acl>,
        sacl: Option<Acl>,
        control: u16,
    ) -> (r: SecurityDescriptor)
        ensures
            r@ == (SdV {
                owner: view_trustee_opt(owner),
                group: view_trustee_opt(group),
                dacl: view_acl_opt(dacl),
                sacl: view_acl_opt(sacl),
                control,
            }),
    {
        SecurityDescriptor { owner, group, dacl, sacl, control }
    }

    pub fn owner(&self) -> (r: Option<&Trustee>)
        ensures
            (r is Some) <==> (self@.owner is Some),
            r matches Some(t) ==> self@.owner == Some(t@),
    {
        self.owner.as_ref()
    }

    pub fn group(&self) -> (r: Option<&Trustee>)
        ensures
            (r is Some) <==> (self@.group is Some),
            r matches Some(t) ==> self@.group == Some(t@),
    {
        self.group.as_ref()
    }

    pub fn dacl(&self) -> (r: Option<&Acl>)
        ensures
            (r is Some) <==> (self@.dacl is Some),
            r matches Some(a) ==> self@.dacl == Some(a@),
    {
        self.dacl.as_ref()
    }

    pub fn sacl(&self) -> (r: Option<&Acl>)
        ensures
            (r is Some) <==> (self@.sacl is Some),
            r matches Some(a) ==> self@.sacl == Some(a@),
    {
        self.sacl.as_ref()
    }

    pub fn control(&self) -> (r: u16)
        ensures
            r == self@.control,
    {
        self.control
    }
}

} // verus!
