use vstd::prelude::*;
use crate::rights::AccessRights;
use crate::trustee::Trustee;

verus! {

/// The kind of an access-control entry.
#[derive(Clone, Copy, PartialEq, Eq, Structural, Debug)]
pub enum AceType {
    /// Grants the rights in the mask (discretionary lists only).
    AccessAllowed,
    /// Denies the rights in the mask (discretionary lists only).
    AccessDenied,
    /// Requests audit logging (system lists only).
    SystemAudit,
    /// Requests an alarm (system lists only).
    SystemAlarm,
    /// A reserved or unsupported entry kind, kept opaquely by its raw tag so
    /// that a list read from a binary region round-trips unchanged.
    Unknown(u8),
}

pub const ACE_FLAG_OBJECT_INHERIT: u8 = 0x01;

pub const ACE_FLAG_CONTAINER_INHERIT: u8 = 0x02;

pub const ACE_FLAG_NO_PROPAGATE: u8 = 0x04;

pub const ACE_FLAG_INHERIT_ONLY: u8 = 0x08;

/// Marks an entry as inherited from a parent object; entries without this bit
/// are explicit.
pub const ACE_FLAG_INHERITED: u8 = 0x10;

pub const ACE_FLAG_AUDIT_SUCCESS: u8 = 0x20;

pub const ACE_FLAG_AUDIT_FAILURE: u8 = 0x40;

/// Whether a flags value carries the inherited marker.
pub open spec fn spec_is_inherited(flags: u8) -> bool {
    flags & ACE_FLAG_INHERITED != 0
}

/// Inheritance flags of an entry. Explicit vs inherited is derived from
/// the `ACE_FLAG_INHERITED` bit.
#[derive(Clone, Copy, PartialEq, Eq, Structural, Debug)]
pub struct AceFlags {
    bits: u8,
}

impl View for AceFlags {
    type V = u8;

    closed spec fn view(&self) -> u8 {
        self.bits
    }
}

impl AceFlags {
    pub fn new(bits: u8) -> (r: AceFlags)
        ensures
            r@ == bits,
    {
        AceFlags { bits }
    }

    pub fn bits(&self) -> (r: u8)
        ensures
            r == self@,
    {
        self.bits
    }

    pub fn is_inherited(&self) -> (r: bool)
        ensures
            r == spec_is_inherited(self@),
    {
        self.bits & ACE_FLAG_INHERITED != 0
    }
}

/// Mathematical model of a single access-control entry.
#[verifier::ext_equal]
pub ghost struct AceV {
    pub ace_type: AceType,
    pub flags: u8,
    pub mask: u32,
    pub trustee: Seq<char>,
}

/// A single access-control entry: kind, inheritance flags, rights mask and
/// the trustee it applies to. Immutable once constructed.
#[derive(PartialEq, Eq, Debug)]
pub struct Ace {
    ace_type: AceType,
    flags: AceFlags,
    mask: AccessRights,
    trustee: Trustee,
}

impl View for Ace {
    type V = AceV;

    closed spec fn view(&self) -> AceV {
        AceV {
            ace_type: self.ace_type,
            flags: self.flags@,
            mask: self.mask@,
            trustee: self.trustee@,
        }
    }
}

impl Clone for Ace {
    fn clone(&self) -> (r: Self)
        ensures
            r@ == self@,
    {
        Ace {
            ace_type: self.ace_type,
            flags: self.flags,
            mask: self.mask,
            trustee: self.trustee.clone(),
        }
    }
}

impl Ace {
    pub fn new(ace_type: AceType, flags: AceFlags, mask: AccessRights, trustee: Trustee) -> (r:
        Ace)
        ensures
            r@ == (AceV { ace_type, flags: flags@, mask: mask@, trustee: trustee@ }),
    {
        Ace { ace_type, flags, mask, trustee }
    }

    pub fn ace_type(&self) -> (r: AceType)
        ensures
            r == self@.ace_type,
    {
        self.ace_type
    }

    pub fn flags(&self) -> (r: AceFlags)
        ensures
            r@ == self@.flags,
    {
        self.flags
    }

    pub fn access_mask(&self) -> (r: AccessRights)
        ensures
            r@ == self@.mask,
    {
        self.mask
    }

    pub fn trustee(&self) -> (r: &Trustee)
        ensures
            r@ == self@.trustee,
    {
        &self.trustee
    }
}

} // verus!
