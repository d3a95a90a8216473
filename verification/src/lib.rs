//! Windows-style access-control model: security descriptors with
//! discretionary and system access-control lists (ACLs), a codec for the
//! textual security-descriptor language (SDDL), and an evaluator for the
//! effective rights a trustee holds under an ACL.

pub mod ace;
pub mod acl;
pub mod bytes;
pub mod descriptor;
pub mod eval;
pub mod laws;
pub mod parser;
pub mod rights;
pub mod sddl;
pub mod serializer;
mod strutil;
pub mod trustee;
