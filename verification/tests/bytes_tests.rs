use sddl_acl::ace::AceType;
use sddl_acl::acl::Acl;
use sddl_acl::bytes::ValidationError;
use sddl_acl::trustee::Trustee;

/// header(type, flags, size) + mask + sid(rev, auth, subs)
fn ace_bytes(ace_type: u8, flags: u8, mask: u32, sid_rev: u8, auth: u64, subs: &[u32]) -> Vec<u8> {
    let mut v = Vec::new();
    let size = 8 + 8 + 4 * subs.len();
    v.push(ace_type);
    v.push(flags);
    v.extend_from_slice(&(size as u16).to_le_bytes());
    v.extend_from_slice(&mask.to_le_bytes());
    v.push(sid_rev);
    v.push(subs.len() as u8);
    v.extend_from_slice(&auth.to_be_bytes()[2..8]);
    for s in subs {
        v.extend_from_slice(&s.to_le_bytes());
    }
    v
}

fn acl_bytes(revision: u8, aces: &[Vec<u8>]) -> Vec<u8> {
    let body: usize = aces.iter().map(|a| a.len()).sum();
    let mut v = Vec::new();
    v.push(revision);
    v.push(0);
    v.extend_from_slice(&((8 + body) as u16).to_le_bytes());
    v.extend_from_slice(&(aces.len() as u16).to_le_bytes());
    v.extend_from_slice(&[0, 0]);
    for a in aces {
        v.extend_from_slice(a);
    }
    v
}

#[test]
fn from_bytes_decodes_entries() {
    let region = acl_bytes(
        2,
        &[
            ace_bytes(0, 0, 0xFF, 1, 5, &[21]),
            ace_bytes(1, 0x10, 0x20000, 1, 5, &[32, 544]),
        ],
    );
    let acl = Acl::from_bytes(&region).unwrap();
    assert_eq!(acl.revision(), 2);
    assert_eq!(acl.len(), 2);

    let a0 = acl.get_ace(0).unwrap();
    assert_eq!(a0.ace_type(), AceType::AccessAllowed);
    assert_eq!(a0.flags().bits(), 0);
    assert_eq!(a0.access_mask().bits(), 0xFF);
    assert_eq!(a0.trustee().id(), "S-1-5-21");

    let a1 = acl.get_ace(1).unwrap();
    assert_eq!(a1.ace_type(), AceType::AccessDenied);
    assert!(a1.flags().is_inherited());
    assert_eq!(a1.access_mask().bits(), 0x20000);
    assert_eq!(a1.trustee().id(), "S-1-5-32-544");

    assert!(acl.get_ace(2).is_none());
}

#[test]
fn from_bytes_empty_list() {
    let region = acl_bytes(2, &[]);
    let acl = Acl::from_bytes(&region).unwrap();
    assert_eq!(acl.len(), 0);
    assert!(acl.get_ace(0).is_none());
}

#[test]
fn from_bytes_keeps_unknown_kinds() {
    let region = acl_bytes(4, &[ace_bytes(9, 0, 0, 1, 5, &[7])]);
    let acl = Acl::from_bytes(&region).unwrap();
    assert_eq!(acl.revision(), 4);
    assert_eq!(acl.get_ace(0).unwrap().ace_type(), AceType::Unknown(9));
}

#[test]
fn from_bytes_refuses_inconsistent_regions() {
    // declared size does not match the region
    let mut region = acl_bytes(2, &[ace_bytes(0, 0, 1, 1, 5, &[21])]);
    region.pop();
    assert_eq!(Acl::from_bytes(&region), Err(ValidationError::InconsistentLayout));

    // too short for a header at all
    assert_eq!(Acl::from_bytes(&[2, 0, 3, 0]), Err(ValidationError::InconsistentLayout));

    // declared count overruns the actual entries
    let mut region = acl_bytes(2, &[ace_bytes(0, 0, 1, 1, 5, &[21])]);
    region[4] = 2;
    assert_eq!(Acl::from_bytes(&region), Err(ValidationError::InconsistentLayout));

    // entries end before the declared size: trailing bytes refused
    let mut region = acl_bytes(2, &[ace_bytes(0, 0, 1, 1, 5, &[21])]);
    region.extend_from_slice(&[0, 0, 0, 0]);
    let size = region.len() as u16;
    region[2..4].copy_from_slice(&size.to_le_bytes());
    assert_eq!(Acl::from_bytes(&region), Err(ValidationError::InconsistentLayout));

    // an entry whose declared size disagrees with its trustee
    let mut region = acl_bytes(2, &[ace_bytes(0, 0, 1, 1, 5, &[21])]);
    region[10] = 22;
    assert_eq!(Acl::from_bytes(&region), Err(ValidationError::InconsistentLayout));
}

#[test]
fn binary_world_trustee_matches_everyone() {
    // an allow entry for S-1-1-0 (the world group) read from a binary region
    let region = acl_bytes(2, &[ace_bytes(0, 0, 0x7, 1, 1, &[0])]);
    let acl = Acl::from_bytes(&region).unwrap();
    assert_eq!(acl.get_ace(0).unwrap().trustee().id(), "S-1-1-0");
    let who = Trustee::new("S-1-5-21-99".to_string());
    assert_eq!(acl.effective_rights(&who).bits(), 0x7);
}
