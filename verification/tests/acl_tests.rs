use sddl_acl::ace::{Ace, AceFlags, AceType, ACE_FLAG_INHERITED};
use sddl_acl::acl::{Acl, ACL_REVISION};
use sddl_acl::parser::parse_sddl;
use sddl_acl::rights::AccessRights;
use sddl_acl::trustee::Trustee;

#[test]
fn get_len() {
    let limit = 100;

    for dacl_count in 0..limit {
        let sacl_count = limit - dacl_count - 1;

        // Looks like "D:(A;;;;;WD)(A;;;;;WD)(...)S:(AU;;;;;WD)(...)"
        // A (allow) isn't valid for SACLs, AU (audit) is valid
        let mut sddl_string = String::new();
        sddl_string.push_str("D:");
        sddl_string.push_str(&"(A;;;;;WD)".repeat(dacl_count));
        sddl_string.push_str("S:");
        sddl_string.push_str(&"(AU;;;;;WD)".repeat(sacl_count));

        let sd = parse_sddl(&sddl_string).unwrap();

        assert_eq!(sd.dacl().unwrap().len(), dacl_count as u32);
        assert_eq!(sd.sacl().unwrap().len(), sacl_count as u32);
    }
}

#[test]
fn get_from_sddl() {
    let mut sddl = "D:".to_string();
    let limit = 10;

    for i in 0..limit {
        sddl.push_str(&format!("(A;;;;;S-1-5-{})", i));
    }

    let sd = parse_sddl(&sddl).unwrap();
    let dacl = sd.dacl().unwrap();

    // Try to get each one
    for i in 0..limit {
        let ace = dacl.get_ace(i).unwrap();
        assert_eq!(ace.ace_type(), AceType::AccessAllowed);
    }

    // Off the end
    assert!(dacl.get_ace(limit).is_none());
}

#[test]
fn from_entries_keeps_order_and_bounds() {
    let mk = |id: &str, mask: u32| {
        Ace::new(
            AceType::AccessAllowed,
            AceFlags::new(0),
            AccessRights::new(mask),
            Trustee::new(id.to_string()),
        )
    };
    let entries = vec![mk("WD", 1), mk("BA", 2), mk("SY", 3)];
    let acl = Acl::from_entries(ACL_REVISION, entries);
    assert_eq!(acl.len(), 3);
    assert_eq!(acl.revision(), ACL_REVISION);
    assert_eq!(acl.get_ace(0).unwrap().trustee().id(), "WD");
    assert_eq!(acl.get_ace(1).unwrap().trustee().id(), "BA");
    assert_eq!(acl.get_ace(2).unwrap().trustee().id(), "SY");
    assert_eq!(acl.get_ace(1).unwrap().access_mask().bits(), 2);
    assert!(acl.get_ace(3).is_none());
    assert!(acl.get_ace(u32::MAX).is_none());
}

#[test]
fn ace_accessors() {
    let ace = Ace::new(
        AceType::AccessDenied,
        AceFlags::new(ACE_FLAG_INHERITED),
        AccessRights::new(0xFF),
        Trustee::new("S-1-5-18".to_string()),
    );
    assert_eq!(ace.ace_type(), AceType::AccessDenied);
    assert!(ace.flags().is_inherited());
    assert_eq!(ace.flags().bits(), ACE_FLAG_INHERITED);
    assert_eq!(ace.access_mask().bits(), 0xFF);
    assert_eq!(ace.trustee().id(), "S-1-5-18");
}

#[test]
fn trustee_matching() {
    let wd = Trustee::new("WD".to_string());
    let everyone_sid = Trustee::new("S-1-1-0".to_string());
    let ba = Trustee::new("BA".to_string());
    let other = Trustee::new("S-1-5-21-7".to_string());
    assert!(wd.matches(&other));
    assert!(everyone_sid.matches(&other));
    assert!(wd.matches(&wd));
    assert!(!ba.matches(&other));
    assert!(ba.matches(&ba));
    assert!(!other.matches(&wd));
    assert!(ba.equals(&ba));
    assert!(!ba.equals(&other));
}

#[test]
fn rights_operations() {
    let a = AccessRights::new(0b1100);
    let b = AccessRights::new(0b1010);
    assert_eq!(a.union(b).bits(), 0b1110);
    assert_eq!(a.intersect(b).bits(), 0b1000);
    assert!(AccessRights::empty().is_empty());
    assert!(!a.is_empty());
}
