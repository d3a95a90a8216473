use sddl_acl::ace::{AceType, ACE_FLAG_CONTAINER_INHERIT, ACE_FLAG_INHERITED,
    ACE_FLAG_OBJECT_INHERIT};
use sddl_acl::eval::effective_rights;
use sddl_acl::parser::{parse_sddl, SddlError};
use sddl_acl::sddl::{CTRL_DACL_AUTO_INHERIT_REQ, CTRL_DACL_PROTECTED, CTRL_SACL_AUTO_INHERITED};
use sddl_acl::serializer::serialize_sddl;
use sddl_acl::trustee::Trustee;

#[test]
fn absence_distinct_from_empty() {
    let sd = parse_sddl("D:").unwrap();
    assert!(sd.dacl().is_some());
    assert_eq!(sd.dacl().unwrap().len(), 0);
    assert!(sd.sacl().is_none());

    let sd = parse_sddl("S:").unwrap();
    assert!(sd.sacl().is_some());
    assert_eq!(sd.sacl().unwrap().len(), 0);
    assert!(sd.dacl().is_none());

    let sd = parse_sddl("").unwrap();
    assert!(sd.owner().is_none());
    assert!(sd.group().is_none());
    assert!(sd.dacl().is_none());
    assert!(sd.sacl().is_none());
}

#[test]
fn owner_and_group() {
    let sd = parse_sddl("O:BAG:S-1-5-32-544").unwrap();
    assert_eq!(sd.owner().unwrap().id(), "BA");
    assert_eq!(sd.group().unwrap().id(), "S-1-5-32-544");
}

#[test]
fn masks_and_flags() {
    let sd = parse_sddl("D:(A;;GA;;;WD)").unwrap();
    let ace = sd.dacl().unwrap().get_ace(0).unwrap();
    assert_eq!(ace.access_mask().bits(), 0x10000000);

    let sd = parse_sddl("D:(A;;GARC;;;WD)").unwrap();
    let ace = sd.dacl().unwrap().get_ace(0).unwrap();
    assert_eq!(ace.access_mask().bits(), 0x10020000);

    let sd = parse_sddl("D:(A;;0x1F01ff;;;WD)").unwrap();
    let ace = sd.dacl().unwrap().get_ace(0).unwrap();
    assert_eq!(ace.access_mask().bits(), 0x001F01FF);

    let sd = parse_sddl("D:(A;OICIID;0x1;;;WD)").unwrap();
    let ace = sd.dacl().unwrap().get_ace(0).unwrap();
    assert_eq!(
        ace.flags().bits(),
        ACE_FLAG_OBJECT_INHERIT | ACE_FLAG_CONTAINER_INHERIT | ACE_FLAG_INHERITED
    );
    assert!(ace.flags().is_inherited());
}

#[test]
fn control_tokens() {
    let sd = parse_sddl("D:PAR(A;;0x1;;;WD)S:AI").unwrap();
    assert_eq!(
        sd.control(),
        CTRL_DACL_PROTECTED | CTRL_DACL_AUTO_INHERIT_REQ | CTRL_SACL_AUTO_INHERITED
    );
}

#[test]
fn wrong_section_entry_kinds() {
    let err = parse_sddl("D:(AU;;;;;WD)").unwrap_err();
    assert!(matches!(err, SddlError::UnsupportedEntryForSection));
    let err = parse_sddl("S:(A;;;;;WD)").unwrap_err();
    assert!(matches!(err, SddlError::UnsupportedEntryForSection));
    let err = parse_sddl("D:(AL;;;;;WD)").unwrap_err();
    assert!(matches!(err, SddlError::UnsupportedEntryForSection));
}

#[test]
fn malformed_inputs() {
    assert!(matches!(parse_sddl("X:").unwrap_err(), SddlError::Malformed { .. }));
    assert!(matches!(parse_sddl("D:(A;;").unwrap_err(), SddlError::Malformed { .. }));
    assert!(matches!(parse_sddl("D:(A;;;;;wd)").unwrap_err(), SddlError::Malformed { .. }));
    assert!(matches!(parse_sddl("D:(A;;0xZZ;;;WD)").unwrap_err(), SddlError::Malformed { .. }));
    assert!(matches!(parse_sddl("D:(A;;;x;;WD)").unwrap_err(), SddlError::Malformed { .. }));
    assert!(matches!(parse_sddl("D:(A;;;;;S--1)").unwrap_err(), SddlError::Malformed { .. }));
    assert!(matches!(parse_sddl("O:BAO:BA").unwrap_err(), SddlError::Malformed { .. }));
    assert!(matches!(parse_sddl("D:(A;;0x100000000;;;WD)").unwrap_err(),
        SddlError::Malformed { .. }));
    // atomicity: nothing half-parsed escapes, the call just errors
    assert!(parse_sddl("O:BAD:(A;;;;;WD)(").is_err());
}

#[test]
fn round_trip_field_equal() {
    let inputs = [
        "O:BAG:SYD:PAR(A;OICI;0x1200a9;;;WD)(D;;GA;;;S-1-5-18)S:AI(AU;SAFA;0x10;;;WD)",
        "D:",
        "S:(AU;;;;;WD)(AL;ID;0xFF;;;S-1-0-0)",
        "O:S-1-5-21-1-2-3",
        "G:AU",
        "D:P(D;;WD;;;BA)(A;;0x0;;;WD)",
    ];
    for s in inputs {
        let sd1 = parse_sddl(s).unwrap();
        let text = serialize_sddl(&sd1);
        let sd2 = parse_sddl(&text).unwrap();
        assert_eq!(sd1, sd2);
    }
}

#[test]
fn serialize_canonical_text() {
    // the serializer rewrites masks in hexadecimal and keeps entry order
    let sd = parse_sddl("D:(A;;;;;WD)").unwrap();
    assert_eq!(serialize_sddl(&sd), "D:(A;;0x0;;;WD)");
    let sd = parse_sddl("S:D:(D;;GA;;;S-1-5-7)(A;CIOI;0x2;;;BA)").unwrap();
    assert_eq!(serialize_sddl(&sd), "D:(D;;0x10000000;;;S-1-5-7)(A;OICI;0x2;;;BA)S:");
}

#[test]
fn deny_wins_over_allow() {
    // an explicit deny for 0x3, then an explicit allow for a superset
    let sd = parse_sddl("D:(D;;0x3;;;WD)(A;;0xF;;;WD)").unwrap();
    let who = Trustee::new("WD".to_string());
    let r = sd.dacl().unwrap().effective_rights(&who);
    assert_eq!(r.bits() & 0x3, 0);
    assert_eq!(r.bits(), 0xC);
}

#[test]
fn explicit_before_inherited_regardless_of_position() {
    // the inherited allow comes first in the text, the explicit deny still wins
    let sd = parse_sddl("D:(A;ID;0x1;;;WD)(D;;0x1;;;WD)").unwrap();
    let who = Trustee::new("WD".to_string());
    let r = sd.dacl().unwrap().effective_rights(&who);
    assert_eq!(r.bits(), 0);

    // but an inherited allow for other bits still contributes
    let sd = parse_sddl("D:(A;ID;0x6;;;WD)(D;;0x2;;;WD)").unwrap();
    let r = sd.dacl().unwrap().effective_rights(&who);
    assert_eq!(r.bits(), 0x4);
}

#[test]
fn empty_or_absent_dacl_rights() {
    let who = Trustee::new("WD".to_string());
    let sd = parse_sddl("D:").unwrap();
    assert_eq!(effective_rights(sd.dacl(), &who).bits(), 0);
    let sd = parse_sddl("").unwrap();
    assert!(sd.dacl().is_none());
    assert_eq!(effective_rights(sd.dacl(), &who).bits(), 0);
}

#[test]
fn no_matching_entries_no_rights() {
    let sd = parse_sddl("D:(A;;0xFF;;;S-1-5-7)(D;;0x1;;;BA)").unwrap();
    let who = Trustee::new("S-1-5-8".to_string());
    assert_eq!(sd.dacl().unwrap().effective_rights(&who).bits(), 0);
}

#[test]
fn everyone_entry_matches_any_trustee() {
    let sd = parse_sddl("D:(A;;0x7;;;WD)").unwrap();
    let who = Trustee::new("S-1-5-21-1".to_string());
    assert_eq!(sd.dacl().unwrap().effective_rights(&who).bits(), 0x7);

    // membership is one way: a specific entry does not match the world trustee
    let sd = parse_sddl("D:(A;;0x7;;;S-1-5-21-1)").unwrap();
    let who = Trustee::new("WD".to_string());
    assert_eq!(sd.dacl().unwrap().effective_rights(&who).bits(), 0);
}

#[test]
fn audit_entries_ignored_by_evaluator() {
    let sd = parse_sddl("S:(AU;;0xFF;;;WD)").unwrap();
    let who = Trustee::new("WD".to_string());
    assert_eq!(sd.sacl().unwrap().effective_rights(&who).bits(), 0);
}
