use chain_notes::recipients::{
    lower_address, pick_action, pick_problem, remove_recipient, resolve_scanned, scanned_address,
    PickAction,
};

#[test]
fn scanned_codes_name_an_address() {
    assert_eq!(scanned_address(b"  bc1qxyz \n"), "bc1qxyz");
    assert_eq!(scanned_address(b"bitcoin:bc1qxyz?amount=1"), "bc1qxyz");
    assert_eq!(scanned_address(b"BITCOIN:BC1QXYZ"), "BC1QXYZ");
    assert_eq!(scanned_address(b"bitcoin: bc1q ?x?y"), "bc1q");
    assert_eq!(scanned_address(b"litecoin:q"), "litecoin:q");
    assert_eq!(scanned_address(&[0xff, 0xfe]), "");
    assert_eq!(scanned_address(b"?x"), "");
    assert_eq!(scanned_address("1234567é?x".as_bytes()), "1234567é");
}

#[test]
fn scanned_addresses_are_tried_in_lower_case() {
    assert_eq!(lower_address("BC1QXyZ9"), "bc1qxyz9");
    let pick = |valid, lower_valid| resolve_scanned("A".into(), valid, "a".into(), lower_valid);
    assert_eq!(pick(true, true), Some("A".to_string()));
    assert_eq!(pick(false, true), Some("a".to_string()));
    assert_eq!(pick(false, false), None);
}

#[test]
fn picking_starts_a_note_or_a_sweep() {
    let none = vec![];
    assert_eq!(pick_action("", false, false, false, "", &none), PickAction::ComposeSelf);
    assert_eq!(pick_action("", true, false, false, "", &none), PickAction::Ignore);
    assert_eq!(pick_action("a", false, false, true, "", &none), PickAction::Compose);
    assert_eq!(pick_action("a", true, true, true, "", &none), PickAction::Sweep);
    assert_eq!(pick_action("a", true, false, false, "", &none), PickAction::RefuseInvalid);
    assert_eq!(pick_action("a", false, false, false, "", &none), PickAction::RefuseInvalid);
}

#[test]
fn extra_recipients_are_added_within_bounds() {
    let extra = vec!["b".to_string()];
    assert_eq!(pick_action("", false, true, false, "a", &extra), PickAction::RefuseSelf);
    assert_eq!(pick_action("x", false, true, false, "a", &extra), PickAction::RefuseInvalid);
    assert_eq!(pick_action("a", false, true, true, "a", &extra), PickAction::RefuseDuplicate);
    assert_eq!(pick_action("b", false, true, true, "a", &extra), PickAction::RefuseDuplicate);
    assert_eq!(pick_action("c", false, true, true, "a", &extra), PickAction::AddExtra);
    let many: Vec<String> = (0..253).map(|i| format!("r{i}")).collect();
    assert_eq!(pick_action("c", false, true, true, "a", &many), PickAction::AddExtra);
    let full: Vec<String> = (0..254).map(|i| format!("r{i}")).collect();
    assert_eq!(pick_action("c", false, true, true, "a", &full), PickAction::RefuseTooMany);
    assert_eq!(remove_recipient(&extra, "b"), Vec::<String>::new());
    assert_eq!(remove_recipient(&extra, "c"), extra);
}

#[test]
fn refused_picks_are_explained() {
    assert_eq!(
        pick_problem(PickAction::RefuseSelf, "signet").unwrap(),
        "Can't add yourself as an extra recipient."
    );
    assert_eq!(
        pick_problem(PickAction::RefuseInvalid, "signet").unwrap(),
        "Not a valid signet address."
    );
    assert_eq!(
        pick_problem(PickAction::RefuseDuplicate, "signet").unwrap(),
        "Already a recipient of this note."
    );
    assert_eq!(
        pick_problem(PickAction::RefuseTooMany, "signet").unwrap(),
        "Too many recipients (max 255)."
    );
    assert_eq!(pick_problem(PickAction::Compose, "signet"), None);
}
