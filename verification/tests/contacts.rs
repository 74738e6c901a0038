use chain_notes::contacts::{
    contact_label, contact_name, name_contact, sender_label, to_label_for, upsert_contact,
    upsert_contacts, ContactRec, MAX_CONTACTS,
};
use chain_notes::state::State;

const LONG: &str = "tb1p8wpt9v4frpf3tkn0srd97pksgsxc5hs52lafxwru9kgeephvs7rqlqt9zj";

fn addresses(st: &State) -> Vec<String> {
    st.contacts.iter().map(|c| c.address.clone()).collect()
}

#[test]
fn a_used_address_moves_to_the_front_with_its_name() {
    let mut st = State::default();
    upsert_contact(&mut st, "a");
    upsert_contact(&mut st, "b");
    upsert_contact(&mut st, "c");
    assert_eq!(addresses(&st), vec!["c", "b", "a"]);
    name_contact(&mut st, "a", "  Ann ");
    assert_eq!(addresses(&st), vec!["c", "b", "a"]);
    upsert_contact(&mut st, "a");
    assert_eq!(addresses(&st), vec!["a", "c", "b"]);
    assert_eq!(st.contacts[0].name, "Ann");
    assert_eq!(st.contacts[1].name, "");
}

#[test]
fn using_an_address_twice_is_using_it_once() {
    let mut st = State::default();
    upsert_contacts(&mut st, &vec!["a".to_string(), "b".to_string()]);
    let once = addresses(&st);
    upsert_contact(&mut st, "b");
    assert_eq!(addresses(&st), once);
    assert_eq!(once, vec!["b", "a"]);
}

#[test]
fn only_the_latest_contacts_are_remembered() {
    let mut st = State::default();
    for i in 0..25 {
        upsert_contact(&mut st, &format!("addr{i}"));
    }
    assert_eq!(st.contacts.len(), MAX_CONTACTS);
    assert_eq!(st.contacts[0].address, "addr24");
    assert_eq!(st.contacts[19].address, "addr5");
}

#[test]
fn naming_an_unknown_address_changes_nothing() {
    let mut st = State::default();
    upsert_contact(&mut st, "a");
    name_contact(&mut st, "zzz", "Zed");
    assert_eq!(st.contacts.len(), 1);
    assert_eq!(st.contacts[0].name, "");
    assert_eq!(contact_name(&st.contacts, "a"), None);
}

#[test]
fn recipients_are_labelled_by_name_and_short_address() {
    let mut st = State::default();
    assert_eq!(to_label_for(&st, ""), "to: self — my notebook");
    assert_eq!(to_label_for(&st, "short"), "to: short");
    assert_eq!(to_label_for(&st, LONG), "to: tb1p8wpt…lqt9zj");
    upsert_contact(&mut st, LONG);
    assert_eq!(to_label_for(&st, LONG), "to: tb1p8wpt…lqt9zj");
    name_contact(&mut st, LONG, "Bob");
    assert_eq!(to_label_for(&st, LONG), "to: Bob (tb1p8wpt…lqt9zj)");
    assert_eq!(contact_name(&st.contacts, LONG), Some("Bob".to_string()));
}

#[test]
fn contacts_and_senders_are_listed_by_name_or_address() {
    let mut st = State::default();
    upsert_contact(&mut st, LONG);
    assert_eq!(contact_label(&st.contacts[0]), "tb1p8wpt…lqt9zj");
    assert_eq!(sender_label(&st, LONG), "tb1p8wpt…lqt9zj");
    assert_eq!(sender_label(&st, "self"), "Self");
    name_contact(&mut st, LONG, "Bob");
    assert_eq!(contact_label(&st.contacts[0]), "Bob");
    assert_eq!(sender_label(&st, LONG), "Bob");
    assert_eq!(contact_label(&ContactRec { name: String::new(), address: "x".into() }), "x");
}
