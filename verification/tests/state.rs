use chain_notes::coins::UtxoRec;
use chain_notes::contacts::ContactRec;
use chain_notes::state::{clamp_chunk, has_text, NoteRec, State, DEFAULT_CHUNK, MIN_CHUNK};

fn note(id: &str, from: Option<&str>, height: Option<u64>) -> NoteRec {
    NoteRec {
        id: id.to_string(),
        text: format!("text {id}"),
        private: false,
        txid: "aa".to_string(),
        raw_hex: String::new(),
        fee: 1,
        vsize: 2,
        chunks: 1,
        height,
        blocktime: None,
        status: "pending".to_string(),
        directed: false,
        to: None,
        from: from.map(|f| f.to_string()),
        recipients: vec![],
    }
}

fn ids(list: &[&NoteRec]) -> Vec<String> {
    list.iter().map(|n| n.id.clone()).collect()
}

#[test]
fn a_fresh_state_is_empty_and_on_mainnet() {
    let st = State::default();
    assert_eq!(st.network, "mainnet");
    assert_eq!(st.account, 0);
    assert!(st.notes.is_empty() && st.utxos.is_empty() && st.contacts.is_empty());
    assert_eq!(st.tip_height, None);
    assert_eq!(st.bundle_time, None);
    assert_eq!(st.chunk_override, None);
    assert_eq!(st.balance(), 0);
}

#[test]
fn balance_adds_the_coins_and_malformed_ids_are_not_spent() {
    let mut st = State::default();
    let good = "00".repeat(31) + "0f";
    st.utxos.push(UtxoRec { txid: good.clone(), vout: 2, value: 700 });
    st.utxos.push(UtxoRec { txid: "xyz".to_string(), vout: 0, value: 41 });
    assert_eq!(st.balance(), 741);
    let wire = st.core_utxos();
    assert_eq!(wire.len(), 1);
    assert_eq!(wire[0].txid[0], 0x0f);
    assert_eq!(wire[0].txid[31], 0);
    assert_eq!((wire[0].vout, wire[0].value), (2, 700));
}

#[test]
fn chunk_sizes_are_clamped() {
    assert_eq!(clamp_chunk(None), DEFAULT_CHUNK);
    assert_eq!(clamp_chunk(Some(0)), MIN_CHUNK);
    assert_eq!(clamp_chunk(Some(80)), 80);
    assert_eq!(clamp_chunk(Some(5_000_000)), DEFAULT_CHUNK);
    let mut st = State::default();
    st.chunk_override = Some(19);
    assert_eq!(st.effective_chunk(), 20);
}

#[test]
fn senders_are_counted_newest_activity_first() {
    let mut st = State::default();
    st.notes.push(note("1", None, None));
    st.notes.push(note("2", Some("alice"), None));
    st.notes.push(note("3", Some("bob"), None));
    st.notes.push(note("4", Some("alice"), None));
    let tally = st.senders();
    assert_eq!(
        tally,
        vec![("alice".to_string(), 2), ("bob".to_string(), 1), ("self".to_string(), 1)]
    );
    assert_eq!(State::sender_key(&st.notes[0]), "self");
    assert_eq!(State::sender_key(&st.notes[1]), "alice");
}

#[test]
fn hiding_a_sender_hides_its_notes() {
    let mut st = State::default();
    st.notes.push(note("1", None, Some(5)));
    st.notes.push(note("2", Some("alice"), Some(9)));
    st.set_excluded("alice", true);
    st.set_excluded("alice", true);
    assert_eq!(st.excluded_senders, vec!["alice".to_string()]);
    assert!(st.is_excluded("alice"));
    assert_eq!(ids(&st.listed_notes()), vec!["1"]);
    assert_eq!(st.hidden_senders(&st.senders()), 1);
    st.set_excluded("alice", false);
    assert!(!st.is_excluded("alice"));
    assert_eq!(ids(&st.listed_notes()), vec!["2", "1"]);
    assert_eq!(st.hidden_senders(&st.senders()), 0);
}

#[test]
fn pending_notes_come_first_then_the_highest_blocks() {
    let mut st = State::default();
    st.notes.push(note("low", None, Some(3)));
    st.notes.push(note("p1", None, None));
    st.notes.push(note("high", None, Some(800_000)));
    st.notes.push(note("p2", None, None));
    st.notes.push(note("low2", None, Some(3)));
    st.notes.push(note("odd", None, Some(u64::MAX)));
    assert_eq!(ids(&st.listed_notes()), vec!["p1", "p2", "odd", "high", "low", "low2"]);
}

#[test]
fn note_ids_are_found_by_their_hexadecimal_text() {
    let mut st = State::default();
    st.notes.push(note("0a0bffee", None, None));
    assert!(st.has_note_id(&[0x0a, 0x0b, 0xff, 0xee]));
    assert!(!st.has_note_id(&[0x0a, 0x0b, 0xff, 0xef]));
}

#[test]
fn texts_are_looked_up_exactly() {
    let list = vec!["a".to_string(), "ab".to_string()];
    assert!(has_text(&list, "ab"));
    assert!(!has_text(&list, "abc"));
    assert!(!has_text(&[], ""));
}

#[test]
fn a_cloned_contact_is_the_same() {
    let c = ContactRec { name: "n".to_string(), address: "a".to_string() };
    let d = c.clone();
    assert_eq!((d.name, d.address), (c.name, c.address));
}
