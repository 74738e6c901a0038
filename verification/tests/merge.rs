use chain_notes::merge::{merge_notes, RecoveredNote};
use chain_notes::state::NoteRec;

fn recovered(id: u8, sender: Option<&str>, height: Option<u64>) -> RecoveredNote {
    RecoveredNote {
        note_id: [0, 0, 0, id],
        text: Some(format!("text {id}")),
        private: false,
        txids: vec!["t1".into(), "t2".into()],
        height,
        blocktime: height.map(|h| h * 10),
        directed: sender.is_some(),
        received: sender.is_some(),
        recipient: None,
        sender: sender.map(|s| s.to_string()),
        recipients: vec!["me".into()],
    }
}

fn key_and_height(notes: &[NoteRec]) -> Vec<(String, Option<String>, Option<u64>, String)> {
    notes.iter().map(|n| (n.id.clone(), n.from.clone(), n.height, n.status.clone())).collect()
}

#[test]
fn recovered_notes_are_recorded() {
    let mut notes = vec![];
    let counts = merge_notes(&mut notes, &vec![recovered(1, Some("bob"), Some(7))]);
    assert_eq!(counts, (1, 1));
    let n = &notes[0];
    assert_eq!(n.id, "00000001");
    assert_eq!((n.text.as_str(), n.txid.as_str(), n.raw_hex.as_str()), ("text 1", "t1", ""));
    assert_eq!((n.fee, n.vsize, n.chunks), (0, 0, 0));
    assert_eq!((n.height, n.blocktime, n.status.as_str()), (Some(7), Some(70), "confirmed"));
    assert_eq!((n.directed, n.from.clone(), n.to.clone()), (true, Some("bob".to_string()), None));
    assert_eq!(n.recipients, vec!["me"]);
}

#[test]
fn sealed_notes_are_recorded_as_such() {
    let mut own = recovered(1, None, None);
    own.text = None;
    own.txids = vec![];
    let mut theirs = recovered(2, Some("bob"), None);
    theirs.text = None;
    let mut notes = vec![];
    assert_eq!(merge_notes(&mut notes, &vec![own, theirs]), (2, 1));
    assert_eq!(notes[0].text, "(sealed under another key)");
    assert_eq!(notes[0].txid, "");
    assert_eq!(notes[0].status, "pending");
    assert_eq!(notes[1].text, "(directed note — could not decrypt)");
}

#[test]
fn a_received_note_never_overwrites_an_own_note() {
    let mut notes = vec![];
    merge_notes(&mut notes, &vec![recovered(1, None, None)]);
    notes[0].text = "mine".into();
    let counts = merge_notes(
        &mut notes,
        &vec![recovered(1, Some("bob"), Some(5)), recovered(1, Some("eve"), None)],
    );
    assert_eq!(counts, (2, 2));
    assert_eq!(
        key_and_height(&notes),
        vec![
            ("00000001".into(), None, None, "pending".into()),
            ("00000001".into(), Some("bob".into()), Some(5), "confirmed".into()),
            ("00000001".into(), Some("eve".into()), None, "pending".into()),
        ]
    );
    assert_eq!(notes[0].text, "mine");
}

#[test]
fn a_known_note_is_confirmed_and_keeps_its_text() {
    let mut notes = vec![];
    merge_notes(&mut notes, &vec![recovered(1, None, None)]);
    notes[0].text = "mine".into();
    notes[0].raw_hex = "02".into();
    assert_eq!(merge_notes(&mut notes, &vec![recovered(1, None, Some(9))]), (0, 0));
    assert_eq!((notes[0].text.as_str(), notes[0].raw_hex.as_str()), ("mine", "02"));
    assert_eq!((notes[0].height, notes[0].blocktime), (Some(9), Some(90)));
    assert_eq!(notes[0].status, "confirmed");
    merge_notes(&mut notes, &vec![recovered(1, None, None)]);
    assert_eq!((notes[0].height, notes[0].blocktime), (Some(9), Some(90)));
}

#[test]
fn merging_the_same_twice_changes_nothing() {
    let rs = vec![
        recovered(1, None, Some(9)),
        recovered(2, Some("bob"), None),
        recovered(1, None, Some(8)),
        recovered(2, Some("bob"), Some(4)),
        recovered(1, None, None),
    ];
    let mut notes = vec![];
    assert_eq!(merge_notes(&mut notes, &rs), (2, 2));
    let once = key_and_height(&notes);
    assert_eq!(merge_notes(&mut notes, &rs), (0, 2));
    assert_eq!(key_and_height(&notes), once);
    assert_eq!(once[0].2, Some(8));
}
