use chain_notes::note_view::{
    badge, find_note, hidden_label, note_count_line, note_detail, note_row_meta, pending_exports,
    qr_text, reply_address, reply_set, signed_detail, view_qr,
};
use chain_notes::state::NoteRec;

const LONG: &str = "123456789012345678";

fn note() -> NoteRec {
    NoteRec {
        id: "01".into(),
        text: "t".into(),
        private: false,
        txid: "feed".into(),
        raw_hex: "02ab".into(),
        fee: 300,
        vsize: 150,
        chunks: 0,
        height: None,
        blocktime: None,
        status: "pending".into(),
        directed: false,
        to: None,
        from: None,
        recipients: vec![],
    }
}

#[test]
fn notes_are_listed_with_where_they_stand() {
    let mut n = note();
    assert_eq!(note_row_meta(&n), "pending · fee 300 sats");
    n.height = Some(9);
    assert_eq!(note_row_meta(&n), "block 9 · 1 chunk(s)");
    n.chunks = 4;
    n.to = Some(LONG.into());
    assert_eq!(note_row_meta(&n), "block 9 · 4 chunk(s) · to 12345678…345678");
    n.from = Some("bob".into());
    assert_eq!(note_row_meta(&n), "block 9 · 4 chunk(s) · from bob");
    assert_eq!(badge(true), "PRIVATE");
    assert_eq!(badge(false), "PUBLIC");
    assert_eq!(note_count_line(3), "3 note(s)");
    assert_eq!(hidden_label(0), "");
    assert_eq!(hidden_label(2), "2 sender(s) hidden");
}

#[test]
fn open_notes_show_who_they_are_from_or_to() {
    let mut n = note();
    assert_eq!(
        note_detail(&n),
        "pending — scan the tx QR with the companion to broadcast\ntxid: feed"
    );
    n.height = Some(9);
    n.to = Some("a".into());
    assert_eq!(note_detail(&n), "confirmed at block 9\nto: a\ntxid: feed");
    n.from = Some("b".into());
    assert_eq!(note_detail(&n), "confirmed at block 9\nfrom: b\ntxid: feed");
    n.recipients = vec!["a".into()];
    assert_eq!(note_detail(&n), "confirmed at block 9\nfrom: b\ntxid: feed");
    n.recipients = vec!["a".into(), "c".into(), "d".into()];
    assert_eq!(note_detail(&n), "confirmed at block 9\nto (3): a\n    c\n    d\ntxid: feed");
    assert_eq!(
        signed_detail(&n),
        "pending — scan the QR with the companion, or broadcast feed.hex\nfee 300 sats · 150 vB"
    );
}

#[test]
fn answers_go_to_everybody_else_once() {
    let mut n = note();
    assert!(reply_set(&n, Some("me")).is_empty());
    assert_eq!(reply_address(&n, &vec![]), "");
    n.to = Some("a".into());
    assert_eq!(reply_set(&n, Some("me")), vec!["a"]);
    assert_eq!(reply_address(&n, &reply_set(&n, Some("me"))), "a");
    n.from = Some("b".into());
    n.recipients = vec!["me".into(), "a".into(), "b".into(), "a".into()];
    assert_eq!(reply_set(&n, Some("me")), vec!["b", "a"]);
    assert_eq!(reply_set(&n, None), vec!["b", "me", "a"]);
    assert_eq!(reply_address(&n, &reply_set(&n, Some("me"))), "b");
    n.from = None;
    assert_eq!(reply_set(&n, Some("me")), vec!["a", "b"]);
    assert_eq!(reply_address(&n, &reply_set(&n, Some("me"))), "");
}

#[test]
fn pending_notes_show_a_code_where_it_fits() {
    let mut n = note();
    assert_eq!(view_qr(&n), Some("02AB".to_string()));
    n.raw_hex = "a".repeat(4000);
    assert_eq!(view_qr(&n), Some("A".repeat(4000)));
    n.raw_hex = "a".repeat(4001);
    assert_eq!(view_qr(&n), None);
    assert_eq!(qr_text(&n.raw_hex), None);
    n.raw_hex = String::new();
    assert_eq!(view_qr(&n), None);
    n.raw_hex = "aa".into();
    n.status = "confirmed".into();
    assert_eq!(view_qr(&n), None);
}

#[test]
fn notes_are_found_by_id() {
    let mut other = note();
    other.id = "02".into();
    let notes = vec![note(), other, note()];
    assert_eq!(find_note(&notes, "02"), Some(1));
    assert_eq!(find_note(&notes, "01"), Some(0));
    assert_eq!(find_note(&notes, "03"), None);
}

#[test]
fn only_pending_transactions_are_exported() {
    let mut done = note();
    done.status = "confirmed".into();
    let mut bare = note();
    bare.raw_hex = String::new();
    let mut last = note();
    last.id = "04".into();
    let notes = vec![note(), done, bare, last];
    let ids: Vec<&str> = pending_exports(&notes).iter().map(|n| n.id.as_str()).collect();
    assert_eq!(ids, vec!["01", "04"]);
}
