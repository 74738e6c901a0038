use chain_notes::confirm::{
    add_change_script, back_screen, composed_preview, confirm_kind, confirm_self_spks, input_source,
    note_context_line, outside_input_source, prevout_key, ConfirmKind,
};
use chain_notes::notebooks::NotebookIndex;
use chain_notes::psbt::{
    cbor_unwrap_bstr, confirm_note_preview, count_ours, export_text, is_ours, join_warnings,
    network_mismatch, normalize_psbt_bytes, psbt_fee, psbt_note_summary, raw_text,
    same_bytes, signed_summary, NotePart,
};
use chain_notes::spending::{SpendingAddress, SpendingIndex};

fn tx(len: usize) -> Vec<u8> {
    let mut v = b"psbt\xff".to_vec();
    while v.len() < len {
        v.push(v.len() as u8);
    }
    v
}

fn cbor(content: &[u8]) -> Vec<u8> {
    let n = content.len();
    let mut v = if n <= 0x17 {
        vec![0x40 + n as u8]
    } else if n <= 0xff {
        vec![0x58, n as u8]
    } else if n <= 0xffff {
        vec![0x59, (n >> 8) as u8, n as u8]
    } else {
        vec![0x5a, (n >> 24) as u8, (n >> 16) as u8, (n >> 8) as u8, n as u8]
    };
    v.extend_from_slice(content);
    v
}

#[test]
fn byte_strings_unwrap_to_their_content() {
    for n in [0usize, 1, 0x17, 0x18, 0xff, 0x100, 0xffff, 0x10000] {
        let content = vec![7u8; n];
        assert_eq!(cbor_unwrap_bstr(&cbor(&content)), Some(content));
    }
    assert_eq!(cbor_unwrap_bstr(&[0x42, 1, 2, 3]), Some(vec![1, 2]));
}

#[test]
fn broken_byte_strings_are_refused() {
    assert_eq!(cbor_unwrap_bstr(&[]), None);
    assert_eq!(cbor_unwrap_bstr(&[0x42, 1]), None);
    assert_eq!(cbor_unwrap_bstr(&[0x58]), None);
    assert_eq!(cbor_unwrap_bstr(&[0x59, 0]), None);
    assert_eq!(cbor_unwrap_bstr(&[0x5a, 0xff, 0xff, 0xff, 0xff, 1]), None);
    assert_eq!(cbor_unwrap_bstr(&[0x60, 1]), None);
    assert_eq!(cbor_unwrap_bstr(&[0x3f]), None);
}

#[test]
fn a_transaction_is_read_from_every_form() {
    for n in [5usize, 20, 300] {
        let t = tx(n);
        assert_eq!(normalize_psbt_bytes(&t), t);
        assert_eq!(normalize_psbt_bytes(&cbor(&t)), t);
        let text = export_text(&t);
        assert!(text.starts_with("70736274FF"));
        assert_eq!(raw_text(&t), text.to_lowercase());
        assert_eq!(normalize_psbt_bytes(text.as_bytes()), t);
        assert_eq!(normalize_psbt_bytes(text.to_lowercase().as_bytes()), t);
        assert_eq!(normalize_psbt_bytes(format!(" {text}\n").as_bytes()), t);
    }
}

#[test]
fn anything_else_is_left_as_it_is() {
    for data in [&b""[..], &b"psbt"[..], &b"\x42hi"[..], &b"6869"[..], &[0xff, 0xfe][..]] {
        assert_eq!(normalize_psbt_bytes(data), data.to_vec());
    }
}

#[test]
fn the_fee_is_what_inputs_hold_above_outputs() {
    assert_eq!(psbt_fee(&vec![Some(500), None, Some(600)], &vec![100, 900]), 100);
    assert_eq!(psbt_fee(&vec![None], &vec![100]), 0);
    assert_eq!(psbt_fee(&vec![], &vec![]), 0);
}

#[test]
fn the_first_note_of_a_transaction_is_summed_up() {
    assert_eq!(psbt_note_summary(&vec![NotePart::Nothing]), "Note: (no note found)");
    assert_eq!(
        psbt_note_summary(&vec![NotePart::Nothing, NotePart::Sealed, NotePart::Broken]),
        "Note: encrypted"
    );
    assert_eq!(psbt_note_summary(&vec![NotePart::Broken]), "Note: (public)");
    assert_eq!(psbt_note_summary(&vec![NotePart::Body(vec![0xff])]), "Note: (public)");
    assert_eq!(psbt_note_summary(&vec![NotePart::Body("héllo".into())]), "Note: héllo");
    assert_eq!(psbt_note_summary(&vec![NotePart::Body("a\nb".into())]), "Note: a b");
    let lines = "x\n".repeat(30);
    let summary = psbt_note_summary(&vec![NotePart::Body(lines.into_bytes())]);
    assert!(!summary.contains('\n'));
    assert_eq!(summary, "Note: ".to_string() + &"x ".repeat(20));
    let long = "é".repeat(50);
    assert_eq!(
        psbt_note_summary(&vec![NotePart::Body(long.into_bytes())]),
        "Note: ".to_string() + &"é".repeat(40)
    );
}

#[test]
fn the_note_of_a_transaction_is_previewed() {
    assert_eq!(confirm_note_preview(&vec![NotePart::Nothing]), None);
    assert_eq!(
        confirm_note_preview(&vec![NotePart::Sealed]).unwrap(),
        "Private note (encrypted)"
    );
    assert_eq!(confirm_note_preview(&vec![NotePart::Broken]).unwrap(), "(unreadable note)");
    assert_eq!(
        confirm_note_preview(&vec![NotePart::Body(vec![0xff])]).unwrap(),
        "(unreadable note)"
    );
    assert_eq!(confirm_note_preview(&vec![NotePart::Body("hé".into())]).unwrap(), "hé");
}

#[test]
fn our_inputs_are_counted_by_script() {
    let ours = vec![1, 2];
    let scripts = vec![Some(vec![1, 2]), None, Some(vec![1]), Some(vec![1, 2])];
    assert_eq!(count_ours(&scripts, &ours), 2);
    assert!(is_ours(&scripts[0], &ours));
    assert!(!is_ours(&None, &ours));
    assert!(same_bytes(&vec![], &vec![]));
    assert!(!same_bytes(&vec![1], &vec![2]));
}

#[test]
fn a_transaction_for_another_network_is_pointed_out() {
    assert!(network_mismatch(&vec![], true, "mainnet").is_none());
    assert!(network_mismatch(&vec![0, 0], true, "mainnet").is_none());
    assert!(network_mismatch(&vec![0, 1], false, "signet").is_none());
    let m = network_mismatch(&vec![1, 1], true, "mainnet").unwrap();
    assert!(!m.mainnet);
    assert_eq!(
        m.warning,
        "this transaction's key derivation indicates a test network, but the device is set to mainnet - addresses below use the derived network's encoding"
    );
    let m = network_mismatch(&vec![0], false, "signet").unwrap();
    assert!(m.mainnet);
    assert!(m.warning.contains("indicates mainnet, but the device is set to signet"));
    assert_eq!(join_warnings("", "b"), "b");
    assert_eq!(join_warnings("a", "b"), "a; b");
}

#[test]
fn signing_is_summed_up() {
    assert_eq!(
        signed_summary(1, 2, 300, "Note: hi"),
        "Signed 1 of 2 input(s) · fee 300 sats\nNote: hi"
    );
}

fn address(spk_hex: &str) -> SpendingAddress {
    SpendingAddress { chain: 1, index: 0, address: "a".into(), spk_hex: spk_hex.into() }
}

#[test]
fn own_scripts_are_the_notebooks_and_the_wallets() {
    let mut ix = NotebookIndex::default();
    let (own, spending) = confirm_self_spks(&ix, "signet", 0, 0, &vec![vec![9]]);
    assert_eq!((own, spending), (vec![vec![9]], Vec::<Vec<u8>>::new()));
    ix.spending_mut("signet", 0, 0).mark_used(address("0014"));
    let (mut own, mut spending) = confirm_self_spks(&ix, "signet", 0, 0, &vec![vec![9]]);
    assert_eq!((own.clone(), spending.clone()), (vec![vec![9], vec![0, 0x14]], vec![vec![0, 0x14]]));
    add_change_script(&mut own, &mut spending, &address("zz"));
    assert_eq!((own.len(), spending.len()), (2, 1));
    add_change_script(&mut own, &mut spending, &address("0014"));
    assert_eq!((own.len(), spending.len()), (2, 1));
    add_change_script(&mut own, &mut spending, &address("09"));
    assert_eq!((own.len(), spending.len()), (2, 2));
    add_change_script(&mut own, &mut spending, &address("AB"));
    assert_eq!(own[2], vec![0xab]);
}

#[test]
fn inputs_are_named_and_sourced() {
    let mut t = [0u8; 32];
    t[31] = 0x1f;
    assert_eq!(prevout_key(&t, 3), "1f".to_string() + &"00".repeat(31) + ":3");
    assert_eq!(input_source(true, "x"), "Spending wallet");
    assert_eq!(input_source(false, "x"), "Notebook · x");
    assert_eq!(outside_input_source(true), "This notebook");
    assert_eq!(outside_input_source(false), "External funding");
}

#[test]
fn confirmations_know_what_they_are() {
    assert_eq!(note_context_line(true, true, "signet"), "Directed note · signet");
    assert_eq!(note_context_line(false, true, "signet"), "Private note · signet");
    assert_eq!(note_context_line(false, false, "signet"), "Public note · signet");
    assert_eq!(composed_preview(true, "t"), "Private note (encrypted)");
    assert_eq!(composed_preview(false, "t"), "t");
    assert_eq!(confirm_kind("sweep"), ConfirmKind::Sweep);
    assert_eq!(confirm_kind("consolidate"), ConfirmKind::Sweep);
    assert_eq!(confirm_kind("psbt"), ConfirmKind::Psbt);
    assert_eq!(confirm_kind("compose"), ConfirmKind::Compose);
    assert_eq!(confirm_kind(""), ConfirmKind::Compose);
    assert_eq!(back_screen(ConfirmKind::Sweep), 10);
    assert_eq!(back_screen(ConfirmKind::Psbt), 5);
    assert_eq!(back_screen(ConfirmKind::Compose), 3);
}
