use chain_notes::coins::{core_utxos, drop_spent, has_outpoint, outpoint_position, UtxoRec};
use chain_notes::hexcodec::{txid_to_display, txid_to_wire};
use chain_notes::ordering::{sort_names, stable_sort};

#[test]
fn transaction_ids_are_reversed_between_wire_and_display() {
    let mut wire = [0u8; 32];
    wire[0] = 0xab;
    wire[31] = 0x01;
    let shown = txid_to_display(&wire);
    assert_eq!(shown, "01".to_string() + &"00".repeat(30) + "ab");
    assert_eq!(txid_to_wire(&shown), Some(wire));
    assert_eq!(txid_to_wire(&shown.to_uppercase()), Some(wire));
}

#[test]
fn malformed_transaction_ids_are_refused() {
    assert_eq!(txid_to_wire(""), None);
    assert_eq!(txid_to_wire(&"0".repeat(63)), None);
    assert_eq!(txid_to_wire(&"0".repeat(66)), None);
    assert_eq!(txid_to_wire(&("g".to_string() + &"0".repeat(63))), None);
}

#[test]
fn spent_coins_are_dropped_by_outpoint() {
    let coin = |t: &str, v: u32| UtxoRec { txid: t.to_string(), vout: v, value: 1 };
    let mut utxos = vec![coin("a", 0), coin("a", 1), coin("b", 0), coin("c", 0)];
    let spent = vec![("a".to_string(), 1), ("c".to_string(), 0), ("b".to_string(), 7)];
    drop_spent(&mut utxos, &spent);
    let left: Vec<(String, u32)> = utxos.iter().map(|u| (u.txid.clone(), u.vout)).collect();
    assert_eq!(left, vec![("a".to_string(), 0), ("b".to_string(), 0)]);
    assert!(has_outpoint(&spent, "c", 0));
    assert!(!has_outpoint(&spent, "c", 1));
    assert_eq!(outpoint_position(&spent, "b", 7), Some(2));
    assert!(core_utxos(&utxos).is_empty());
}

#[test]
fn sorting_is_stable() {
    let mut items = vec!["x", "y", "z", "w"];
    let mut keys = vec![2, 1, 2, 0];
    stable_sort(&mut items, &mut keys);
    assert_eq!(items, vec!["w", "y", "x", "z"]);
}

#[test]
fn names_are_sorted_as_texts() {
    let mut names: Vec<String> =
        vec!["b.json".into(), "a10.json".into(), "é".into(), "a2.json".into(), "".into()];
    sort_names(&mut names);
    assert_eq!(names, vec!["", "a10.json", "a2.json", "b.json", "é"]);
}
