use chain_notes::notebooks::NotebookIndex;
use chain_notes::spending::{SpendingAddress, SpendingIndex, SpendingSection, SpendingUtxo};

#[test]
fn get_or_create_is_scoped_by_network_seed_account() {
    let mut ix = NotebookIndex::default();
    assert!(ix.spending("mainnet", 0, 0).is_none());
    ix.spending_mut("mainnet", 0, 0).enabled = true;
    assert!(ix.spending("mainnet", 0, 0).unwrap().enabled);
    // A different network is a different section, even for the same account.
    assert!(ix.spending("testnet4", 0, 0).is_none());
    ix.spending_mut("testnet4", 0, 0);
    assert!(!ix.spending("testnet4", 0, 0).unwrap().enabled);
    // A different account is also separate.
    ix.spending_mut("mainnet", 0, 1).enabled = false;
    assert_eq!(ix.spending_sections().len(), 3);
}

#[test]
fn mark_used_is_idempotent_and_advances_next_index() {
    let mut s = SpendingSection::new("mainnet", 0, 0);
    s.mark_used(SpendingAddress {
        chain: 0,
        index: 0,
        address: "bc1qA".into(),
        spk_hex: "0014aa".into(),
    });
    assert_eq!(s.next_receive, 1);
    assert_eq!(s.next_change, 0);
    s.mark_used(SpendingAddress {
        chain: 1,
        index: 3,
        address: "bc1qC".into(),
        spk_hex: "0014bb".into(),
    });
    assert_eq!(s.next_change, 4);
    // Marking a lower index again never moves a counter back.
    s.mark_used(SpendingAddress {
        chain: 0,
        index: 0,
        address: "bc1qA".into(),
        spk_hex: "0014aa".into(),
    });
    assert_eq!(s.next_receive, 1);
    assert_eq!(s.used.len(), 2);
}

#[test]
fn self_spks_decodes_every_used_address() {
    let mut s = SpendingSection::new("mainnet", 0, 0);
    s.mark_used(SpendingAddress {
        chain: 0,
        index: 0,
        address: "bc1qA".into(),
        spk_hex: "0014aabbccddeeff00112233445566778899aabb".into(),
    });
    s.mark_used(SpendingAddress {
        chain: 1,
        index: 0,
        address: "bc1qB".into(),
        spk_hex: "not-hex".into(), // skipped, never panics
    });
    let spks = s.self_spks();
    assert_eq!(spks.len(), 1);
    assert_eq!(spks[0], hex::decode("0014aabbccddeeff00112233445566778899aabb").unwrap());
}

#[test]
fn apply_spend_drops_inputs_and_adds_change() {
    let mut s = SpendingSection::new("mainnet", 0, 0);
    s.utxos.push(SpendingUtxo { txid: "t1".into(), vout: 0, value: 1000, chain: 0, index: 0 });
    s.utxos.push(SpendingUtxo { txid: "t2".into(), vout: 1, value: 2000, chain: 0, index: 1 });
    s.apply_spend(
        &[("t1".into(), 0)],
        Some(SpendingUtxo { txid: "t3".into(), vout: 0, value: 900, chain: 1, index: 0 }),
    );
    assert_eq!(s.balance(), 2900);
    assert_eq!(s.utxos.len(), 2);
    assert!(s.utxos.iter().any(|u| u.txid == "t3"));
    assert!(!s.utxos.iter().any(|u| u.txid == "t1"));
}

#[test]
fn spending_without_change_only_drops() {
    let mut s = SpendingSection::new("mainnet", 0, 0);
    s.utxos.push(SpendingUtxo { txid: "t1".into(), vout: 0, value: 1000, chain: 0, index: 0 });
    s.utxos.push(SpendingUtxo { txid: "t1".into(), vout: 1, value: 50, chain: 0, index: 0 });
    s.apply_spend(&[("t1".into(), 0), ("t9".into(), 1)], None);
    assert_eq!(s.balance(), 50);
}

#[test]
fn replacing_the_coins_keeps_everything_else() {
    let mut s = SpendingSection::new("signet", 3, 4);
    s.enabled = true;
    s.set_utxos(vec![SpendingUtxo { txid: "a".into(), vout: 2, value: 7, chain: 0, index: 5 }]);
    assert_eq!((s.balance(), s.seed, s.bip_account, s.enabled), (7, 3, 4, true));
    assert!(s.matches("signet", 3, 4));
    assert!(!s.matches("mainnet", 3, 4));
    assert_eq!(SpendingSection::default().network, "");
}
