use chain_notes::coins::UtxoRec;
use chain_notes::hexcodec::txid_to_display;
use chain_notes::notebooks::NotebookIndex;
use chain_notes::sign::{display_outpoints, sign_note, Plan, SignedTx};
use chain_notes::spending::{SpendingAddress, SpendingIndex, SpendingUtxo};
use chain_notes::state::State;

fn plan(change: u64, spent: Vec<([u8; 32], u32)>) -> Plan {
    Plan {
        note: SignedTx {
            txid_hex: "feed".into(),
            raw_hex: "0200".into(),
            fee: 300,
            vsize: 150,
            change,
            spent_outpoints: spent,
        },
        text: "hi".into(),
        private: true,
        note_id: [0xde, 0xad, 0xbe, 0xef],
        chunks: 2,
        recipients: vec![],
        spending_spent: vec![],
        spending_change_addr: None,
        change_is_notebook: true,
        notebook_dust: false,
    }
}

fn coin(txid: String, vout: u32, value: u64) -> UtxoRec {
    UtxoRec { txid, vout, value }
}

fn triples(st: &State) -> Vec<(String, u32, u64)> {
    st.utxos.iter().map(|u| (u.txid.clone(), u.vout, u.value)).collect()
}

#[test]
fn a_note_to_oneself_spends_and_gets_change_behind_its_payloads() {
    let a = [1u8; 32];
    let b = [2u8; 32];
    let mut st = State::default();
    st.utxos.push(coin(txid_to_display(&a), 0, 1000));
    st.utxos.push(coin(txid_to_display(&b), 0, 70));
    let mut ix = NotebookIndex::default();
    let touched =
        sign_note(&mut st, &mut ix, "mainnet", 0, 0, plan(700, vec![(a, 0), (b, 9)]), 330);
    assert!(!touched);
    assert_eq!(
        triples(&st),
        vec![(txid_to_display(&b), 0, 70), ("feed".to_string(), 2, 700)]
    );
    assert!(ix.spending_sections().is_empty());
    let n = &st.notes[0];
    assert_eq!(n.id, "deadbeef");
    assert_eq!((n.text.as_str(), n.private, n.status.as_str()), ("hi", true, "pending"));
    assert_eq!((n.txid.as_str(), n.raw_hex.as_str()), ("feed", "0200"));
    assert_eq!((n.fee, n.vsize, n.chunks), (300, 150, 2));
    assert_eq!((n.height, n.blocktime, n.directed), (None, None, false));
    assert_eq!((n.to.clone(), n.from.clone()), (None, None));
    assert!(n.recipients.is_empty() && st.contacts.is_empty());
}

#[test]
fn recipients_come_before_the_dust_coin_and_the_change() {
    let mut p = plan(700, vec![]);
    p.recipients = vec!["r1".into(), "r2".into()];
    p.notebook_dust = true;
    let mut st = State::default();
    let mut ix = NotebookIndex::default();
    sign_note(&mut st, &mut ix, "mainnet", 0, 0, p, 330);
    assert_eq!(
        triples(&st),
        vec![("feed".to_string(), 4, 330), ("feed".to_string(), 5, 700)]
    );
    let n = &st.notes[0];
    assert!(n.directed);
    assert_eq!(n.to, Some("r1".to_string()));
    assert_eq!(n.recipients, vec!["r1", "r2"]);
    let used: Vec<&str> = st.contacts.iter().map(|c| c.address.as_str()).collect();
    assert_eq!(used, vec!["r2", "r1"]);
}

#[test]
fn change_to_the_spending_wallet_is_recorded_there() {
    let mut ix = NotebookIndex::default();
    let s = ix.spending_mut("signet", 1, 2);
    s.set_utxos(vec![
        SpendingUtxo { txid: "s".into(), vout: 0, value: 900, chain: 0, index: 0 },
        SpendingUtxo { txid: "t".into(), vout: 0, value: 5, chain: 0, index: 1 },
    ]);
    let mut p = plan(400, vec![]);
    p.spending_spent = vec![("s".into(), 0)];
    p.spending_change_addr = Some(SpendingAddress {
        chain: 1,
        index: 6,
        address: "bc1qc".into(),
        spk_hex: "0014".into(),
    });
    p.change_is_notebook = false;
    p.notebook_dust = true;
    let mut st = State::default();
    assert!(sign_note(&mut st, &mut ix, "signet", 1, 2, p, 330));
    assert_eq!(triples(&st), vec![("feed".to_string(), 2, 330)]);
    let s = ix.spending("signet", 1, 2).unwrap();
    assert_eq!(s.next_change, 7);
    assert_eq!(s.used.len(), 1);
    let coins: Vec<(String, u32, u64)> =
        s.utxos.iter().map(|u| (u.txid.clone(), u.vout, u.value)).collect();
    assert_eq!(coins, vec![("t".to_string(), 0, 5), ("feed".to_string(), 3, 400)]);
    assert_eq!((s.utxos[1].chain, s.utxos[1].index), (1, 6));
}

#[test]
fn an_unused_change_address_is_not_used_up() {
    let mut ix = NotebookIndex::default();
    let mut p = plan(0, vec![]);
    p.spending_change_addr = Some(SpendingAddress {
        chain: 1,
        index: 6,
        address: "bc1qc".into(),
        spk_hex: "0014".into(),
    });
    p.change_is_notebook = false;
    let mut st = State::default();
    assert!(sign_note(&mut st, &mut ix, "signet", 1, 2, p, 330));
    let s = ix.spending("signet", 1, 2).unwrap();
    assert_eq!((s.next_change, s.used.len(), s.utxos.len()), (0, 0, 0));
    assert!(st.utxos.is_empty());
}

#[test]
fn change_to_an_outside_address_is_not_recorded() {
    let mut p = plan(400, vec![]);
    p.change_is_notebook = false;
    let mut st = State::default();
    sign_note(&mut st, &mut NotebookIndex::default(), "signet", 1, 2, p, 330);
    assert!(st.utxos.is_empty());
}

#[test]
fn outpoints_are_displayed_reversed() {
    let mut t = [0u8; 32];
    t[0] = 0xaa;
    assert_eq!(display_outpoints(&vec![(t, 7)]), vec![("00".repeat(31) + "aa", 7)]);
}
