use chain_notes::change::DerivedAddress;
use chain_notes::import::{
    apply_import, import_line, import_owners, network_problem, BundleUtxo, ImportInput,
    ImportOutcome, TableRow,
};
use chain_notes::notebooks::NotebookIndex;
use chain_notes::spending::{SpendingAddress, SpendingIndex, SpendingSection};
use chain_notes::state::State;

fn script(chain: u32, index: u32) -> [u8; 22] {
    let mut script = [0; 22];
    (script[0], script[21]) = (chain as u8, index as u8);
    script
}

fn derive(chain: u32, index: u32) -> TableRow {
    TableRow {
        chain,
        index,
        derived: Some(DerivedAddress {
            address: format!("addr-{chain}-{index}"),
            script: script(chain, index),
        }),
    }
}

fn coin(txid: &str, value: u64, owner: Option<&str>) -> BundleUtxo {
    BundleUtxo { txid: txid.into(), vout: 0, value, owner_address: owner.map(|o| o.to_string()) }
}

/// Imports, deriving whatever the import asks for; gives the outcome and how
/// often it asked.
fn run(input: &ImportInput) -> (ImportOutcome, usize) {
    let mut table: Vec<TableRow> = vec![];
    let mut asked = 0;
    loop {
        match import_owners(input, &table) {
            Ok(out) => return (out, asked),
            Err(missing) => {
                assert!(!missing.is_empty());
                asked += 1;
                for (chain, index) in missing {
                    assert!(!table.iter().any(|r| r.chain == chain && r.index == index));
                    table.push(derive(chain, index));
                }
            }
        }
    }
}

fn places(out: &ImportOutcome) -> Vec<(u32, u32)> {
    out.newly_used.iter().map(|a| (a.chain, a.index)).collect()
}

#[test]
fn unowned_coins_are_the_notebooks() {
    let input = ImportInput::new(
        "me".into(),
        None,
        vec!["me".into()],
        vec![coin("a", 1, None), coin("b", 2, Some("me"))],
    );
    let (out, asked) = run(&input);
    assert_eq!(asked, 0);
    assert_eq!(out.notebook.len(), 2);
    assert_eq!((out.notebook[1].txid.as_str(), out.notebook[1].value), ("b", 2));
    assert!(out.spending.is_empty() && out.newly_used.is_empty());
}

#[test]
fn recorded_addresses_need_no_derivation() {
    let mut s = SpendingSection::new("signet", 0, 0);
    s.mark_used(SpendingAddress {
        chain: 1,
        index: 3,
        address: "old".into(),
        spk_hex: "".into(),
    });
    let input =
        ImportInput::new("me".into(), Some(&s), vec![], vec![coin("a", 5, Some("old"))]);
    let (out, asked) = run(&input);
    assert_eq!(asked, 0);
    assert_eq!((out.spending[0].chain, out.spending[0].index), (1, 3));
    assert!(out.newly_used.is_empty());
}

#[test]
fn a_coin_in_the_window_adopts_its_address() {
    let input = ImportInput::new(
        "me".into(),
        None,
        vec![],
        vec![
            coin("a", 5, Some("addr-0-19")),
            coin("b", 6, Some("addr-0-19")),
            coin("c", 7, Some("addr-0-39")),
            coin("d", 8, Some("addr-1-0")),
            coin("e", 9, Some("nobody")),
        ],
    );
    let (out, _) = run(&input);
    assert_eq!(places(&out), vec![(0, 19), (0, 39), (1, 0)]);
    assert_eq!(out.newly_used[0].address, "addr-0-19");
    assert_eq!(out.newly_used[0].spk_hex, "00".repeat(21) + "13");
    let coins: Vec<(u64, u32, u32)> =
        out.spending.iter().map(|u| (u.value, u.chain, u.index)).collect();
    assert_eq!(coins, vec![(5, 0, 19), (6, 0, 19), (7, 0, 39), (8, 1, 0)]);
    assert!(out.notebook.is_empty());
}

#[test]
fn a_coin_beyond_the_window_is_dropped() {
    let input =
        ImportInput::new("me".into(), None, vec![], vec![coin("a", 5, Some("addr-0-20"))]);
    let (out, _) = run(&input);
    assert!(out.spending.is_empty() && out.newly_used.is_empty());
}

#[test]
fn addresses_with_a_history_let_a_later_coin_be_reached() {
    let input = ImportInput::new(
        "me".into(),
        None,
        vec!["addr-0-15".into(), "me".into(), "addr-0-30".into()],
        vec![coin("a", 5, Some("addr-0-45"))],
    );
    let (out, _) = run(&input);
    assert_eq!(places(&out), vec![(0, 15), (0, 30), (0, 45)]);
    assert_eq!(out.history_only, 2);
    assert_eq!((out.spending[0].chain, out.spending[0].index), (0, 45));
}

#[test]
fn underivable_addresses_match_nothing() {
    let input = ImportInput::new("me".into(), None, vec![], vec![coin("a", 5, Some("addr-0-0"))]);
    let mut table: Vec<TableRow> = vec![];
    let missing = import_owners(&input, &table).unwrap_err();
    assert_eq!(missing.len(), 40);
    for (chain, index) in missing {
        table.push(TableRow { chain, index, derived: None });
    }
    let out = import_owners(&input, &table).unwrap();
    assert!(out.spending.is_empty());
}

#[test]
fn an_import_replaces_coins_and_records_addresses() {
    let mut ix = NotebookIndex::default();
    let mut st = State::default();
    let bundle = || {
        vec![coin("n", 1, None), coin("a", 5, Some("addr-0-2")), coin("b", 6, Some("addr-1-1"))]
    };
    let input = ImportInput::new("me".into(), ix.spending("signet", 1, 2), vec![], bundle());
    let (out, _) = run(&input);
    assert!(apply_import(&mut st, &mut ix, "signet", 1, 2, out, 800_000, 77));
    assert_eq!((st.tip_height, st.bundle_time), (Some(800_000), Some(77)));
    assert_eq!(st.utxos.len(), 1);
    let s = ix.spending("signet", 1, 2).unwrap();
    assert_eq!((s.next_receive, s.next_change, s.used.len(), s.utxos.len()), (3, 2, 2, 2));
    assert!(!s.enabled);
    // The same bundle again finds every address recorded.
    let input = ImportInput::new("me".into(), Some(s), vec![], bundle());
    let (out, asked) = run(&input);
    assert_eq!((asked, out.newly_used.len(), out.spending.len()), (0, 0, 2));
    assert!(apply_import(&mut st, &mut ix, "signet", 1, 2, out, 800_001, 78));
    let s = ix.spending("signet", 1, 2).unwrap();
    assert_eq!((s.next_receive, s.next_change, s.used.len(), s.utxos.len()), (3, 2, 2, 2));
}

#[test]
fn an_import_without_a_wallet_creates_none() {
    let mut ix = NotebookIndex::default();
    let mut st = State::default();
    let input = ImportInput::new("me".into(), None, vec![], vec![coin("n", 1, None)]);
    let (out, _) = run(&input);
    assert!(!apply_import(&mut st, &mut ix, "signet", 1, 2, out, 5, 6));
    assert!(ix.spending_sections().is_empty());
    assert_eq!(st.utxos.len(), 1);
}

#[test]
fn a_bundle_of_another_network_is_refused() {
    assert_eq!(network_problem("", "signet"), None);
    assert_eq!(network_problem("signet", "signet"), None);
    assert_eq!(
        network_problem("mainnet", "signet").unwrap(),
        "bundle is for mainnet, app is on signet — switch network first"
    );
}

#[test]
fn an_import_is_reported_in_words() {
    assert_eq!(
        import_line("file=a.json loc=internal", 3, 1, 2, 800_000),
        "Imported (file=a.json loc=internal): 3 note(s) (1 new), 2 utxo(s), height 800000."
    );
}
