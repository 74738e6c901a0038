use chain_notes::coins::{core_utxos, UtxoRec};
use chain_notes::sweep::{
    can_consolidate, coin_outpoint_texts, settle_sweep, sort_by_value, sweep_accounts,
    sweep_context_line, sweep_inputs_line, sweep_problem, sweep_quote, sweep_summary, swept_inputs,
    wallet_balance, wallet_coin_label, wallet_summary, SweepPlan, WalletCoin,
};

fn coin(txid: &str, vout: u32, value: u64) -> UtxoRec {
    UtxoRec { txid: txid.to_string(), vout, value }
}

fn plan(consolidate: bool) -> SweepPlan {
    SweepPlan {
        txid_hex: "feed".into(),
        raw_hex: "02".into(),
        fee: 250,
        vsize: 111,
        recv: 5000,
        consolidate,
        dest: if consolidate { None } else { Some("123456789012345678".into()) },
        spent_by_account: vec![
            (3, vec![("a".into(), 0), ("b".into(), 1)]),
            (1, vec![("c".into(), 0)]),
        ],
        dest_account: 1,
    }
}

#[test]
fn a_sweep_takes_the_coins_of_each_notebook() {
    let p = plan(false);
    let mut utxos = vec![coin("a", 0, 1), coin("c", 0, 2), coin("b", 0, 3), coin("b", 1, 4)];
    settle_sweep(&mut utxos, 3, &p);
    let left: Vec<u64> = utxos.iter().map(|u| u.value).collect();
    assert_eq!(left, vec![2, 3]);
    assert_eq!(sweep_accounts(&p), vec![3, 1]);
    assert_eq!(swept_inputs(&p), 3);
}

#[test]
fn a_consolidated_coin_lands_in_its_notebook() {
    let mut p = plan(true);
    let mut utxos = vec![coin("c", 0, 2), coin("d", 0, 9)];
    settle_sweep(&mut utxos, 1, &p);
    assert_eq!(utxos.len(), 2);
    assert_eq!((utxos[1].txid.as_str(), utxos[1].vout, utxos[1].value), ("feed", 0, 5000));
    p.dest_account = 8;
    assert_eq!(sweep_accounts(&p), vec![3, 1, 8]);
    let mut other = vec![coin("c", 0, 2)];
    settle_sweep(&mut other, 8, &p);
    assert_eq!(other.len(), 2);
}

#[test]
fn sweeping_all_coins_empties_the_ledger() {
    let mut utxos = vec![coin(&"0a".repeat(32), 1, 5), coin(&"ff".repeat(32), 0, 6)];
    let shown = coin_outpoint_texts(&core_utxos(&utxos));
    assert_eq!(shown[0], ("0a".repeat(32), 1));
    let mut p = plan(false);
    p.spent_by_account = vec![(4, shown)];
    settle_sweep(&mut utxos, 4, &p);
    assert!(utxos.is_empty());
}

#[test]
fn the_wallet_balance_spans_notebooks() {
    let ledgers = vec![vec![coin("a", 0, 5), coin("b", 0, 6)], vec![], vec![coin("c", 0, 7)]];
    assert_eq!(wallet_balance(&ledgers), (3, 18));
    assert_eq!(wallet_balance(&vec![]), (0, 0));
}

#[test]
fn wallet_coins_are_listed_by_value() {
    let c = |v: u64, n: &str| WalletCoin {
        value: v,
        notebook: n.to_string(),
        txid: "t".into(),
        vout: 0,
    };
    let mut coins = vec![c(5, "x"), c(9, "y"), c(5, "z"), c(u64::MAX, "w")];
    sort_by_value(&mut coins);
    let names: Vec<&str> = coins.iter().map(|c| c.notebook.as_str()).collect();
    assert_eq!(names, vec!["w", "y", "x", "z"]);
    assert_eq!(wallet_coin_label(&coins[1]), "9 sats · y");
    assert_eq!(wallet_summary(4, "19 sats", 2), "4 coin(s) · 19 sats across 2 notebook(s)");
    assert!(can_consolidate(2));
    assert!(!can_consolidate(1));
}

#[test]
fn a_sweep_must_leave_more_than_dust() {
    let (line, ok) = sweep_quote(false, 2, 1000, 150, 300, 330, "300 sats", "2");
    assert!(ok);
    assert_eq!(
        line,
        "Sweeps 1000 sats · ~150 vB · fee ~300 sats @ 2 sat/vB · destination receives 700 sats"
    );
    let (line, ok) = sweep_quote(true, 2, 630, 150, 300, 330, "300 sats", "2");
    assert!(ok);
    assert_eq!(
        line,
        "Consolidates 2 coins into one · ~150 vB · fee ~300 sats @ 2 sat/vB · keeps 330 sats"
    );
    let (line, ok) = sweep_quote(true, 2, 629, 150, 300, 330, "300 sats", "2");
    assert!(!ok);
    assert_eq!(line, "Balance 629 sats can't cover the ~300 sat fee.");
    assert!(!sweep_quote(true, 2, 300, 150, 300, 0, "", "").1);
}

#[test]
fn sweeps_are_refused_for_the_first_reason() {
    assert_eq!(
        sweep_problem(0, Some("rate".into()), false, false, "signet").unwrap(),
        "Nothing to sweep — no spendable coins."
    );
    assert_eq!(sweep_problem(1, Some("rate".into()), false, false, "signet").unwrap(), "rate");
    assert_eq!(
        sweep_problem(1, None, false, false, "signet").unwrap(),
        "Destination is not a valid signet address."
    );
    assert_eq!(sweep_problem(1, None, true, false, "signet"), None);
    assert_eq!(sweep_problem(1, None, false, true, "signet"), None);
}

#[test]
fn sweeps_are_described_in_words() {
    assert_eq!(sweep_inputs_line(2, 9), "Inputs · 2 coin(s) · 9 sats (all notebooks)");
    assert_eq!(sweep_context_line(true, "signet", 1), "Consolidate · signet");
    assert_eq!(
        sweep_context_line(false, "signet", 2),
        "Sweep · signet - spends coins from 2 notebooks, publicly linking their addresses on-chain."
    );
    assert_eq!(
        sweep_summary(&plan(true)),
        "Consolidated 3 coin(s) into one · 5000 sats\nfee 250 sats · 111 vB\ntxid: feed"
    );
    assert_eq!(
        sweep_summary(&plan(false)),
        "Swept 3 coin(s) · 5000 sats to 12345678…345678\nfee 250 sats · 111 vB\ntxid: feed"
    );
    let mut p = plan(false);
    p.dest = None;
    assert!(sweep_summary(&p).starts_with("Swept 3 coin(s) · 5000 sats\n"));
}
