use chain_notes::change::{
    auto_change_label, change_dest, change_is_notebook, change_label, change_spk_len_preview,
    expected_change, resolve_change, ChangeDest, ChangeLookup, ChangePickState, DerivedAddress,
};
use chain_notes::coins::UtxoRec;
use chain_notes::funding::{
    address_lines, coin_meta, coins_line, compose_mode, default_funding_pick, funding_key,
    link_warning, notebook_ctx, notebook_inputs, parse_funding_key, pay_from_label, pick_coins,
    pick_spending, selected_total, spending_input, spending_summary, spent_outpoints, watch_window,
    ComposeMode, FundingPick,
};
use chain_notes::notebooks::NotebookIndex;
use chain_notes::spending::{SpendingAddress, SpendingSection, SpendingUtxo};
use chain_notes::state::State;

fn coin(txid: &str, vout: u32, value: u64) -> UtxoRec {
    UtxoRec { txid: txid.to_string(), vout, value }
}

fn spending_coin(txid: &str, vout: u32, value: u64) -> SpendingUtxo {
    SpendingUtxo { txid: txid.to_string(), vout, value, chain: 1, index: 4 }
}

fn address(chain: u32, index: u32, address: &str) -> SpendingAddress {
    SpendingAddress { chain, index, address: address.into(), spk_hex: "00".into() }
}

#[test]
fn the_context_is_that_of_the_open_notebook() {
    let mut ix = NotebookIndex::default();
    let key = ix.create_bip86(3, 7, "n");
    assert_eq!(notebook_ctx(&ix, Some(key)), Some((3, 7)));
    assert_eq!(notebook_ctx(&ix, Some(key + 1)), None);
    assert_eq!(notebook_ctx(&ix, None), None);
}

#[test]
fn coin_keys_read_back() {
    assert_eq!(funding_key(true, "ab", 12), "spending:ab:12");
    assert_eq!(funding_key(false, "ab", 0), "notebook:ab:0");
    assert_eq!(parse_funding_key("spending:ab:12"), Some((true, "ab".to_string(), 12)));
    assert_eq!(parse_funding_key("notebook:ab:0"), Some((false, "ab".to_string(), 0)));
}

#[test]
fn malformed_coin_keys_are_refused() {
    assert_eq!(parse_funding_key("spending:ab"), None);
    assert_eq!(parse_funding_key("spending"), None);
    assert_eq!(parse_funding_key("spending:ab:x"), None);
    assert_eq!(parse_funding_key("spending:ab:4294967296"), None);
    assert_eq!(parse_funding_key("spending:a:b:1"), None);
    assert_eq!(parse_funding_key("other::+7"), Some((false, String::new(), 7)));
    assert_eq!(parse_funding_key("spending:ab:4294967295"), Some((true, "ab".to_string(), u32::MAX)));
}

#[test]
fn toggling_picks_and_unpicks() {
    let mut pick = FundingPick::default();
    assert!(!pick.touched);
    assert_eq!(pick.mode_label(), "none");
    assert_eq!(compose_mode(&pick), ComposeMode::Auto);
    pick.toggle(false, "a".into(), 1);
    assert!(pick.touched);
    assert!(pick.is_selected(false, "a", 1));
    assert!(!pick.is_selected(true, "a", 1));
    assert_eq!(pick.mode_label(), "notebook");
    assert_eq!(compose_mode(&pick), ComposeMode::NotebookExact);
    pick.toggle(true, "s".into(), 0);
    assert_eq!(pick.mode_label(), "mixed");
    assert_eq!(pick.count(), 2);
    assert_eq!(compose_mode(&pick), ComposeMode::Mixed);
    assert!(pick.spending_participates());
    assert_eq!(pay_from_label(&pick), "Mixed");
    assert_eq!(
        link_warning(&pick),
        "This note spends from both the notebook and the spending wallet — their addresses become publicly linked on-chain."
    );
    pick.toggle(false, "a".into(), 1);
    assert_eq!(pick.mode_label(), "spending");
    assert_eq!(pay_from_label(&pick), "Spending wallet");
    assert_eq!(link_warning(&pick), "");
    pick.toggle(true, "s".into(), 0);
    assert_eq!(pick.mode_label(), "none");
    assert_eq!(pay_from_label(&pick), "Notebook");
    assert!(!pick.is_auto());
}

#[test]
fn a_fresh_note_is_paid_by_an_enabled_funded_wallet() {
    let mut st = State::default();
    st.utxos.push(coin("n", 0, 10));
    let mut s = SpendingSection::new("mainnet", 0, 0);
    s.set_utxos(vec![spending_coin("s", 2, 5)]);
    let pick = default_funding_pick(&st, Some(&s));
    assert_eq!(pick.notebook, vec![("n".to_string(), 0)]);
    assert!(pick.spending.is_empty() && !pick.touched);
    s.enabled = true;
    let pick = default_funding_pick(&st, Some(&s));
    assert_eq!(pick.spending, vec![("s".to_string(), 2)]);
    assert!(pick.notebook.is_empty());
    s.set_utxos(vec![]);
    assert_eq!(default_funding_pick(&st, Some(&s)).notebook.len(), 1);
    assert_eq!(default_funding_pick(&st, None).notebook.len(), 1);
}

#[test]
fn picked_coins_are_found_in_the_ledgers() {
    let utxos = vec![coin("a", 0, 1), coin("b", 0, 20), coin("b", 1, 300)];
    let spending = vec![spending_coin("s", 0, 4000), spending_coin("t", 0, 50000)];
    let mut pick = FundingPick::default();
    pick.toggle(false, "b".into(), 1);
    pick.toggle(false, "a".into(), 0);
    pick.toggle(false, "gone".into(), 0);
    pick.toggle(true, "t".into(), 0);
    assert_eq!(selected_total(&utxos, &spending, &pick), 50301);
    let coins: Vec<u64> = pick_coins(&utxos, &pick.notebook).iter().map(|u| u.value).collect();
    assert_eq!(coins, vec![1, 300]);
    assert_eq!(pick_spending(&spending, &pick.spending).len(), 1);
    assert_eq!(spent_outpoints(&spending, &pick.spending), vec![("t".to_string(), 0)]);
}

#[test]
fn picked_coins_become_inputs() {
    let good = "11".repeat(32);
    let utxos = vec![coin(&good, 3, 9), coin("bad", 0, 1)];
    let inputs = notebook_inputs(&utxos, &vec![(good.clone(), 3)]).unwrap();
    assert_eq!((inputs[0].txid, inputs[0].vout, inputs[0].value), ([0x11; 32], 3, 9));
    assert_eq!(
        notebook_inputs(&utxos, &vec![("bad".to_string(), 0)]).unwrap_err(),
        "bad notebook txid"
    );
    let input = spending_input(&spending_coin(&good, 2, 7)).unwrap();
    assert_eq!((input.coin.vout, input.coin.value, input.chain, input.index), (2, 7, 1, 4));
    assert_eq!(spending_input(&spending_coin("bad", 2, 7)).unwrap_err(), "bad spending txid");
}

#[test]
fn coins_are_summed_up_in_words() {
    assert_eq!(coins_line(2, 700), "2 coin(s) · 700 sats");
    assert_eq!(spending_summary(false, 2, 700), "Off");
    assert_eq!(spending_summary(true, 0, 0), "No coins");
    assert_eq!(spending_summary(true, 2, 700), "2 coin(s) · 700 sats");
    assert_eq!(coin_meta(&"ab".repeat(32), 4, None), "txid abababab…ababab · output 4");
    assert_eq!(coin_meta("ab", 4, Some(9)), "txid ab · output 4 · idx 9");
    assert_eq!(
        address_lines(&vec![address(0, 3, "bc1qx"), address(1, 0, "bc1qy")]),
        "receive/3  bc1qx\nchange/0  bc1qy"
    );
    assert_eq!(address_lines(&vec![]), "");
}

#[test]
fn the_watch_window_covers_both_chains() {
    let w = watch_window(5, 0);
    assert_eq!(w.len(), 40);
    assert_eq!((w[0], w[19], w[20], w[39]), ((0, 5), (0, 24), (1, 0), (1, 19)));
    let w = watch_window(u32::MAX - 2, u32::MAX);
    assert_eq!(w, vec![(0, u32::MAX - 2), (0, u32::MAX - 1)]);
}

#[test]
fn change_goes_where_it_was_chosen_to() {
    assert_eq!(change_dest("custom", true), ChangeDest::Custom);
    assert_eq!(change_dest("notebook", true), ChangeDest::Notebook);
    assert_eq!(change_dest("auto", true), ChangeDest::FreshSpending);
    assert_eq!(change_dest("auto", false), ChangeDest::Notebook);
    assert_eq!(change_dest("whatever", false), ChangeDest::Notebook);
    for choice in ["custom", "notebook", "auto"] {
        for part in [false, true] {
            assert_eq!(
                change_is_notebook(choice, part),
                change_dest(choice, part) == ChangeDest::Notebook
            );
        }
    }
}

#[test]
fn change_is_resolved_from_what_was_looked_up() {
    let (spk, addr) =
        resolve_change("custom", false, ChangeLookup::Custom(Ok(vec![9])), 3).unwrap();
    assert_eq!((spk, addr), (vec![9], None));
    assert_eq!(
        resolve_change("custom", true, ChangeLookup::Custom(Err("no address".into())), 3)
            .unwrap_err(),
        "no address"
    );
    let (spk, addr) = resolve_change("auto", false, ChangeLookup::Notebook([0x51; 34]), 3).unwrap();
    assert_eq!((spk, addr), (vec![0x51; 34], None));
    let mut script = [0u8; 22];
    (script[1], script[21]) = (0x14, 0xfe);
    let fresh = DerivedAddress { address: "bc1qz".into(), script };
    let (spk, addr) =
        resolve_change("auto", true, ChangeLookup::FreshSpending(Ok(fresh)), 3).unwrap();
    assert_eq!(spk, script.to_vec());
    let addr = addr.unwrap();
    assert_eq!((addr.chain, addr.index), (1, 3));
    assert_eq!((addr.address.as_str(), addr.spk_hex.as_str()), ("bc1qz", format!("0014{}fe", "00".repeat(19)).as_str()));
    assert_eq!(
        resolve_change("auto", true, ChangeLookup::FreshSpending(Err("locked".into())), 3)
            .unwrap_err(),
        "locked"
    );
}

#[test]
fn change_script_lengths_are_known_without_deriving() {
    assert_eq!(change_spk_len_preview("notebook", true, Err("x".into())), Ok(34));
    assert_eq!(change_spk_len_preview("auto", true, Err("x".into())), Ok(22));
    assert_eq!(change_spk_len_preview("auto", false, Err("x".into())), Ok(34));
    assert_eq!(change_spk_len_preview("custom", true, Ok(vec![0; 25])), Ok(25));
    assert_eq!(change_spk_len_preview("custom", true, Err("x".into())), Err("x".to_string()));
}

#[test]
fn the_preview_is_the_length_of_the_script_paid() {
    let fresh = DerivedAddress { address: "bc1qz".into(), script: [0; 22] };
    for (choice, spending, lookup) in [
        ("auto", false, ChangeLookup::Notebook([0; 34])),
        ("notebook", true, ChangeLookup::Notebook([0; 34])),
        ("auto", true, ChangeLookup::FreshSpending(Ok(fresh))),
        ("custom", false, ChangeLookup::Custom(Ok(vec![0; 25]))),
    ] {
        let previewed = change_spk_len_preview(choice, spending, Ok(vec![0; 25])).unwrap();
        let (script, _) = resolve_change(choice, spending, lookup, 0).unwrap();
        assert_eq!(previewed, script.len());
    }
}

#[test]
fn change_is_described_in_words() {
    let mut pick = ChangePickState::default();
    assert_eq!(pick.choice, "auto");
    assert_eq!(change_label(&pick, true), "fresh spending address");
    assert_eq!(change_label(&pick, false), "back to you");
    assert_eq!(expected_change(&pick), None);
    pick.choice = "notebook".into();
    assert_eq!(change_label(&pick, true), "notebook");
    pick.choice = "custom".into();
    assert_eq!(change_label(&pick, true), "custom address");
    assert_eq!(expected_change(&pick), None);
    pick.custom_address = "  ".into();
    assert_eq!(expected_change(&pick), None);
    pick.custom_address = " 123456789012345678 ".into();
    assert_eq!(expected_change(&pick), Some("123456789012345678".to_string()));
    pick.custom_address = "123456789012345678".into();
    assert_eq!(change_label(&pick, false), "12345678…345678");
    assert_eq!(
        auto_change_label(true),
        "Fresh spending-wallet address — protects the change from address reuse."
    );
    assert_eq!(auto_change_label(false), "Notebook address — the same address it goes to today.");
}
