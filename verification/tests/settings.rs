use chain_notes::notebooks::NotebookIndex;
use chain_notes::settings::{
    archive_problem, archived_label, boot_config, chunk_choice, chunk_mode, context_change,
    context_saved_line, empty_line, export_kind, export_label, export_rows, export_title,
    index_name, name_action, name_or_short, next_network, notebook_name, notebook_row_meta,
    row_key, seed_qr_digits, seed_title, status_text, sync_line, word_column, DeviceConfig,
    ExportKind, ExportRow, NameAction, OldSettings,
};

fn old_file(account: u32, network: &str, chunk: Option<usize>) -> OldSettings {
    OldSettings { account, network: network.into(), chunk_override: chunk }
}

#[test]
fn the_first_boot_takes_settings_from_old_files() {
    let cfg = boot_config(&vec![]);
    assert_eq!((cfg.network.as_str(), cfg.chunk_override), ("mainnet", None));
    let cfg = boot_config(&vec![old_file(2, "signet", Some(80)), old_file(5, "regtest", None)]);
    assert_eq!((cfg.network.as_str(), cfg.chunk_override), ("signet", Some(80)));
    let cfg = boot_config(&vec![old_file(2, "signet", Some(80)), old_file(0, "regtest", None), old_file(3, "x", None)]);
    assert_eq!((cfg.network.as_str(), cfg.chunk_override), ("regtest", None));
    assert_eq!((cfg.seed_index, cfg.account), (0, 0));
    let cfg = boot_config(&vec![
        old_file(5, "testnet4", None),
        old_file(3, "signet", Some(80)),
        old_file(4, "regtest", Some(90)),
    ]);
    assert_eq!((cfg.network.as_str(), cfg.chunk_override), ("signet", Some(80)));
    let cfg = DeviceConfig::default();
    assert_eq!((cfg.network.as_str(), cfg.seed_index, cfg.account), ("mainnet", 0, 0));
}

#[test]
fn networks_cycle() {
    let mut seen = vec!["mainnet"];
    for _ in 0..4 {
        seen.push(next_network(seen[seen.len() - 1]));
    }
    assert_eq!(seen, vec!["mainnet", "testnet4", "signet", "regtest", "mainnet"]);
    assert_eq!(next_network("other"), "mainnet");
}

#[test]
fn chunk_sizes_are_chosen_in_range() {
    assert_eq!(chunk_mode(None), 0);
    assert_eq!(chunk_mode(Some(80)), 1);
    assert_eq!(chunk_mode(Some(81)), 2);
    assert_eq!(chunk_choice(0, "junk"), Ok(None));
    assert_eq!(chunk_choice(1, "junk"), Ok(Some(80)));
    assert_eq!(chunk_choice(2, " 20 "), Ok(Some(20)));
    assert_eq!(chunk_choice(2, "100000"), Ok(Some(100_000)));
    for bad in ["19", "100001", "", "x", "-5"] {
        assert_eq!(
            chunk_choice(2, bad).unwrap_err(),
            "Chunk size must be 20–100000 bytes."
        );
    }
}

#[test]
fn the_wallet_context_is_typed_in() {
    let c = context_change(1, 2, " 1", "3 ").unwrap();
    assert_eq!((c.seed, c.account, c.seed_changed, c.account_changed), (1, 3, false, true));
    assert!(context_change(1, 2, "9999", "0").is_ok());
    for (s, a) in [("10000", "0"), ("0", "x"), ("", "0"), ("-1", "0")] {
        assert_eq!(
            context_change(1, 2, s, a).unwrap_err(),
            "Seed and account must be 0–9999."
        );
    }
    assert_eq!(context_saved_line(1, 3), "Saved · seed 1 · account 3");
}

#[test]
fn only_empty_notebooks_are_archived() {
    assert_eq!(
        archive_problem(true, 5).unwrap(),
        "This notebook holds 5 sats — empty it first."
    );
    assert_eq!(archive_problem(true, 0), None);
    assert_eq!(archive_problem(false, 5), None);
}

#[test]
fn the_name_dialog_creates_or_renames() {
    assert_eq!(name_action(-1), NameAction::Nothing);
    assert_eq!(name_action(-2), NameAction::Create);
    assert_eq!(name_action(0), NameAction::Rename(0));
    assert_eq!(name_action(7), NameAction::Rename(7));
    assert_eq!(row_key(-3), 0);
    assert_eq!(row_key(4), 4);
}

#[test]
fn notebooks_are_called_by_name_or_address() {
    let mut ix = NotebookIndex::default();
    let a = ix.create_bip86(0, 0, "  Diary ");
    let b = ix.create_bip86(0, 0, "   ");
    assert_eq!(notebook_name(&ix, a, "short"), "Diary");
    assert_eq!(notebook_name(&ix, b, "short"), "short");
    assert_eq!(notebook_name(&ix, 99, "short"), "short");
    assert_eq!(name_or_short(" \t", "s"), "s");
    assert_eq!(name_or_short(" n ", "s"), " n ");
    assert_eq!(notebook_row_meta("s", 1), "s · 1 note");
    assert_eq!(notebook_row_meta("s", 2), "s · 2 notes");
    assert_eq!(empty_line(1, 0), "");
    assert_eq!(empty_line(0, 1), "All notebooks are archived.");
    assert_eq!(empty_line(0, 0), "No notebooks yet — create one to start writing.");
    assert_eq!(archived_label(0), "");
    assert_eq!(archived_label(3), "Archived (3)");
}

#[test]
fn seed_words_are_numbered() {
    let words: Vec<String> = (1..=24).map(|i| format!("w{i}")).collect();
    let col = word_column(&words, 8, 11);
    assert_eq!(col, " 9. w9\n10. w10\n11. w11");
    assert_eq!(word_column(&words, 3, 3), "");
    assert_eq!(seed_qr_digits(&vec![0, 7, 42, 999, 2047]), "00000007004209992047");
    assert_eq!(seed_title(2), "Seed 2 · 24 words");
}

#[test]
fn exports_are_labelled() {
    assert_eq!(export_title(Some("0f0f0f0f"), 1, 2), "0f0f0f0f · Seed 1 · account 2");
    assert_eq!(export_title(None, 1, 2), "Seed 1 · account 2");
    assert_eq!(export_kind(0), ExportKind::Xpub);
    assert_eq!(export_kind(1), ExportKind::Descriptor);
    assert_eq!(export_kind(2), ExportKind::Hex);
    assert_eq!(export_kind(9), ExportKind::Wif);
    assert_eq!(
        export_label(ExportKind::Xpub, "n"),
        "Account xpub · all addresses · watch-only"
    );
    assert_eq!(
        export_label(ExportKind::Descriptor, "n"),
        "Descriptor (tr) · all addresses · watch-only"
    );
    assert_eq!(export_label(ExportKind::Hex, "n"), "Notebook \"n\" · hex");
    assert_eq!(export_label(ExportKind::Wif, "n"), "Notebook \"n\" · WIF");
    assert_eq!(index_name(4), "index 4");
    assert_eq!(index_name(-4), "index -4");
    let rows = export_rows(vec![]);
    assert_eq!((rows[0].index, rows[0].name.as_str(), rows[0].addr.as_str()), (0, "index 0", ""));
    let rows = export_rows(vec![ExportRow { index: 3, name: "n".into(), addr: "a".into() }]);
    assert_eq!((rows.len(), rows[0].index), (1, 3));
}

#[test]
fn the_sync_state_is_described() {
    assert_eq!(sync_line(None), "never synced");
    assert_eq!(sync_line(Some(9)), "synced to height 9");
    assert_eq!(
        status_text("signet", 5, 1, Some(9), "1/2/5", 80),
        "network: signet\nbalance: 5 sats · 1 utxos\nchain height: 9\nfees (sat/vB): 1/2/5 · chunk: 80 bytes"
    );
    assert!(status_text("signet", 5, 1, None, "1/2/5", 80).contains("chain height: —\n"));
}
