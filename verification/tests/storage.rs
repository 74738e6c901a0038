use chain_notes::storage::{
    bundle_names, dirs_to_create, first_inbox_bundle, inbox_file, list_inbox_bundles, outbox_file,
    outbox_psbt_file, state_path, state_path_v1, BundlePlace, DirEntry, CONFIG_PATH, INBOX_DIR,
    NOTEBOOKS_PATH, OUTBOX_DIR, STATE_DIR,
};

fn entry(name: &str, is_file: bool) -> DirEntry {
    DirEntry { name: name.into(), is_file }
}

#[test]
fn every_ledger_has_its_file() {
    assert_eq!(state_path("signet", 3), "/.chain-notes/state-signet-3.json");
    assert_eq!(state_path_v1(3), "/.chain-notes/state-3.json");
    assert_ne!(state_path("a-1", 2), state_path("a", 12));
    assert_ne!(state_path("", 3), state_path_v1(3));
    assert_eq!(STATE_DIR, "/.chain-notes");
    assert_eq!(NOTEBOOKS_PATH, "/.chain-notes/notebooks.json");
    assert_eq!(CONFIG_PATH, "/.chain-notes/config.json");
}

#[test]
fn exchanged_files_have_their_places() {
    assert_eq!(outbox_file("feed"), "/chain-notes/outbox/feed.hex");
    assert_eq!(outbox_psbt_file("feed"), "/chain-notes/outbox/feed.psbt.hex");
    assert_eq!(inbox_file("a.json"), "/chain-notes/inbox/a.json");
    assert_eq!((INBOX_DIR, OUTBOX_DIR), ("/chain-notes/inbox", "/chain-notes/outbox"));
}

#[test]
fn directories_are_created_from_the_outside_in() {
    assert_eq!(dirs_to_create("/a/bc/d"), vec!["/a", "/a/bc", "/a/bc/d"]);
    assert_eq!(dirs_to_create("a//b/"), vec!["/a", "/a/b"]);
    assert_eq!(dirs_to_create(STATE_DIR), vec!["/.chain-notes"]);
    assert!(dirs_to_create("").is_empty());
    assert!(dirs_to_create("///").is_empty());
}

#[test]
fn bundles_are_json_files_in_order() {
    let entries = vec![
        entry("b.json", true),
        entry("dir.json", false),
        entry("a.json", true),
        entry("a.txt", true),
        entry(".json", true),
        entry("json", true),
        entry("a.JSON", true),
    ];
    assert_eq!(bundle_names(&entries), vec![".json", "a.json", "b.json"]);
}

#[test]
fn internal_bundles_come_before_the_airlocks() {
    let internal = vec![entry("z.json", true), entry("y.json", true)];
    let airlock = vec![entry("a.json", true)];
    let all: Vec<(String, BundlePlace)> =
        list_inbox_bundles(&internal, &airlock).into_iter().map(|f| (f.name, f.place)).collect();
    assert_eq!(
        all,
        vec![
            ("y.json".to_string(), BundlePlace::Internal),
            ("z.json".to_string(), BundlePlace::Internal),
            ("a.json".to_string(), BundlePlace::Airlock),
        ]
    );
    let first = first_inbox_bundle(&internal, &airlock).unwrap();
    assert_eq!((first.name.as_str(), first.place), ("y.json", BundlePlace::Internal));
    let first = first_inbox_bundle(&vec![], &airlock).unwrap();
    assert_eq!((first.name.as_str(), first.place), ("a.json", BundlePlace::Airlock));
    assert!(first_inbox_bundle(&vec![], &vec![]).is_none());
}
