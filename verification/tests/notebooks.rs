use chain_notes::notebooks::{NotebookIndex, NotebookMeta};

#[test]
fn create_sorts_and_next_account() {
    let mut ix = NotebookIndex::default();
    let k0 = ix.create_bip86(0, 0, "");
    let k1 = ix.create_bip86(0, 0, "  Trips  ");
    assert_eq!((k0, k1), (0, 1));
    assert_eq!(ix.get(0).unwrap().name, "");
    assert_eq!(ix.get(1).unwrap().name, "Trips");
    assert_eq!(ix.notebooks[0].account, 0);
    assert_eq!(ix.next_account(), 2);
}

#[test]
fn archive_and_rename() {
    let mut ix = NotebookIndex::default();
    ix.create_bip86(0, 0, "");
    ix.create_bip86(0, 0, "");
    ix.rename(1, "  Trips  ");
    assert_eq!(ix.get(1).unwrap().name, "Trips");
    ix.set_archived(0, true);
    assert_eq!(ix.active().len(), 1);
    assert_eq!(ix.archived_in_context(0, 0).len(), 1);
}

#[test]
fn bip86_context_and_indexes() {
    let mut ix = NotebookIndex::default();
    let k1 = ix.create_bip86(0, 0, "Notes");
    let k2 = ix.create_bip86(0, 0, "");
    let k3 = ix.create_bip86(1, 0, "PostRotation");
    assert_eq!((k1, k2, k3), (0, 1, 2));
    assert_eq!(ix.get(k1).unwrap().index, 0);
    assert_eq!(ix.get(k2).unwrap().index, 1); // same context, next index
    assert_eq!(ix.get(k3).unwrap().index, 0); // new seed, fresh indexes
    let vis: Vec<u32> = ix.visible(0, 0).iter().map(|m| m.account).collect();
    assert_eq!(vis, vec![0, 1]);
    let vis: Vec<u32> = ix.visible(1, 0).iter().map(|m| m.account).collect();
    assert_eq!(vis, vec![2]);
}

fn meta(account: u32, index: u32) -> NotebookMeta {
    NotebookMeta { account, name: String::new(), archived: false, seed: 0, bip_account: 0, index }
}

#[test]
fn creation_sorts_an_unsorted_index_stably() {
    let mut ix = NotebookIndex::default();
    ix.notebooks = vec![meta(5, 7), meta(2, 1), meta(5, 9)];
    let key = ix.create_bip86(0, 0, "new");
    assert_eq!(key, 6);
    let order: Vec<(u32, u32)> = ix.notebooks.iter().map(|m| (m.account, m.index)).collect();
    assert_eq!(order, vec![(2, 1), (5, 7), (5, 9), (6, 10)]);
}

#[test]
fn archiving_is_undone_by_setting_the_flag_back() {
    let mut ix = NotebookIndex::default();
    ix.create_bip86(0, 0, "a");
    ix.set_archived(0, true);
    assert!(ix.visible(0, 0).is_empty());
    ix.set_archived(0, false);
    assert_eq!(ix.visible(0, 0).len(), 1);
    assert!(ix.archived_in_context(0, 0).is_empty());
}

#[test]
fn unknown_keys_change_nothing() {
    let mut ix = NotebookIndex::default();
    ix.create_bip86(0, 0, "a");
    ix.rename(9, "b");
    ix.set_archived(9, true);
    assert!(ix.get(9).is_none());
    assert_eq!(ix.get(0).unwrap().name, "a");
    assert!(!ix.get(0).unwrap().archived);
}
