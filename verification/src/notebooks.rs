//! The notebook index: which notebooks exist, their local names and archive
//! flags, and the spending sections beside them.
//!
//! Every notebook is a receive index of a hardened account under a rotation
//! seed, so its keys can be recovered from the seed words alone. Names and
//! archive flags are local and cannot.

use crate::lists::{items_of, refs_where};
use crate::ordering::{picked, stable_order, stable_order_lists_all, stable_sort, stably_sorted};
use crate::seqs::{
    filter_keeps, filter_push, filter_take_none, filter_take_step, filtered_is_from,
};
use crate::spending::{SpendingIndex, SpendingSection};
use crate::text::{trim, trimmed};
use vstd::prelude::*;

verus! {

/// One notebook. `account` is its unique key; its identity is the receive
/// index `index` of account `bip_account` under rotation seed `seed`.
#[derive(Debug)]
pub struct NotebookMeta {
    pub account: u32,
    pub name: String,
    pub archived: bool,
    /// Rotation seed index.
    pub seed: u32,
    /// The hardened account.
    pub bip_account: u32,
    /// The receive-chain address index.
    pub index: u32,
}

impl Clone for NotebookMeta {
    fn clone(&self) -> (r: Self)
        ensures
            r == *self,
    {
        NotebookMeta {
            account: self.account,
            name: self.name.clone(),
            archived: self.archived,
            seed: self.seed,
            bip_account: self.bip_account,
            index: self.index,
        }
    }
}

impl NotebookMeta {
    /// Whether the notebook belongs to a wallet context.
    pub open spec fn of_context(&self, seed: u32, bip_account: u32) -> bool {
        self.seed == seed && self.bip_account == bip_account
    }

    /// Whether the notebook belongs to the wallet context (rotation `seed`,
    /// account `bip_account`).
    pub fn in_context(&self, seed: u32, bip_account: u32) -> (r: bool)
        ensures
            r == self.of_context(seed, bip_account),
    {
        self.seed == seed && self.bip_account == bip_account
    }
}

/// The notebooks, and the spending sections of their contexts: several
/// notebooks of one account share one spending wallet.
#[derive(Debug, Clone)]
pub struct NotebookIndex {
    pub version: u32,
    pub notebooks: Vec<NotebookMeta>,
    pub spending: Vec<SpendingSection>,
}

impl Default for NotebookIndex {
    fn default() -> (r: Self)
        ensures
            r.version == 2,
            r.notebooks@.len() == 0,
            r.spending@.len() == 0,
    {
        NotebookIndex { version: 2, notebooks: Vec::new(), spending: Vec::new() }
    }
}

impl SpendingIndex for NotebookIndex {
    open spec fn sections(&self) -> Seq<SpendingSection> {
        self.spending@
    }

    open spec fn same_but_sections(&self, other: &Self) -> bool {
        self.version == other.version && self.notebooks == other.notebooks
    }

    fn spending_sections(&self) -> (r: &[SpendingSection]) {
        self.spending.as_slice()
    }

    fn spending_sections_mut(&mut self) -> (r: &mut Vec<SpendingSection>) {
        &mut self.spending
    }
}

/// Whether a notebook has the key `account`.
pub open spec fn has_key(notebooks: Seq<NotebookMeta>, account: u32) -> bool {
    exists|k: int| 0 <= k < notebooks.len() && (#[trigger] notebooks[k]).account == account
}

/// The first notebook with the key `account` stands at `k`.
pub open spec fn is_first_with_key(notebooks: Seq<NotebookMeta>, k: int, account: u32) -> bool {
    &&& 0 <= k < notebooks.len()
    &&& notebooks[k].account == account
    &&& forall|j: int| 0 <= j < k ==> (#[trigger] notebooks[j]).account != account
}

/// The first notebook with the key `account` is `m`.
pub open spec fn finds(notebooks: Seq<NotebookMeta>, account: u32, m: NotebookMeta) -> bool {
    exists|k: int| #[trigger] is_first_with_key(notebooks, k, account) && notebooks[k] == m
}

/// No two notebooks have the same key.
pub open spec fn distinct_keys(notebooks: Seq<NotebookMeta>) -> bool {
    forall|i: int, j: int|
        0 <= i < j < notebooks.len() ==> (#[trigger] notebooks[i]).account != (
        #[trigger] notebooks[j]).account
}

/// `next` is one past the highest of `values`, and 0 where there are none.
pub open spec fn one_past_highest(values: Seq<u32>, next: int) -> bool {
    &&& forall|i: int| 0 <= i < values.len() ==> #[trigger] values[i] < next
    &&& if values.len() == 0 {
        next == 0
    } else {
        exists|i: int| 0 <= i < values.len() && #[trigger] values[i] == next - 1
    }
}

/// The keys of notebooks.
pub open spec fn keys_of(notebooks: Seq<NotebookMeta>) -> Seq<u32> {
    notebooks.map_values(|m: NotebookMeta| m.account)
}

/// The receive indexes in use within a context.
pub open spec fn indexes_of(notebooks: Seq<NotebookMeta>, seed: u32, bip_account: u32) -> Seq<u32> {
    notebooks.filter(|m: NotebookMeta| m.of_context(seed, bip_account)).map_values(
        |m: NotebookMeta| m.index,
    )
}

/// The keys of notebooks as sort keys.
pub open spec fn sort_keys(notebooks: Seq<NotebookMeta>) -> Seq<u128> {
    notebooks.map_values(|m: NotebookMeta| m.account as u128)
}

/// The notebook that a creation adds.
pub open spec fn is_new_notebook(
    notebooks: Seq<NotebookMeta>,
    m: NotebookMeta,
    seed: u32,
    bip_account: u32,
    name: Seq<char>,
) -> bool {
    &&& one_past_highest(keys_of(notebooks), m.account as int)
    &&& m.name@ == trimmed(name)
    &&& !m.archived
    &&& m.seed == seed
    &&& m.bip_account == bip_account
    &&& one_past_highest(indexes_of(notebooks, seed, bip_account), m.index as int)
}

/// `after` is `before` with the new notebook `m`, sorted by key.
pub open spec fn creates(
    before: Seq<NotebookMeta>,
    m: NotebookMeta,
    seed: u32,
    bip_account: u32,
    name: Seq<char>,
    after: Seq<NotebookMeta>,
) -> bool {
    &&& is_new_notebook(before, m, seed, bip_account, name)
    &&& stably_sorted(before.push(m), sort_keys(before.push(m)), after)
}

/// `after` is `before` with the name of the notebook at `k` replaced by the
/// trimmed `name`.
pub open spec fn renames(
    before: Seq<NotebookMeta>,
    k: int,
    name: Seq<char>,
    after: Seq<NotebookMeta>,
) -> bool {
    &&& after == before.update(k, NotebookMeta { name: after[k].name, ..before[k] })
    &&& after[k].name@ == trimmed(name)
}

impl NotebookIndex {
    /// Every notebook that is not archived.
    pub open spec fn active_metas(&self) -> Seq<NotebookMeta> {
        self.notebooks@.filter(|m: NotebookMeta| !m.archived)
    }

    /// The notebooks of a context that are not archived.
    pub open spec fn visible_metas(&self, seed: u32, bip_account: u32) -> Seq<NotebookMeta> {
        self.notebooks@.filter(|m: NotebookMeta| !m.archived && m.of_context(seed, bip_account))
    }

    /// The archived notebooks of a context.
    pub open spec fn archived_metas(&self, seed: u32, bip_account: u32) -> Seq<NotebookMeta> {
        self.notebooks@.filter(|m: NotebookMeta| m.archived && m.of_context(seed, bip_account))
    }

    /// Where the first notebook with a key stands.
    fn position(&self, account: u32) -> (r: Option<usize>)
        ensures
            match r {
                Some(k) => is_first_with_key(self.notebooks@, k as int, account),
                None => !has_key(self.notebooks@, account),
            },
    {
        let mut i: usize = 0;
        while i < self.notebooks.len()
            invariant
                i <= self.notebooks.len(),
                forall|j: int| 0 <= j < i ==> (#[trigger] self.notebooks@[j]).account != account,
            decreases self.notebooks.len() - i,
        {
            if self.notebooks[i].account == account {
                return Some(i);
            }
            i = i + 1;
        }
        None
    }

    /// The notebook with a key.
    pub fn get(&self, account: u32) -> (r: Option<&NotebookMeta>)
        ensures
            match r {
                Some(m) => finds(self.notebooks@, account, *m),
                None => !has_key(self.notebooks@, account),
            },
    {
        match self.position(account) {
            Some(k) => Some(&self.notebooks[k]),
            None => None,
        }
    }

    /// Creates a notebook at the next unused receive index of (`seed`,
    /// `bip_account`), named `name`, and returns its key.
    pub fn create_bip86(&mut self, seed: u32, bip_account: u32, name: &str) -> (r: u32)
        requires
            forall|i: int|
                0 <= i < old(self).notebooks@.len() ==> (
                #[trigger] old(self).notebooks@[i]).account < u32::MAX,
            forall|i: int|
                0 <= i < old(self).notebooks@.len() && (
                #[trigger] old(self).notebooks@[i]).of_context(seed, bip_account)
                    ==> old(self).notebooks@[i].index < u32::MAX,
        ensures
            exists|m: NotebookMeta| #[trigger]
                creates(
                    old(self).notebooks@,
                    m,
                    seed,
                    bip_account,
                    name@,
                    final(self).notebooks@,
                ) && m.account == r,
            final(self).version == old(self).version,
            final(self).spending == old(self).spending,
    {
        let account: u32 = self.next_account();
        let index: u32 = self.next_bip86_index(seed, bip_account);
        let meta = NotebookMeta {
            account,
            name: trim(name).to_owned(),
            archived: false,
            seed,
            bip_account,
            index,
        };
        let ghost m = meta;
        self.notebooks.push(meta);
        let mut keys: Vec<u128> = Vec::new();
        let mut i: usize = 0;
        while i < self.notebooks.len()
            invariant
                i <= self.notebooks.len(),
                keys@ == sort_keys(self.notebooks@).take(i as int),
            decreases self.notebooks.len() - i,
        {
            keys.push(self.notebooks[i].account as u128);
            i = i + 1;
            assert(keys@ =~= sort_keys(self.notebooks@).take(i as int));
        }
        assert(keys@ =~= sort_keys(self.notebooks@));
        stable_sort(&mut self.notebooks, &mut keys);
        assert(creates(old(self).notebooks@, m, seed, bip_account, name@, self.notebooks@));
        account
    }

    /// The key a new notebook gets: one past the highest known.
    pub fn next_account(&self) -> (r: u32)
        requires
            forall|i: int|
                0 <= i < self.notebooks@.len() ==> (#[trigger] self.notebooks@[i]).account
                    < u32::MAX,
        ensures
            one_past_highest(keys_of(self.notebooks@), r as int),
    {
        let mut next: u32 = 0;
        let mut i: usize = 0;
        while i < self.notebooks.len()
            invariant
                i <= self.notebooks.len(),
                forall|j: int|
                    0 <= j < self.notebooks@.len() ==> (#[trigger] self.notebooks@[j]).account
                        < u32::MAX,
                one_past_highest(keys_of(self.notebooks@.take(i as int)), next as int),
            decreases self.notebooks.len() - i,
        {
            let ghost seen = keys_of(self.notebooks@.take(i as int));
            let key: u32 = self.notebooks[i].account;
            let ghost was = next;
            if key + 1 > next {
                next = key + 1;
            }
            i = i + 1;
            proof {
                let now = keys_of(self.notebooks@.take(i as int));
                assert(now =~= seen.push(key));
                one_past_pushed(seen, was as int, key, next as int);
            }
        }
        assert(self.notebooks@.take(i as int) =~= self.notebooks@);
        next
    }

    /// The next unused receive index within (`seed`, `bip_account`).
    pub fn next_bip86_index(&self, seed: u32, bip_account: u32) -> (r: u32)
        requires
            forall|i: int|
                0 <= i < self.notebooks@.len() && (#[trigger] self.notebooks@[i]).of_context(
                    seed,
                    bip_account,
                ) ==> self.notebooks@[i].index < u32::MAX,
        ensures
            one_past_highest(indexes_of(self.notebooks@, seed, bip_account), r as int),
    {
        let ghost here = |m: NotebookMeta| m.of_context(seed, bip_account);
        let mut next: u32 = 0;
        let mut i: usize = 0;
        proof {
            filter_take_none(self.notebooks@, here);
            assert(indexes_of(self.notebooks@.take(0), seed, bip_account) =~= seq![]);
        }
        while i < self.notebooks.len()
            invariant
                i <= self.notebooks.len(),
                here == (|m: NotebookMeta| m.of_context(seed, bip_account)),
                forall|j: int|
                    0 <= j < self.notebooks@.len() && (#[trigger] self.notebooks@[j]).of_context(
                        seed,
                        bip_account,
                    ) ==> self.notebooks@[j].index < u32::MAX,
                one_past_highest(
                    indexes_of(self.notebooks@.take(i as int), seed, bip_account),
                    next as int,
                ),
            decreases self.notebooks.len() - i,
        {
            let ghost seen = indexes_of(self.notebooks@.take(i as int), seed, bip_account);
            let ghost was = next;
            proof {
                filter_take_step(self.notebooks@, i as int, here);
            }
            if self.notebooks[i].in_context(seed, bip_account) {
                let index: u32 = self.notebooks[i].index;
                if index + 1 > next {
                    next = index + 1;
                }
                proof {
                    let now = indexes_of(self.notebooks@.take(i + 1), seed, bip_account);
                    assert(now =~= seen.push(index));
                    one_past_pushed(seen, was as int, index, next as int);
                }
            }
            i = i + 1;
        }
        assert(self.notebooks@.take(i as int) =~= self.notebooks@);
        next
    }

    /// Renames a notebook; an unknown key changes nothing.
    pub fn rename(&mut self, account: u32, name: &str)
        ensures
            if has_key(old(self).notebooks@, account) {
                exists|k: int| #[trigger]
                    is_first_with_key(old(self).notebooks@, k, account) && renames(
                        old(self).notebooks@,
                        k,
                        name@,
                        final(self).notebooks@,
                    )
            } else {
                final(self).notebooks@ == old(self).notebooks@
            },
            final(self).version == old(self).version,
            final(self).spending == old(self).spending,
    {
        match self.position(account) {
            Some(k) => {
                self.notebooks[k].name = trim(name).to_owned();
                assert(renames(old(self).notebooks@, k as int, name@, self.notebooks@));
            },
            None => {},
        }
    }

    /// Sets the archive flag of a notebook; an unknown key changes nothing.
    pub fn set_archived(&mut self, account: u32, archived: bool)
        ensures
            if has_key(old(self).notebooks@, account) {
                exists|k: int| #[trigger]
                    is_first_with_key(old(self).notebooks@, k, account) && final(self).notebooks@
                        == old(self).notebooks@.update(
                        k,
                        NotebookMeta { archived, ..old(self).notebooks@[k] },
                    )
            } else {
                final(self).notebooks@ == old(self).notebooks@
            },
            final(self).version == old(self).version,
            final(self).spending == old(self).spending,
    {
        match self.position(account) {
            Some(k) => {
                self.notebooks[k].archived = archived;
            },
            None => {},
        }
    }

    /// Every notebook that is not archived.
    pub fn active(&self) -> (r: Vec<&NotebookMeta>)
        ensures
            items_of(r@) == self.active_metas(),
    {
        let ghost keep = |m: NotebookMeta| !m.archived;
        let test = |m: &NotebookMeta| -> (b: bool)
            ensures
                b == keep(*m),
            {
                !m.archived
            };
        refs_where(&self.notebooks, test, Ghost(keep))
    }

    /// The notebooks visible in the context (`seed`, `bip_account`): those
    /// the list shows and wallet-level features work on.
    pub fn visible(&self, seed: u32, bip_account: u32) -> (r: Vec<&NotebookMeta>)
        ensures
            items_of(r@) == self.visible_metas(seed, bip_account),
    {
        let ghost keep = |m: NotebookMeta| !m.archived && m.of_context(seed, bip_account);
        let test = |m: &NotebookMeta| -> (b: bool)
            ensures
                b == keep(*m),
            {
                !m.archived && m.in_context(seed, bip_account)
            };
        refs_where(&self.notebooks, test, Ghost(keep))
    }

    /// The archived notebooks of the context (`seed`, `bip_account`).
    pub fn archived_in_context(&self, seed: u32, bip_account: u32) -> (r: Vec<&NotebookMeta>)
        ensures
            items_of(r@) == self.archived_metas(seed, bip_account),
    {
        let ghost keep = |m: NotebookMeta| m.archived && m.of_context(seed, bip_account);
        let test = |m: &NotebookMeta| -> (b: bool)
            ensures
                b == keep(*m),
            {
                m.archived && m.in_context(seed, bip_account)
            };
        refs_where(&self.notebooks, test, Ghost(keep))
    }
}

/// One past the highest, with one more value.
proof fn one_past_pushed(values: Seq<u32>, next: int, value: u32, now: int)
    requires
        one_past_highest(values, next),
        now == if value + 1 > next {
            value + 1
        } else {
            next
        },
    ensures
        one_past_highest(values.push(value), now),
{
    let all = values.push(value);
    if value + 1 > next {
        assert(all[values.len() as int] == now - 1);
    } else {
        assert(values.len() > 0);
        let i = choose|i: int| 0 <= i < values.len() && #[trigger] values[i] == next - 1;
        assert(all[i] == now - 1);
    }
}

/// A key is unique where no two notebooks share one, so its first notebook
/// is its only one.
proof fn the_only_one_with_its_key(notebooks: Seq<NotebookMeta>, k: int)
    requires
        distinct_keys(notebooks),
        0 <= k < notebooks.len(),
    ensures
        is_first_with_key(notebooks, k, notebooks[k].account),
{
}

/// A new notebook gets a key and a receive index that nothing else has, and
/// the keys stay distinct and end up in ascending order.
pub proof fn creation_keeps_keys_distinct(
    before: Seq<NotebookMeta>,
    m: NotebookMeta,
    seed: u32,
    bip_account: u32,
    name: Seq<char>,
    after: Seq<NotebookMeta>,
)
    requires
        distinct_keys(before),
        creates(before, m, seed, bip_account, name, after),
    ensures
        !has_key(before, m.account),
        forall|i: int|
            0 <= i < before.len() && (#[trigger] before[i]).of_context(seed, bip_account)
                ==> before[i].index < m.index,
        distinct_keys(after),
        forall|i: int, j: int|
            0 <= i < j < after.len() ==> (#[trigger] after[i]).account < (
            #[trigger] after[j]).account,
{
    let all = before.push(m);
    let keys = sort_keys(all);
    let p = choose|p: Seq<int>| #[trigger] stable_order(keys, p) && picked(all, p, after);
    assert forall|i: int| 0 <= i < before.len() implies (#[trigger] before[i]).account
        < m.account by {
        assert(keys_of(before)[i] == before[i].account);
    }
    assert forall|i: int|
        0 <= i < before.len() && (#[trigger] before[i]).of_context(
            seed,
            bip_account,
        ) implies before[i].index < m.index by {
        broadcast use vstd::seq_lib::group_filter_ensures;

        let here = |m: NotebookMeta| m.of_context(seed, bip_account);
        let kept = before.filter(here);
        assert(kept.contains(before[i]));
        let q = choose|q: int| 0 <= q < kept.len() && kept[q] == before[i];
        assert(indexes_of(before, seed, bip_account)[q] == before[i].index);
    }
    assert forall|i: int, j: int| 0 <= i < j < after.len() implies (#[trigger] after[i]).account < (
    #[trigger] after[j]).account by {
        assert(after[i] == all[p[i]] && after[j] == all[p[j]]);
        assert(keys[p[i]] == all[p[i]].account && keys[p[j]] == all[p[j]].account);
        assert(p[i] != p[j]);
        assert(all[p[i]].account != all[p[j]].account) by {
            if p[i] < p[j] {
                assert(p[j] < before.len() ==> before[p[i]].account != before[p[j]].account);
            } else {
                assert(p[i] < before.len() ==> before[p[j]].account != before[p[i]].account);
            }
        }
    }
}

/// A new notebook is found under its key, and every other key still finds
/// what it found before.
pub proof fn creation_keeps_what_was_there(
    before: Seq<NotebookMeta>,
    m: NotebookMeta,
    seed: u32,
    bip_account: u32,
    name: Seq<char>,
    after: Seq<NotebookMeta>,
)
    requires
        distinct_keys(before),
        creates(before, m, seed, bip_account, name, after),
    ensures
        finds(after, m.account, m),
        after.len() == before.len() + 1,
        forall|i: int|
            0 <= i < before.len() ==> finds(after, (#[trigger] before[i]).account, before[i]),
{
    creation_keeps_keys_distinct(before, m, seed, bip_account, name, after);
    let all = before.push(m);
    let keys = sort_keys(all);
    let p = choose|p: Seq<int>| #[trigger] stable_order(keys, p) && picked(all, p, after);
    assert forall|q: int| 0 <= q < all.len() implies finds(
        after,
        (#[trigger] all[q]).account,
        all[q],
    ) by {
        stable_order_lists_all(keys, p, q);
        let k = choose|k: int| 0 <= k < p.len() && #[trigger] p[k] == q;
        assert(after[k] == all[q]);
        the_only_one_with_its_key(after, k);
    }
    assert(all[before.len() as int] == m);
    assert forall|i: int| 0 <= i < before.len() implies finds(
        after,
        (#[trigger] before[i]).account,
        before[i],
    ) by {
        assert(all[i] == before[i]);
    }
}

/// A rename changes the name of one notebook and nothing else: keys, archive
/// flags and derivation stay.
pub proof fn renaming_keeps_the_rest(
    before: Seq<NotebookMeta>,
    k: int,
    name: Seq<char>,
    after: Seq<NotebookMeta>,
)
    requires
        0 <= k < before.len(),
        renames(before, k, name, after),
    ensures
        after.len() == before.len(),
        distinct_keys(before) ==> distinct_keys(after),
        forall|i: int|
            0 <= i < before.len() ==> {
                &&& (#[trigger] after[i]).account == before[i].account
                &&& after[i].archived == before[i].archived
                &&& after[i].seed == before[i].seed
                &&& after[i].bip_account == before[i].bip_account
                &&& after[i].index == before[i].index
            },
{
    if distinct_keys(before) {
        assert forall|i: int, j: int| 0 <= i < j < after.len() implies (
        #[trigger] after[i]).account != (#[trigger] after[j]).account by {
            assert(before[i].account != before[j].account);
        }
    }
}

/// Archiving a notebook and setting its flag back restores the index.
pub proof fn archiving_can_be_undone(before: Seq<NotebookMeta>, k: int, archived: bool)
    requires
        0 <= k < before.len(),
    ensures
        before.update(k, NotebookMeta { archived, ..before[k] }).update(
            k,
            NotebookMeta {
                archived: before[k].archived,
                ..before.update(k, NotebookMeta { archived, ..before[k] })[k]
            },
        ) == before,
{
    assert(before.update(k, NotebookMeta { archived, ..before[k] }).update(
        k,
        NotebookMeta {
            archived: before[k].archived,
            ..before.update(k, NotebookMeta { archived, ..before[k] })[k]
        },
    ) =~= before);
}

/// Within a context every notebook is either visible or archived, never
/// both; the active notebooks of the context are the visible ones.
pub proof fn visible_and_archived_partition_a_context(ix: NotebookIndex, seed: u32, bip_account: u32)
    ensures
        ix.active_metas().filter(|m: NotebookMeta| m.of_context(seed, bip_account))
            == ix.visible_metas(seed, bip_account),
        ix.visible_metas(seed, bip_account).len() + ix.archived_metas(seed, bip_account).len()
            == ix.notebooks@.filter(|m: NotebookMeta| m.of_context(seed, bip_account)).len(),
        forall|i: int|
            0 <= i < ix.notebooks@.len() && (#[trigger] ix.notebooks@[i]).of_context(
                seed,
                bip_account,
            ) ==> {
                &&& ix.visible_metas(seed, bip_account).contains(ix.notebooks@[i])
                    <==> !ix.notebooks@[i].archived
                &&& ix.archived_metas(seed, bip_account).contains(ix.notebooks@[i])
                    <==> ix.notebooks@[i].archived
            },
{
    broadcast use vstd::seq_lib::group_filter_ensures;

    context_split(ix.notebooks@, seed, bip_account);
}

proof fn context_split(s: Seq<NotebookMeta>, seed: u32, bip_account: u32)
    ensures
        s.filter(|m: NotebookMeta| !m.archived).filter(
            |m: NotebookMeta| m.of_context(seed, bip_account),
        ) == s.filter(|m: NotebookMeta| !m.archived && m.of_context(seed, bip_account)),
        s.filter(|m: NotebookMeta| !m.archived && m.of_context(seed, bip_account)).len() + s.filter(
            |m: NotebookMeta| m.archived && m.of_context(seed, bip_account),
        ).len() == s.filter(|m: NotebookMeta| m.of_context(seed, bip_account)).len(),
    decreases s.len(),
{
    reveal(Seq::filter);
    if s.len() > 0 {
        let rest = s.drop_last();
        context_split(rest, seed, bip_account);
        let live = |m: NotebookMeta| !m.archived;
        let here = |m: NotebookMeta| m.of_context(seed, bip_account);
        filter_push(rest.filter(live), s.last(), here);
    }
}

/// A new notebook is numbered right behind the highest key of all notebooks,
/// and right behind the highest index of its context; the first one gets
/// number zero. It is visible, belongs to the context it was made in, and has
/// the trimmed name.
pub proof fn new_notebooks_are_numbered_on(
    notebooks: Seq<NotebookMeta>,
    m: NotebookMeta,
    seed: u32,
    bip_account: u32,
    name: Seq<char>,
)
    requires
        is_new_notebook(notebooks, m, seed, bip_account, name),
    ensures
        forall|i: int| 0 <= i < notebooks.len() ==> (#[trigger] notebooks[i]).account < m.account,
        m.account > 0 ==> exists|i: int|
            0 <= i < notebooks.len() && (#[trigger] notebooks[i]).account == m.account - 1,
        forall|i: int|
            0 <= i < notebooks.len() && (#[trigger] notebooks[i]).seed == seed
                && notebooks[i].bip_account == bip_account ==> notebooks[i].index < m.index,
        m.index > 0 ==> exists|i: int|
            0 <= i < notebooks.len() && (#[trigger] notebooks[i]).seed == seed
                && notebooks[i].bip_account == bip_account && notebooks[i].index == m.index - 1,
        !m.archived,
        m.seed == seed,
        m.bip_account == bip_account,
        m.name@ == trimmed(name),
{
    let keys = keys_of(notebooks);
    let ours = |m: NotebookMeta| m.of_context(seed, bip_account);
    let mine = notebooks.filter(ours);
    let indexes = indexes_of(notebooks, seed, bip_account);
    assert forall|i: int| 0 <= i < notebooks.len() implies (#[trigger] notebooks[i]).account
        < m.account by {
        assert(keys[i] < m.account);
    }
    if m.account > 0 {
        let i = choose|i: int| 0 <= i < keys.len() && #[trigger] keys[i] == m.account - 1;
        assert(notebooks[i].account == m.account - 1);
    }
    assert forall|i: int|
        0 <= i < notebooks.len() && (#[trigger] notebooks[i]).seed == seed
            && notebooks[i].bip_account == bip_account implies notebooks[i].index < m.index by {
        filter_keeps(notebooks, ours, i);
        let k = choose|k: int| 0 <= k < mine.len() && mine[k] == notebooks[i];
        assert(indexes[k] == notebooks[i].index);
    }
    if m.index > 0 {
        let k = choose|k: int| 0 <= k < indexes.len() && #[trigger] indexes[k] == m.index - 1;
        filtered_is_from(notebooks, ours, k);
        let i = choose|i: int| 0 <= i < notebooks.len() && notebooks[i] == mine[k];
        assert(notebooks[i].index == m.index - 1);
    }
}

/// Renaming gives the notebook its trimmed name and changes no other.
pub proof fn renaming_names_one_notebook(
    before: Seq<NotebookMeta>,
    k: int,
    name: Seq<char>,
    after: Seq<NotebookMeta>,
)
    requires
        0 <= k < before.len(),
        renames(before, k, name, after),
    ensures
        after[k].name@ == trimmed(name),
        forall|i: int| 0 <= i < before.len() && i != k ==> #[trigger] after[i] == before[i],
{
}

/// The lists of notebooks show, in order, exactly those that are not archived,
/// those of a context that are not, and those of a context that are.
pub proof fn lists_show_exactly_their_notebooks(ix: NotebookIndex, seed: u32, bip_account: u32)
    ensures
        ix.active_metas() == ix.notebooks@.filter(|m: NotebookMeta| !m.archived),
        ix.visible_metas(seed, bip_account) == ix.notebooks@.filter(
            |m: NotebookMeta| !m.archived && m.seed == seed && m.bip_account == bip_account,
        ),
        ix.archived_metas(seed, bip_account) == ix.notebooks@.filter(
            |m: NotebookMeta| m.archived && m.seed == seed && m.bip_account == bip_account,
        ),
{
    let a = |m: NotebookMeta| !m.archived && m.of_context(seed, bip_account);
    let b = |m: NotebookMeta| !m.archived && m.seed == seed && m.bip_account == bip_account;
    let c = |m: NotebookMeta| m.archived && m.of_context(seed, bip_account);
    let d = |m: NotebookMeta| m.archived && m.seed == seed && m.bip_account == bip_account;
    assert(a =~= b);
    assert(c =~= d);
}

/// The notebook found under a key is the first that has it.
pub proof fn the_first_notebook_with_a_key_is_found(
    notebooks: Seq<NotebookMeta>,
    account: u32,
    k: int,
    m: NotebookMeta,
)
    requires
        0 <= k < notebooks.len(),
        notebooks[k].account == account,
        forall|j: int| 0 <= j < k ==> (#[trigger] notebooks[j]).account != account,
    ensures
        has_key(notebooks, account),
        finds(notebooks, account, m) <==> m == notebooks[k],
{
    assert(is_first_with_key(notebooks, k, account));
    if finds(notebooks, account, m) {
        let i = choose|i: int| #[trigger]
            is_first_with_key(notebooks, i, account) && notebooks[i] == m;
        assert(i == k);
    }
}

/// Indexes that differ in their sections alone have the same notebooks and the
/// same version.
pub proof fn sections_are_all_that_may_differ(a: NotebookIndex, b: NotebookIndex)
    ensures
        a.sections() == a.spending@,
        a.same_but_sections(&b) ==> a.notebooks == b.notebooks && a.version == b.version,
{
}

}
