//! The state of one notebook on one network: its notes, coins, contacts and
//! sender filter.

use crate::coins::{coin_values, coins_total, core_utxos, sum_of, wire_coins, Utxo, UtxoRec};
use crate::contacts::ContactRec;
use crate::hexcodec::{encode, hex_text};
use crate::lists::{count_where, items_of, refs_where, retain_where};
use crate::ordering::{picked, stable_order, stable_sort, stably_sorted};
use crate::seqs::{filter_push, filtered_is_from};
use crate::text::{same_text, texts_of};
use vstd::prelude::*;

verus! {

/// Below this chunk size the envelope header dominates and a note of the
/// most chunks holds almost nothing.
pub const MIN_CHUNK: usize = 20;

/// The default chunk size, which is also the largest. The chunk size is a
/// device setting.
pub const DEFAULT_CHUNK: usize = 100_000;

/// One note.
#[derive(Debug, Clone)]
pub struct NoteRec {
    /// Note id, hexadecimal.
    pub id: String,
    pub text: String,
    pub private: bool,
    pub txid: String,
    /// The signed transaction; empty for a note recovered from chain.
    pub raw_hex: String,
    pub fee: u64,
    pub vsize: u64,
    pub chunks: u64,
    pub height: Option<u64>,
    pub blocktime: Option<u64>,
    /// `pending` or `confirmed`.
    pub status: String,
    pub directed: bool,
    /// The first recipient of a note we sent to someone else.
    pub to: Option<String>,
    /// The sender of a note someone sent to us.
    pub from: Option<String>,
    /// Every recipient of a directed note, in output order.
    pub recipients: Vec<String>,
}

/// A note by its texts and numbers.
#[verifier::ext_equal]
pub struct Note {
    pub id: Seq<char>,
    pub text: Seq<char>,
    pub private: bool,
    pub txid: Seq<char>,
    pub raw_hex: Seq<char>,
    pub fee: u64,
    pub vsize: u64,
    pub chunks: u64,
    pub height: Option<u64>,
    pub blocktime: Option<u64>,
    pub status: Seq<char>,
    pub directed: bool,
    pub to: Option<Seq<char>>,
    pub from: Option<Seq<char>>,
    pub recipients: Seq<Seq<char>>,
}

/// The characters of a text that may be missing.
pub open spec fn text_of(t: Option<String>) -> Option<Seq<char>> {
    match t {
        Some(s) => Some(s@),
        None => None,
    }
}

impl View for NoteRec {
    type V = Note;

    open spec fn view(&self) -> Note {
        Note {
            id: self.id@,
            text: self.text@,
            private: self.private,
            txid: self.txid@,
            raw_hex: self.raw_hex@,
            fee: self.fee,
            vsize: self.vsize,
            chunks: self.chunks,
            height: self.height,
            blocktime: self.blocktime,
            status: self.status@,
            directed: self.directed,
            to: text_of(self.to),
            from: text_of(self.from),
            recipients: texts_of(self.recipients@),
        }
    }
}

/// The notes of a list by their texts and numbers.
pub open spec fn notes_in(list: Seq<NoteRec>) -> Seq<Note> {
    list.map_values(|n: NoteRec| n@)
}

/// The state of one notebook on one network. The order of the contacts is
/// their recency, the most recently used first. Fee rates and prices are
/// kept beside it.
#[derive(Debug, Clone)]
pub struct State {
    /// The key of the notebook; the file it is stored in implies it.
    pub account: u32,
    pub network: String,
    pub notes: Vec<NoteRec>,
    pub utxos: Vec<UtxoRec>,
    pub contacts: Vec<ContactRec>,
    pub tip_height: Option<u64>,
    pub bundle_time: Option<u64>,
    /// The chunk size picked by the user; `None` for the default.
    pub chunk_override: Option<usize>,
    /// The sender keys hidden from the notes list. Anything not listed
    /// shows, so a new sender is visible by default.
    pub excluded_senders: Vec<String>,
}

impl Default for State {
    fn default() -> (r: Self)
        ensures
            r.account == 0,
            r.network@ == "mainnet"@,
            r.notes@.len() == 0,
            r.utxos@.len() == 0,
            r.contacts@.len() == 0,
            r.tip_height is None,
            r.bundle_time is None,
            r.chunk_override is None,
            r.excluded_senders@.len() == 0,
    {
        State {
            account: 0,
            network: "mainnet".to_owned(),
            notes: Vec::new(),
            utxos: Vec::new(),
            contacts: Vec::new(),
            tip_height: None,
            bundle_time: None,
            chunk_override: None,
            excluded_senders: Vec::new(),
        }
    }
}

/// `size` moved into the range of allowed chunk sizes, and the default where
/// none was picked.
pub open spec fn chunk_in_effect(size: Option<usize>) -> usize {
    match size {
        None => DEFAULT_CHUNK,
        Some(c) => if c < MIN_CHUNK {
            MIN_CHUNK
        } else if c > DEFAULT_CHUNK {
            DEFAULT_CHUNK
        } else {
            c
        },
    }
}

/// The chunk size that a setting amounts to.
pub fn clamp_chunk(size: Option<usize>) -> (r: usize)
    ensures
        r == chunk_in_effect(size),
        MIN_CHUNK <= r <= DEFAULT_CHUNK,
{
    match size {
        None => DEFAULT_CHUNK,
        Some(c) => if c < MIN_CHUNK {
            MIN_CHUNK
        } else if c > DEFAULT_CHUNK {
            DEFAULT_CHUNK
        } else {
            c
        },
    }
}

/// The sender key of a note: the counterparty of a received note, `self` for
/// our own notes.
pub open spec fn sender_of(n: NoteRec) -> Seq<char> {
    match n.from {
        Some(f) => f@,
        None => "self"@,
    }
}

/// How many notes have a sender key.
pub open spec fn notes_from(notes: Seq<NoteRec>, key: Seq<char>) -> nat {
    notes.filter(|n: NoteRec| sender_of(n) == key).len()
}

/// Some note with the key `a` is newer than every note with the key `b`.
pub open spec fn newer_sender(notes: Seq<NoteRec>, a: Seq<char>, b: Seq<char>) -> bool {
    exists|i: int|
        0 <= i < notes.len() && sender_of(#[trigger] notes[i]) == a && forall|j: int|
            i <= j < notes.len() ==> sender_of(#[trigger] notes[j]) != b
}

/// Whether `tally` lists a sender key.
pub open spec fn tallied(tally: Seq<(String, usize)>, key: Seq<char>) -> bool {
    exists|i: int| 0 <= i < tally.len() && (#[trigger] tally[i]).0@ == key
}

/// `tally` lists each sender of `notes` once, with how many notes it sent,
/// the sender of the newest note first.
pub open spec fn is_sender_tally(notes: Seq<NoteRec>, tally: Seq<(String, usize)>) -> bool {
    &&& forall|i: int|
        0 <= i < tally.len() ==> (#[trigger] tally[i]).1 == notes_from(notes, tally[i].0@)
            && tally[i].1 > 0
    &&& forall|i: int| 0 <= i < notes.len() ==> tallied(tally, sender_of(#[trigger] notes[i]))
    &&& forall|i: int, j: int|
        0 <= i < j < tally.len() ==> newer_sender(
            notes,
            (#[trigger] tally[i]).0@,
            (#[trigger] tally[j]).0@,
        )
}

/// Whether `list` holds the text `key`.
pub open spec fn text_listed(list: Seq<String>, key: Seq<char>) -> bool {
    exists|i: int| 0 <= i < list.len() && (#[trigger] list[i])@ == key
}

/// Whether `list` holds a text.
pub fn has_text(list: &[String], key: &str) -> (r: bool)
    ensures
        r == text_listed(list@, key@),
{
    let mut i: usize = 0;
    while i < list.len()
        invariant
            i <= list@.len(),
            forall|j: int| 0 <= j < i ==> (#[trigger] list@[j])@ != key@,
        decreases list@.len() - i,
    {
        if same_text(list[i].as_str(), key) {
            return true;
        }
        i = i + 1;
    }
    false
}

/// The sort key of a note in the list: 0 for a pending note, then the
/// smaller the higher its block.
pub open spec fn list_key(n: NoteRec) -> u128 {
    match n.height {
        None => 0,
        Some(h) => (0x1_0000_0000_0000_0000 - h) as u128,
    }
}

impl State {
    /// The sum of the notebook's coins.
    pub fn balance(&self) -> (r: u64)
        requires
            sum_of(coin_values(self.utxos@)) <= u64::MAX,
        ensures
            r == sum_of(coin_values(self.utxos@)),
    {
        coins_total(&self.utxos)
    }

    /// The coins for a transaction builder, without the malformed ones.
    pub fn core_utxos(&self) -> (r: Vec<Utxo>)
        ensures
            wire_coins(self.utxos@, r@),
    {
        core_utxos(&self.utxos)
    }

    /// The chunk size used for composing.
    pub fn effective_chunk(&self) -> (r: usize)
        ensures
            r == chunk_in_effect(self.chunk_override),
    {
        clamp_chunk(self.chunk_override)
    }

    /// The sender key of a note.
    pub fn sender_key(n: &NoteRec) -> (r: String)
        ensures
            r@ == sender_of(*n),
    {
        match &n.from {
            Some(f) => f.clone(),
            None => "self".to_owned(),
        }
    }

    /// The distinct sender keys with their note counts, newest activity
    /// first.
    pub fn senders(&self) -> (r: Vec<(String, usize)>)
        ensures
            is_sender_tally(self.notes@, r@),
    {
        let mut out: Vec<(String, usize)> = Vec::new();
        let mut k: usize = self.notes.len();
        assert(self.notes@.skip(k as int) =~= seq![]);
        while k > 0
            invariant
                k <= self.notes.len(),
                is_sender_tally(self.notes@.skip(k as int), out@),
            decreases k,
        {
            let ghost before = out@;
            let ghost seen = self.notes@.skip(k as int);
            k = k - 1;
            let ghost now = self.notes@.skip(k as int);
            let ghost note = self.notes@[k as int];
            assert(now =~= seq![note] + seen);
            let key: String = State::sender_key(&self.notes[k]);
            let mut i: usize = 0;
            while i < out.len() && !same_text(out[i].0.as_str(), key.as_str())
                invariant
                    i <= out.len(),
                    out@ == before,
                    forall|j: int| 0 <= j < i ==> (#[trigger] before[j]).0@ != key@,
                decreases out.len() - i,
            {
                i = i + 1;
            }
            proof {
                tally_counts(seen, note);
            }
            if i < out.len() {
                let count: usize = out[i].1;
                proof {
                    let from = |n: NoteRec| sender_of(n) == key@;
                    seen.lemma_filter_len(from);
                }
                out[i].1 = count + 1;
                proof {
                    tally_extended(seen, note, before, out@, i as int);
                }
            } else {
                out.push((key, 1));
                assert(out@.drop_last() =~= before);
                proof {
                    tally_started(seen, note, before, out@);
                }
            }
        }
        assert(self.notes@.skip(0) =~= self.notes@);
        out
    }

    /// Whether a sender is hidden.
    pub fn is_excluded(&self, key: &str) -> (r: bool)
        ensures
            r == text_listed(self.excluded_senders@, key@),
    {
        has_text(self.excluded_senders.as_slice(), key)
    }

    /// Hides a sender, or shows it again.
    pub fn set_excluded(&mut self, key: &str, excluded: bool)
        ensures
            if excluded {
                if text_listed(old(self).excluded_senders@, key@) {
                    final(self).excluded_senders@ == old(self).excluded_senders@
                } else {
                    &&& final(self).excluded_senders@.len() == old(self).excluded_senders@.len() + 1
                    &&& final(self).excluded_senders@.drop_last() == old(self).excluded_senders@
                    &&& final(self).excluded_senders@.last()@ == key@
                }
            } else {
                final(self).excluded_senders@ == old(self).excluded_senders@.filter(
                    |s: String| s@ != key@,
                )
            },
            text_listed(final(self).excluded_senders@, key@) == excluded,
            *final(self) == (State {
                excluded_senders: final(self).excluded_senders,
                ..*old(self)
            }),
    {
        let ghost all = self.excluded_senders@;
        if excluded {
            if !self.is_excluded(key) {
                self.excluded_senders.push(key.to_owned());
                assert(self.excluded_senders@.drop_last() =~= all);
                assert(self.excluded_senders@[all.len() as int]@ == key@);
            }
        } else {
            let ghost keep = |s: String| s@ != key@;
            let test = |s: &String| -> (b: bool)
                ensures
                    b == keep(*s),
                {
                    !same_text(s.as_str(), key)
                };
            retain_where(&mut self.excluded_senders, test, Ghost(keep));
            proof {
                broadcast use vstd::seq_lib::group_filter_ensures;
            }
        }
    }

    /// How many of the listed senders are hidden.
    pub fn hidden_senders(&self, tally: &Vec<(String, usize)>) -> (r: usize)
        ensures
            r == tally@.filter(
                |s: (String, usize)| text_listed(self.excluded_senders@, s.0@),
            ).len(),
    {
        let ghost hidden = |s: (String, usize)| text_listed(self.excluded_senders@, s.0@);
        let test = |s: &(String, usize)| -> (b: bool)
            ensures
                b == hidden(*s),
            {
                self.is_excluded(s.0.as_str())
            };
        count_where(tally, test, Ghost(hidden))
    }

    /// The notes list: the notes of senders that are not hidden, pending
    /// notes first, then the newest confirmed first.
    pub fn listed_notes(&self) -> (r: Vec<&NoteRec>)
        ensures
            ({
                let shown = self.notes@.filter(
                    |n: NoteRec| !text_listed(self.excluded_senders@, sender_of(n)),
                );
                stably_sorted(
                    shown,
                    shown.map_values(|n: NoteRec| list_key(n)),
                    items_of(r@),
                )
            }),
    {
        let ghost keep = |n: NoteRec| !text_listed(self.excluded_senders@, sender_of(n));
        let test = |n: &NoteRec| -> (b: bool)
            ensures
                b == keep(*n),
            {
                let key: String = State::sender_key(n);
                !self.is_excluded(key.as_str())
            };
        let mut out: Vec<&NoteRec> = refs_where(&self.notes, test, Ghost(keep));
        let mut keys: Vec<u128> = Vec::new();
        let mut i: usize = 0;
        while i < out.len()
            invariant
                i <= out.len(),
                keys@ == items_of(out@).map_values(|n: NoteRec| list_key(n)).take(i as int),
            decreases out.len() - i,
        {
            let rank: u128 = match out[i].height {
                None => 0,
                Some(h) => 0x1_0000_0000_0000_0000 - h as u128,
            };
            keys.push(rank);
            i = i + 1;
            assert(keys@ =~= items_of(out@).map_values(|n: NoteRec| list_key(n)).take(i as int));
        }
        assert(keys@ =~= items_of(out@).map_values(|n: NoteRec| list_key(n)));
        let ghost refs = out@;
        let ghost ranks = keys@;
        stable_sort(&mut out, &mut keys);
        proof {
            let p = choose|p: Seq<int>| #[trigger]
                stable_order(ranks, p) && picked(refs, p, out@);
            assert(picked(items_of(refs), p, items_of(out@)));
        }
        out
    }

    /// Whether a note with an id exists.
    pub fn has_note_id(&self, id: &[u8]) -> (r: bool)
        ensures
            r == exists|i: int|
                0 <= i < self.notes@.len() && (#[trigger] self.notes@[i]).id@ == hex_text(id@),
    {
        let id_hex: String = encode(id);
        let mut i: usize = 0;
        while i < self.notes.len()
            invariant
                i <= self.notes.len(),
                id_hex@ == hex_text(id@),
                forall|j: int| 0 <= j < i ==> (#[trigger] self.notes@[j]).id@ != hex_text(id@),
            decreases self.notes.len() - i,
        {
            if same_text(self.notes[i].id.as_str(), id_hex.as_str()) {
                return true;
            }
            i = i + 1;
        }
        false
    }
}

/// How the note counts grow with one older note.
proof fn tally_counts(seen: Seq<NoteRec>, note: NoteRec)
    ensures
        forall|key: Seq<char>| #[trigger]
            notes_from(seq![note] + seen, key) == notes_from(seen, key) + if sender_of(note) == key {
                1nat
            } else {
                0
            },
{
    assert forall|key: Seq<char>| #[trigger]
        notes_from(seq![note] + seen, key) == notes_from(seen, key) + if sender_of(note) == key {
            1nat
        } else {
            0
        } by {
        let from = |n: NoteRec| sender_of(n) == key;
        Seq::filter_distributes_over_add(seq![note], seen, from);
        reveal_with_fuel(Seq::filter, 2);
        assert(seq![note].drop_last() =~= seq![]);
    }
}

/// An older note of a sender that is already tallied.
proof fn tally_extended(
    seen: Seq<NoteRec>,
    note: NoteRec,
    before: Seq<(String, usize)>,
    after: Seq<(String, usize)>,
    i: int,
)
    requires
        is_sender_tally(seen, before),
        0 <= i < before.len(),
        before[i].0@ == sender_of(note),
        after.len() == before.len(),
        forall|j: int| 0 <= j < i ==> (#[trigger] before[j]).0@ != sender_of(note),
        forall|j: int| 0 <= j < before.len() ==> (#[trigger] after[j]).0 == before[j].0,
        forall|j: int| 0 <= j < before.len() && j != i ==> (#[trigger] after[j]).1 == before[j].1,
        after[i].1 == before[i].1 + 1,
    ensures
        is_sender_tally(seq![note] + seen, after),
{
    let now = seq![note] + seen;
    tally_counts(seen, note);
    tally_newer(seen, note, before);
    assert forall|j: int| 0 <= j < after.len() implies (#[trigger] after[j]).1 == notes_from(
        now,
        after[j].0@,
    ) && after[j].1 > 0 by {
        assert(before[j].1 == notes_from(seen, before[j].0@));
        if j > i {
            assert(newer_sender(seen, before[i].0@, before[j].0@));
        }
    }
    assert forall|k: int| 0 <= k < now.len() implies tallied(after, sender_of(#[trigger] now[k])) by {
        if k == 0 {
            assert(after[i].0@ == sender_of(note));
        } else {
            assert(now[k] == seen[k - 1]);
            assert(tallied(before, sender_of(seen[k - 1])));
            let q = choose|q: int|
                0 <= q < before.len() && (#[trigger] before[q]).0@ == sender_of(seen[k - 1]);
            assert(after[q].0@ == sender_of(now[k]));
        }
    }
}

/// A note of a sender that is not tallied yet: it comes last, since it is
/// older than what was seen.
proof fn tally_started(
    seen: Seq<NoteRec>,
    note: NoteRec,
    before: Seq<(String, usize)>,
    after: Seq<(String, usize)>,
)
    requires
        is_sender_tally(seen, before),
        forall|j: int| 0 <= j < before.len() ==> (#[trigger] before[j]).0@ != sender_of(note),
        after.len() == before.len() + 1,
        after.drop_last() == before,
        after.last().0@ == sender_of(note),
        after.last().1 == 1,
    ensures
        is_sender_tally(seq![note] + seen, after),
{
    let now = seq![note] + seen;
    tally_counts(seen, note);
    tally_newer(seen, note, before);
    assert(notes_from(seen, sender_of(note)) == 0) by {
        let from = |n: NoteRec| sender_of(n) == sender_of(note);
        if seen.filter(from).len() > 0 {
            broadcast use vstd::seq_lib::group_filter_ensures;

            let x = seen.filter(from)[0];
            assert(from(x));
            filtered_is_from(seen, from, 0);
            let q = choose|q: int| 0 <= q < seen.len() && seen[q] == x;
            assert(tallied(before, sender_of(seen[q])));
        }
    }
    assert forall|j: int| 0 <= j < after.len() implies (#[trigger] after[j]).1 == notes_from(
        now,
        after[j].0@,
    ) && after[j].1 > 0 by {
        if j < before.len() {
            assert(after[j] == before[j]);
        }
    }
    assert forall|k: int| 0 <= k < now.len() implies tallied(after, sender_of(#[trigger] now[k])) by {
        if k == 0 {
            assert(after[after.len() - 1].0@ == sender_of(note));
        } else {
            assert(now[k] == seen[k - 1]);
            assert(tallied(before, sender_of(seen[k - 1])));
            let q = choose|q: int|
                0 <= q < before.len() && (#[trigger] before[q]).0@ == sender_of(seen[k - 1]);
            assert(after[q] == before[q]);
        }
    }
    assert forall|i: int, j: int| 0 <= i < j < after.len() implies newer_sender(
        now,
        (#[trigger] after[i]).0@,
        (#[trigger] after[j]).0@,
    ) by {
        assert(after[i] == before[i]);
        if j < before.len() {
            assert(after[j] == before[j]);
        } else {
            assert(before[i].1 == notes_from(seen, before[i].0@));
            let from = |n: NoteRec| sender_of(n) == before[i].0@;
            assert(seen.filter(from).len() > 0);
            filtered_is_from(seen, from, 0);
            let q = choose|q: int| 0 <= q < seen.len() && seen[q] == seen.filter(from)[0];
            assert(now[q + 1] == seen[q]);
            assert forall|b: int| q + 1 <= b < now.len() implies sender_of(#[trigger] now[b])
                != after[j].0@ by {
                assert(now[b] == seen[b - 1]);
                assert(tallied(before, sender_of(seen[b - 1])));
            }
        }
    }
}

/// The order of the tally holds with one older note.
proof fn tally_newer(seen: Seq<NoteRec>, note: NoteRec, before: Seq<(String, usize)>)
    requires
        is_sender_tally(seen, before),
    ensures
        forall|i: int, j: int|
            0 <= i < j < before.len() ==> newer_sender(
                seq![note] + seen,
                (#[trigger] before[i]).0@,
                (#[trigger] before[j]).0@,
            ),
{
    let now = seq![note] + seen;
    assert forall|i: int, j: int| 0 <= i < j < before.len() implies newer_sender(
        now,
        (#[trigger] before[i]).0@,
        (#[trigger] before[j]).0@,
    ) by {
        assert(newer_sender(seen, before[i].0@, before[j].0@));
        let a = choose|a: int|
            0 <= a < seen.len() && sender_of(#[trigger] seen[a]) == before[i].0@ && forall|b: int|
                a <= b < seen.len() ==> sender_of(#[trigger] seen[b]) != before[j].0@;
        assert(now[a + 1] == seen[a]);
        assert forall|b: int| a + 1 <= b < now.len() implies sender_of(#[trigger] now[b])
            != before[j].0@ by {
            assert(now[b] == seen[b - 1]);
        }
    }
}

/// In the notes list pending notes come first, and of two notes in blocks
/// the one in the higher block comes first.
pub proof fn newest_notes_come_first(shown: Seq<NoteRec>, list: Seq<NoteRec>, i: int, j: int)
    requires
        stably_sorted(shown, shown.map_values(|n: NoteRec| list_key(n)), list),
        0 <= i < j < list.len(),
    ensures
        list[j].height is None ==> list[i].height is None,
        list[i].height is Some && list[j].height is Some ==> list[i].height->0
            >= list[j].height->0,
{
    let keys = shown.map_values(|n: NoteRec| list_key(n));
    let p = choose|p: Seq<int>| #[trigger] stable_order(keys, p) && picked(shown, p, list);
    assert(list[i] == shown[p[i]] && list[j] == shown[p[j]]);
    assert(keys[p[i]] == list_key(list[i]) && keys[p[j]] == list_key(list[j]));
}

/// The sender filter lists no sender twice.
pub proof fn senders_are_listed_once(
    notes: Seq<NoteRec>,
    tally: Seq<(String, usize)>,
    i: int,
    j: int,
)
    requires
        is_sender_tally(notes, tally),
        0 <= i < j < tally.len(),
    ensures
        tally[i].0@ != tally[j].0@,
{
    assert(newer_sender(notes, tally[i].0@, tally[j].0@));
}

/// The chunk size in effect is the chosen one within 20 and 100000, the nearer
/// of these beyond, and 100000 where none is chosen.
pub proof fn chunks_are_between_the_limits(size: Option<usize>)
    ensures
        20 <= chunk_in_effect(size) <= 100_000,
        size is None ==> chunk_in_effect(size) == 100_000,
        size matches Some(c) ==> {
            &&& c <= 20 ==> chunk_in_effect(size) == 20
            &&& 20 <= c <= 100_000 ==> chunk_in_effect(size) == c
            &&& c >= 100_000 ==> chunk_in_effect(size) == 100_000
        },
{
}

/// A pending note sorts before every confirmed one, and a confirmed one before
/// every other that was confirmed at a lower height; equal heights sort
/// alike.
pub proof fn later_notes_sort_first(a: NoteRec, b: NoteRec)
    ensures
        a.height is None && b.height is None ==> list_key(a) == list_key(b),
        a.height is None && b.height is Some ==> list_key(a) < list_key(b),
        a.height is Some && b.height is Some ==> {
            &&& a.height->0 > b.height->0 ==> list_key(a) < list_key(b)
            &&& a.height->0 == b.height->0 ==> list_key(a) == list_key(b)
        },
{
}

/// One more note counts once, for its sender: the one it names, or oneself.
pub proof fn every_note_counts_for_its_sender(notes: Seq<NoteRec>, n: NoteRec, key: Seq<char>)
    ensures
        n.from matches Some(f) ==> sender_of(n) == f@,
        n.from is None ==> sender_of(n) == "self"@,
        notes_from(Seq::<NoteRec>::empty(), key) == 0,
        sender_of(n) == key ==> notes_from(notes.push(n), key) == notes_from(notes, key) + 1,
        sender_of(n) != key ==> notes_from(notes.push(n), key) == notes_from(notes, key),
{
    let theirs = |n: NoteRec| sender_of(n) == key;
    filter_push(notes, n, theirs);
    reveal(Seq::filter);
}

/// A tally has a line for every sender and no other, each with as many notes
/// as are theirs, and the sender of the last note comes first.
pub proof fn tallies_count_every_note(notes: Seq<NoteRec>, tally: Seq<(String, usize)>)
    requires
        is_sender_tally(notes, tally),
    ensures
        forall|i: int|
            #![trigger notes[i]]
            0 <= i < notes.len() ==> exists|k: int|
                0 <= k < tally.len() && (#[trigger] tally[k]).0@ == sender_of(notes[i]),
        forall|k: int|
            #![trigger tally[k]]
            0 <= k < tally.len() ==> exists|i: int|
                0 <= i < notes.len() && sender_of(#[trigger] notes[i]) == tally[k].0@,
        forall|k: int|
            0 <= k < tally.len() ==> (#[trigger] tally[k]).1 == notes.filter(
                |n: NoteRec| sender_of(n) == tally[k].0@,
            ).len(),
        notes.len() > 0 ==> tally.len() > 0 && tally[0].0@ == sender_of(notes.last()),
{
    assert forall|i: int| #![trigger notes[i]] 0 <= i < notes.len() implies exists|k: int|
        0 <= k < tally.len() && (#[trigger] tally[k]).0@ == sender_of(notes[i]) by {
        assert(tallied(tally, sender_of(notes[i])));
    }
    assert forall|k: int| #![trigger tally[k]] 0 <= k < tally.len() implies exists|i: int|
        0 <= i < notes.len() && sender_of(#[trigger] notes[i]) == tally[k].0@ by {
        let theirs = |n: NoteRec| sender_of(n) == tally[k].0@;
        assert(tally[k].1 > 0);
        filtered_is_from(notes, theirs, 0);
        let q = choose|q: int| 0 <= q < notes.len() && notes[q] == notes.filter(theirs)[0];
        assert(sender_of(notes[q]) == tally[k].0@);
    }
    if notes.len() > 0 {
        let last = notes.len() - 1;
        assert(tallied(tally, sender_of(notes[last])));
        let k = choose|k: int|
            0 <= k < tally.len() && (#[trigger] tally[k]).0@ == sender_of(notes[last]);
        if k > 0 {
            assert(newer_sender(notes, tally[0].0@, tally[k].0@));
            let i = choose|i: int|
                0 <= i < notes.len() && sender_of(#[trigger] notes[i]) == tally[0].0@ && forall|
                    j: int,
                |
                    i <= j < notes.len() ==> sender_of(#[trigger] notes[j]) != tally[k].0@;
            assert(sender_of(notes[last]) != tally[k].0@);
        }
    }
}

/// The texts and numbers of a note record are its own.
pub proof fn note_records_are_taken_whole(n: NoteRec)
    ensures
        n@.id == n.id@ && n@.text == n.text@ && n@.txid == n.txid@,
        n@.raw_hex == n.raw_hex@ && n@.status == n.status@,
        n@.private == n.private && n@.directed == n.directed,
        n@.fee == n.fee && n@.vsize == n.vsize && n@.chunks == n.chunks,
        n@.height == n.height && n@.blocktime == n.blocktime,
        n.to matches Some(s) ==> n@.to == Some(s@),
        n.to is None ==> n@.to is None,
        n.from matches Some(s) ==> n@.from == Some(s@),
        n.from is None ==> n@.from is None,
        n@.recipients.len() == n.recipients@.len(),
        forall|i: int|
            0 <= i < n.recipients@.len() ==> #[trigger] n@.recipients[i] == n.recipients@[i]@,
{
}

/// Every note record of a list is taken, in order.
pub proof fn note_lists_are_taken_whole(list: Seq<NoteRec>)
    ensures
        notes_in(list).len() == list.len(),
        forall|i: int| 0 <= i < list.len() ==> #[trigger] notes_in(list)[i] == list[i]@,
{
}

}
