//! Merging the notes recovered from chain into the notes of a notebook.
//!
//! A note is known by its id and its sender together, so a note received
//! from somebody else never touches a note of one's own with the same id.

use crate::hexcodec::{encode, hex_bytes, hex_reads_back, hex_text};
use crate::lists::position_where;
use crate::seqs::{
    filter_take_none, filter_take_step, first_at, first_at_found, first_at_is, first_at_same,
};
use crate::state::{notes_in, text_of, Note, NoteRec};
use crate::text::{same_text, texts_of};
use vstd::prelude::*;

verus! {

/// A note recovered from chain.
#[derive(Debug)]
pub struct RecoveredNote {
    pub note_id: [u8; 4],
    /// Missing where it could not be decrypted.
    pub text: Option<String>,
    pub private: bool,
    pub txids: Vec<String>,
    pub height: Option<u64>,
    pub blocktime: Option<u64>,
    pub directed: bool,
    /// Whether somebody else sent it.
    pub received: bool,
    pub recipient: Option<String>,
    pub sender: Option<String>,
    pub recipients: Vec<String>,
}

/// A recovered note by its texts and numbers.
pub struct Recovered {
    pub id: Seq<char>,
    pub text: Option<Seq<char>>,
    pub private: bool,
    pub txids: Seq<Seq<char>>,
    pub height: Option<u64>,
    pub blocktime: Option<u64>,
    pub directed: bool,
    pub received: bool,
    pub recipient: Option<Seq<char>>,
    pub sender: Option<Seq<char>>,
    pub recipients: Seq<Seq<char>>,
}

impl View for RecoveredNote {
    type V = Recovered;

    open spec fn view(&self) -> Recovered {
        Recovered {
            id: hex_text(self.note_id@),
            text: text_of(self.text),
            private: self.private,
            txids: texts_of(self.txids@),
            height: self.height,
            blocktime: self.blocktime,
            directed: self.directed,
            received: self.received,
            recipient: text_of(self.recipient),
            sender: text_of(self.sender),
            recipients: texts_of(self.recipients@),
        }
    }
}

/// The recovered notes of a list by their texts and numbers.
pub open spec fn recovered_in(list: Seq<RecoveredNote>) -> Seq<Recovered> {
    list.map_values(|r: RecoveredNote| r@)
}

/// Whether a note is the one with an id and a sender.
pub open spec fn is_note(id: Seq<char>, sender: Option<Seq<char>>) -> spec_fn(Note) -> bool {
    |n: Note| n.id == id && n.from == sender
}

/// Where a recovered note is first recorded, or the number of notes.
pub open spec fn note_at(notes: Seq<Note>, r: Recovered) -> int {
    first_at(notes, is_note(r.id, r.sender))
}

/// `a`, or `b` where `a` is missing.
pub open spec fn either(a: Option<u64>, b: Option<u64>) -> Option<u64> {
    if a is Some {
        a
    } else {
        b
    }
}

/// A recorded note once it is recovered again: only where it stands in the
/// chain changes, and a known height is never forgotten.
pub open spec fn updated(n: Note, r: Recovered) -> Note {
    let height = either(r.height, n.height);
    Note {
        height,
        blocktime: either(r.blocktime, n.blocktime),
        status: if height is Some {
            "confirmed"@
        } else {
            n.status
        },
        ..n
    }
}

/// The record of a note that was not known.
pub open spec fn recorded(r: Recovered) -> Note {
    Note {
        id: r.id,
        text: match r.text {
            Some(t) => t,
            None => if r.received {
                "(directed note \u{2014} could not decrypt)"@
            } else {
                "(sealed under another key)"@
            },
        },
        private: r.private,
        txid: if r.txids.len() > 0 {
            r.txids[0]
        } else {
            seq![]
        },
        raw_hex: seq![],
        fee: 0,
        vsize: 0,
        chunks: 0,
        height: r.height,
        blocktime: r.blocktime,
        status: if r.height is Some {
            "confirmed"@
        } else {
            "pending"@
        },
        directed: r.directed,
        to: r.recipient,
        from: r.sender,
        recipients: r.recipients,
    }
}

/// The notes once one recovered note is merged into them.
pub open spec fn merged(notes: Seq<Note>, r: Recovered) -> Seq<Note> {
    let k = note_at(notes, r);
    if k < notes.len() {
        notes.update(k, updated(notes[k], r))
    } else {
        notes.push(recorded(r))
    }
}

/// The notes once recovered notes are merged into them in turn.
pub open spec fn all_merged(notes: Seq<Note>, rs: Seq<Recovered>) -> Seq<Note>
    decreases rs.len(),
{
    if rs.len() == 0 {
        notes
    } else {
        merged(all_merged(notes, rs.drop_last()), rs.last())
    }
}

/// Whether two texts that may be missing are the same.
fn same_option(a: &Option<String>, b: &Option<String>) -> (r: bool)
    ensures
        r == (text_of(*a) == text_of(*b)),
{
    match (a, b) {
        (Some(x), Some(y)) => same_text(x.as_str(), y.as_str()),
        (None, None) => true,
        _ => false,
    }
}

/// A copy of a list of texts.
fn copy_texts(v: &Vec<String>) -> (r: Vec<String>)
    ensures
        r@ == v@,
{
    let mut out: Vec<String> = Vec::new();
    let mut i: usize = 0;
    while i < v.len()
        invariant
            i <= v.len(),
            out@ == v@.take(i as int),
        decreases v.len() - i,
    {
        out.push(v[i].clone());
        i = i + 1;
        assert(out@ =~= v@.take(i as int));
    }
    assert(out@ =~= v@);
    out
}

/// A copy of a text that may be missing.
fn copy_option(t: &Option<String>) -> (r: Option<String>)
    ensures
        r == *t,
{
    match t {
        Some(s) => Some(s.clone()),
        None => None,
    }
}

/// Merges one recovered note, and says whether it was new.
fn merge_note(notes: &mut Vec<NoteRec>, r: &RecoveredNote) -> (new: bool)
    ensures
        notes_in(final(notes)@) == merged(notes_in(old(notes)@), r@),
        new == (final(notes)@.len() > old(notes)@.len()),
        final(notes)@.len() == old(notes)@.len() + if new {
            1int
        } else {
            0
        },
{
    let ghost before = notes@;
    let ghost v = notes_in(before);
    let ghost p = is_note(r@.id, r@.sender);
    let id: String = encode(r.note_id.as_slice());
    let ghost hit = |n: NoteRec| p(n@);
    let test = |n: &NoteRec| -> (b: bool)
        ensures
            b == hit(*n),
        {
            same_text(n.id.as_str(), id.as_str()) && same_option(&n.from, &r.sender)
        };
    proof {
        first_at_same(v, p, before, hit);
    }
    let i: usize = position_where(notes, test, Ghost(hit));
    if i < notes.len() {
        if r.height.is_some() {
            notes[i].height = r.height;
        }
        if r.blocktime.is_some() {
            notes[i].blocktime = r.blocktime;
        }
        if notes[i].height.is_some() {
            notes[i].status = "confirmed".to_owned();
        }
        proof {
            let after = merged(v, r@);
            assert(notes_in(notes@)[i as int] =~= after[i as int]);
            assert(notes_in(notes@) =~= after);
        }
        return false;
    }
    let text: String = match &r.text {
        Some(t) => t.clone(),
        None => if r.received {
            "(directed note \u{2014} could not decrypt)".to_owned()
        } else {
            "(sealed under another key)".to_owned()
        },
    };
    let txid: String = if r.txids.len() > 0 {
        r.txids[0].clone()
    } else {
        String::new()
    };
    let status: String = if r.height.is_some() {
        "confirmed".to_owned()
    } else {
        "pending".to_owned()
    };
    let rec = NoteRec {
        id,
        text,
        private: r.private,
        txid,
        raw_hex: String::new(),
        fee: 0,
        vsize: 0,
        chunks: 0,
        height: r.height,
        blocktime: r.blocktime,
        status,
        directed: r.directed,
        to: copy_option(&r.recipient),
        from: copy_option(&r.sender),
        recipients: copy_texts(&r.recipients),
    };
    assert(rec@ =~= recorded(r@));
    notes.push(rec);
    assert(notes_in(notes@) =~= v.push(rec@));
    true
}

/// Merges recovered notes in turn, and counts the new ones and the ones that
/// somebody else sent.
pub fn merge_notes(notes: &mut Vec<NoteRec>, recovered: &Vec<RecoveredNote>) -> (r: (usize, usize))
    ensures
        notes_in(final(notes)@) == all_merged(notes_in(old(notes)@), recovered_in(recovered@)),
        r.0 == final(notes)@.len() - old(notes)@.len(),
        r.1 == recovered@.filter(|x: RecoveredNote| x.received).len(),
{
    let ghost v = notes_in(notes@);
    let ghost rs = recovered_in(recovered@);
    let ghost theirs = |x: RecoveredNote| x.received;
    let mut new: usize = 0;
    let mut received: usize = 0;
    let mut i: usize = 0;
    proof {
        filter_take_none(recovered@, theirs);
        assert(rs.take(0) =~= seq![]);
    }
    while i < recovered.len()
        invariant
            i <= recovered.len(),
            v == notes_in(old(notes)@),
            rs == recovered_in(recovered@),
            theirs == (|x: RecoveredNote| x.received),
            notes_in(notes@) == all_merged(v, rs.take(i as int)),
            new == notes@.len() - old(notes)@.len(),
            new <= i,
            received <= i,
            received == recovered@.take(i as int).filter(theirs).len(),
        decreases recovered.len() - i,
    {
        proof {
            filter_take_step(recovered@, i as int, theirs);
            assert(rs.take(i + 1).drop_last() =~= rs.take(i as int));
        }
        if recovered[i].received {
            received = received + 1;
        }
        if merge_note(notes, &recovered[i]) {
            new = new + 1;
        }
        i = i + 1;
    }
    assert(rs.take(i as int) =~= rs);
    assert(recovered@.take(i as int) =~= recovered@);
    (new, received)
}

/// Merging keeps every note: nothing of one changes but its height, time and
/// status, and a note of another id or another sender does not change at all.
/// In particular a received note never overwrites a note of one's own.
pub proof fn merging_overwrites_nothing(notes: Seq<Note>, r: Recovered, i: int)
    requires
        0 <= i < notes.len(),
    ensures
        i < merged(notes, r).len(),
        ({
            let n = merged(notes, r)[i];
            n == Note { height: n.height, blocktime: n.blocktime, status: n.status, ..notes[i] }
        }),
        notes[i].id != r.id || notes[i].from != r.sender ==> merged(notes, r)[i] == notes[i],
{
    first_at_found(notes, is_note(r.id, r.sender));
}

/// A note that stands in a block is never taken out of it.
pub proof fn merging_forgets_no_height(notes: Seq<Note>, r: Recovered, i: int)
    requires
        0 <= i < notes.len(),
    ensures
        notes[i].height is Some ==> merged(notes, r)[i].height is Some,
        notes[i].blocktime is Some ==> merged(notes, r)[i].blocktime is Some,
{
    first_at_found(notes, is_note(r.id, r.sender));
}

/// No two notes have the same id and sender.
pub open spec fn distinct_notes(notes: Seq<Note>) -> bool {
    forall|i: int, j: int|
        0 <= i < j < notes.len() ==> !((#[trigger] notes[i]).id == (#[trigger] notes[j]).id
            && notes[i].from == notes[j].from)
}

/// Notes of which no two have the same id and sender stay so.
pub proof fn merging_keeps_notes_distinct(notes: Seq<Note>, r: Recovered)
    requires
        distinct_notes(notes),
    ensures
        distinct_notes(merged(notes, r)),
{
    let p = is_note(r.id, r.sender);
    first_at_found(notes, p);
    let k = note_at(notes, r);
    let after = merged(notes, r);
    assert forall|i: int, j: int| 0 <= i < j < after.len() implies !((#[trigger] after[i]).id == (
    #[trigger] after[j]).id && after[i].from == after[j].from) by {
        assert(after[i].id == notes[i].id && after[i].from == notes[i].from);
        if j < notes.len() {
            assert(after[j].id == notes[j].id && after[j].from == notes[j].from);
        } else {
            assert(!p(notes[i]));
        }
    }
}

/// The last height that `rs` reports for an id and a sender.
spec fn last_height(rs: Seq<Recovered>, id: Seq<char>, sender: Option<Seq<char>>) -> Option<u64>
    decreases rs.len(),
{
    if rs.len() == 0 {
        None
    } else if rs.last().id == id && rs.last().sender == sender && rs.last().height is Some {
        rs.last().height
    } else {
        last_height(rs.drop_last(), id, sender)
    }
}

/// The last block time that `rs` reports for an id and a sender.
spec fn last_time(rs: Seq<Recovered>, id: Seq<char>, sender: Option<Seq<char>>) -> Option<u64>
    decreases rs.len(),
{
    if rs.len() == 0 {
        None
    } else if rs.last().id == id && rs.last().sender == sender && rs.last().blocktime is Some {
        rs.last().blocktime
    } else {
        last_time(rs.drop_last(), id, sender)
    }
}

/// Whether `rs` holds a note of an id and a sender.
spec fn reports(rs: Seq<Recovered>, id: Seq<char>, sender: Option<Seq<char>>) -> bool
    decreases rs.len(),
{
    rs.len() > 0 && (rs.last().id == id && rs.last().sender == sender || reports(
        rs.drop_last(),
        id,
        sender,
    ))
}

/// The first note of its id and sender stands at `i`.
spec fn is_first(notes: Seq<Note>, i: int) -> bool {
    &&& 0 <= i < notes.len()
    &&& first_at(notes, is_note(notes[i].id, notes[i].from)) == i
}

/// What is recorded of a note once everything reported of it is merged.
spec fn settled(n: Note, rs: Seq<Recovered>) -> bool {
    &&& last_height(rs, n.id, n.from) is Some ==> n.height == last_height(rs, n.id, n.from)
    &&& last_time(rs, n.id, n.from) is Some ==> n.blocktime == last_time(rs, n.id, n.from)
    &&& reports(rs, n.id, n.from) && n.height is Some ==> n.status == "confirmed"@
}

/// One step changes neither the ids and senders of notes nor which of them
/// come first.
proof fn merged_keeps_first(notes: Seq<Note>, r: Recovered, i: int)
    requires
        0 <= i < merged(notes, r).len(),
    ensures
        i < notes.len() ==> merged(notes, r)[i].id == notes[i].id && merged(notes, r)[i].from
            == notes[i].from,
        is_first(merged(notes, r), i) ==> i >= notes.len() || is_first(notes, i),
        i == notes.len() ==> merged(notes, r)[i] == recorded(r),
        i < notes.len() ==> merged(notes, r)[i] == if i == note_at(notes, r) {
            updated(notes[i], r)
        } else {
            notes[i]
        },
        is_first(merged(notes, r), i) && i < notes.len() ==> ((i == note_at(notes, r)) == (
        notes[i].id == r.id && notes[i].from == r.sender)),
{
    let after = merged(notes, r);
    let p = is_note(after[i].id, after[i].from);
    let q = is_note(r.id, r.sender);
    first_at_found(notes, q);
    first_at_found(after, p);
    if is_first(after, i) && i < notes.len() {
        assert forall|j: int| 0 <= j < i implies !p(#[trigger] notes[j]) by {
            assert(!p(after[j]));
        }
        first_at_is(notes, p, i);
        if notes[i].id == r.id && notes[i].from == r.sender {
            assert(p =~= q);
        }
    }
}

/// After merging, every first note of its kind is settled.
proof fn merging_settles(notes: Seq<Note>, rs: Seq<Recovered>)
    ensures
        forall|i: int| #[trigger]
            is_first(all_merged(notes, rs), i) ==> settled(all_merged(notes, rs)[i], rs),
    decreases rs.len(),
{
    let after = all_merged(notes, rs);
    if rs.len() > 0 {
        let rest = rs.drop_last();
        let r = rs.last();
        let mid = all_merged(notes, rest);
        merging_settles(notes, rest);
        assert forall|i: int| #[trigger] is_first(after, i) implies settled(after[i], rs) by {
            assert(after == merged(mid, r));
            merged_keeps_first(mid, r, i);
            if i < mid.len() {
                assert(settled(mid[i], rest));
                if i == note_at(mid, r) {
                    assert(settled(updated(mid[i], r), rs));
                } else {
                    assert(settled(mid[i], rs));
                }
            } else {
                // Nothing reported before has the id and sender of a new note.
                first_at_found(mid, is_note(r.id, r.sender));
                assert(i == mid.len() && note_at(mid, r) == mid.len());
                not_reported_before(notes, rest, r.id, r.sender);
                assert(!reports(rest, r.id, r.sender));
                nothing_without_report(rest, r.id, r.sender);
                let n = recorded(r);
                assert(last_height(rs, n.id, n.from) == r.height);
                assert(last_time(rs, n.id, n.from) == r.blocktime);
                assert(settled(n, rs));
            }
        }
    }
}

/// What is not recorded after merging was not reported.
proof fn not_reported_before(
    notes: Seq<Note>,
    rs: Seq<Recovered>,
    id: Seq<char>,
    sender: Option<Seq<char>>,
)
    ensures
        reports(rs, id, sender) ==> first_at(all_merged(notes, rs), is_note(id, sender))
            < all_merged(notes, rs).len(),
        first_at(notes, is_note(id, sender)) < notes.len() ==> first_at(
            all_merged(notes, rs),
            is_note(id, sender),
        ) < all_merged(notes, rs).len(),
    decreases rs.len(),
{
    if rs.len() > 0 {
        let rest = rs.drop_last();
        let r = rs.last();
        let mid = all_merged(notes, rest);
        let after = merged(mid, r);
        let p = is_note(id, sender);
        not_reported_before(notes, rest, id, sender);
        first_at_found(mid, p);
        first_at_found(after, p);
        first_at_found(mid, is_note(r.id, r.sender));
        let k = first_at(mid, p);
        if k < mid.len() {
            assert(after[k].id == mid[k].id && after[k].from == mid[k].from);
            assert(p(after[k]));
        } else if r.id == id && r.sender == sender {
            assert(p =~= is_note(r.id, r.sender));
            assert(p(after[mid.len() as int]));
        }
    }
}

/// Nothing is known of a note that is not reported.
proof fn nothing_without_report(rs: Seq<Recovered>, id: Seq<char>, sender: Option<Seq<char>>)
    ensures
        !reports(rs, id, sender) ==> last_height(rs, id, sender) is None && last_time(
            rs,
            id,
            sender,
        ) is None,
    decreases rs.len(),
{
    if rs.len() > 0 {
        nothing_without_report(rs.drop_last(), id, sender);
    }
}

/// What `settled` notes become when the same is merged into them again, as
/// far as it has come.
spec fn resettled(n: Note, before: Note, rs: Seq<Recovered>) -> bool {
    &&& n == Note { height: n.height, blocktime: n.blocktime, status: n.status, ..before }
    &&& n.height == either(last_height(rs, before.id, before.from), before.height)
    &&& n.blocktime == either(last_time(rs, before.id, before.from), before.blocktime)
    &&& n.status == before.status || (n.status == "confirmed"@ && n.height is Some && reports(
        rs,
        before.id,
        before.from,
    ))
}

/// Merging notes that are all recorded adds none, and changes the first of
/// each kind by what is reported of it.
proof fn merging_known(notes: Seq<Note>, rs: Seq<Recovered>)
    requires
        forall|id: Seq<char>, sender: Option<Seq<char>>| #[trigger]
            reports(rs, id, sender) ==> first_at(notes, is_note(id, sender)) < notes.len(),
    ensures
        all_merged(notes, rs).len() == notes.len(),
        forall|i: int|
            0 <= i < notes.len() ==> (#[trigger] all_merged(notes, rs)[i]).id == notes[i].id
                && all_merged(notes, rs)[i].from == notes[i].from,
        forall|i: int|
            0 <= i < notes.len() ==> if is_first(notes, i) {
                resettled(#[trigger] all_merged(notes, rs)[i], notes[i], rs)
            } else {
                all_merged(notes, rs)[i] == notes[i]
            },
    decreases rs.len(),
{
    if rs.len() > 0 {
        let rest = rs.drop_last();
        let r = rs.last();
        let mid = all_merged(notes, rest);
        let after = all_merged(notes, rs);
        assert forall|id: Seq<char>, sender: Option<Seq<char>>| #[trigger]
            reports(rest, id, sender) implies first_at(notes, is_note(id, sender)) < notes.len() by {
            assert(reports(rs, id, sender));
        }
        merging_known(notes, rest);
        assert(reports(rs, r.id, r.sender));
        let p = is_note(r.id, r.sender);
        let k = first_at(notes, p);
        first_at_found(notes, p);
        assert forall|j: int| 0 <= j < k implies !p(#[trigger] mid[j]) by {
            assert(!p(notes[j]));
        }
        assert(p(notes[k]));
        assert(p(mid[k]));
        first_at_is(mid, p, k);
        assert(after =~= mid.update(k, updated(mid[k], r)));
        assert(p =~= is_note(notes[k].id, notes[k].from));
        assert(is_first(notes, k));
        assert forall|i: int| 0 <= i < notes.len() && is_first(notes, i) implies resettled(
            #[trigger] after[i],
            notes[i],
            rs,
        ) by {
            assert(resettled(mid[i], notes[i], rest));
            if i != k && notes[i].id == r.id && notes[i].from == r.sender {
                assert(is_note(notes[i].id, notes[i].from) =~= p);
            }
        }
    }
}

/// Merging the same recovered notes again changes nothing.
pub proof fn merging_twice_is_merging_once(notes: Seq<Note>, rs: Seq<Recovered>)
    ensures
        all_merged(all_merged(notes, rs), rs) == all_merged(notes, rs),
{
    let once = all_merged(notes, rs);
    let twice = all_merged(once, rs);
    merging_settles(notes, rs);
    assert forall|id: Seq<char>, sender: Option<Seq<char>>| #[trigger]
        reports(rs, id, sender) implies first_at(once, is_note(id, sender)) < once.len() by {
        not_reported_before(notes, rs, id, sender);
    }
    merging_known(once, rs);
    assert forall|i: int| 0 <= i < once.len() implies #[trigger] twice[i] == once[i] by {
        if is_first(once, i) {
            assert(settled(once[i], rs));
            assert(resettled(twice[i], once[i], rs));
            assert(twice[i] =~= once[i]);
        }
    }
    assert(twice =~= once);
}

/// A note that was not known is recorded as it was recovered: with the text
/// that could be read, whether private or public, sent or received, and with
/// its own first transaction, height, time, sender and recipients. Only a text
/// that could not be read is replaced by a remark.
pub proof fn recovered_notes_are_recorded_as_they_are(notes: Seq<Note>, r: Recovered)
    requires
        forall|i: int|
            0 <= i < notes.len() ==> (#[trigger] notes[i]).id != r.id || notes[i].from != r.sender,
    ensures
        merged(notes, r).len() == notes.len() + 1,
        merged(notes, r).drop_last() == notes,
        ({
            let n = merged(notes, r).last();
            &&& r.text is Some ==> n.text == r.text->0
            &&& r.text is None && r.received ==> n.text
                == "(directed note \u{2014} could not decrypt)"@
            &&& r.text is None && !r.received ==> n.text == "(sealed under another key)"@
            &&& n.id == r.id
            &&& n.from == r.sender
            &&& n.to == r.recipient
            &&& n.recipients == r.recipients
            &&& n.private == r.private
            &&& n.directed == r.directed
            &&& n.height == r.height
            &&& n.blocktime == r.blocktime
            &&& r.height is Some ==> n.status == "confirmed"@
            &&& r.height is None ==> n.status == "pending"@
            &&& r.txids.len() > 0 ==> n.txid == r.txids[0]
            &&& r.txids.len() == 0 ==> n.txid.len() == 0
            &&& n.raw_hex.len() == 0
            &&& n.fee == 0 && n.vsize == 0 && n.chunks == 0
        }),
{
    let p = is_note(r.id, r.sender);
    assert forall|i: int| 0 <= i < notes.len() implies !p(#[trigger] notes[i]) by {}
    first_at_is(notes, p, notes.len() as int);
    assert(merged(notes, r).drop_last() =~= notes);
}

/// A note that was known takes over the height and the time that are reported,
/// keeps those that are not, and is confirmed once it has a height. It stays
/// in its place and nothing is added.
pub proof fn known_notes_take_over_what_is_reported(notes: Seq<Note>, r: Recovered, k: int)
    requires
        0 <= k < notes.len(),
        notes[k].id == r.id && notes[k].from == r.sender,
        forall|i: int|
            0 <= i < k ==> (#[trigger] notes[i]).id != r.id || notes[i].from != r.sender,
    ensures
        merged(notes, r).len() == notes.len(),
        forall|i: int|
            0 <= i < notes.len() && i != k ==> #[trigger] merged(notes, r)[i] == notes[i],
        ({
            let n = merged(notes, r)[k];
            &&& r.height is Some ==> n.height == r.height
            &&& r.height is None ==> n.height == notes[k].height
            &&& r.blocktime is Some ==> n.blocktime == r.blocktime
            &&& r.blocktime is None ==> n.blocktime == notes[k].blocktime
            &&& n.height is Some ==> n.status == "confirmed"@
            &&& n.height is None ==> n.status == notes[k].status
            &&& n == (Note {
                height: n.height,
                blocktime: n.blocktime,
                status: n.status,
                ..notes[k]
            })
        }),
{
    let p = is_note(r.id, r.sender);
    assert forall|i: int| 0 <= i < k implies !p(#[trigger] notes[i]) by {}
    first_at_is(notes, p, k);
}

/// Recovered notes are merged one after the other, each into what the ones
/// before it left: none is passed over.
pub proof fn every_recovered_note_is_merged(
    notes: Seq<Note>,
    rs: Seq<Recovered>,
    more: Seq<Recovered>,
    r: Recovered,
)
    ensures
        all_merged(notes, Seq::<Recovered>::empty()) == notes,
        all_merged(notes, seq![r]) == merged(notes, r),
        all_merged(notes, rs + more) == all_merged(all_merged(notes, rs), more),
    decreases more.len(),
{
    assert(seq![r].drop_last() =~= seq![]);
    if more.len() == 0 {
        assert(rs + more =~= rs);
    } else {
        assert((rs + more).drop_last() =~= rs + more.drop_last());
        every_recovered_note_is_merged(notes, rs, more.drop_last(), r);
    }
}

/// Every recovered note is recorded in the end, under its id and its sender.
pub proof fn every_recovered_note_is_recorded(
    notes: Seq<Note>,
    rs: Seq<Recovered>,
    i: int,
    out: Seq<Note>,
)
    requires
        0 <= i < rs.len(),
        out == all_merged(notes, rs),
    ensures
        exists|k: int|
            0 <= k < out.len() && (#[trigger] out[k]).id == rs[i].id && out[k].from == rs[i].sender,
    decreases rs.len(),
{
    let before = all_merged(notes, rs.drop_last());
    let r = rs.last();
    assert(out == merged(before, r));
    first_at_found(before, is_note(r.id, r.sender));
    if i == rs.len() - 1 {
        let k = note_at(before, r);
        assert(out[k].id == r.id && out[k].from == r.sender);
    } else {
        every_recovered_note_is_recorded(notes, rs.drop_last(), i, before);
        let k = choose|k: int|
            0 <= k < before.len() && (#[trigger] before[k]).id == rs.drop_last()[i].id
                && before[k].from == rs.drop_last()[i].sender;
        assert(out[k].id == rs[i].id && out[k].from == rs[i].sender);
    }
}

/// The texts and numbers of a recovered note are its own, and its id is the
/// hexadecimal of its bytes.
pub proof fn recovered_notes_are_taken_whole(r: RecoveredNote)
    ensures
        hex_bytes(r@.id) == r.note_id@,
        r.text matches Some(t) ==> r@.text == Some(t@),
        r.text is None ==> r@.text is None,
        r.sender matches Some(s) ==> r@.sender == Some(s@),
        r.sender is None ==> r@.sender is None,
        r.recipient matches Some(s) ==> r@.recipient == Some(s@),
        r.recipient is None ==> r@.recipient is None,
        r@.txids.len() == r.txids@.len(),
        forall|i: int| 0 <= i < r.txids@.len() ==> #[trigger] r@.txids[i] == r.txids@[i]@,
        r@.recipients.len() == r.recipients@.len(),
        forall|i: int|
            0 <= i < r.recipients@.len() ==> #[trigger] r@.recipients[i] == r.recipients@[i]@,
        r@.private == r.private && r@.directed == r.directed && r@.received == r.received,
        r@.height == r.height && r@.blocktime == r.blocktime,
{
    hex_reads_back(r.note_id@);
}

/// Every recovered note of a list is taken, in order.
pub proof fn recovered_lists_are_taken_whole(list: Seq<RecoveredNote>)
    ensures
        recovered_in(list).len() == list.len(),
        forall|i: int| 0 <= i < list.len() ==> #[trigger] recovered_in(list)[i] == list[i]@,
{
}

}
