//! How notes are listed, opened, answered and exported.

use crate::labels::{short_addr, short_form};
use crate::lists::{items_of, position_where, refs_where};
use crate::seqs::{first_at, first_at_found};
use crate::state::{has_text, text_listed, NoteRec};
use crate::text::{decimal, decimal_text, same_text, texts_of, to_upper, upper_case, upper_char};
use vstd::prelude::*;
use vstd::utf8::{encode_utf8, is_ascii_chars};

verus! {

/// How many characters one QR code holds.
pub const MAX_QR_HEX_CHARS: usize = 4000;

/// The badge of a note.
pub fn badge(private: bool) -> (r: &'static str)
    ensures
        r@ == if private {
            "PRIVATE"@
        } else {
            "PUBLIC"@
        },
{
    if private {
        "PRIVATE"
    } else {
        "PUBLIC"
    }
}

/// The line that counts the notes of a sender.
pub fn note_count_line(n: usize) -> (r: String)
    ensures
        r@ == decimal(n as nat) + " note(s)"@,
{
    let mut out: String = decimal_text(n as u64);
    out.append(" note(s)");
    out
}

/// The line that counts the hidden senders; empty where there are none.
pub fn hidden_label(n: usize) -> (r: String)
    ensures
        r@ == if n == 0 {
            Seq::<char>::empty()
        } else {
            decimal(n as nat) + " sender(s) hidden"@
        },
{
    if n == 0 {
        return String::new();
    }
    let mut out: String = decimal_text(n as u64);
    out.append(" sender(s) hidden");
    out
}

/// The line under a note in the list.
pub open spec fn row_meta_text(n: NoteRec) -> Seq<char> {
    (match n.height {
        Some(h) => "block "@ + decimal(h as nat) + " \u{b7} "@ + decimal(
            if n.chunks == 0 {
                1
            } else {
                n.chunks as nat
            },
        ) + " chunk(s)"@,
        None => "pending \u{b7} fee "@ + decimal(n.fee as nat) + " sats"@,
    }) + match (n.from, n.to) {
        (Some(from), _) => " \u{b7} from "@ + short_form(from@),
        (None, Some(to)) => " \u{b7} to "@ + short_form(to@),
        (None, None) => Seq::<char>::empty(),
    }
}

/// The line under a note in the list.
pub fn note_row_meta(n: &NoteRec) -> (r: String)
    ensures
        r@ == row_meta_text(*n),
{
    let mut out: String = match n.height {
        Some(h) => {
            let mut line: String = "block ".to_owned();
            line.append(decimal_text(h).as_str());
            line.append(" \u{b7} ");
            let chunks: u64 = if n.chunks == 0 {
                1
            } else {
                n.chunks
            };
            line.append(decimal_text(chunks).as_str());
            line.append(" chunk(s)");
            line
        },
        None => {
            let mut line: String = "pending \u{b7} fee ".to_owned();
            line.append(decimal_text(n.fee).as_str());
            line.append(" sats");
            line
        },
    };
    let tail: String = match (&n.from, &n.to) {
        (Some(from), _) => {
            let mut t: String = " \u{b7} from ".to_owned();
            t.append(short_addr(from.as_str()).as_str());
            t
        },
        (None, Some(to)) => {
            let mut t: String = " \u{b7} to ".to_owned();
            t.append(short_addr(to.as_str()).as_str());
            t
        },
        (None, None) => String::new(),
    };
    out.append(tail.as_str());
    out
}

/// The addresses after the first of several, each on a line of its own.
pub open spec fn more_lines(addresses: Seq<Seq<char>>) -> Seq<char>
    decreases addresses.len(),
{
    if addresses.len() == 0 {
        seq![]
    } else {
        more_lines(addresses.drop_last()) + "\n    "@ + addresses.last()
    }
}

/// Who an open note is from or to.
pub open spec fn who_text(n: NoteRec) -> Seq<char> {
    let all = texts_of(n.recipients@);
    if all.len() > 1 {
        "\nto ("@ + decimal(all.len()) + "): "@ + all[0] + more_lines(all.skip(1))
    } else {
        match (n.from, n.to) {
            (Some(from), _) => "\nfrom: "@ + from@,
            (None, Some(to)) => "\nto: "@ + to@,
            (None, None) => Seq::<char>::empty(),
        }
    }
}

/// Who an open note is from or to.
fn who_line(n: &NoteRec) -> (r: String)
    ensures
        r@ == who_text(*n),
{
    if n.recipients.len() > 1 {
        let ghost all = texts_of(n.recipients@);
        let ghost more = all.skip(1);
        let mut out: String = "\nto (".to_owned();
        out.append(decimal_text(n.recipients.len() as u64).as_str());
        out.append("): ");
        out.append(n.recipients[0].as_str());
        let ghost head = out@;
        let mut tail = String::new();
        let mut i: usize = 1;
        assert(more.take(0) =~= seq![]);
        while i < n.recipients.len()
            invariant
                1 <= i <= n.recipients.len(),
                all == texts_of(n.recipients@),
                more == all.skip(1),
                tail@ == more_lines(more.take(i - 1)),
            decreases n.recipients.len() - i,
        {
            proof {
                assert(more.take(i as int).drop_last() =~= more.take(i - 1));
                assert(more.take(i as int).last() == n.recipients@[i as int]@);
            }
            tail.append("\n    ");
            tail.append(n.recipients[i].as_str());
            i = i + 1;
        }
        assert(more.take(i - 1) =~= more);
        out.append(tail.as_str());
        out
    } else {
        match (&n.from, &n.to) {
            (Some(from), _) => {
                let mut t: String = "\nfrom: ".to_owned();
                t.append(from.as_str());
                t
            },
            (None, Some(to)) => {
                let mut t: String = "\nto: ".to_owned();
                t.append(to.as_str());
                t
            },
            (None, None) => String::new(),
        }
    }
}

/// The lines under an open note: where it stands, who it is from or to, and
/// its transaction.
pub fn note_detail(n: &NoteRec) -> (r: String)
    ensures
        r@ == (match n.height {
            Some(h) => "confirmed at block "@ + decimal(h as nat),
            None => "pending \u{2014} scan the tx QR with the companion to broadcast"@,
        }) + who_text(*n) + "\ntxid: "@ + n.txid@,
{
    let mut out: String = match n.height {
        Some(h) => {
            let mut line: String = "confirmed at block ".to_owned();
            line.append(decimal_text(h).as_str());
            line
        },
        None => "pending \u{2014} scan the tx QR with the companion to broadcast".to_owned(),
    };
    out.append(who_line(n).as_str());
    out.append("\ntxid: ");
    out.append(n.txid.as_str());
    out
}

/// The lines under a note that was just signed.
pub fn signed_detail(n: &NoteRec) -> (r: String)
    ensures
        r@ == "pending \u{2014} scan the QR with the companion, or broadcast "@ + n.txid@
            + ".hex\nfee "@ + decimal(n.fee as nat) + " sats \u{b7} "@ + decimal(n.vsize as nat)
            + " vB"@,
{
    let mut out: String =
        "pending \u{2014} scan the QR with the companion, or broadcast ".to_owned();
    out.append(n.txid.as_str());
    out.append(".hex\nfee ");
    out.append(decimal_text(n.fee).as_str());
    out.append(" sats \u{b7} ");
    out.append(decimal_text(n.vsize).as_str());
    out.append(" vB");
    out
}

/// The sender of a note, if somebody else sent it.
pub open spec fn sender_part(n: NoteRec) -> Seq<Seq<char>> {
    match n.from {
        Some(from) => seq![from@],
        None => seq![],
    }
}

/// The addresses a note was exchanged with, as recorded: the sender first,
/// then the recipients, or the one recipient.
pub open spec fn parties(n: NoteRec) -> Seq<Seq<char>> {
    sender_part(n) + if n.recipients@.len() > 0 {
        texts_of(n.recipients@)
    } else {
        match n.to {
            Some(to) => seq![to@],
            None => seq![],
        }
    }
}

/// `addresses` without `me`, each once, in order.
pub open spec fn others(addresses: Seq<Seq<char>>, me: Option<Seq<char>>) -> Seq<Seq<char>>
    decreases addresses.len(),
{
    if addresses.len() == 0 {
        seq![]
    } else {
        let before = others(addresses.drop_last(), me);
        let a = addresses.last();
        if Some(a) == me || before.contains(a) {
            before
        } else {
            before.push(a)
        }
    }
}

/// Adds one of the parties of a note.
fn push_other(out: &mut Vec<String>, a: &str, me: Option<&str>)
    ensures
        texts_of(final(out)@) == if (me is Some && me->0@ == a@) || texts_of(old(out)@).contains(
            a@,
        ) {
            texts_of(old(out)@)
        } else {
            texts_of(old(out)@).push(a@)
        },
{
    let ghost before = out@;
    match me {
        Some(m) => {
            if same_text(m, a) {
                return;
            }
        },
        None => {},
    }
    let known: bool = has_text(out.as_slice(), a);
    proof {
        if known {
            let i = choose|i: int| 0 <= i < before.len() && (#[trigger] before[i])@ == a@;
            assert(texts_of(before)[i] == a@);
        } else if texts_of(before).contains(a@) {
            let i = choose|i: int| 0 <= i < before.len() && texts_of(before)[i] == a@;
            assert(before[i]@ == a@);
            assert(text_listed(before, a@));
        }
    }
    if !known {
        out.push(a.to_owned());
        assert(texts_of(out@) =~= texts_of(before).push(a@));
    }
}

/// The view of a borrowed text that may be missing.
pub open spec fn str_of(t: Option<&str>) -> Option<Seq<char>> {
    match t {
        Some(s) => Some(s@),
        None => None,
    }
}

/// Everybody else a note was exchanged with, the sender first: who an answer
/// to all goes to.
pub fn reply_set(n: &NoteRec, my_address: Option<&str>) -> (r: Vec<String>)
    ensures
        texts_of(r@) == others(parties(*n), str_of(my_address)),
{
    let ghost me = str_of(my_address);
    let ghost all = parties(*n);
    let mut out: Vec<String> = Vec::new();
    let ghost first = sender_part(*n);
    assert(texts_of(out@) =~= others(seq![], me));
    match &n.from {
        Some(from) => {
            push_other(&mut out, from.as_str(), my_address);
            assert(first.drop_last() =~= seq![]);
            assert(texts_of(out@) =~= others(first, me));
        },
        None => {},
    }
    if n.recipients.len() > 0 {
        let mut i: usize = 0;
        assert(all.take(first.len() as int) =~= first);
        while i < n.recipients.len()
            invariant
                i <= n.recipients.len(),
                me == str_of(my_address),
                all == first + texts_of(n.recipients@),
                texts_of(out@) == others(all.take(first.len() + i), me),
            decreases n.recipients.len() - i,
        {
            push_other(&mut out, n.recipients[i].as_str(), my_address);
            proof {
                let now = all.take(first.len() + i + 1);
                assert(now.drop_last() =~= all.take(first.len() + i));
                assert(now.last() == n.recipients@[i as int]@);
            }
            i = i + 1;
        }
        assert(all.take(first.len() + i) =~= all);
    } else {
        match &n.to {
            Some(to) => {
                push_other(&mut out, to.as_str(), my_address);
                assert(all.drop_last() =~= first);
            },
            None => {
                assert(all =~= first);
            },
        }
    }
    out
}

/// Whom an answer goes to: the sender of a received note, always; for a note
/// of one's own the other party, where there is exactly one. Empty where
/// there is nobody to answer.
pub fn reply_address(n: &NoteRec, reply_set: &Vec<String>) -> (r: String)
    ensures
        r@ == match n.from {
            Some(from) => from@,
            None => if reply_set@.len() == 1 {
                reply_set@[0]@
            } else {
                Seq::<char>::empty()
            },
        },
{
    match &n.from {
        Some(from) => from.clone(),
        None => if reply_set.len() == 1 {
            reply_set[0].clone()
        } else {
            String::new()
        },
    }
}

/// An answer to all goes to nobody twice, never to oneself, and to everybody
/// else the note was exchanged with.
pub proof fn replies_reach_everybody_else_once(
    addresses: Seq<Seq<char>>,
    me: Option<Seq<char>>,
)
    ensures
        others(addresses, me).no_duplicates(),
        forall|a: Seq<char>| #[trigger]
            others(addresses, me).contains(a) == (addresses.contains(a) && Some(a) != me),
    decreases addresses.len(),
{
    let all = others(addresses, me);
    if addresses.len() > 0 {
        let rest = addresses.drop_last();
        let last = addresses.last();
        replies_reach_everybody_else_once(rest, me);
        let before = others(rest, me);
        assert forall|a: Seq<char>| #[trigger]
            all.contains(a) == (addresses.contains(a) && Some(a) != me) by {
            assert(before.contains(a) == (rest.contains(a) && Some(a) != me));
            if rest.contains(a) {
                let i = choose|i: int| 0 <= i < rest.len() && rest[i] == a;
                assert(addresses[i] == a);
            }
            if addresses.contains(a) {
                let i = choose|i: int| 0 <= i < addresses.len() && addresses[i] == a;
                if i < rest.len() {
                    assert(rest[i] == a);
                }
            }
            if a == last {
                assert(addresses[addresses.len() - 1] == a);
            }
            if before.contains(a) {
                let i = choose|i: int| 0 <= i < before.len() && before[i] == a;
                assert(all[i] == a);
            }
            if !(Some(last) == me || before.contains(last)) {
                assert(all[before.len() as int] == last);
                if all.contains(a) && a != last {
                    let i = choose|i: int| 0 <= i < all.len() && all[i] == a;
                    assert(before[i] == a);
                }
            }
        }
    }
}

/// Whether a note can be broadcast from its QR code: it is pending, its
/// transaction is known, and it fits.
pub open spec fn shows_qr(n: NoteRec) -> bool {
    n.status@ == "pending"@ && n.raw_hex@.len() > 0 && encode_utf8(n.raw_hex@).len()
        <= MAX_QR_HEX_CHARS
}

/// The text of a transaction for its QR code, in capitals, where it fits.
pub fn qr_text(raw_hex: &str) -> (r: Option<String>)
    ensures
        match r {
            Some(t) => {
                &&& encode_utf8(raw_hex@).len() <= MAX_QR_HEX_CHARS
                &&& t@ == upper_case(raw_hex@)
                &&& is_ascii_chars(raw_hex@) ==> t@ == raw_hex@.map_values(
                    |c: char| upper_char(c),
                )
            },
            None => encode_utf8(raw_hex@).len() > MAX_QR_HEX_CHARS,
        },
{
    if raw_hex.as_bytes().len() <= MAX_QR_HEX_CHARS {
        Some(to_upper(raw_hex))
    } else {
        None
    }
}

/// The text of the QR code of a note, where it shows one.
pub fn view_qr(n: &NoteRec) -> (r: Option<String>)
    ensures
        match r {
            Some(t) => {
                &&& shows_qr(*n)
                &&& t@ == upper_case(n.raw_hex@)
                &&& is_ascii_chars(n.raw_hex@) ==> t@ == n.raw_hex@.map_values(
                    |c: char| upper_char(c),
                )
            },
            None => !shows_qr(*n),
        },
{
    if same_text(n.status.as_str(), "pending") && !n.raw_hex.as_str().is_empty() {
        qr_text(n.raw_hex.as_str())
    } else {
        None
    }
}

/// Where the first note with an id stands.
pub fn find_note(notes: &Vec<NoteRec>, id: &str) -> (r: Option<usize>)
    ensures
        match r {
            Some(k) => k < notes@.len() && k == first_at(notes@, |n: NoteRec| n.id@ == id@),
            None => forall|j: int| 0 <= j < notes@.len() ==> (#[trigger] notes@[j]).id@ != id@,
        },
{
    let ghost hit = |n: NoteRec| n.id@ == id@;
    let test = |n: &NoteRec| -> (b: bool)
        ensures
            b == hit(*n),
        {
            same_text(n.id.as_str(), id)
        };
    let k: usize = position_where(notes, test, Ghost(hit));
    if k < notes.len() {
        Some(k)
    } else {
        proof {
            first_at_found(notes@, hit);
        }
        assert forall|j: int| 0 <= j < notes@.len() implies (#[trigger] notes@[j]).id@ != id@ by {
            assert(!hit(notes@[j]));
        }
        None
    }
}

/// The notes whose transactions are still to be broadcast.
pub fn pending_exports(notes: &Vec<NoteRec>) -> (r: Vec<&NoteRec>)
    ensures
        items_of(r@) == notes@.filter(
            |n: NoteRec| n.status@ == "pending"@ && n.raw_hex@.len() > 0,
        ),
{
    let ghost keep = |n: NoteRec| n.status@ == "pending"@ && n.raw_hex@.len() > 0;
    let test = |n: &NoteRec| -> (b: bool)
        ensures
            b == keep(*n),
        {
            same_text(n.status.as_str(), "pending") && !n.raw_hex.as_str().is_empty()
        };
    refs_where(notes, test, Ghost(keep))
}

/// The parties of a note are its sender, where it names one, and then its
/// recipients in order; a note without a list of them goes to the one that it
/// names.
pub proof fn parties_are_sender_and_recipients(n: NoteRec)
    ensures
        n.from matches Some(f) ==> parties(n).len() > 0 && parties(n)[0] == f@,
        ({
            let to = if n.from is Some {
                parties(n).skip(1)
            } else {
                parties(n)
            };
            &&& n.recipients@.len() > 0 ==> {
                &&& to.len() == n.recipients@.len()
                &&& forall|i: int|
                    0 <= i < n.recipients@.len() ==> #[trigger] to[i] == n.recipients@[i]@
            }
            &&& n.recipients@.len() == 0 && n.to is None ==> to.len() == 0
            &&& n.recipients@.len() == 0 && n.to is Some ==> to.len() == 1 && to[0] == (n.to->0)@
        }),
{
}

/// Those a reply goes to stand in the order in which they first occur.
pub proof fn replies_keep_the_order(addresses: Seq<Seq<char>>, a: Seq<char>, me: Option<Seq<char>>)
    ensures
        others(Seq::<Seq<char>>::empty(), me).len() == 0,
        Some(a) == me || addresses.contains(a) ==> others(addresses.push(a), me) == others(
            addresses,
            me,
        ),
        Some(a) != me && !addresses.contains(a) ==> others(addresses.push(a), me) == others(
            addresses,
            me,
        ).push(a),
{
    assert(addresses.push(a).drop_last() =~= addresses);
    replies_reach_everybody_else_once(addresses, me);
}

/// A code to scan is shown for a pending note whose transaction is known and
/// takes up to 4000 characters.
pub proof fn codes_are_shown_for_small_pending_notes(n: NoteRec)
    ensures
        shows_qr(n) <==> n.status@ == "pending"@ && 0 < n.raw_hex@.len() && encode_utf8(
            n.raw_hex@,
        ).len() <= 4000,
{
}

/// The line of a note says where it stands, the block and the number of chunks
/// of a confirmed note or the fee of a pending one, and then who it is from or
/// else who it is for. A note with no chunk counts as one.
pub proof fn rows_say_where_a_note_stands(n: NoteRec)
    ensures
        ({
            let party = if n.from is Some {
                " \u{b7} from "@ + short_form((n.from->0)@)
            } else if n.to is Some {
                " \u{b7} to "@ + short_form((n.to->0)@)
            } else {
                Seq::<char>::empty()
            };
            &&& n.height is Some && n.chunks > 0 ==> row_meta_text(n) == "block "@ + decimal(
                n.height->0 as nat,
            ) + " \u{b7} "@ + decimal(n.chunks as nat) + " chunk(s)"@ + party
            &&& n.height is Some && n.chunks == 0 ==> row_meta_text(n) == "block "@ + decimal(
                n.height->0 as nat,
            ) + " \u{b7} "@ + decimal(1) + " chunk(s)"@ + party
            &&& n.height is None ==> row_meta_text(n) == "pending \u{b7} fee "@ + decimal(
                n.fee as nat,
            ) + " sats"@ + party
        }),
{
}

/// The detail of a note lists every recipient, each on a line of its own,
/// where there are several, and otherwise its sender or its one recipient.
pub proof fn details_list_every_recipient(n: NoteRec, addresses: Seq<Seq<char>>, a: Seq<char>)
    ensures
        more_lines(Seq::<Seq<char>>::empty()) == Seq::<char>::empty(),
        more_lines(addresses.push(a)) == more_lines(addresses) + "\n    "@ + a,
        n.recipients@.len() > 1 ==> who_text(n) == "\nto ("@ + decimal(n.recipients@.len()) + "): "@
            + n.recipients@[0]@ + more_lines(
            Seq::new((n.recipients@.len() - 1) as nat, |i: int| n.recipients@[i + 1]@),
        ),
        n.recipients@.len() <= 1 && n.from is Some ==> who_text(n) == "\nfrom: "@ + (n.from->0)@,
        n.recipients@.len() <= 1 && n.from is None && n.to is Some ==> who_text(n) == "\nto: "@ + (
        n.to->0)@,
        n.recipients@.len() <= 1 && n.from is None && n.to is None ==> who_text(n).len() == 0,
{
    assert(addresses.push(a).drop_last() =~= addresses);
    if n.recipients@.len() > 1 {
        assert(texts_of(n.recipients@).skip(1) =~= Seq::new(
            (n.recipients@.len() - 1) as nat,
            |i: int| n.recipients@[i + 1]@,
        ));
    }
}

}
