//! Picking the recipients of a note: what a scanned code names, and what
//! picking an address does.

use crate::compose::MAX_RECIPIENTS;
use crate::lists::copies_where;
use crate::seqs::{first_at, first_at_found, first_at_is};
use crate::state::{has_text, text_listed};
use crate::text::{
    chars_of, find_char, lower_case, lower_char, same_text, str_from_utf8, text_between, to_lower,
    trim, trimmed,
};
use vstd::prelude::*;
use vstd::utf8::{decode_utf8, is_ascii_chars, valid_utf8};

verus! {

/// The text of scanned bytes; empty where they are no text.
pub open spec fn scanned_text(data: Seq<u8>) -> Seq<char> {
    if valid_utf8(data) {
        trimmed(decode_utf8(data))
    } else {
        trimmed(seq![])
    }
}

/// Whether a text starts with the scheme of a payment address, in any case.
pub open spec fn has_scheme(s: Seq<char>) -> bool {
    s.len() >= 8 && s.take(8).map_values(|c: char| lower_char(c)) == "bitcoin:"@
}

/// A text without the scheme.
pub open spec fn without_scheme(s: Seq<char>) -> Seq<char> {
    if has_scheme(s) {
        s.skip(8)
    } else {
        s
    }
}

/// A text up to its first question mark.
pub open spec fn before_query(s: Seq<char>) -> Seq<char> {
    s.take(first_at(s, |c: char| c == '?'))
}

/// The address in a scanned text: without the scheme of a payment link and
/// without what follows a question mark.
pub open spec fn address_in(s: Seq<char>) -> Seq<char> {
    trimmed(before_query(without_scheme(s)))
}

/// Whether characters start with the scheme of a payment address.
fn starts_with_scheme(chars: &Vec<char>) -> (r: bool)
    ensures
        r == has_scheme(chars@),
{
    if chars.len() < 8 {
        return false;
    }
    let r: bool = (chars[0] == 'b' || chars[0] == 'B') && (chars[1] == 'i' || chars[1] == 'I') && (
    chars[2] == 't' || chars[2] == 'T') && (chars[3] == 'c' || chars[3] == 'C') && (chars[4] == 'o'
        || chars[4] == 'O') && (chars[5] == 'i' || chars[5] == 'I') && (chars[6] == 'n' || chars[6]
        == 'N') && chars[7] == ':';
    proof {
        reveal_strlit("bitcoin:");
        let head = chars@.take(8).map_values(|c: char| lower_char(c));
        assert forall|i: int| 0 <= i < 8 implies #[trigger] head[i] == lower_char(chars@[i]) by {}
        if r {
            assert(head =~= "bitcoin:"@);
        } else if has_scheme(chars@) {
            assert(head[0] == 'b' && head[1] == 'i' && head[2] == 't' && head[3] == 'c' && head[4]
                == 'o' && head[5] == 'i' && head[6] == 'n' && head[7] == ':');
        }
    }
    r
}

/// The address in a scanned text.
fn address_of_text(text: &str) -> (r: String)
    ensures
        r@ == address_in(text@),
{
    let chars: Vec<char> = chars_of(text);
    let start: usize = if starts_with_scheme(&chars) {
        8
    } else {
        0
    };
    assert(chars@.skip(start as int) =~= without_scheme(text@));
    let end: usize = find_char(&chars, start, '?');
    let part: String = text_between(&chars, start, end);
    proof {
        first_at_found(without_scheme(text@), |c: char| c == '?');
        assert(part@ =~= before_query(without_scheme(text@)));
    }
    trim(part.as_str()).to_owned()
}

/// The address that a scanned code names.
pub fn scanned_address(data: &[u8]) -> (r: String)
    ensures
        r@ == address_in(scanned_text(data@)),
{
    match str_from_utf8(data) {
        Some(s) => address_of_text(trim(s)),
        None => {
            proof {
                reveal_strlit("");
                assert(""@ =~= seq![]);
            }
            address_of_text(trim(""))
        },
    }
}

/// A scanned address in lower case: codes are often written in capitals, and
/// addresses are not.
pub fn lower_address(addr: &str) -> (r: String)
    ensures
        r@ == lower_case(addr@),
        is_ascii_chars(addr@) ==> r@ == addr@.map_values(|c: char| lower_char(c)),
{
    to_lower(addr)
}

/// What is taken as the scanned address: the text as it is where that is an
/// address, else the text in lower case where that is one.
pub fn resolve_scanned(addr: String, valid: bool, lower: String, lower_valid: bool) -> (r: Option<
    String,
>)
    ensures
        r == if valid {
            Some(addr)
        } else if lower_valid {
            Some(lower)
        } else {
            None
        },
{
    if valid {
        Some(addr)
    } else if lower_valid {
        Some(lower)
    } else {
        None
    }
}

/// What picking an address does.
#[derive(Debug, Clone, Copy, PartialEq, Eq, Structural)]
pub enum PickAction {
    /// Nothing: a sweep cannot go to the notebook itself.
    Ignore,
    /// The notebook itself is no extra recipient.
    RefuseSelf,
    /// The text is no address of the network.
    RefuseInvalid,
    /// The address is a recipient already.
    RefuseDuplicate,
    /// The note has as many recipients as it can.
    RefuseTooMany,
    /// The address becomes one more recipient of the draft.
    AddExtra,
    /// A fresh note to oneself.
    ComposeSelf,
    /// A fresh note to the address.
    Compose,
    /// A sweep to the address.
    Sweep,
}

/// What picking an address does. `valid` says whether the text is an address
/// of the network.
pub open spec fn pick_of(
    addr: Seq<char>,
    sweep_mode: bool,
    picking_extra: bool,
    valid: bool,
    first: Seq<char>,
    extra: Seq<String>,
) -> PickAction {
    if !sweep_mode && picking_extra {
        if addr.len() == 0 {
            PickAction::RefuseSelf
        } else if !valid {
            PickAction::RefuseInvalid
        } else if addr == first || text_listed(extra, addr) {
            PickAction::RefuseDuplicate
        } else if 1 + extra.len() + 1 > MAX_RECIPIENTS {
            PickAction::RefuseTooMany
        } else {
            PickAction::AddExtra
        }
    } else if addr.len() == 0 {
        if sweep_mode {
            PickAction::Ignore
        } else {
            PickAction::ComposeSelf
        }
    } else if !valid {
        PickAction::RefuseInvalid
    } else if sweep_mode {
        PickAction::Sweep
    } else {
        PickAction::Compose
    }
}

/// What picking an address does.
pub fn pick_action(
    addr: &str,
    sweep_mode: bool,
    picking_extra: bool,
    valid: bool,
    first: &str,
    extra: &Vec<String>,
) -> (r: PickAction)
    ensures
        r == pick_of(addr@, sweep_mode, picking_extra, valid, first@, extra@),
{
    if !sweep_mode && picking_extra {
        if addr.is_empty() {
            PickAction::RefuseSelf
        } else if !valid {
            PickAction::RefuseInvalid
        } else if same_text(addr, first) || has_text(extra.as_slice(), addr) {
            PickAction::RefuseDuplicate
        } else if extra.len() > MAX_RECIPIENTS - 2 {
            PickAction::RefuseTooMany
        } else {
            PickAction::AddExtra
        }
    } else if addr.is_empty() {
        if sweep_mode {
            PickAction::Ignore
        } else {
            PickAction::ComposeSelf
        }
    } else if !valid {
        PickAction::RefuseInvalid
    } else if sweep_mode {
        PickAction::Sweep
    } else {
        PickAction::Compose
    }
}

/// What the user is told about a refused pick.
pub open spec fn pick_error(action: PickAction, network: Seq<char>) -> Option<Seq<char>> {
    match action {
        PickAction::RefuseSelf => Some("Can't add yourself as an extra recipient."@),
        PickAction::RefuseInvalid => Some("Not a valid "@ + network + " address."@),
        PickAction::RefuseDuplicate => Some("Already a recipient of this note."@),
        PickAction::RefuseTooMany => Some("Too many recipients (max 255)."@),
        _ => None,
    }
}

/// What the user is told about a refused pick.
pub fn pick_problem(action: PickAction, network: &str) -> (r: Option<String>)
    ensures
        match pick_error(action, network@) {
            Some(e) => r matches Some(x) && x@ == e,
            None => r is None,
        },
{
    match action {
        PickAction::RefuseSelf => Some("Can't add yourself as an extra recipient.".to_owned()),
        PickAction::RefuseInvalid => {
            let mut out: String = "Not a valid ".to_owned();
            out.append(network);
            out.append(" address.");
            Some(out)
        },
        PickAction::RefuseDuplicate => Some("Already a recipient of this note.".to_owned()),
        PickAction::RefuseTooMany => Some("Too many recipients (max 255).".to_owned()),
        _ => None,
    }
}

/// Whether a draft goes to no address twice: neither the first nor an extra
/// one is repeated.
pub open spec fn distinct_recipients(first: Seq<char>, extra: Seq<String>) -> bool {
    &&& !text_listed(extra, first)
    &&& forall|i: int, j: int|
        0 <= i < j < extra.len() ==> (#[trigger] extra[i])@ != (#[trigger] extra[j])@
}

/// A draft never goes to an address twice, nor to more recipients than a note
/// can have, however many are added.
pub proof fn adding_keeps_recipients_in_bounds(
    addr: String,
    valid: bool,
    first: Seq<char>,
    extra: Seq<String>,
)
    requires
        distinct_recipients(first, extra),
        pick_of(addr@, false, true, valid, first, extra) == PickAction::AddExtra,
    ensures
        distinct_recipients(first, extra.push(addr)),
        1 + extra.push(addr).len() <= MAX_RECIPIENTS,
{
    let after = extra.push(addr);
    if text_listed(after, first) {
        let i = choose|i: int| 0 <= i < after.len() && (#[trigger] after[i])@ == first;
        if i < extra.len() {
            assert(extra[i]@ == first);
        }
    }
    assert forall|i: int, j: int| 0 <= i < j < after.len() implies (#[trigger] after[i])@ != (
    #[trigger] after[j])@ by {
        assert(after[i] == extra[i]);
        if j < extra.len() {
            assert(after[j] == extra[j]);
        } else if extra[i]@ == addr@ {
            assert(text_listed(extra, addr@));
        }
    }
}

/// The extra recipients without an address.
pub fn remove_recipient(extra: &Vec<String>, addr: &str) -> (r: Vec<String>)
    ensures
        r@ == extra@.filter(|a: String| a@ != addr@),
{
    let ghost keep = |a: String| a@ != addr@;
    let test = |a: &String| -> (b: bool)
        ensures
            b == keep(*a),
        {
            !same_text(a.as_str(), addr)
        };
    copies_where(extra, test, Ghost(keep))
}

/// What is scanned is read with or without the scheme, in capitals or not, and
/// without what follows a question mark; white space round it is taken off.
pub proof fn scanned_texts_give_their_address(scheme: Seq<char>, a: Seq<char>, query: Seq<char>)
    requires
        scheme.len() == 8,
        forall|i: int|
            0 <= i < 8 ==> #[trigger] scheme[i] == "bitcoin:"@[i] || scheme[i] == "BITCOIN:"@[i],
        !a.contains('?'),
    ensures
        address_in(scheme + a) == trimmed(a),
        address_in(scheme + a + seq!['?'] + query) == trimmed(a),
        !has_scheme(a) ==> address_in(a) == trimmed(a),
        !has_scheme(a + seq!['?'] + query) ==> address_in(a + seq!['?'] + query) == trimmed(a),
{
    let mark = |c: char| c == '?';
    let low = |c: char| lower_char(c);
    let asked = a + seq!['?'] + query;
    reveal_strlit("bitcoin:");
    reveal_strlit("BITCOIN:");
    assert("bitcoin:"@.len() == 8 && "BITCOIN:"@.len() == 8);
    assert forall|i: int| 0 <= i < 8 implies #[trigger] scheme.map_values(low)[i]
        == "bitcoin:"@[i] by {
        assert(scheme[i] == "bitcoin:"@[i] || scheme[i] == "BITCOIN:"@[i]);
    }
    assert(scheme.map_values(low) =~= "bitcoin:"@);
    assert((scheme + a).take(8) =~= scheme);
    assert((scheme + a).skip(8) =~= a);
    assert((scheme + a + seq!['?'] + query).take(8) =~= scheme);
    assert((scheme + a + seq!['?'] + query).skip(8) =~= asked);
    assert forall|j: int| 0 <= j < a.len() implies !mark(#[trigger] a[j]) by {
        assert(a.contains(a[j]));
    }
    first_at_is(a, mark, a.len() as int);
    assert(a.take(a.len() as int) =~= a);
    assert forall|j: int| 0 <= j < a.len() implies !mark(#[trigger] asked[j]) by {
        assert(asked[j] == a[j]);
    }
    assert(asked[a.len() as int] == '?');
    first_at_is(asked, mark, a.len() as int);
    assert(asked.take(a.len() as int) =~= a);
}

/// Bytes that are no text give no address; others are read as their text
/// without the white space round it.
pub proof fn only_texts_are_scanned(data: Seq<u8>)
    ensures
        !valid_utf8(data) ==> scanned_text(data).len() == 0,
        valid_utf8(data) ==> scanned_text(data) == trimmed(decode_utf8(data)),
{
}

/// A picked address is added to a draft exactly where it is a valid address
/// that the draft does not have and there are fewer than 255 recipients. Where
/// none is being added, it starts a sweep or a note exactly where it is valid.
pub proof fn picks_are_taken_where_they_can_be(
    addr: Seq<char>,
    valid: bool,
    first: Seq<char>,
    extra: Seq<String>,
)
    ensures
        ({
            let listed = addr == first || exists|i: int|
                0 <= i < extra.len() && (#[trigger] extra[i])@ == addr;
            let adding = pick_of(addr, false, true, valid, first, extra);
            let fresh = pick_of(addr, false, false, valid, first, extra);
            &&& adding == PickAction::AddExtra <==> addr.len() > 0 && valid && !listed
                && extra.len() < 254
            &&& adding == PickAction::RefuseSelf <==> addr.len() == 0
            &&& adding == PickAction::RefuseInvalid <==> addr.len() > 0 && !valid
            &&& adding == PickAction::RefuseDuplicate <==> addr.len() > 0 && valid && listed
            &&& adding == PickAction::RefuseTooMany <==> addr.len() > 0 && valid && !listed
                && extra.len() >= 254
            &&& fresh == PickAction::ComposeSelf <==> addr.len() == 0
            &&& fresh == PickAction::Compose <==> addr.len() > 0 && valid
            &&& fresh == PickAction::RefuseInvalid <==> addr.len() > 0 && !valid
            &&& forall|picking_extra: bool|
                {
                    let swept = #[trigger] pick_of(addr, true, picking_extra, valid, first, extra);
                    &&& swept == PickAction::Ignore <==> addr.len() == 0
                    &&& swept == PickAction::Sweep <==> addr.len() > 0 && valid
                    &&& swept == PickAction::RefuseInvalid <==> addr.len() > 0 && !valid
                }
        }),
{
}

/// Every refusal is explained and nothing else is.
pub proof fn refusals_are_explained(action: PickAction, network: Seq<char>)
    ensures
        pick_error(action, network) is Some <==> action == PickAction::RefuseSelf || action
            == PickAction::RefuseInvalid || action == PickAction::RefuseDuplicate || action
            == PickAction::RefuseTooMany,
{
}

}
