//! Short forms of texts for list rows.

use crate::text::{chars_of, text_between};
use vstd::prelude::*;
use vstd::utf8::{encode_utf8, is_ascii_chars, is_ascii_chars_encode_utf8};

verus! {

/// How many characters a preview shows.
pub const PREVIEW_CHARS: usize = 40;

/// `s` with every line break replaced by a space.
pub open spec fn one_line(s: Seq<char>) -> Seq<char> {
    s.map_values(
        |c: char|
            if c == '\n' {
                ' '
            } else {
                c
            },
    )
}

/// The first characters of `s`, as many as a preview shows.
pub open spec fn first_chars(s: Seq<char>) -> Seq<char> {
    first_of(s, PREVIEW_CHARS as int)
}

/// The beginning of `s` on one line, with an ellipsis where it is cut.
pub open spec fn preview(s: Seq<char>) -> Seq<char> {
    if s.len() > PREVIEW_CHARS {
        one_line(first_chars(s)).push('\u{2026}')
    } else {
        one_line(s)
    }
}

/// The beginning of a text, on one line.
pub fn beginning_of(text: &str) -> (r: String)
    ensures
        r@ == one_line(first_chars(text@)),
{
    let chars: Vec<char> = chars_of(text);
    let mut out = String::new();
    let mut i: usize = 0;
    while i < chars.len() && i < PREVIEW_CHARS
        invariant
            i <= chars.len(),
            i <= PREVIEW_CHARS,
            chars@ == text@,
            out@ == one_line(text@.take(i as int)),
        decreases chars.len() - i,
    {
        let c: char = if chars[i] == '\n' {
            ' '
        } else {
            chars[i]
        };
        out.push(c);
        i = i + 1;
        assert(one_line(text@.take(i as int)) =~= one_line(text@.take(i - 1)).push(c));
    }
    assert(text@.take(i as int) =~= first_chars(text@));
    out
}

/// The list row preview of a note text.
pub fn preview_of(text: &str) -> (r: String)
    ensures
        r@ == preview(text@),
{
    let mut out: String = beginning_of(text);
    if chars_of(text).len() > PREVIEW_CHARS {
        out.push('\u{2026}');
    }
    out
}

/// The first `n` characters of `s`, or all of them where it has fewer.
pub open spec fn first_of(s: Seq<char>, n: int) -> Seq<char> {
    if s.len() > n {
        s.take(n)
    } else {
        s
    }
}

/// The last `n` characters of `s`, or all of them where it has fewer.
pub open spec fn last_of(s: Seq<char>, n: int) -> Seq<char> {
    if s.len() > n {
        s.skip(s.len() - n)
    } else {
        s
    }
}

/// The first 8 and the last 6 characters of `s` around an ellipsis, or `s`
/// itself where it takes at most 17 bytes.
pub open spec fn short_form(s: Seq<char>) -> Seq<char> {
    if encode_utf8(s).len() > 17 {
        first_of(s, 8).push('\u{2026}') + last_of(s, 6)
    } else {
        s
    }
}

/// The compact form of an address or a transaction id for list rows.
pub fn short_addr(addr: &str) -> (r: String)
    ensures
        r@ == short_form(addr@),
{
    if addr.as_bytes().len() <= 17 {
        return addr.to_owned();
    }
    let chars: Vec<char> = chars_of(addr);
    let n: usize = chars.len();
    let head: usize = if n > 8 {
        8
    } else {
        n
    };
    let tail: usize = if n > 6 {
        n - 6
    } else {
        0
    };
    let mut out: String = text_between(&chars, 0, head);
    out.push('\u{2026}');
    out.append(text_between(&chars, tail, n).as_str());
    assert(out@ =~= short_form(addr@));
    out
}

/// A short form never has more than 17 characters, starts with the first 8 of
/// the text and ends with its last 6. Of ASCII text it is the text itself up
/// to 17 characters.
pub proof fn short_forms_keep_both_ends(s: Seq<char>)
    ensures
        short_form(s).len() <= 17,
        first_of(s, 8).is_prefix_of(short_form(s)),
        last_of(s, 6).is_suffix_of(short_form(s)),
        is_ascii_chars(s) ==> (s.len() <= 17 <==> short_form(s) == s),
{
    chars_take_bytes(s);
    let f = short_form(s);
    if encode_utf8(s).len() > 17 {
        assert(first_of(s, 8) =~= f.subrange(0, first_of(s, 8).len() as int));
        assert(last_of(s, 6) =~= f.subrange(f.len() - last_of(s, 6).len(), f.len() as int));
    } else {
        assert(first_of(s, 8) =~= s.subrange(0, first_of(s, 8).len() as int));
        assert(last_of(s, 6) =~= s.subrange(s.len() - last_of(s, 6).len(), s.len() as int));
    }
    if is_ascii_chars(s) {
        is_ascii_chars_encode_utf8(s);
    }
}

/// A text takes at least as many bytes as it has characters.
proof fn chars_take_bytes(s: Seq<char>)
    ensures
        encode_utf8(s).len() >= s.len(),
    decreases s.len(),
{
    if s.len() > 0 {
        chars_take_bytes(s.drop_first());
    }
}

/// On one line every line break is a space and nothing else changes.
pub proof fn one_line_only_replaces_breaks(s: Seq<char>, i: int)
    requires
        0 <= i < s.len(),
    ensures
        one_line(s).len() == s.len(),
        s[i] == '\n' ==> one_line(s)[i] == ' ',
        s[i] != '\n' ==> one_line(s)[i] == s[i],
        !one_line(s).contains('\n'),
{
}

/// A preview shows the first 40 characters of a text on one line, and an
/// ellipsis behind them exactly where there are more.
pub proof fn previews_show_the_beginning(s: Seq<char>)
    ensures
        s.len() <= 40 ==> preview(s).len() == s.len(),
        s.len() > 40 ==> preview(s).len() == 41 && preview(s)[40] == '\u{2026}',
        forall|i: int|
            0 <= i < s.len() && i < 40 ==> #[trigger] preview(s)[i] == if s[i] == '\n' {
                ' '
            } else {
                s[i]
            },
        !preview(s).contains('\n'),
{
}

/// A text of at most 17 bytes is its own short form. Any other is shown by
/// its first 8 characters, an ellipsis and its last 6, as far as it has them.
pub proof fn long_texts_are_cut_in_the_middle(s: Seq<char>)
    ensures
        encode_utf8(s).len() <= 17 ==> short_form(s) == s,
        encode_utf8(s).len() > 17 && s.len() >= 8 ==> {
            &&& short_form(s).len() == 15
            &&& short_form(s)[8] == '\u{2026}'
            &&& forall|i: int| 0 <= i < 8 ==> #[trigger] short_form(s)[i] == s[i]
            &&& forall|i: int| 0 <= i < 6 ==> #[trigger] short_form(s)[9 + i] == s[s.len() - 6 + i]
        },
        encode_utf8(s).len() > 17 && s.len() < 8 ==> {
            &&& short_form(s).len() > s.len()
            &&& short_form(s).take(s.len() as int) == s
            &&& short_form(s)[s.len() as int] == '\u{2026}'
        },
{
    if encode_utf8(s).len() > 17 && s.len() < 8 {
        assert(short_form(s).take(s.len() as int) =~= s);
    }
}

}
