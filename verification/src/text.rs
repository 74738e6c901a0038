//! Text primitives: characters in and out of strings, trimming, decimal
//! numbers and equality, each stated over sequences of characters.

use crate::seqs::{first_at, first_at_is};
use vstd::prelude::*;
use vstd::utf8::{decode_utf8, encode_utf8, encode_utf8_decode_utf8, is_ascii_chars, valid_utf8};

verus! {

/// `String::push` appends one character.
pub assume_specification[ String::push ](s: &mut String, c: char)
    ensures
        final(s)@ == old(s)@.push(c),
;

/// The characters with the Unicode `White_Space` property.
pub open spec fn is_white_space(c: char) -> bool {
    ||| '\u{9}' <= c <= '\u{d}'
    ||| c == ' '
    ||| c == '\u{85}'
    ||| c == '\u{a0}'
    ||| c == '\u{1680}'
    ||| '\u{2000}' <= c <= '\u{200a}'
    ||| c == '\u{2028}'
    ||| c == '\u{2029}'
    ||| c == '\u{202f}'
    ||| c == '\u{205f}'
    ||| c == '\u{3000}'
}

/// `s` without its leading white space.
pub open spec fn trimmed_start(s: Seq<char>) -> Seq<char>
    decreases s.len(),
{
    if s.len() > 0 && is_white_space(s[0]) {
        trimmed_start(s.drop_first())
    } else {
        s
    }
}

/// `s` without its trailing white space.
pub open spec fn trimmed_end(s: Seq<char>) -> Seq<char>
    decreases s.len(),
{
    if s.len() > 0 && is_white_space(s.last()) {
        trimmed_end(s.drop_last())
    } else {
        s
    }
}

/// `s` without leading and trailing white space.
pub open spec fn trimmed(s: Seq<char>) -> Seq<char> {
    trimmed_end(trimmed_start(s))
}

/// `str::trim` drops the leading and the trailing characters that have the
/// `White_Space` property, and nothing else.
#[verifier::external_body]
pub(crate) fn trim(s: &str) -> (r: &str)
    ensures
        r@ == trimmed(s@),
{
    s.trim()
}

/// An ASCII letter in lower case; any other character as it is.
pub open spec fn lower_char(c: char) -> char {
    if 'A' <= c <= 'Z' {
        (c as int + 32) as char
    } else {
        c
    }
}

/// An ASCII letter in upper case; any other character as it is.
pub open spec fn upper_char(c: char) -> char {
    if 'a' <= c <= 'z' {
        (c as int - 32) as char
    } else {
        c
    }
}

/// The lower-case equivalent of a text, as `str::to_lowercase` gives it.
pub uninterp spec fn lower_case(s: Seq<char>) -> Seq<char>;

/// The upper-case equivalent of a text, as `str::to_uppercase` gives it.
pub uninterp spec fn upper_case(s: Seq<char>) -> Seq<char>;

/// `str::to_lowercase` gives the lower-case equivalent of a text; in ASCII
/// text that is each letter in lower case. What it is of other text is a
/// matter of the Unicode tables and left to the name.
#[verifier::external_body]
pub(crate) fn to_lower(s: &str) -> (r: String)
    ensures
        r@ == lower_case(s@),
        is_ascii_chars(s@) ==> r@ == s@.map_values(|c: char| lower_char(c)),
{
    s.to_lowercase()
}

/// `str::to_uppercase` gives the upper-case equivalent of a text; in ASCII
/// text that is each letter in upper case. What it is of other text is a
/// matter of the Unicode tables and left to the name.
#[verifier::external_body]
pub(crate) fn to_upper(s: &str) -> (r: String)
    ensures
        r@ == upper_case(s@),
        is_ascii_chars(s@) ==> r@ == s@.map_values(|c: char| upper_char(c)),
{
    s.to_uppercase()
}

/// The digit characters, by value.
pub open spec fn digit_char(d: int) -> char {
    if d == 0 { '0' } else if d == 1 { '1' } else if d == 2 { '2' } else if d == 3 { '3' }
    else if d == 4 { '4' } else if d == 5 { '5' } else if d == 6 { '6' } else if d == 7 { '7' }
    else if d == 8 { '8' } else { '9' }
}

/// The decimal notation of `n`, without leading zeros.
pub open spec fn decimal(n: nat) -> Seq<char>
    decreases n,
{
    if n < 10 {
        seq![digit_char(n as int)]
    } else {
        decimal(n / 10).push(digit_char((n % 10) as int))
    }
}

/// The value of one decimal digit.
pub open spec fn digit_value(c: char) -> Option<nat> {
    if '0' <= c <= '9' {
        Some((c as nat - '0' as nat) as nat)
    } else {
        None
    }
}

/// The value of a run of decimal digits, most significant first; `None`
/// where a character is no digit. The empty run has the value 0.
pub open spec fn digits_value(s: Seq<char>) -> Option<nat>
    decreases s.len(),
{
    if s.len() == 0 {
        Some(0)
    } else {
        match (digits_value(s.drop_last()), digit_value(s.last())) {
            (Some(high), Some(low)) => Some(high * 10 + low),
            _ => None,
        }
    }
}

/// The number that `s` writes: an optional plus sign, then one or more
/// decimal digits and nothing else.
pub open spec fn number_in(s: Seq<char>) -> Option<nat> {
    let digits = if s.len() > 0 && s[0] == '+' { s.drop_first() } else { s };
    if digits.len() == 0 {
        None
    } else {
        digits_value(digits)
    }
}

/// `number_in`, where the number is at most `max`.
pub open spec fn number_up_to(s: Seq<char>, max: int) -> Option<nat> {
    match number_in(s) {
        Some(n) => if n <= max { Some(n) } else { None },
        None => None,
    }
}

/// `str::parse::<u64>` reads an optional plus sign followed by one or more
/// digits; anything else, and a number past `u64::MAX`, is an error.
#[verifier::external_body]
pub(crate) fn parse_u64(s: &str) -> (r: Option<u64>)
    ensures
        match r {
            Some(n) => number_up_to(s@, u64::MAX as int) == Some(n as nat),
            None => number_up_to(s@, u64::MAX as int) is None,
        },
{
    s.parse::<u64>().ok()
}

/// `std::str::from_utf8` accepts exactly the valid UTF-8 byte sequences, and
/// gives the characters that they encode.
#[verifier::external_body]
pub(crate) fn str_from_utf8(bytes: &[u8]) -> (r: Option<&str>)
    ensures
        match r {
            Some(s) => valid_utf8(bytes@) && s@ == decode_utf8(bytes@),
            None => !valid_utf8(bytes@),
        },
{
    std::str::from_utf8(bytes).ok()
}

/// Whether two texts hold the same characters.
pub fn same_text(a: &str, b: &str) -> (r: bool)
    ensures
        r == (a@ == b@),
{
    let x: &[u8] = a.as_bytes();
    let y: &[u8] = b.as_bytes();
    proof {
        encode_utf8_decode_utf8(a@);
        encode_utf8_decode_utf8(b@);
    }
    if x.len() != y.len() {
        return false;
    }
    let mut i: usize = 0;
    while i < x.len()
        invariant
            i <= x.len(),
            x.len() == y.len(),
            x@ == encode_utf8(a@),
            y@ == encode_utf8(b@),
            forall|j: int| 0 <= j < i ==> x@[j] == y@[j],
        decreases x.len() - i,
    {
        if x[i] != y[i] {
            return false;
        }
        i = i + 1;
    }
    assert(x@ =~= y@);
    true
}

/// The characters of a text.
pub fn chars_of(s: &str) -> (r: Vec<char>)
    ensures
        r@ == s@,
{
    let mut out: Vec<char> = Vec::new();
    for c in it: s.chars()
        invariant
            out@ == it.seq().take(it.index()),
            it.seq() == s@,
    {
        out.push(c);
        assert(it.seq().take(it.index() + 1) =~= it.seq().take(it.index()).push(c));
    }
    assert(out@ =~= s@);
    out
}

/// The text made of `chars[from..to]`.
pub fn text_between(chars: &Vec<char>, from: usize, to: usize) -> (r: String)
    requires
        from <= to <= chars.len(),
    ensures
        r@ == chars@.subrange(from as int, to as int),
{
    let mut out = String::new();
    let mut i: usize = from;
    while i < to
        invariant
            from <= i <= to <= chars.len(),
            out@ == chars@.subrange(from as int, i as int),
        decreases to - i,
    {
        out.push(chars[i]);
        i = i + 1;
        assert(chars@.subrange(from as int, i as int) =~= chars@.subrange(from as int, i - 1).push(
            chars@[i - 1],
        ));
    }
    out
}

/// One digit as a character.
fn digit_to_char(d: u64) -> (c: char)
    requires
        d < 10,
    ensures
        c == digit_char(d as int),
{
    match d {
        0 => '0',
        1 => '1',
        2 => '2',
        3 => '3',
        4 => '4',
        5 => '5',
        6 => '6',
        7 => '7',
        8 => '8',
        _ => '9',
    }
}

/// A number in decimal notation.
pub fn decimal_text(n: u64) -> (r: String)
    ensures
        r@ == decimal(n as nat),
    decreases n,
{
    if n < 10 {
        let mut out = String::new();
        out.push(digit_to_char(n));
        assert(out@ =~= seq![digit_char(n as int)]);
        out
    } else {
        let mut out = decimal_text(n / 10);
        out.push(digit_to_char(n % 10));
        out
    }
}

/// The characters of a decimal number are digits, there is at least one, and
/// they read back as the number.
pub proof fn decimal_reads_back(n: nat)
    ensures
        decimal(n).len() > 0,
        forall|i: int| 0 <= i < decimal(n).len() ==> '0' <= #[trigger] decimal(n)[i] <= '9',
        digits_value(decimal(n)) == Some(n),
        number_in(decimal(n)) == Some(n),
    decreases n,
{
    reveal_with_fuel(digits_value, 2);
    if n < 10 {
        assert(decimal(n).drop_last() =~= seq![]);
        assert(digits_value(seq![]) == Some(0nat));
    } else {
        decimal_reads_back(n / 10);
        assert(decimal(n).drop_last() =~= decimal(n / 10));
    }
    assert('0' <= decimal(n)[0] <= '9');
}

/// Different numbers have different decimal notations.
pub proof fn decimal_is_injective(a: nat, b: nat)
    requires
        decimal(a) == decimal(b),
    ensures
        a == b,
{
    decimal_reads_back(a);
    decimal_reads_back(b);
}

/// `parts` with a separator between each two.
pub open spec fn joined(parts: Seq<Seq<char>>, separator: Seq<char>) -> Seq<char>
    decreases parts.len(),
{
    if parts.len() == 0 {
        seq![]
    } else if parts.len() == 1 {
        parts[0]
    } else {
        joined(parts.drop_last(), separator) + separator + parts.last()
    }
}

/// The characters of texts.
pub open spec fn texts_of(v: Seq<String>) -> Seq<Seq<char>> {
    v.map_values(|s: String| s@)
}

/// The texts with a separator between each two.
pub fn join(parts: &Vec<String>, separator: &str) -> (r: String)
    ensures
        r@ == joined(texts_of(parts@), separator@),
{
    let ghost all = texts_of(parts@);
    let mut out = String::new();
    let mut i: usize = 0;
    assert(all.take(0) =~= seq![]);
    while i < parts.len()
        invariant
            i <= parts.len(),
            all == texts_of(parts@),
            out@ == joined(all.take(i as int), separator@),
        decreases parts.len() - i,
    {
        let ghost before = out@;
        let ghost now = all.take(i + 1);
        assert(now.drop_last() =~= all.take(i as int));
        if i > 0 {
            out.append(separator);
        }
        out.append(parts[i].as_str());
        assert(now.last() == parts@[i as int]@);
        assert(i == 0 ==> out@ =~= now[0]);
        i = i + 1;
    }
    assert(all.take(i as int) =~= all);
    out
}

/// The first position of a character, or the number of characters.
pub fn find_char(chars: &Vec<char>, from: usize, c: char) -> (r: usize)
    requires
        from <= chars.len(),
    ensures
        from <= r <= chars.len(),
        r - from == first_at(chars@.skip(from as int), |x: char| x == c),
{
    let ghost rest = chars@.skip(from as int);
    let ghost p = |x: char| x == c;
    let mut i: usize = from;
    while i < chars.len() && chars[i] != c
        invariant
            from <= i <= chars.len(),
            rest == chars@.skip(from as int),
            p == (|x: char| x == c),
            forall|j: int| 0 <= j < i - from ==> !p(#[trigger] rest[j]),
        decreases chars.len() - i,
    {
        assert(rest[i - from] == chars@[i as int]);
        i = i + 1;
    }
    proof {
        first_at_is(rest, p, i - from);
    }
    i
}

/// A decimal notation has no leading zero, but for zero itself.
pub proof fn decimals_have_no_leading_zero(n: nat)
    ensures
        n > 0 ==> decimal(n)[0] != '0',
        n < 10 ==> decimal(n).len() == 1,
    decreases n,
{
    if n >= 10 {
        decimals_have_no_leading_zero(n / 10);
        decimal_reads_back(n / 10);
    }
}

/// Joined texts come one after the other with the separator between each two
/// lists, however a list is split: nothing is added before the first, behind
/// the last or to a text alone.
pub proof fn joining_lists_joins_their_texts(
    a: Seq<Seq<char>>,
    b: Seq<Seq<char>>,
    separator: Seq<char>,
    part: Seq<char>,
)
    requires
        a.len() > 0,
        b.len() > 0,
    ensures
        joined(Seq::<Seq<char>>::empty(), separator) == Seq::<char>::empty(),
        joined(seq![part], separator) == part,
        joined(a + b, separator) == joined(a, separator) + separator + joined(b, separator),
    decreases b.len(),
{
    let all = a + b;
    assert(all.last() == b.last());
    if b.len() == 1 {
        assert(all.drop_last() =~= a);
    } else {
        assert(all.drop_last() =~= a + b.drop_last());
        joining_lists_joins_their_texts(a, b.drop_last(), separator, part);
        assert(joined(all, separator) =~= joined(a, separator) + separator + joined(b, separator));
    }
}

/// Taking white space off the beginning.
proof fn trimming_the_start(s: Seq<char>) -> (i: int)
    ensures
        0 <= i <= s.len(),
        trimmed_start(s) == s.subrange(i, s.len() as int),
        forall|k: int| 0 <= k < i ==> is_white_space(#[trigger] s[k]),
        i < s.len() ==> !is_white_space(s[i]),
    decreases s.len(),
{
    if s.len() > 0 && is_white_space(s[0]) {
        let rest = s.drop_first();
        let i = trimming_the_start(rest);
        assert(rest.subrange(i, rest.len() as int) =~= s.subrange(i + 1, s.len() as int));
        assert forall|k: int| 0 <= k < i + 1 implies is_white_space(#[trigger] s[k]) by {
            if k > 0 {
                assert(s[k] == rest[k - 1]);
            }
        }
        i + 1
    } else {
        assert(s.subrange(0, s.len() as int) =~= s);
        0
    }
}

/// Taking white space off the end.
proof fn trimming_the_end(s: Seq<char>) -> (j: int)
    ensures
        0 <= j <= s.len(),
        trimmed_end(s) == s.subrange(0, j),
        forall|k: int| j <= k < s.len() ==> is_white_space(#[trigger] s[k]),
        j > 0 ==> !is_white_space(s[j - 1]),
    decreases s.len(),
{
    if s.len() > 0 && is_white_space(s.last()) {
        let rest = s.drop_last();
        let j = trimming_the_end(rest);
        assert(rest.subrange(0, j) =~= s.subrange(0, j));
        assert forall|k: int| j <= k < s.len() implies is_white_space(#[trigger] s[k]) by {
            if k < rest.len() {
                assert(s[k] == rest[k]);
            }
        }
        j
    } else {
        assert(s.subrange(0, s.len() as int) =~= s);
        s.len() as int
    }
}

/// Trimming takes off white space at both ends, all of it and nothing else:
/// what is left neither begins nor ends with white space, and what went is
/// white space.
pub proof fn trimming_takes_white_space_off_both_ends(s: Seq<char>) -> (range: (int, int))
    ensures
        0 <= range.0 <= range.1 <= s.len(),
        trimmed(s) == s.subrange(range.0, range.1),
        forall|k: int| 0 <= k < range.0 ==> is_white_space(#[trigger] s[k]),
        forall|k: int| range.1 <= k < s.len() ==> is_white_space(#[trigger] s[k]),
        range.0 < range.1 ==> !is_white_space(s[range.0]) && !is_white_space(s[range.1 - 1]),
{
    let i = trimming_the_start(s);
    let rest = s.subrange(i, s.len() as int);
    let j = trimming_the_end(rest);
    assert(rest.subrange(0, j) =~= s.subrange(i, i + j));
    assert forall|k: int| i + j <= k < s.len() implies is_white_space(#[trigger] s[k]) by {
        assert(s[k] == rest[k - i]);
    }
    if j > 0 {
        assert(rest[0] == s[i]);
        assert(rest[j - 1] == s[i + j - 1]);
    }
    (i, i + j)
}

/// A text without white space at its ends is left alone, so trimming twice is
/// trimming once.
pub proof fn trimmed_texts_stay(s: Seq<char>)
    ensures
        s.len() == 0 || (!is_white_space(s[0]) && !is_white_space(s.last())) ==> trimmed(s) == s,
        trimmed(trimmed(s)) == trimmed(s),
{
    let (i, j) = trimming_takes_white_space_off_both_ends(s);
    let t = s.subrange(i, j);
    let (a, b) = trimming_takes_white_space_off_both_ends(t);
    if t.len() > 0 {
        assert(t[0] == s[i] && t[t.len() - 1] == s[j - 1]);
        if a > 0 {
            assert(is_white_space(t[0]));
        }
        if b < t.len() {
            assert(is_white_space(t[t.len() - 1]));
        }
    }
    assert(t.subrange(a, b) =~= t);
    if s.len() == 0 {
        assert(t =~= s);
    } else if !is_white_space(s[0]) && !is_white_space(s.last()) {
        if i > 0 {
            assert(is_white_space(s[0]));
        }
        if j < s.len() {
            assert(is_white_space(s[s.len() - 1]));
        }
        assert(t =~= s);
    }
}

/// White space is the blank, the tabulators and line ends, and the wider
/// spaces and separators beyond ASCII, by their numbers.
pub proof fn white_space_by_number(c: char)
    ensures
        is_white_space(c) <==> {
            let n = c as u32;
            ||| 0x09 <= n <= 0x0d
            ||| n == 0x20
            ||| n == 0x85
            ||| n == 0xa0
            ||| n == 0x1680
            ||| 0x2000 <= n <= 0x200a
            ||| 0x2028 <= n <= 0x2029
            ||| n == 0x202f
            ||| n == 0x205f
            ||| n == 0x3000
        },
{
}

/// Only the letters from A to Z have another lower case, and only those from
/// a to z another upper case: each goes to the letter with the same place in
/// the alphabet, and comes back from there.
pub proof fn cases_answer_one_another(c: char)
    ensures
        'A' <= c <= 'Z' ==> 'a' <= lower_char(c) <= 'z' && lower_char(c) as u32 - 'a' as u32
            == c as u32 - 'A' as u32,
        'a' <= c <= 'z' ==> 'A' <= upper_char(c) <= 'Z' && upper_char(c) as u32 - 'A' as u32
            == c as u32 - 'a' as u32,
        !('A' <= c <= 'Z') ==> lower_char(c) == c,
        !('a' <= c <= 'z') ==> upper_char(c) == c,
        'A' <= c <= 'Z' ==> upper_char(lower_char(c)) == c,
        'a' <= c <= 'z' ==> lower_char(upper_char(c)) == c,
{
}

/// A digit more makes the number ten times as large and adds the digit;
/// anything else makes it no number.
pub proof fn digits_count_by_their_place(s: Seq<char>, c: char)
    ensures
        digits_value(Seq::<char>::empty()) == Some(0nat),
        digits_value(s) is Some && '0' <= c <= '9' ==> digits_value(s.push(c)) == Some(
            (digits_value(s)->0 * 10 + (c as u32 - '0' as u32)) as nat,
        ),
        digits_value(s) is None || !('0' <= c <= '9') ==> digits_value(s.push(c)) is None,
{
    assert(s.push(c).drop_last() =~= s);
}

/// A number is read from a text of digits with at most one plus sign before
/// them, and from no other text, and only up to the limit.
pub proof fn only_digits_are_a_number(s: Seq<char>, max: int)
    ensures
        s.len() == 0 || s == seq!['+'] ==> number_in(s) is None,
        s.len() > 0 && s[0] != '+' ==> number_in(s) == digits_value(s) && number_in(seq!['+'] + s)
            == digits_value(s),
        s.len() > 0 && s[0] == '+' ==> number_in(seq!['+'] + s) is None,
        number_in(s) is Some && number_in(s)->0 <= max ==> number_up_to(s, max) == number_in(s),
        number_in(s) is None || number_in(s)->0 > max ==> number_up_to(s, max) is None,
{
    let t = seq!['+'] + s;
    assert(t.drop_first() =~= s);
    if s.len() > 0 && s[0] == '+' {
        no_sign_among_digits(s);
    }
}

/// A text that begins with a plus sign is no digits.
proof fn no_sign_among_digits(s: Seq<char>)
    requires
        s.len() > 0,
        s[0] == '+',
    ensures
        digits_value(s) is None,
    decreases s.len(),
{
    if s.len() > 1 {
        no_sign_among_digits(s.drop_last());
    }
}

/// The texts of a list are those of its items, one for one.
pub proof fn texts_are_those_of_the_items(v: Seq<String>)
    ensures
        texts_of(v).len() == v.len(),
        forall|i: int| 0 <= i < v.len() ==> #[trigger] texts_of(v)[i] == v[i]@,
{
}

}
