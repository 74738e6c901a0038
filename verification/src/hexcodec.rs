//! Hexadecimal text and the byte order of transaction ids.

use vstd::prelude::*;

verus! {

/// The value of a hexadecimal digit, in either case.
pub open spec fn hex_value(c: char) -> Option<int> {
    if '0' <= c <= '9' {
        Some(c as int - '0' as int)
    } else if 'a' <= c <= 'f' {
        Some(c as int - 'a' as int + 10)
    } else if 'A' <= c <= 'F' {
        Some(c as int - 'A' as int + 10)
    } else {
        None
    }
}

/// Whether `s` is an even number of hexadecimal digits.
pub open spec fn is_hex(s: Seq<char>) -> bool {
    &&& s.len() % 2 == 0
    &&& forall|i: int| 0 <= i < s.len() ==> hex_value(#[trigger] s[i]) is Some
}

/// The bytes that `s` writes, two digits each, the high one first.
pub open spec fn hex_bytes(s: Seq<char>) -> Seq<u8>
    recommends
        is_hex(s),
{
    Seq::new(
        (s.len() / 2) as nat,
        |i: int| (hex_value(s[2 * i])->0 * 16 + hex_value(s[2 * i + 1])->0) as u8,
    )
}

/// The lower-case digit of a value below 16.
pub open spec fn hex_digit(v: int) -> char {
    if v < 10 {
        ('0' as int + v) as char
    } else {
        ('a' as int + (v - 10)) as char
    }
}

/// The upper-case digit of a value below 16.
pub open spec fn hex_digit_upper(v: int) -> char {
    if v < 10 {
        ('0' as int + v) as char
    } else {
        ('A' as int + (v - 10)) as char
    }
}

/// The four bits of `bytes` that the digit at `i` writes.
pub open spec fn nibble(bytes: Seq<u8>, i: int) -> int {
    if i % 2 == 0 {
        bytes[i / 2] as int / 16
    } else {
        bytes[i / 2] as int % 16
    }
}

/// `bytes` in lower-case hexadecimal.
pub open spec fn hex_text(bytes: Seq<u8>) -> Seq<char> {
    Seq::new((2 * bytes.len()) as nat, |i: int| hex_digit(nibble(bytes, i)))
}

/// `bytes` in upper-case hexadecimal.
pub open spec fn hex_text_upper(bytes: Seq<u8>) -> Seq<char> {
    Seq::new((2 * bytes.len()) as nat, |i: int| hex_digit_upper(nibble(bytes, i)))
}

/// `hex::encode` writes each byte as two lower-case digits, the high one first.
#[verifier::external_body]
pub(crate) fn encode(bytes: &[u8]) -> (r: String)
    ensures
        r@ == hex_text(bytes@),
{
    hex::encode(bytes)
}

/// `hex::encode_upper` writes each byte as two upper-case digits, the high
/// one first.
#[verifier::external_body]
pub(crate) fn encode_upper(bytes: &[u8]) -> (r: String)
    ensures
        r@ == hex_text_upper(bytes@),
{
    hex::encode_upper(bytes)
}

/// `hex::decode` accepts exactly the texts of an even number of digits, in
/// either case, and gives the bytes that they write.
#[verifier::external_body]
pub(crate) fn decode(s: &str) -> (r: Option<Vec<u8>>)
    ensures
        match r {
            Some(bytes) => is_hex(s@) && bytes@ == hex_bytes(s@),
            None => !is_hex(s@),
        },
{
    hex::decode(s).ok()
}

/// `hex::decode_to_slice` into 32 bytes accepts exactly the texts of 64
/// digits, in either case, and gives the bytes that they write.
#[verifier::external_body]
pub(crate) fn decode_32(s: &str) -> (r: Option<[u8; 32]>)
    ensures
        match r {
            Some(bytes) => is_hex(s@) && s@.len() == 64 && bytes@ == hex_bytes(s@),
            None => !(is_hex(s@) && s@.len() == 64),
        },
{
    let mut out = [0u8; 32];
    hex::decode_to_slice(s, &mut out).ok().map(|_| out)
}

/// Bytes read back from their hexadecimal text, in either case.
pub proof fn hex_reads_back(bytes: Seq<u8>)
    ensures
        is_hex(hex_text(bytes)),
        hex_bytes(hex_text(bytes)) == bytes,
        is_hex(hex_text_upper(bytes)),
        hex_bytes(hex_text_upper(bytes)) == bytes,
{
    assert forall|i: int| 0 <= i < 2 * bytes.len() implies {
        &&& hex_value(#[trigger] hex_text(bytes)[i]) == Some(nibble(bytes, i))
        &&& hex_value(hex_text_upper(bytes)[i]) == Some(nibble(bytes, i))
    } by {
        let v = nibble(bytes, i);
        assert(0 <= v < 16);
    }
    assert forall|i: int| 0 <= i < 2 * bytes.len() implies hex_value(
        #[trigger] hex_text_upper(bytes)[i],
    ) is Some by {
        assert(hex_value(hex_text(bytes)[i]) is Some);
    }
    assert forall|i: int| 0 <= i < bytes.len() implies {
        &&& #[trigger] hex_bytes(hex_text(bytes))[i] == bytes[i]
        &&& hex_bytes(hex_text_upper(bytes))[i] == bytes[i]
    } by {
        assert(hex_value(hex_text(bytes)[2 * i]) == Some(nibble(bytes, 2 * i)));
        assert(hex_value(hex_text(bytes)[2 * i + 1]) == Some(nibble(bytes, 2 * i + 1)));
    }
    assert(hex_bytes(hex_text(bytes)) =~= bytes);
    assert(hex_bytes(hex_text_upper(bytes)) =~= bytes);
}

/// A transaction id in wire order, from its display text (hexadecimal, in
/// the opposite byte order).
pub open spec fn wire_txid(display: Seq<char>) -> Option<Seq<u8>> {
    if is_hex(display) && display.len() == 64 {
        Some(hex_bytes(display).reverse())
    } else {
        None
    }
}

/// The display text of a transaction id in wire order.
pub open spec fn display_txid(wire: Seq<u8>) -> Seq<char> {
    hex_text(wire.reverse())
}

/// A 32-byte value with its bytes in the opposite order.
fn reversed_32(bytes: &[u8; 32]) -> (r: [u8; 32])
    ensures
        r@ == bytes@.reverse(),
{
    let mut out: [u8; 32] = [0u8;32];
    let mut i: usize = 0;
    while i < 32
        invariant
            i <= 32,
            forall|j: int| 0 <= j < i ==> out@[j] == bytes@[31 - j],
        decreases 32 - i,
    {
        out[i] = bytes[31 - i];
        i = i + 1;
    }
    assert(out@ =~= bytes@.reverse());
    out
}

/// Reads the display text of a transaction id into wire order.
pub fn txid_to_wire(display: &str) -> (r: Option<[u8; 32]>)
    ensures
        match r {
            Some(wire) => wire_txid(display@) == Some(wire@),
            None => wire_txid(display@) is None,
        },
{
    match decode_32(display) {
        Some(bytes) => Some(reversed_32(&bytes)),
        None => None,
    }
}

/// Writes a transaction id in wire order as its display text.
pub fn txid_to_display(wire: &[u8; 32]) -> (r: String)
    ensures
        r@ == display_txid(wire@),
{
    let bytes: [u8; 32] = reversed_32(wire);
    encode(bytes.as_slice())
}

/// A transaction id in wire order reads back from its display text.
pub proof fn txid_reads_back(wire: Seq<u8>)
    requires
        wire.len() == 32,
    ensures
        wire_txid(display_txid(wire)) == Some(wire),
{
    hex_reads_back(wire.reverse());
    assert(wire.reverse().reverse() =~= wire);
}

/// Whether `s` is hexadecimal text in lower case.
pub open spec fn is_lower_hex(s: Seq<char>) -> bool {
    &&& s.len() % 2 == 0
    &&& forall|i: int| 0 <= i < s.len() ==> '0' <= #[trigger] s[i] <= '9' || 'a' <= s[i] <= 'f'
}

/// The display text of a transaction id is written back as it was, where it
/// is in lower case.
pub proof fn display_reads_back(display: Seq<char>)
    requires
        is_lower_hex(display),
        display.len() == 64,
    ensures
        wire_txid(display) is Some,
        display_txid(wire_txid(display)->0) == display,
{
    assert(is_hex(display));
    let bytes = hex_bytes(display);
    assert(bytes.reverse().reverse() =~= bytes);
    assert forall|i: int| 0 <= i < 64 implies hex_text(bytes)[i] == #[trigger] display[i] by {
        let k = i / 2;
        let high = hex_value(display[2 * k])->0;
        let low = hex_value(display[2 * k + 1])->0;
        assert('0' <= display[2 * k] <= '9' || 'a' <= display[2 * k] <= 'f');
        assert('0' <= display[2 * k + 1] <= '9' || 'a' <= display[2 * k + 1] <= 'f');
        assert(0 <= high < 16 && 0 <= low < 16);
        assert(bytes[k] == high * 16 + low);
        assert(i == 2 * k || i == 2 * k + 1);
    }
    assert(hex_text(bytes) =~= display);
}

/// The display text of a transaction id shows its bytes backwards, two digits
/// each: the last byte on the wire comes first.
pub proof fn txids_are_shown_backwards(display: Seq<char>, i: int)
    requires
        is_hex(display),
        display.len() == 64,
        0 <= i < 32,
    ensures
        wire_txid(display) is Some,
        (wire_txid(display)->0).len() == 32,
        (wire_txid(display)->0)[i] == hex_value(display[62 - 2 * i])->0 * 16 + hex_value(
            display[63 - 2 * i],
        )->0,
{
    let high = hex_value(display[62 - 2 * i]);
    let low = hex_value(display[63 - 2 * i]);
    assert(high is Some && low is Some);
    assert(0 <= high->0 < 16 && 0 <= low->0 < 16);
    let bytes = hex_bytes(display);
    assert(bytes.reverse()[i] == bytes[31 - i]);
    assert(2 * (31 - i) == 62 - 2 * i);
}

/// The digits of a display text are those of the bytes on the wire, from the
/// last byte to the first, in lower case.
pub proof fn display_texts_show_the_last_byte_first(wire: Seq<u8>, i: int)
    requires
        wire.len() == 32,
        0 <= i < 32,
    ensures
        display_txid(wire).len() == 64,
        display_txid(wire)[62 - 2 * i] == hex_digit(wire[i] as int / 16),
        display_txid(wire)[63 - 2 * i] == hex_digit(wire[i] as int % 16),
{
    assert(wire.reverse()[31 - i] == wire[i]);
    assert((62 - 2 * i) / 2 == 31 - i && (63 - 2 * i) / 2 == 31 - i);
    assert((62 - 2 * i) % 2 == 0 && (63 - 2 * i) % 2 == 1);
}

/// Only 64 hexadecimal digits are a transaction id.
pub proof fn nothing_else_is_a_txid(display: Seq<char>)
    ensures
        wire_txid(display) is Some <==> display.len() == 64 && forall|i: int|
            0 <= i < 64 ==> hex_value(#[trigger] display[i]) is Some,
{
}

/// A hexadecimal digit counts by its place among the sixteen, in capitals or
/// not, and no other character counts.
pub proof fn digits_count_by_their_rank(c: char, v: int)
    ensures
        0 <= v < 16 ==> hex_value("0123456789abcdef"@[v]) == Some(v),
        0 <= v < 16 ==> hex_value("0123456789ABCDEF"@[v]) == Some(v),
        hex_value(c) is Some <==> "0123456789abcdef"@.contains(c) || "0123456789ABCDEF"@.contains(c),
{
    let low = "0123456789abcdef"@;
    let high = "0123456789ABCDEF"@;
    reveal_strlit("0123456789abcdef");
    reveal_strlit("0123456789ABCDEF");
    assert(low.len() == 16 && high.len() == 16);
    if '0' <= c <= '9' {
        assert(low[c as int - '0' as int] == c);
    } else if 'a' <= c <= 'f' {
        assert(low[c as int - 'a' as int + 10] == c);
    } else if 'A' <= c <= 'F' {
        assert(high[c as int - 'A' as int + 10] == c);
    }
}

/// A byte is written as two digits, the higher half first.
pub proof fn bytes_are_written_high_half_first(bytes: Seq<u8>, i: int)
    requires
        0 <= i < bytes.len(),
    ensures
        hex_text(bytes).len() == 2 * bytes.len(),
        hex_text(bytes)[2 * i] == "0123456789abcdef"@[bytes[i] as int / 16],
        hex_text(bytes)[2 * i + 1] == "0123456789abcdef"@[bytes[i] as int % 16],
        hex_text_upper(bytes).len() == 2 * bytes.len(),
        hex_text_upper(bytes)[2 * i] == "0123456789ABCDEF"@[bytes[i] as int / 16],
        hex_text_upper(bytes)[2 * i + 1] == "0123456789ABCDEF"@[bytes[i] as int % 16],
{
    reveal_strlit("0123456789abcdef");
    reveal_strlit("0123456789ABCDEF");
    assert((2 * i) % 2 == 0 && (2 * i) / 2 == i);
    assert((2 * i + 1) % 2 == 1 && (2 * i + 1) / 2 == i);
}

/// Two digits are read as one byte, the first as its higher half, and only a
/// text of whole pairs of digits is read.
pub proof fn digits_are_read_in_pairs(s: Seq<char>, i: int)
    ensures
        is_hex(s) <==> s.len() % 2 == 0 && forall|k: int|
            0 <= k < s.len() ==> hex_value(#[trigger] s[k]) is Some,
        is_hex(s) ==> 2 * hex_bytes(s).len() == s.len(),
        is_hex(s) && 0 <= i < s.len() / 2 ==> hex_bytes(s)[i] == hex_value(s[2 * i])->0 * 16
            + hex_value(s[2 * i + 1])->0,
{
    if is_hex(s) && 0 <= i < s.len() / 2 {
        assert(hex_value(s[2 * i]) is Some);
        assert(hex_value(s[2 * i + 1]) is Some);
    }
}

}
