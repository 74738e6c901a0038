//! Transactions handed over by another wallet for signing: reading what a
//! scanner delivers, and summing up what is to be signed.

use crate::coins::sum_of;
use crate::hexcodec::{
    decode, encode, encode_upper, hex_bytes, hex_reads_back, hex_text, hex_text_upper, is_hex,
    nibble,
};
use crate::labels::{beginning_of, first_chars, one_line};
use crate::lists::{count_where, position_where, total_of};
use crate::seqs::{filter_push, filter_take_none, filter_take_step, first_at, first_at_is};
use crate::text::{
    decimal, decimal_text, is_white_space, str_from_utf8, trim, trimmed, trimmed_end, trimmed_start,
};
use vstd::prelude::*;
use vstd::utf8::{
    decode_utf8, encode_utf8, encode_utf8_decode_utf8, encode_utf8_valid_utf8, is_ascii_chars,
    is_ascii_chars_encode_utf8, valid_utf8,
};

verus! {

/// The bytes that a partially signed transaction starts with.
pub open spec fn magic() -> Seq<u8> {
    seq![0x70u8, 0x73u8, 0x62u8, 0x74u8, 0xffu8]
}

/// Whether bytes are a partially signed transaction, by their first bytes.
pub open spec fn is_psbt(data: Seq<u8>) -> bool {
    data.len() >= 5 && data.subrange(0, 5) == magic()
}

/// Whether bytes are a partially signed transaction.
fn starts_with_magic(data: &[u8]) -> (r: bool)
    ensures
        r == is_psbt(data@),
{
    if data.len() < 5 {
        return false;
    }
    let r: bool = data[0] == 0x70 && data[1] == 0x73 && data[2] == 0x62 && data[3] == 0x74
        && data[4] == 0xff;
    proof {
        let head = data@.subrange(0, 5);
        if r {
            assert(head =~= magic());
        } else {
            assert(head[0] == data@[0] && head[1] == data@[1] && head[2] == data@[2] && head[3]
                == data@[3] && head[4] == data@[4]);
        }
    }
    r
}

/// The length of the content and of the header of a CBOR byte string.
pub open spec fn cbor_header(data: Seq<u8>) -> Option<(int, int)> {
    if data.len() == 0 {
        None
    } else if 0x40 <= data[0] <= 0x57 {
        Some((data[0] - 0x40, 1))
    } else if data[0] == 0x58 && data.len() > 1 {
        Some((data[1] as int, 2))
    } else if data[0] == 0x59 && data.len() > 2 {
        Some((data[1] * 0x100 + data[2], 3))
    } else if data[0] == 0x5a && data.len() > 4 {
        Some((data[1] * 0x100_0000 + data[2] * 0x1_0000 + data[3] * 0x100 + data[4], 5))
    } else {
        None
    }
}

/// The content of a CBOR byte string at the start of `data`.
pub open spec fn cbor_content(data: Seq<u8>) -> Option<Seq<u8>> {
    match cbor_header(data) {
        Some(h) => if h.1 + h.0 <= data.len() {
            Some(data.subrange(h.1, h.1 + h.0))
        } else {
            None
        },
        None => None,
    }
}

/// A copy of `data[from..to]`.
fn copy_range(data: &[u8], from: usize, to: usize) -> (r: Vec<u8>)
    requires
        from <= to <= data@.len(),
    ensures
        r@ == data@.subrange(from as int, to as int),
{
    let mut out: Vec<u8> = Vec::new();
    let mut i: usize = from;
    while i < to
        invariant
            from <= i <= to <= data@.len(),
            out@ == data@.subrange(from as int, i as int),
        decreases to - i,
    {
        out.push(data[i]);
        i = i + 1;
        assert(out@ =~= data@.subrange(from as int, i as int));
    }
    out
}

/// The content of a CBOR byte string; enough CBOR for what wallets wrap a
/// transaction in.
pub fn cbor_unwrap_bstr(data: &[u8]) -> (r: Option<Vec<u8>>)
    ensures
        match r {
            Some(v) => cbor_content(data@) == Some(v@),
            None => cbor_content(data@) is None,
        },
{
    let n: usize = data.len();
    if n == 0 {
        return None;
    }
    let b0: u8 = data[0];
    let len: u64;
    let header: usize;
    if 0x40 <= b0 && b0 <= 0x57 {
        len = (b0 - 0x40) as u64;
        header = 1;
    } else if b0 == 0x58 && n > 1 {
        len = data[1] as u64;
        header = 2;
    } else if b0 == 0x59 && n > 2 {
        len = data[1] as u64 * 0x100 + data[2] as u64;
        header = 3;
    } else if b0 == 0x5a && n > 4 {
        len = data[1] as u64 * 0x100_0000 + data[2] as u64 * 0x1_0000 + data[3] as u64 * 0x100
            + data[4] as u64;
        header = 5;
    } else {
        return None;
    }
    if len > (n - header) as u64 {
        return None;
    }
    let end: usize = header + len as usize;
    Some(copy_range(data, header, end))
}

/// A CBOR byte string in its shortest form.
pub open spec fn cbor_bstr(content: Seq<u8>) -> Seq<u8> {
    let n = content.len();
    (if n <= 0x17 {
        seq![(0x40 + n) as u8]
    } else if n <= 0xff {
        seq![0x58u8, n as u8]
    } else if n <= 0xffff {
        seq![0x59u8, (n / 0x100) as u8, (n % 0x100) as u8]
    } else {
        seq![
            0x5au8,
            (n / 0x100_0000) as u8,
            (n / 0x1_0000 % 0x100) as u8,
            (n / 0x100 % 0x100) as u8,
            (n % 0x100) as u8,
        ]
    }) + content
}

/// A CBOR byte string of up to four length bytes unwraps to its content.
pub proof fn cbor_unwraps(content: Seq<u8>)
    requires
        content.len() <= 0xffff_ffff,
    ensures
        cbor_content(cbor_bstr(content)) == Some(content),
{
    let data = cbor_bstr(content);
    let h = cbor_header(data);
    let n = content.len() as int;
    if n > 0xffff {
        assert(n / 0x100_0000 * 0x100_0000 + n / 0x1_0000 % 0x100 * 0x1_0000 + n / 0x100 % 0x100
            * 0x100 + n % 0x100 == n);
    }
    assert(h is Some && (h->0).0 == n);
    assert(data.subrange((h->0).1, (h->0).1 + n) =~= content);
}

/// The bytes that a text writes in hexadecimal, where the bytes are such a
/// text; white space around it does not count.
pub open spec fn hex_content(data: Seq<u8>) -> Option<Seq<u8>> {
    if valid_utf8(data) && is_hex(trimmed(decode_utf8(data))) {
        Some(hex_bytes(trimmed(decode_utf8(data))))
    } else {
        None
    }
}

/// The transaction in what a scanner delivered: as it is, unwrapped, or read
/// from its hexadecimal text, whichever first gives a transaction; and what
/// was delivered where none does.
pub open spec fn normalized(data: Seq<u8>) -> Seq<u8> {
    if is_psbt(data) {
        data
    } else if cbor_content(data) is Some && is_psbt(cbor_content(data)->0) {
        cbor_content(data)->0
    } else if hex_content(data) is Some && is_psbt(hex_content(data)->0) {
        hex_content(data)->0
    } else {
        data
    }
}

/// The transaction in what a scanner delivered.
pub fn normalize_psbt_bytes(data: &[u8]) -> (r: Vec<u8>)
    ensures
        r@ == normalized(data@),
{
    let n: usize = data.len();
    assert(data@.subrange(0, n as int) =~= data@);
    if starts_with_magic(data) {
        return copy_range(data, 0, n);
    }
    match cbor_unwrap_bstr(data) {
        Some(inner) => {
            if starts_with_magic(inner.as_slice()) {
                return inner;
            }
        },
        None => {},
    }
    match str_from_utf8(data) {
        Some(s) => {
            match decode(trim(s)) {
                Some(bytes) => {
                    if starts_with_magic(bytes.as_slice()) {
                        return bytes;
                    }
                },
                None => {},
            }
        },
        None => {},
    }
    copy_range(data, 0, n)
}

/// Normalizing again changes nothing.
pub proof fn normalizing_twice_is_normalizing_once(data: Seq<u8>)
    ensures
        normalized(normalized(data)) == normalized(data),
{
}

/// Text that neither starts nor ends with white space is trimmed already.
proof fn nothing_to_trim(s: Seq<char>)
    requires
        s.len() > 0 ==> !is_white_space(s[0]) && !is_white_space(s.last()),
    ensures
        trimmed(s) == s,
{
    assert(trimmed_start(s) == s);
    assert(trimmed_end(s) == s);
}

/// A text of hexadecimal digits reads as the bytes it writes.
proof fn hex_text_is_content(s: Seq<char>, data: Seq<u8>)
    requires
        is_hex(s),
        s.len() > 0,
        forall|i: int| 0 <= i < s.len() ==> 0x30 <= #[trigger] s[i] as int <= 0x66,
        data == encode_utf8(s),
    ensures
        hex_content(data) == Some(hex_bytes(s)),
        data.len() == s.len(),
        data[0] == s[0] as u8,
{
    assert(is_ascii_chars(s));
    encode_utf8_valid_utf8(s);
    encode_utf8_decode_utf8(s);
    is_ascii_chars_encode_utf8(s);
    assert(0x30 <= s[0] as int <= 0x66 && 0x30 <= s[s.len() - 1] as int <= 0x66);
    nothing_to_trim(s);
}

/// A transaction is read the same from its bytes, from a CBOR byte string of
/// up to four length bytes and from its hexadecimal text in either case.
pub proof fn every_form_reads_the_same(tx: Seq<u8>)
    requires
        is_psbt(tx),
    ensures
        normalized(tx) == tx,
        tx.len() <= 0xffff_ffff ==> normalized(cbor_bstr(tx)) == tx,
        normalized(encode_utf8(hex_text(tx))) == tx,
        normalized(encode_utf8(hex_text_upper(tx))) == tx,
{
    assert(tx[0] == tx.subrange(0, 5)[0]);
    if tx.len() <= 0xffff_ffff {
        cbor_unwraps(tx);
    }
    let wrapped = cbor_bstr(tx);
    assert(wrapped[0] != 0x70);
    assert(!is_psbt(wrapped)) by {
        if is_psbt(wrapped) {
            assert(wrapped.subrange(0, 5)[0] == 0x70);
        }
    }
    hex_reads_back(tx);
    assert forall|i: int| 0 <= i < 2 * tx.len() implies {
        &&& 0x30 <= #[trigger] hex_text(tx)[i] as int <= 0x66
        &&& 0x30 <= hex_text_upper(tx)[i] as int <= 0x66
    } by {
        let v = nibble(tx, i);
        assert(0 <= v < 16);
    }
    assert forall|i: int| 0 <= i < 2 * tx.len() implies 0x30 <= #[trigger] hex_text_upper(
        tx,
    )[i] as int <= 0x66 by {
        assert(0x30 <= hex_text(tx)[i] as int <= 0x66);
    }
    let lower = encode_utf8(hex_text(tx));
    let upper = encode_utf8(hex_text_upper(tx));
    hex_text_is_content(hex_text(tx), lower);
    hex_text_is_content(hex_text_upper(tx), upper);
    assert(nibble(tx, 0) == 7);
    assert(lower[0] == 0x37 && upper[0] == 0x37);
    assert(!is_psbt(lower)) by {
        if is_psbt(lower) {
            assert(lower.subrange(0, 5)[0] == 0x70);
        }
    }
    assert(!is_psbt(upper)) by {
        if is_psbt(upper) {
            assert(upper.subrange(0, 5)[0] == 0x70);
        }
    }
}

/// The values that are known.
pub open spec fn known_values(values: Seq<Option<u64>>) -> Seq<u64> {
    values.filter(|v: Option<u64>| v is Some).map_values(|v: Option<u64>| v->0)
}

/// The fee of a transaction, from the values of its inputs as far as they are
/// given, and the values of its outputs: what the inputs hold more than the
/// outputs.
pub fn psbt_fee(inputs: &Vec<Option<u64>>, outputs: &Vec<u64>) -> (r: u64)
    requires
        sum_of(known_values(inputs@)) <= u64::MAX,
        sum_of(outputs@) <= u64::MAX,
    ensures
        r == if sum_of(known_values(inputs@)) > sum_of(outputs@) {
            sum_of(known_values(inputs@)) - sum_of(outputs@)
        } else {
            0
        },
        sum_of(known_values(inputs@)) >= sum_of(outputs@) ==> sum_of(outputs@) + r == sum_of(
            known_values(inputs@),
        ),
        sum_of(known_values(inputs@)) < sum_of(outputs@) ==> r == 0,
{
    let ghost known = |v: Option<u64>| v is Some;
    let ghost value = |v: Option<u64>| v->0;
    let ghost all = known_values(inputs@);
    let mut ins: u64 = 0;
    let mut i: usize = 0;
    proof {
        filter_take_none(inputs@, known);
        assert(known_values(inputs@.take(0)) =~= seq![]);
    }
    while i < inputs.len()
        invariant
            i <= inputs.len(),
            known == (|v: Option<u64>| v is Some),
            all == known_values(inputs@),
            sum_of(all) <= u64::MAX,
            ins == sum_of(known_values(inputs@.take(i as int))),
        decreases inputs.len() - i,
    {
        proof {
            filter_take_step(inputs@, i as int, known);
            known_values_take_le(inputs@, i + 1);
        }
        match inputs[i] {
            Some(v) => {
                assert(known_values(inputs@.take(i + 1)).drop_last() =~= known_values(
                    inputs@.take(i as int),
                ));
                ins = ins + v;
            },
            None => {},
        }
        i = i + 1;
    }
    assert(inputs@.take(i as int) =~= inputs@);
    let value = |n: &u64| -> (v: u64)
        ensures
            v == *n,
        {
            *n
        };
    assert(outputs@.map_values(|n: u64| n) =~= outputs@);
    let outs: u64 = total_of(outputs, value, Ghost(|n: u64| n));
    if ins > outs {
        ins - outs
    } else {
        0
    }
}

/// Known values of a beginning add up to no more than all of them.
proof fn known_values_take_le(values: Seq<Option<u64>>, n: int)
    requires
        0 <= n <= values.len(),
    ensures
        sum_of(known_values(values.take(n))) <= sum_of(known_values(values)),
    decreases values.len() - n,
{
    if n < values.len() {
        known_values_take_le(values, n + 1);
        filter_take_step(values, n, |v: Option<u64>| v is Some);
        if values[n] is Some {
            assert(known_values(values.take(n + 1)).drop_last() =~= known_values(values.take(n)));
        }
    } else {
        assert(values.take(n) =~= values);
    }
}

/// What one output of a transaction holds of a note.
#[derive(Debug)]
pub enum NotePart {
    /// No note.
    Nothing,
    /// A part of a private note.
    Sealed,
    /// A public note.
    Body(Vec<u8>),
    /// A part of a public note that is no whole note.
    Broken,
}

/// Where the first output with a note stands, or the number of outputs.
pub open spec fn note_part_at(parts: Seq<NotePart>) -> int {
    first_at(parts, |p: NotePart| !(p is Nothing))
}

/// Where the first output with a note stands, or the number of outputs.
fn note_part_position(parts: &Vec<NotePart>) -> (r: usize)
    ensures
        r <= parts.len(),
        r == note_part_at(parts@),
{
    let ghost hit = |p: NotePart| !(p is Nothing);
    let test = |p: &NotePart| -> (b: bool)
        ensures
            b == hit(*p),
        {
            match p {
                NotePart::Nothing => false,
                _ => true,
            }
        };
    position_where(parts, test, Ghost(hit))
}

/// One line about the note of a transaction; the line breaks of a note are
/// shown as spaces.
pub open spec fn note_summary(parts: Seq<NotePart>) -> Seq<char> {
    let k = note_part_at(parts);
    if k >= parts.len() {
        "Note: (no note found)"@
    } else {
        match parts[k] {
            NotePart::Sealed => "Note: encrypted"@,
            NotePart::Body(b) => if valid_utf8(b@) {
                "Note: "@ + one_line(first_chars(decode_utf8(b@)))
            } else {
                "Note: (public)"@
            },
            _ => "Note: (public)"@,
        }
    }
}

/// One line about the note of a transaction, from what its outputs hold.
pub fn psbt_note_summary(parts: &Vec<NotePart>) -> (r: String)
    ensures
        r@ == note_summary(parts@),
{
    let k: usize = note_part_position(parts);
    if k >= parts.len() {
        return "Note: (no note found)".to_owned();
    }
    match &parts[k] {
        NotePart::Sealed => "Note: encrypted".to_owned(),
        NotePart::Body(b) => match str_from_utf8(b.as_slice()) {
            Some(s) => {
                let mut out: String = "Note: ".to_owned();
                out.append(beginning_of(s).as_str());
                out
            },
            None => "Note: (public)".to_owned(),
        },
        _ => "Note: (public)".to_owned(),
    }
}

/// The summary of a note is a single line, whatever the note holds.
pub proof fn summaries_are_one_line(parts: Seq<NotePart>)
    ensures
        !note_summary(parts).contains('\n'),
{
    reveal_strlit("Note: (no note found)");
    reveal_strlit("Note: encrypted");
    reveal_strlit("Note: (public)");
    reveal_strlit("Note: ");
    let k = note_part_at(parts);
    if k < parts.len() {
        if let NotePart::Body(b) = parts[k] {
            let head = "Note: "@;
            let rest = one_line(first_chars(decode_utf8(b@)));
            assert forall|i: int| 0 <= i < (head + rest).len() implies (head + rest)[i] != '\n' by {
                if i >= head.len() {
                    assert((head + rest)[i] == rest[i - head.len()]);
                }
            }
        }
    }
}

/// What is shown of the note of a transaction before it is signed.
pub open spec fn note_preview(parts: Seq<NotePart>) -> Option<Seq<char>> {
    let k = note_part_at(parts);
    if k >= parts.len() {
        None
    } else {
        match parts[k] {
            NotePart::Sealed => Some("Private note (encrypted)"@),
            NotePart::Body(b) => if valid_utf8(b@) {
                Some(decode_utf8(b@))
            } else {
                Some("(unreadable note)"@)
            },
            _ => Some("(unreadable note)"@),
        }
    }
}

/// What is shown of the note of a transaction before it is signed; nothing
/// where it holds none.
pub fn confirm_note_preview(parts: &Vec<NotePart>) -> (r: Option<String>)
    ensures
        match note_preview(parts@) {
            Some(t) => r matches Some(x) && x@ == t,
            None => r is None,
        },
{
    let k: usize = note_part_position(parts);
    if k >= parts.len() {
        return None;
    }
    match &parts[k] {
        NotePart::Sealed => Some("Private note (encrypted)".to_owned()),
        NotePart::Body(b) => match str_from_utf8(b.as_slice()) {
            Some(s) => Some(s.to_owned()),
            None => Some("(unreadable note)".to_owned()),
        },
        _ => Some("(unreadable note)".to_owned()),
    }
}

/// Whether two byte strings are the same.
pub fn same_bytes(a: &Vec<u8>, b: &Vec<u8>) -> (r: bool)
    ensures
        r == (a@ == b@),
{
    if a.len() != b.len() {
        return false;
    }
    let mut i: usize = 0;
    while i < a.len()
        invariant
            i <= a.len(),
            a.len() == b.len(),
            forall|j: int| 0 <= j < i ==> a@[j] == b@[j],
        decreases a.len() - i,
    {
        if a[i] != b[i] {
            return false;
        }
        i = i + 1;
    }
    assert(a@ =~= b@);
    true
}

/// Whether an input pays from a script, as far as it is known.
pub open spec fn pays_from(script: Option<Vec<u8>>, ours: Seq<u8>) -> bool {
    match script {
        Some(s) => s@ == ours,
        None => false,
    }
}

/// Whether an input pays from a script.
pub fn is_ours(script: &Option<Vec<u8>>, ours: &Vec<u8>) -> (r: bool)
    ensures
        r == pays_from(*script, ours@),
{
    match script {
        Some(s) => same_bytes(s, ours),
        None => false,
    }
}

/// How many inputs pay from a script.
pub fn count_ours(scripts: &Vec<Option<Vec<u8>>>, ours: &Vec<u8>) -> (r: usize)
    ensures
        r == scripts@.filter(|s: Option<Vec<u8>>| pays_from(s, ours@)).len(),
{
    let ghost keep = |s: Option<Vec<u8>>| pays_from(s, ours@);
    let test = |s: &Option<Vec<u8>>| -> (b: bool)
        ensures
            b == keep(*s),
        {
            is_ours(s, ours)
        };
    count_where(scripts, test, Ghost(keep))
}

/// Whether all of `coin_types` are the same, and there are any.
pub open spec fn one_coin_type(coin_types: Seq<u32>) -> bool {
    &&& coin_types.len() > 0
    &&& forall|i: int| 0 <= i < coin_types.len() ==> #[trigger] coin_types[i] == coin_types[0]
}

/// A transaction that was made for another kind of network than the device is
/// set to: the kind it was made for, and what to tell the user.
#[derive(Debug)]
pub struct NetworkMismatch {
    pub mainnet: bool,
    pub warning: String,
}

/// The kind of network a transaction was made for, where it is not the
/// device's. The coin types are those of the derivation paths of our inputs:
/// 0 is mainnet, anything else a test network. Without a path, or where they
/// disagree, nothing is known.
pub fn network_mismatch(coin_types: &Vec<u32>, device_mainnet: bool, device_label: &str) -> (r:
    Option<NetworkMismatch>)
    ensures
        match r {
            Some(m) => {
                &&& one_coin_type(coin_types@)
                &&& m.mainnet == (coin_types@[0] == 0)
                &&& m.mainnet != device_mainnet
                &&& m.warning@ == "this transaction's key derivation indicates "@ + (if m.mainnet {
                    "mainnet"@
                } else {
                    "a test network"@
                }) + ", but the device is set to "@ + device_label@
                    + " - addresses below use the derived network's encoding"@
            },
            None => !one_coin_type(coin_types@) || (coin_types@[0] == 0) == device_mainnet,
        },
{
    if coin_types.len() == 0 {
        return None;
    }
    let first: u32 = coin_types[0];
    let mut i: usize = 1;
    while i < coin_types.len()
        invariant
            1 <= i <= coin_types.len(),
            first == coin_types@[0],
            forall|j: int| 0 <= j < i ==> #[trigger] coin_types@[j] == first,
        decreases coin_types.len() - i,
    {
        if coin_types[i] != first {
            return None;
        }
        i = i + 1;
    }
    let mainnet: bool = first == 0;
    if mainnet == device_mainnet {
        return None;
    }
    let mut warning: String = "this transaction's key derivation indicates ".to_owned();
    warning.append(
        if mainnet {
            "mainnet"
        } else {
            "a test network"
        },
    );
    warning.append(", but the device is set to ");
    warning.append(device_label);
    warning.append(" - addresses below use the derived network's encoding");
    Some(NetworkMismatch { mainnet, warning })
}

/// Two warnings as one.
pub fn join_warnings(existing: &str, added: &str) -> (r: String)
    ensures
        r@ == if existing@.len() == 0 {
            added@
        } else {
            existing@ + "; "@ + added@
        },
{
    if existing.is_empty() {
        added.to_owned()
    } else {
        let mut out: String = existing.to_owned();
        out.append("; ");
        out.append(added);
        out
    }
}

/// The text of a transaction.
pub fn raw_text(bytes: &Vec<u8>) -> (r: String)
    ensures
        r@ == hex_text(bytes@),
{
    encode(bytes.as_slice())
}

/// The text in which a signed transaction is handed back.
pub fn export_text(bytes: &Vec<u8>) -> (r: String)
    ensures
        r@ == hex_text_upper(bytes@),
{
    encode_upper(bytes.as_slice())
}

/// What is handed back reads as the signed transaction.
pub proof fn export_reads_back(tx: Seq<u8>)
    requires
        is_psbt(tx),
    ensures
        normalized(encode_utf8(hex_text_upper(tx))) == tx,
{
    every_form_reads_the_same(tx);
}

/// What was signed, in words.
pub fn signed_summary(signed: usize, ours: usize, fee: u64, note: &str) -> (r: String)
    ensures
        r@ == "Signed "@ + decimal(signed as nat) + " of "@ + decimal(ours as nat)
            + " input(s) \u{b7} fee "@ + decimal(fee as nat) + " sats\n"@ + note@,
{
    let mut out: String = "Signed ".to_owned();
    out.append(decimal_text(signed as u64).as_str());
    out.append(" of ");
    out.append(decimal_text(ours as u64).as_str());
    out.append(" input(s) \u{b7} fee ");
    out.append(decimal_text(fee).as_str());
    out.append(" sats\n");
    out.append(note);
    out
}

/// A transaction to sign is known by its first five bytes: the letters psbt and
/// a byte of ones.
pub proof fn transactions_are_known_by_their_beginning(data: Seq<u8>)
    ensures
        is_psbt(data) <==> {
            &&& data.len() >= 5
            &&& data[0] as char == 'p'
            &&& data[1] as char == 's'
            &&& data[2] as char == 'b'
            &&& data[3] as char == 't'
            &&& data[4] == 0xff
        },
{
    if data.len() >= 5 {
        let start = data.subrange(0, 5);
        assert(start[0] == data[0] && start[1] == data[1] && start[2] == data[2]);
        assert(start[3] == data[3] && start[4] == data[4]);
        if data[0] == 0x70 && data[1] == 0x73 && data[2] == 0x62 && data[3] == 0x74 && data[4]
            == 0xff {
            assert(start =~= magic());
        }
        if start == magic() {
            assert(start[0] == 0x70 && start[1] == 0x73 && start[2] == 0x62);
            assert(start[3] == 0x74 && start[4] == 0xff);
        }
    }
}

/// Normalizing either finds a transaction or leaves the bytes alone.
pub proof fn normalizing_finds_a_transaction_or_nothing(data: Seq<u8>)
    ensures
        is_psbt(normalized(data)) || normalized(data) == data,
        is_psbt(data) ==> normalized(data) == data,
{
}

/// Every value that is known counts, in order, and none that is not.
pub proof fn only_known_values_count(values: Seq<Option<u64>>, v: u64)
    ensures
        known_values(Seq::<Option<u64>>::empty()) == Seq::<u64>::empty(),
        known_values(values.push(Some(v))) == known_values(values).push(v),
        known_values(values.push(None)) == known_values(values),
{
    let known = |v: Option<u64>| v is Some;
    let value = |v: Option<u64>| v->0;
    filter_push(values, Some(v), known);
    filter_push(values, None, known);
    assert(values.filter(known).push(Some(v)).map_values(value) =~= known_values(values).push(v));
    reveal(Seq::filter);
    assert(known_values(Seq::<Option<u64>>::empty()) =~= Seq::<u64>::empty());
}

/// The first output with a note decides what is shown, whatever follows it:
/// a sealed one as sealed, a readable text as it is, and anything else as
/// unreadable. Without such an output there is no note.
pub proof fn the_first_note_is_shown(parts: Seq<NotePart>, k: int)
    requires
        0 <= k <= parts.len(),
        forall|j: int| 0 <= j < k ==> #[trigger] parts[j] is Nothing,
        k < parts.len() ==> !(parts[k] is Nothing),
    ensures
        k == parts.len() ==> note_preview(parts) is None && note_summary(parts)
            == "Note: (no note found)"@,
        k < parts.len() ==> {
            &&& parts[k] is Sealed ==> note_preview(parts) == Some("Private note (encrypted)"@)
                && note_summary(parts) == "Note: encrypted"@
            &&& parts[k] is Broken ==> note_preview(parts) == Some("(unreadable note)"@)
                && note_summary(parts) == "Note: (public)"@
            &&& parts[k] matches NotePart::Body(b) ==> if valid_utf8(b@) {
                &&& note_preview(parts) == Some(decode_utf8(b@))
                &&& note_summary(parts) == "Note: "@ + one_line(first_chars(decode_utf8(b@)))
            } else {
                &&& note_preview(parts) == Some("(unreadable note)"@)
                &&& note_summary(parts) == "Note: (public)"@
            }
        },
{
    first_at_is(parts, |p: NotePart| !(p is Nothing), k);
}

/// An input is ours exactly where its script is known and is our own.
pub proof fn only_our_script_is_ours(script: Option<Vec<u8>>, ours: Seq<u8>)
    ensures
        script is None ==> !pays_from(script, ours),
        script matches Some(s) ==> (pays_from(script, ours) <==> s@ == ours),
{
}

/// Coin types agree where there is one and no two differ.
pub proof fn one_type_means_no_two(coin_types: Seq<u32>)
    ensures
        one_coin_type(coin_types) <==> coin_types.len() > 0 && forall|i: int, j: int|
            0 <= i < coin_types.len() && 0 <= j < coin_types.len() ==> #[trigger] coin_types[i]
                == #[trigger] coin_types[j],
{
}

}
