//! Composing a note: whether a draft can be sent, how it is cut into chunks,
//! what it costs, and what the user is told about it.
//!
//! Sizes and fees of transactions come from the transaction builder and are
//! taken as numbers; the dust limit, the header and seal lengths are its
//! constants and are taken as arguments.

use crate::change::NOTEBOOK_SPK_LEN;
use crate::lists::count_where;
use crate::seqs::{
    filter_all, filter_push, filter_take_none, filter_take_step, filtered_is_from,
};
use crate::state::DEFAULT_CHUNK;
use crate::text::{
    chars_of, decimal, decimal_text, number_up_to, parse_u64, texts_of, trim, trimmed,
};
use vstd::arithmetic::div_mod::{lemma_fundamental_div_mod, lemma_mod_bound};
use vstd::prelude::*;

verus! {

/// The largest virtual size of a transaction that nodes relay. A note is one
/// transaction, so this and not the chunk size is the hard wall.
pub const MAX_STANDARD_TX_VSIZE: usize = 100_000;

/// The most chunks a note can have.
pub const MAX_CHUNKS: usize = 255;

/// The most recipients a note can have.
pub const MAX_RECIPIENTS: usize = 255;

/// Whether a note fits in one transaction, and if not, whether the largest
/// chunk size would help.
#[derive(Debug, Clone, Copy, PartialEq, Eq, Structural)]
pub enum FitCheck {
    Fits,
    /// Over at the current chunk size, but not at the largest.
    FitsAtStandard,
    /// Over at every chunk size.
    HardWall,
}

/// Whether a note of an estimated size fits; there is no estimate for one of
/// too many chunks.
pub open spec fn fits(vsize: Option<usize>) -> bool {
    match vsize {
        Some(v) => v <= MAX_STANDARD_TX_VSIZE,
        None => false,
    }
}

/// Whether a note of an estimated size fits.
pub fn note_fits(vsize: Option<usize>) -> (r: bool)
    ensures
        r == fits(vsize),
{
    match vsize {
        Some(v) => v <= MAX_STANDARD_TX_VSIZE,
        None => false,
    }
}

/// How a note fits that is estimated at `vsize` with the chunk size
/// `effective_chunk` and at `standard_vsize` with the largest.
pub open spec fn fit_of(
    effective_chunk: usize,
    vsize: Option<usize>,
    standard_vsize: Option<usize>,
) -> FitCheck {
    if fits(vsize) {
        FitCheck::Fits
    } else if effective_chunk < DEFAULT_CHUNK && fits(standard_vsize) {
        FitCheck::FitsAtStandard
    } else {
        FitCheck::HardWall
    }
}

/// How a note fits.
pub fn fit_check(
    effective_chunk: usize,
    vsize: Option<usize>,
    standard_vsize: Option<usize>,
) -> (r: FitCheck)
    ensures
        r == fit_of(effective_chunk, vsize, standard_vsize),
{
    if note_fits(vsize) {
        FitCheck::Fits
    } else if effective_chunk < DEFAULT_CHUNK && note_fits(standard_vsize) {
        FitCheck::FitsAtStandard
    } else {
        FitCheck::HardWall
    }
}

/// The largest chunk size is offered only where it makes the note fit, and
/// where it is in use already, no other size is offered.
pub proof fn the_offer_to_switch_is_honest(
    effective_chunk: usize,
    vsize: Option<usize>,
    standard_vsize: Option<usize>,
)
    ensures
        fit_of(effective_chunk, vsize, standard_vsize) == FitCheck::FitsAtStandard ==> fit_of(
            DEFAULT_CHUNK,
            standard_vsize,
            standard_vsize,
        ) == FitCheck::Fits,
        fit_of(DEFAULT_CHUNK, vsize, standard_vsize) != FitCheck::FitsAtStandard,
{
}

/// The bytes of a note body: the text, and the seal of a private note.
pub open spec fn body_len(text_len: nat, private: bool, seal_overhead: nat) -> nat {
    if private {
        text_len + seal_overhead
    } else {
        text_len
    }
}

/// How many chunks of at most `size` bytes a body takes.
pub open spec fn chunk_count(body: nat, size: nat) -> nat {
    (body / size + if body % size == 0 {
        0nat
    } else {
        1
    }) as nat
}

/// The payload lengths of a body: full payloads, then what is left.
pub open spec fn payloads_of(body: nat, max: nat, header: nat) -> Seq<nat> {
    let size = (max - header) as nat;
    let n = chunk_count(body, size);
    Seq::new(
        n,
        |i: int|
            if i < n - 1 {
                max
            } else {
                (header + body - (n - 1) * size) as nat
            },
    )
}

/// Why a body cannot be cut into payloads of at most `max` bytes.
pub open spec fn payload_error(body: nat, max: nat, header: nat) -> Option<Seq<char>> {
    if body == 0 {
        Some("empty body"@)
    } else if max <= header {
        Some("max_payload smaller than header"@)
    } else if chunk_count(body, (max - header) as nat) > MAX_CHUNKS {
        Some("too large (> 255 chunks)"@)
    } else {
        None
    }
}

/// The numbers of a list.
pub open spec fn lengths_of(v: Seq<usize>) -> Seq<nat> {
    v.map_values(|n: usize| n as nat)
}

/// The payload lengths of a note of `text_len` bytes, each payload a header
/// and a chunk of the body.
pub fn payload_lens_for(
    text_len: usize,
    private: bool,
    max_op_return_bytes: usize,
    seal_overhead: usize,
    header_len: usize,
) -> (r: Result<Vec<usize>, String>)
    requires
        private ==> text_len + seal_overhead <= usize::MAX,
    ensures
        ({
            let body = body_len(text_len as nat, private, seal_overhead as nat);
            match payload_error(body, max_op_return_bytes as nat, header_len as nat) {
                Some(e) => r matches Err(x) && x@ == e,
                None => r matches Ok(v) && lengths_of(v@) == payloads_of(
                    body,
                    max_op_return_bytes as nat,
                    header_len as nat,
                ),
            }
        }),
{
    let body: usize = if private {
        text_len + seal_overhead
    } else {
        text_len
    };
    if body == 0 {
        return Err("empty body".to_owned());
    }
    if max_op_return_bytes <= header_len {
        return Err("max_payload smaller than header".to_owned());
    }
    let size: usize = max_op_return_bytes - header_len;
    let whole: usize = body / size;
    let rest: usize = body % size;
    if whole > MAX_CHUNKS || (whole == MAX_CHUNKS && rest != 0) {
        return Err("too large (> 255 chunks)".to_owned());
    }
    let total: usize = if rest == 0 {
        whole
    } else {
        whole + 1
    };
    proof {
        lemma_fundamental_div_mod(body as int, size as int);
        lemma_mod_bound(body as int, size as int);
        assert(total >= 1) by {
            if whole == 0 {
                assert(size as int * 0 == 0);
            }
        }
        assert(size * (total - 1) == size * total - size) by (nonlinear_arith);
        assert(size * (whole + 1) == size * whole + size) by (nonlinear_arith);
        assert((total - 1) * size == size * (total - 1)) by (nonlinear_arith);
        assert((total - 1) * size < body);
    }
    let ghost lens = payloads_of(body as nat, max_op_return_bytes as nat, header_len as nat);
    assert(lens.len() == total);
    let mut out: Vec<usize> = Vec::new();
    let mut i: usize = 0;
    while i < total - 1
        invariant
            i <= total - 1,
            size == max_op_return_bytes - header_len,
            total == chunk_count(body as nat, size as nat),
            lens == payloads_of(body as nat, max_op_return_bytes as nat, header_len as nat),
            lengths_of(out@) == lens.take(i as int),
        decreases total - i,
    {
        let ghost before = out@;
        out.push(max_op_return_bytes);
        i = i + 1;
        assert(lengths_of(out@) =~= lengths_of(before).push(max_op_return_bytes as nat));
        assert(lengths_of(out@) =~= lens.take(i as int));
    }
    let tail: usize = body - (total - 1) * size;
    proof {
        if rest == 0 {
            assert(tail == size);
        } else {
            assert(tail == rest);
        }
    }
    let ghost before = out@;
    out.push(header_len + tail);
    assert(lengths_of(out@) =~= lengths_of(before).push((header_len + tail) as nat));
    assert(lengths_of(out@) =~= lens);
    Ok(out)
}

/// What payloads carry besides their headers.
pub open spec fn carried(lens: Seq<nat>, header: nat) -> int
    decreases lens.len(),
{
    if lens.len() == 0 {
        0
    } else {
        carried(lens.drop_last(), header) + (lens.last() - header)
    }
}

/// Equal payloads carry their number times what each carries.
proof fn carried_by_equal(lens: Seq<nat>, header: nat, len: nat)
    requires
        forall|i: int| 0 <= i < lens.len() ==> #[trigger] lens[i] == len,
    ensures
        carried(lens, header) == lens.len() * (len - header),
    decreases lens.len(),
{
    if lens.len() > 0 {
        let rest = lens.drop_last();
        assert forall|i: int| 0 <= i < rest.len() implies #[trigger] rest[i] == len by {
            assert(rest[i] == lens[i]);
        }
        carried_by_equal(rest, header, len);
        assert(lens.len() * (len - header) == rest.len() * (len - header) + (len - header))
            by (nonlinear_arith)
            requires
                lens.len() == rest.len() + 1,
        ;
    }
}

/// The payloads of a note carry its whole body and nothing else, at most 255
/// of them, each more than a header and none over the limit.
pub proof fn payloads_carry_the_body(body: nat, max: nat, header: nat)
    requires
        payload_error(body, max, header) is None,
    ensures
        0 < payloads_of(body, max, header).len() <= MAX_CHUNKS,
        carried(payloads_of(body, max, header), header) == body,
        forall|i: int|
            0 <= i < payloads_of(body, max, header).len() ==> header < #[trigger] payloads_of(
                body,
                max,
                header,
            )[i] <= max,
{
    let size = max - header;
    let n = chunk_count(body, size as nat) as int;
    let lens = payloads_of(body, max, header);
    let q = body as int / size;
    let m = body as int % size;
    lemma_fundamental_div_mod(body as int, size);
    lemma_mod_bound(body as int, size);
    assert(q >= 0) by {
        vstd::arithmetic::div_mod::lemma_div_pos_is_pos(body as int, size);
    }
    if q == 0 {
        assert(size * 0 == 0);
    }
    assert(n >= 1);
    assert(size * (q + 1) == size * q + size) by (nonlinear_arith);
    assert(size * (q - 1) == size * q - size) by (nonlinear_arith);
    assert((n - 1) * size == size * (n - 1)) by (nonlinear_arith);
    let tail = body - (n - 1) * size;
    assert(0 < tail <= size) by {
        if m == 0 {
            assert(n - 1 == q - 1);
        } else {
            assert(n - 1 == q);
        }
    }
    let full = lens.drop_last();
    assert forall|i: int| 0 <= i < full.len() implies #[trigger] full[i] == max by {
        assert(full[i] == lens[i]);
    }
    carried_by_equal(full, header, max);
    assert(lens.last() == header + tail);
}

/// Who a draft is addressed to, as far as the address could be read.
#[derive(Debug, Clone, Copy, PartialEq, Eq, Structural)]
pub enum RecipientCheck {
    /// The notebook itself.
    Itself,
    /// Text that is no address of the network.
    Invalid,
    /// An address with a script of a length; a private note needs taproot.
    Valid { spk_len: usize, taproot: bool },
}

/// Why a draft cannot be priced, the first reason that applies.
pub open spec fn draft_error(
    text_len: nat,
    coins: nat,
    spending_balance: u64,
    recipient: RecipientCheck,
    private: bool,
    network: Seq<char>,
) -> Option<Seq<char>> {
    if text_len == 0 {
        Some("Type to see the cost."@)
    } else if coins == 0 && spending_balance == 0 {
        Some("No funds \u{2014} fund the address and import a sync bundle."@)
    } else {
        match recipient {
            RecipientCheck::Invalid => Some(
                "Enter a valid "@ + network + " recipient address."@,
            ),
            RecipientCheck::Valid { spk_len, taproot } => if private && !taproot {
                Some(
                    "Private directed notes need a taproot (\u{2026}1p\u{2026}) recipient \u{2014} or switch to Public."@,
                )
            } else {
                None
            },
            RecipientCheck::Itself => None,
        }
    }
}

/// Why a draft cannot be priced, if it cannot.
pub fn draft_problem(
    text_len: usize,
    coins: usize,
    spending_balance: u64,
    recipient: RecipientCheck,
    private: bool,
    network: &str,
) -> (r: Option<String>)
    ensures
        match draft_error(
            text_len as nat,
            coins as nat,
            spending_balance,
            recipient,
            private,
            network@,
        ) {
            Some(e) => r matches Some(x) && x@ == e,
            None => r is None,
        },
{
    if text_len == 0 {
        return Some("Type to see the cost.".to_owned());
    }
    if coins == 0 && spending_balance == 0 {
        return Some("No funds \u{2014} fund the address and import a sync bundle.".to_owned());
    }
    match recipient {
        RecipientCheck::Invalid => {
            let mut out: String = "Enter a valid ".to_owned();
            out.append(network);
            out.append(" recipient address.");
            Some(out)
        },
        RecipientCheck::Valid { spk_len: _, taproot } => if private && !taproot {
            Some(
                "Private directed notes need a taproot (\u{2026}1p\u{2026}) recipient \u{2014} or switch to Public.".to_owned(),
            )
        } else {
            None
        },
        RecipientCheck::Itself => None,
    }
}

/// The text without its line breaks.
pub open spec fn without_breaks(s: Seq<char>) -> Seq<char> {
    s.filter(|c: char| c != '\n')
}

/// The draft once the keyboard sent a line break, which means that typing is
/// done: the breaks are taken out. `None` where there is none.
pub fn strip_breaks(text: &str) -> (r: Option<String>)
    ensures
        match r {
            Some(s) => text@.contains('\n') && s@ == without_breaks(text@),
            None => !text@.contains('\n'),
        },
{
    let chars: Vec<char> = chars_of(text);
    let ghost keep = |c: char| c != '\n';
    let mut out = String::new();
    let mut found = false;
    let mut i: usize = 0;
    proof {
        filter_take_none(chars@, keep);
    }
    while i < chars.len()
        invariant
            i <= chars.len(),
            keep == (|c: char| c != '\n'),
            out@ == chars@.take(i as int).filter(keep),
            found ==> chars@.contains('\n'),
            !found ==> forall|j: int| 0 <= j < i ==> #[trigger] chars@[j] != '\n',
        decreases chars.len() - i,
    {
        proof {
            filter_take_step(chars@, i as int, keep);
        }
        if chars[i] == '\n' {
            found = true;
            assert(chars@.contains('\n'));
        } else {
            out.push(chars[i]);
        }
        i = i + 1;
    }
    assert(chars@.take(i as int) =~= chars@);
    if found {
        Some(out)
    } else {
        None
    }
}

/// The amount each recipient of a directed note gets: the number typed, no
/// less than the dust limit, and the dust limit where no number was typed. A
/// note to oneself pays nobody.
pub open spec fn gift_of(directed: bool, text: Seq<char>, dust_limit: u64) -> u64 {
    if !directed {
        0
    } else {
        match number_up_to(trimmed(text), u64::MAX as int) {
            Some(n) => if n < dust_limit {
                dust_limit
            } else {
                n as u64
            },
            None => dust_limit,
        }
    }
}

/// The amount each recipient of a directed note gets.
pub fn resolve_gift(directed: bool, gift_text: &str, dust_limit: u64) -> (r: u64)
    ensures
        r == gift_of(directed, gift_text@, dust_limit),
{
    if !directed {
        return 0;
    }
    match parse_u64(trim(gift_text)) {
        Some(n) => if n < dust_limit {
            dust_limit
        } else {
            n
        },
        None => dust_limit,
    }
}

/// No recipient is ever paid less than the dust limit.
pub proof fn gifts_are_never_dust(text: Seq<char>, dust_limit: u64)
    ensures
        gift_of(true, text, dust_limit) >= dust_limit,
{
}

/// How many recipients a draft has: the first and the extra ones, and none
/// where it goes to the notebook itself.
pub fn recipient_count(directed: bool, extra: usize) -> (r: usize)
    requires
        extra < usize::MAX,
    ensures
        r == if directed {
            1 + extra
        } else {
            0
        },
{
    if directed {
        1 + extra
    } else {
        0
    }
}

/// What a draft that is too large is told.
pub open spec fn too_large_text(estimate: Option<(usize, usize)>) -> Seq<char> {
    match estimate {
        Some((chunks, vsize)) => decimal(chunks as nat) + " chunk(s) \u{b7} ~"@ + decimal(
            vsize as nat,
        ) + " vB \u{2014} too large to broadcast"@,
        None => "Too large to broadcast (> 255 chunks)."@,
    }
}

/// The cost line of a draft that is too large, from its estimated chunks and
/// size.
pub fn too_large_line(estimate: Option<(usize, usize)>) -> (r: String)
    ensures
        r@ == too_large_text(estimate),
{
    match estimate {
        Some((chunks, vsize)) => {
            let mut out: String = decimal_text(chunks as u64);
            out.append(" chunk(s) \u{b7} ~");
            out.append(decimal_text(vsize as u64).as_str());
            out.append(" vB \u{2014} too large to broadcast");
            out
        },
        None => "Too large to broadcast (> 255 chunks).".to_owned(),
    }
}

/// The dialog about a draft that became too large.
#[derive(Debug)]
pub struct OversizeDialog {
    /// Whether to offer the largest chunk size.
    pub offer_bump: bool,
    pub message: String,
}

/// The message of the dialog.
pub open spec fn oversize_text(fit: FitCheck) -> Seq<char> {
    if fit == FitCheck::FitsAtStandard {
        "This note doesn't fit at your current chunk size. Switch to Standard (a single large chunk) to fit it in one transaction?"@
    } else {
        "This note is too large to broadcast. A single Bitcoin transaction can't exceed ~100 kB (the network relay limit), whatever the chunk size. Shorten the note, or split it across several notes. Multi-transaction notes are planned for a future release."@
    }
}

/// Whether a draft is too large now, and the dialog to show where it was not
/// before: it shows on the crossing, not on every keystroke.
pub fn oversize_step(was_over: bool, fit: FitCheck) -> (r: (bool, Option<OversizeDialog>))
    ensures
        r.0 == (fit != FitCheck::Fits),
        match r.1 {
            Some(d) => !was_over && fit != FitCheck::Fits && d.offer_bump == (fit
                == FitCheck::FitsAtStandard) && d.message@ == oversize_text(fit),
            None => was_over || fit == FitCheck::Fits,
        },
{
    if fit == FitCheck::Fits {
        return (false, None);
    }
    if was_over {
        return (true, None);
    }
    let dialog = if fit == FitCheck::FitsAtStandard {
        OversizeDialog {
            offer_bump: true,
            message: "This note doesn't fit at your current chunk size. Switch to Standard (a single large chunk) to fit it in one transaction?".to_owned(),
        }
    } else {
        OversizeDialog {
            offer_bump: false,
            message: "This note is too large to broadcast. A single Bitcoin transaction can't exceed ~100 kB (the network relay limit), whatever the chunk size. Shorten the note, or split it across several notes. Multi-transaction notes are planned for a future release.".to_owned(),
        }
    };
    (true, Some(dialog))
}

/// What recipients get, behind the fee.
pub open spec fn gift_text(directed: bool, n_recipients: nat, gift: nat) -> Seq<char> {
    if !directed {
        Seq::<char>::empty()
    } else if n_recipients <= 1 {
        " + "@ + decimal(gift) + " sats to recipient"@
    } else {
        " + "@ + decimal(n_recipients) + " \u{d7} "@ + decimal(gift) + " = "@ + decimal(
            gift * n_recipients,
        ) + " sats to "@ + decimal(n_recipients) + " recipients"@
    }
}

/// What recipients get, behind the fee.
pub fn gift_suffix(directed: bool, n_recipients: usize, gift: u64) -> (r: String)
    requires
        directed && n_recipients > 1 ==> gift * n_recipients <= u64::MAX,
    ensures
        r@ == gift_text(directed, n_recipients as nat, gift as nat),
{
    if !directed {
        return String::new();
    }
    let mut out: String = " + ".to_owned();
    if n_recipients <= 1 {
        out.append(decimal_text(gift).as_str());
        out.append(" sats to recipient");
    } else {
        out.append(decimal_text(n_recipients as u64).as_str());
        out.append(" \u{d7} ");
        out.append(decimal_text(gift).as_str());
        out.append(" = ");
        out.append(decimal_text(gift * n_recipients as u64).as_str());
        out.append(" sats to ");
        out.append(decimal_text(n_recipients as u64).as_str());
        out.append(" recipients");
    }
    out
}

/// The size and fee part of a cost line. The fee is given as text because it
/// may show a price beside the amount, and so is the rate.
pub open spec fn cost_text(
    text_len: nat,
    chunks: nat,
    vsize: nat,
    fee_text: Seq<char>,
    rate_text: Seq<char>,
) -> Seq<char> {
    decimal(text_len) + " bytes \u{b7} "@ + decimal(chunks) + " chunk(s) \u{b7} ~"@ + decimal(vsize)
        + " vB \u{b7} ~"@ + fee_text + " @ "@ + rate_text + " sat/vB"@
}

/// The size and fee part of a cost line.
fn cost_head(text_len: usize, chunks: usize, vsize: usize, fee_text: &str, rate_text: &str) -> (r:
    String)
    ensures
        r@ == cost_text(text_len as nat, chunks as nat, vsize as nat, fee_text@, rate_text@),
{
    let mut out: String = decimal_text(text_len as u64);
    out.append(" bytes \u{b7} ");
    out.append(decimal_text(chunks as u64).as_str());
    out.append(" chunk(s) \u{b7} ~");
    out.append(decimal_text(vsize as u64).as_str());
    out.append(" vB \u{b7} ~");
    out.append(fee_text);
    out.append(" @ ");
    out.append(rate_text);
    out.append(" sat/vB");
    out
}

/// A draft with its numbers.
#[derive(Debug, Clone, Copy)]
pub struct Draft {
    /// Bytes of text.
    pub text_len: usize,
    pub chunks: usize,
    pub directed: bool,
    pub n_recipients: usize,
    /// What each recipient gets.
    pub gift: u64,
}

impl Draft {
    /// What all recipients get together.
    pub open spec fn total_gift(&self) -> int {
        self.gift * self.n_recipients
    }
}

/// The cost line of a draft whose coins the builder chooses, and whether it
/// can be sent: where the balance covers the fee and the gifts.
pub fn auto_quote(
    draft: &Draft,
    vsize: usize,
    fee: u64,
    balance: u64,
    fee_text: &str,
    rate_text: &str,
) -> (r: (String, bool))
    requires
        fee + draft.total_gift() <= u64::MAX,
    ensures
        r.1 == (fee + draft.total_gift() <= balance),
        r.0@ == if fee + draft.total_gift() <= balance {
            cost_text(
                draft.text_len as nat,
                draft.chunks as nat,
                vsize as nat,
                fee_text@,
                rate_text@,
            ) + gift_text(draft.directed, draft.n_recipients as nat, draft.gift as nat)
        } else {
            "Needs ~"@ + decimal((fee + draft.total_gift()) as nat) + " sats \u{2014} balance is "@
                + decimal(balance as nat) + "."@
        },
{
    assert(0 <= draft.gift * draft.n_recipients) by (nonlinear_arith);
    let total: u64 = draft.gift * draft.n_recipients as u64;
    if fee + total > balance {
        let mut out: String = "Needs ~".to_owned();
        out.append(decimal_text(fee + total).as_str());
        out.append(" sats \u{2014} balance is ");
        out.append(decimal_text(balance).as_str());
        out.append(".");
        (out, false)
    } else {
        let mut out: String = cost_head(draft.text_len, draft.chunks, vsize, fee_text, rate_text);
        out.append(gift_suffix(draft.directed, draft.n_recipients, draft.gift).as_str());
        (out, true)
    }
}

/// How an input is signed.
#[derive(Debug, Clone, Copy, PartialEq, Eq, Structural)]
pub enum InputKind {
    /// A notebook coin.
    Taproot,
    /// A coin of the spending wallet.
    P2wpkh,
}

/// The kinds of the inputs: the notebook coins, then the spending coins.
pub open spec fn kinds_of(n_notebook: nat, n_spending: nat) -> Seq<InputKind> {
    Seq::new(
        n_notebook + n_spending,
        |i: int|
            if i < n_notebook {
                InputKind::Taproot
            } else {
                InputKind::P2wpkh
            },
    )
}

/// The kinds of the inputs.
pub fn input_kinds(n_notebook: usize, n_spending: usize) -> (r: Vec<InputKind>)
    requires
        n_notebook + n_spending <= usize::MAX,
    ensures
        r@ == kinds_of(n_notebook as nat, n_spending as nat),
{
    let ghost all = kinds_of(n_notebook as nat, n_spending as nat);
    let total: usize = n_notebook + n_spending;
    let mut out: Vec<InputKind> = Vec::new();
    let mut i: usize = 0;
    while i < total
        invariant
            i <= total,
            total == n_notebook + n_spending,
            all == kinds_of(n_notebook as nat, n_spending as nat),
            out@ == all.take(i as int),
        decreases total - i,
    {
        if i < n_notebook {
            out.push(InputKind::Taproot);
        } else {
            out.push(InputKind::P2wpkh);
        }
        i = i + 1;
        assert(out@ =~= all.take(i as int));
    }
    assert(all.take(i as int) =~= all);
    out
}

/// Whether a note leaves a dust coin at the notebook's address, by which it
/// can be found again: where the spending wallet pays and no notebook coin
/// ties the transaction to the notebook.
pub fn dust_applies(n_notebook: usize, n_spending: usize) -> (r: bool)
    ensures
        r == (n_spending > 0 && n_notebook == 0),
{
    n_spending > 0 && n_notebook == 0
}

/// The script lengths of the outputs beside the payloads, without change.
pub open spec fn extras_of(recipient_spk_len: Option<usize>, dust: bool) -> Seq<usize> {
    (match recipient_spk_len {
        Some(l) => seq![l],
        None => seq![],
    }) + if dust {
        seq![NOTEBOOK_SPK_LEN]
    } else {
        seq![]
    }
}

/// The script lengths of the outputs beside the payloads, without change and
/// with it.
pub fn extra_outputs(recipient_spk_len: Option<usize>, dust: bool, change_len: usize) -> (r: (
    Vec<usize>,
    Vec<usize>,
))
    ensures
        r.0@ == extras_of(recipient_spk_len, dust),
        r.1@ == extras_of(recipient_spk_len, dust).push(change_len),
{
    let mut plain: Vec<usize> = Vec::new();
    let mut with: Vec<usize> = Vec::new();
    match recipient_spk_len {
        Some(l) => {
            plain.push(l);
            with.push(l);
        },
        None => {},
    }
    if dust {
        plain.push(NOTEBOOK_SPK_LEN);
        with.push(NOTEBOOK_SPK_LEN);
    }
    with.push(change_len);
    assert(plain@ =~= extras_of(recipient_spk_len, dust));
    assert(with@ =~= extras_of(recipient_spk_len, dust).push(change_len));
    (plain, with)
}

/// A transaction shape by its virtual size and fee.
#[derive(Debug, Clone, Copy, PartialEq, Eq, Structural)]
pub struct Shape {
    pub vsize: usize,
    pub fee: u64,
}

/// The shape a note of exactly the picked coins takes.
#[derive(Debug, Clone, Copy, PartialEq, Eq, Structural)]
pub struct Quote {
    pub shape: Shape,
    /// Whether the coins suffice.
    pub ok: bool,
    /// Whether there is no change output.
    pub no_change: bool,
}

/// The shape for coins worth `in_value` that pay `out_value` besides the fee:
/// with change where that leaves at least the dust limit, else without, which
/// is right where what is left is no more than the dust limit.
pub open spec fn quote_of(
    in_value: int,
    out_value: int,
    with_change: Shape,
    without: Shape,
    dust_limit: int,
) -> Quote {
    if in_value - with_change.fee - out_value >= dust_limit {
        Quote { shape: with_change, ok: true, no_change: false }
    } else {
        Quote {
            shape: without,
            ok: 0 <= in_value - without.fee - out_value <= dust_limit,
            no_change: true,
        }
    }
}

/// The shape for exactly the picked coins.
pub fn exact_quote(
    in_value: u64,
    out_value: u64,
    with_change: Shape,
    without: Shape,
    dust_limit: u64,
) -> (r: Quote)
    requires
        with_change.fee + out_value <= u64::MAX,
        in_value - with_change.fee - out_value < dust_limit ==> without.fee + out_value <= u64::MAX,
    ensures
        r == quote_of(
            in_value as int,
            out_value as int,
            with_change,
            without,
            dust_limit as int,
        ),
        in_value >= with_change.fee + out_value + dust_limit ==> r.ok && !r.no_change && r.shape
            == with_change,
        in_value < with_change.fee + out_value + dust_limit ==> r.no_change && r.shape == without,
        r.no_change ==> (r.ok <==> without.fee + out_value <= in_value <= without.fee + out_value
            + dust_limit),
{
    let needs: u64 = with_change.fee + out_value;
    if in_value >= needs && in_value - needs >= dust_limit {
        return Quote { shape: with_change, ok: true, no_change: false };
    }
    let needs: u64 = without.fee + out_value;
    let ok: bool = in_value >= needs && in_value - needs <= dust_limit;
    Quote { shape: without, ok, no_change: true }
}

/// A draft that is quoted as payable pays its outputs and its fee in full:
/// what is left over is change of at least the dust limit, or at most the
/// dust limit where there is no change output.
pub proof fn quotes_balance(
    in_value: int,
    out_value: int,
    with_change: Shape,
    without: Shape,
    dust_limit: int,
)
    requires
        dust_limit >= 0,
    ensures
        ({
            let q = quote_of(in_value, out_value, with_change, without, dust_limit);
            let left = in_value - q.shape.fee - out_value;
            q.ok ==> left >= 0 && (if q.no_change {
                left <= dust_limit
            } else {
                left >= dust_limit
            })
        }),
{
}

/// The cost line of a draft that spends exactly the picked coins, where they
/// suffice: what recipients get, the dust left at the notebook, and what is
/// too little for change and goes to the fee.
pub open spec fn exact_text(
    draft: Draft,
    quote: Quote,
    dust: bool,
    dust_limit: nat,
    folded: Option<u64>,
    fee_text: Seq<char>,
    rate_text: Seq<char>,
) -> Seq<char> {
    cost_text(
        draft.text_len as nat,
        draft.chunks as nat,
        quote.shape.vsize as nat,
        fee_text,
        rate_text,
    ) + gift_text(draft.directed, draft.n_recipients as nat, draft.gift as nat) + (if dust {
        " + "@ + decimal(dust_limit) + " sats dust to notebook"@
    } else {
        Seq::<char>::empty()
    }) + match folded {
        Some(n) => " + "@ + decimal(n as nat) + " sats leftover (dust rule)"@,
        None => Seq::<char>::empty(),
    }
}

/// The cost line of a draft that spends exactly the picked coins. `folded` is
/// what goes to the fee because it is too little for change.
pub fn exact_line(
    draft: &Draft,
    quote: &Quote,
    in_value: u64,
    out_value: u64,
    dust: bool,
    dust_limit: u64,
    folded: Option<u64>,
    fee_text: &str,
    rate_text: &str,
) -> (r: String)
    requires
        quote.shape.fee + out_value <= u64::MAX,
        draft.total_gift() <= u64::MAX,
    ensures
        r@ == if quote.ok {
            exact_text(*draft, *quote, dust, dust_limit as nat, folded, fee_text@, rate_text@)
        } else {
            "Needs ~"@ + decimal((quote.shape.fee + out_value) as nat)
                + " sats \u{2014} selected coins total "@ + decimal(in_value as nat) + "."@
        },
{
    if !quote.ok {
        let mut out: String = "Needs ~".to_owned();
        out.append(decimal_text(quote.shape.fee + out_value).as_str());
        out.append(" sats \u{2014} selected coins total ");
        out.append(decimal_text(in_value).as_str());
        out.append(".");
        return out;
    }
    let mut out: String = cost_head(
        draft.text_len,
        draft.chunks,
        quote.shape.vsize,
        fee_text,
        rate_text,
    );
    out.append(gift_suffix(draft.directed, draft.n_recipients, draft.gift).as_str());
    let mut dust_part: String = String::new();
    if dust {
        dust_part = " + ".to_owned();
        dust_part.append(decimal_text(dust_limit).as_str());
        dust_part.append(" sats dust to notebook");
    }
    out.append(dust_part.as_str());
    let mut fold_part: String = String::new();
    match folded {
        Some(n) => {
            fold_part = " + ".to_owned();
            fold_part.append(decimal_text(n).as_str());
            fold_part.append(" sats leftover (dust rule)");
        },
        None => {},
    }
    out.append(fold_part.as_str());
    out
}

/// What of a fee is change too small for an output of its own: what the fee
/// of a transaction without change pays above its nominal fee.
pub fn note_fold_amount(fee: u64, change: u64, nominal: u64) -> (r: u64)
    ensures
        r == if change != 0 || fee < nominal {
            0
        } else {
            (fee - nominal) as u64
        },
        change > 0 ==> r == 0,
        change == 0 && fee >= nominal ==> nominal + r == fee,
        r <= fee,
{
    if change != 0 || fee < nominal {
        0
    } else {
        fee - nominal
    }
}

/// The addresses a note goes to, in output order: the first, then the extra
/// ones; none where it goes to the notebook itself.
pub open spec fn recipients_of(directed: bool, first: Seq<char>, extra: Seq<Seq<char>>) -> Seq<
    Seq<char>,
> {
    if directed {
        seq![first] + extra
    } else {
        seq![]
    }
}

/// The addresses a note goes to, in output order.
pub fn recipient_list(first: &str, extra: &Vec<String>) -> (r: Vec<String>)
    ensures
        texts_of(r@) == recipients_of(
            first@.len() > 0,
            first@,
            texts_of(extra@),
        ),
{
    let mut out: Vec<String> = Vec::new();
    if first.is_empty() {
        assert(texts_of(out@) =~= seq![]);
        return out;
    }
    out.push(first.to_owned());
    let ghost all = recipients_of(true, first@, texts_of(extra@));
    let mut i: usize = 0;
    assert(texts_of(out@) =~= all.take(1));
    while i < extra.len()
        invariant
            i <= extra.len(),
            all == recipients_of(true, first@, texts_of(extra@)),
            texts_of(out@) == all.take(i + 1),
        decreases extra.len() - i,
    {
        let ghost before = out@;
        out.push(extra[i].clone());
        i = i + 1;
        assert(texts_of(out@) =~= texts_of(before).push(
            extra@[i - 1]@,
        ));
        assert(texts_of(out@) =~= all.take(i + 1));
    }
    assert(all.take(i + 1) =~= all);
    out
}

/// How many scripts are payload outputs: the ones that begin with the opcode
/// of a data output.
pub fn payload_outputs(scripts: &Vec<Vec<u8>>) -> (r: usize)
    ensures
        r == scripts@.filter(|s: Vec<u8>| s@.len() > 0 && s@[0] == 0x6a).len(),
{
    let ghost keep = |s: Vec<u8>| s@.len() > 0 && s@[0] == 0x6a;
    let test = |s: &Vec<u8>| -> (b: bool)
        ensures
            b == keep(*s),
        {
            s.len() > 0 && s[0] == 0x6a
        };
    count_where(scripts, test, Ghost(keep))
}

/// Where the fee rate comes from.
#[derive(Debug, Clone, Copy, PartialEq, Eq, Structural)]
pub enum RateSource {
    Economy,
    Normal,
    Fast,
    /// What the user typed.
    Custom,
}

/// Where the fee rate of a tier comes from.
pub fn rate_source(tier: i32) -> (r: RateSource)
    ensures
        r == if tier == 3 {
            RateSource::Custom
        } else if tier == 0 {
            RateSource::Economy
        } else if tier == 2 {
            RateSource::Fast
        } else {
            RateSource::Normal
        },
{
    if tier == 3 {
        RateSource::Custom
    } else if tier == 0 {
        RateSource::Economy
    } else if tier == 2 {
        RateSource::Fast
    } else {
        RateSource::Normal
    }
}

/// Whether a draft still counts as too large after an edit: an empty draft
/// does not, so that the dialog shows again.
pub fn over_after_edit(was_over: bool, text_len: usize) -> (r: bool)
    ensures
        r == (was_over && text_len > 0),
{
    was_over && text_len > 0
}

/// A note fits exactly where its size is known and at most 100000. Where it
/// does not, the largest chunk size is offered exactly where another one is in
/// use and the note fits with it.
pub proof fn fitting_is_a_matter_of_size(
    effective_chunk: usize,
    vsize: Option<usize>,
    standard_vsize: Option<usize>,
)
    ensures
        fits(vsize) <==> (vsize matches Some(v) && v <= 100_000),
        fit_of(effective_chunk, vsize, standard_vsize) == FitCheck::Fits <==> (
        vsize matches Some(v) && v <= 100_000),
        fit_of(effective_chunk, vsize, standard_vsize) == FitCheck::FitsAtStandard <==> !(
        vsize matches Some(v) && v <= 100_000) && effective_chunk < 100_000 && (
        standard_vsize matches Some(v) && v <= 100_000),
        fit_of(effective_chunk, vsize, standard_vsize) == FitCheck::HardWall <==> !(
        vsize matches Some(v) && v <= 100_000) && !(effective_chunk < 100_000 && (
        standard_vsize matches Some(v) && v <= 100_000)),
{
}

/// A private note carries its seal besides its text, a public one its text
/// alone.
pub proof fn only_private_notes_carry_a_seal(text_len: nat, seal_overhead: nat)
    ensures
        body_len(text_len, false, seal_overhead) == text_len,
        body_len(text_len, true, seal_overhead) == text_len + seal_overhead,
{
}

/// A body is cut into full payloads and one last that holds the rest: no
/// fewer would do, and only a body that is empty, a payload that has no room
/// behind its header, or more than 255 payloads are refused.
pub proof fn bodies_are_cut_into_the_fewest_payloads(body: nat, max: nat, header: nat)
    ensures
        payload_error(body, max, header) is None <==> body > 0 && max > header && body <= 255 * (max
            - header),
        payload_error(body, max, header) is None ==> {
            let lens = payloads_of(body, max, header);
            &&& 0 < lens.len()
            &&& (lens.len() - 1) * (max - header) < body <= lens.len() * (max - header)
            &&& forall|i: int| 0 <= i < lens.len() - 1 ==> #[trigger] lens[i] == max
            &&& lens.last() == header + body - (lens.len() - 1) * (max - header)
        },
{
    if body > 0 && max > header {
        let size = (max - header) as nat;
        let n = chunk_count(body, size);
        lemma_fundamental_div_mod(body as int, size as int);
        lemma_mod_bound(body as int, size as int);
        let q = body / size;
        assert((q + 1) * size == size * q + size) by (nonlinear_arith);
        assert(q * size == size * q) by (nonlinear_arith);
        if body % size == 0 {
            assert(n == q);
            assert((n - 1) * size == q * size - size) by (nonlinear_arith)
                requires
                    n == q,
            ;
            if q == 0 {
                assert(size * q == 0) by (nonlinear_arith)
                    requires
                        q == 0,
                ;
            }
        } else {
            assert(n == q + 1);
        }
        assert((n - 1) * size < body <= n * size);
        if n <= 255 {
            assert(n * size <= 255 * size) by (nonlinear_arith)
                requires
                    n <= 255,
            ;
        } else {
            assert((n - 1) * size >= 255 * size) by (nonlinear_arith)
                requires
                    n > 255,
            ;
        }
    }
}

/// A draft is refused for want of text first, then of funds in either wallet,
/// then for a recipient that is no address or cannot get a private note, and
/// for nothing else.
pub proof fn drafts_are_refused_for_cause(
    text_len: nat,
    coins: nat,
    spending_balance: u64,
    recipient: RecipientCheck,
    private: bool,
    network: Seq<char>,
)
    ensures
        draft_error(text_len, coins, spending_balance, recipient, private, network) is None <==> {
            &&& text_len > 0
            &&& coins > 0 || spending_balance > 0
            &&& !(recipient is Invalid)
            &&& recipient matches RecipientCheck::Valid { spk_len, taproot } ==> !private || taproot
        },
        text_len == 0 ==> draft_error(
            text_len,
            coins,
            spending_balance,
            recipient,
            private,
            network,
        ) == Some("Type to see the cost."@),
        text_len > 0 && coins == 0 && spending_balance == 0 ==> draft_error(
            text_len,
            coins,
            spending_balance,
            recipient,
            private,
            network,
        ) == Some("No funds \u{2014} fund the address and import a sync bundle."@),
{
}

/// Taking out line breaks takes out nothing else and keeps the order.
pub proof fn only_line_breaks_are_taken_out(a: Seq<char>, c: char)
    ensures
        !without_breaks(a).contains('\n'),
        !a.contains('\n') ==> without_breaks(a) == a,
        without_breaks(a.push('\n')) == without_breaks(a),
        c != '\n' ==> without_breaks(a.push(c)) == without_breaks(a).push(c),
{
    let keep = |c: char| c != '\n';
    filter_push(a, c, keep);
    filter_push(a, '\n', keep);
    assert forall|i: int| 0 <= i < without_breaks(a).len() implies without_breaks(a)[i] != '\n' by {
        filtered_is_from(a, keep, i);
    }
    if !a.contains('\n') {
        filter_all(a, keep);
    }
}

/// A recipient gets exactly what was typed where that is no dust, and the dust
/// limit otherwise; a note to oneself gives nothing away.
pub proof fn gifts_are_what_was_typed(text: Seq<char>, dust_limit: u64, n: nat)
    ensures
        gift_of(false, text, dust_limit) == 0,
        number_up_to(trimmed(text), u64::MAX as int) is None ==> gift_of(true, text, dust_limit)
            == dust_limit,
        number_up_to(trimmed(text), u64::MAX as int) == Some(n) && n >= dust_limit ==> gift_of(
            true,
            text,
            dust_limit,
        ) == n,
        number_up_to(trimmed(text), u64::MAX as int) == Some(n) && n < dust_limit ==> gift_of(
            true,
            text,
            dust_limit,
        ) == dust_limit,
{
}

/// Coins that cover the fee of the shape with change, the other outputs and
/// the dust limit always pay with change; coins that do not pay without, and
/// then exactly where they cover the fee of that shape and the outputs with at
/// most the dust limit left over.
pub proof fn coins_that_leave_change_pay_with_change(
    in_value: int,
    out_value: int,
    with_change: Shape,
    without: Shape,
    dust_limit: int,
)
    ensures
        ({
            let q = quote_of(in_value, out_value, with_change, without, dust_limit);
            &&& in_value >= with_change.fee + out_value + dust_limit ==> {
                &&& q.ok
                &&& !q.no_change
                &&& q.shape == with_change
            }
            &&& in_value < with_change.fee + out_value + dust_limit ==> {
                &&& q.no_change
                &&& q.shape == without
                &&& q.ok <==> without.fee + out_value <= in_value <= without.fee + out_value
                    + dust_limit
            }
        }),
{
}

/// More coins never turn a draft that pays with change into one that does not.
pub proof fn more_coins_still_pay_with_change(
    in_value: int,
    more: int,
    out_value: int,
    with_change: Shape,
    without: Shape,
    dust_limit: int,
)
    requires
        more >= in_value,
        !quote_of(in_value, out_value, with_change, without, dust_limit).no_change,
    ensures
        quote_of(more, out_value, with_change, without, dust_limit) == quote_of(
            in_value,
            out_value,
            with_change,
            without,
            dust_limit,
        ),
{
}

/// A directed note goes to its first recipient and then to every extra one, in
/// order; a note to oneself goes to nobody.
pub proof fn every_recipient_is_reached(directed: bool, first: Seq<char>, extra: Seq<Seq<char>>)
    ensures
        !directed ==> recipients_of(directed, first, extra).len() == 0,
        directed ==> {
            &&& recipients_of(directed, first, extra).len() == 1 + extra.len()
            &&& recipients_of(directed, first, extra)[0] == first
            &&& forall|i: int|
                0 <= i < extra.len() ==> recipients_of(directed, first, extra)[1 + i]
                    == #[trigger] extra[i]
        },
{
}

/// There is one input for every coin: the notebook's, signed as taproot, and
/// then the spending wallet's.
pub proof fn every_coin_is_an_input(n_notebook: nat, n_spending: nat)
    ensures
        kinds_of(n_notebook, n_spending).len() == n_notebook + n_spending,
        forall|i: int|
            0 <= i < n_notebook ==> #[trigger] kinds_of(n_notebook, n_spending)[i]
                == InputKind::Taproot,
        forall|i: int|
            n_notebook <= i < n_notebook + n_spending ==> #[trigger] kinds_of(
                n_notebook,
                n_spending,
            )[i] == InputKind::P2wpkh,
{
}

/// Besides its payloads a note pays its recipient, by the length of the
/// recipient's script, and leaves its dust at the notebook's.
pub proof fn outputs_are_the_recipient_and_the_dust(recipient: usize)
    ensures
        extras_of(Some(recipient), true) == seq![recipient, 34usize],
        extras_of(Some(recipient), false) == seq![recipient],
        extras_of(None, true) == seq![34usize],
        extras_of(None, false).len() == 0,
{
    assert(extras_of(Some(recipient), true) =~= seq![recipient, 34usize]);
    assert(extras_of(Some(recipient), false) =~= seq![recipient]);
    assert(extras_of(None, true) =~= seq![34usize]);
}

/// Every recipient gets the gift: one more recipient costs one gift more.
pub proof fn every_recipient_gets_the_gift(draft: Draft, more: Draft)
    requires
        more.gift == draft.gift,
        more.n_recipients == draft.n_recipients + 1,
    ensures
        more.total_gift() == draft.total_gift() + draft.gift,
        draft.n_recipients == 0 ==> draft.total_gift() == 0,
{
    assert(draft.gift * (draft.n_recipients + 1) == draft.gift * draft.n_recipients + draft.gift)
        by (nonlinear_arith);
    assert(draft.gift * 0 == 0);
}

/// The gift line names the gift of one recipient, and for several their
/// number, the gift of each and what they get together; a note to oneself has
/// none.
pub proof fn gift_lines_add_up(n: nat, gift: nat)
    ensures
        gift_text(false, n, gift).len() == 0,
        n <= 1 ==> gift_text(true, n, gift) == " + "@ + decimal(gift) + " sats to recipient"@,
        n > 1 ==> gift_text(true, n, gift) == " + "@ + decimal(n) + " \u{d7} "@ + decimal(gift)
            + " = "@ + decimal(n * gift) + " sats to "@ + decimal(n) + " recipients"@,
{
    assert(n * gift == gift * n) by (nonlinear_arith);
}

/// The line of a payable draft adds to its cost the gifts, the dust and what
/// is folded into the fee, each only where there is one.
pub proof fn exact_lines_list_what_is_paid(
    draft: Draft,
    quote: Quote,
    dust_limit: nat,
    folded: u64,
    fee_text: Seq<char>,
    rate_text: Seq<char>,
)
    ensures
        ({
            let start = decimal(draft.text_len as nat) + " bytes \u{b7} "@ + decimal(
                draft.chunks as nat,
            ) + " chunk(s) \u{b7} ~"@ + decimal(quote.shape.vsize as nat) + " vB \u{b7} ~"@
                + fee_text + " @ "@ + rate_text + " sat/vB"@ + gift_text(
                draft.directed,
                draft.n_recipients as nat,
                draft.gift as nat,
            );
            let dust = start + " + "@ + decimal(dust_limit) + " sats dust to notebook"@;
            let rest = " + "@ + decimal(folded as nat) + " sats leftover (dust rule)"@;
            &&& exact_text(draft, quote, false, dust_limit, None, fee_text, rate_text) == start
            &&& exact_text(draft, quote, true, dust_limit, None, fee_text, rate_text) == dust
            &&& exact_text(draft, quote, false, dust_limit, Some(folded), fee_text, rate_text)
                == start + rest
            &&& exact_text(draft, quote, true, dust_limit, Some(folded), fee_text, rate_text)
                == dust + rest
        }),
{
    let gift = gift_text(draft.directed, draft.n_recipients as nat, draft.gift as nat);
    let start = cost_text(
        draft.text_len as nat,
        draft.chunks as nat,
        quote.shape.vsize as nat,
        fee_text,
        rate_text,
    ) + gift;
    let none = Seq::<char>::empty();
    let dust = start + " + "@ + decimal(dust_limit) + " sats dust to notebook"@;
    let rest = " + "@ + decimal(folded as nat) + " sats leftover (dust rule)"@;
    assert(start + none + none =~= start);
    assert(start + (" + "@ + decimal(dust_limit) + " sats dust to notebook"@) =~= dust);
    assert(dust + none =~= dust);
    assert(start + none + rest =~= start + rest);
}

/// A note that is too large says its number of chunks and its size where they
/// are known, and else that it has too many chunks.
pub proof fn too_large_notes_say_how_large(chunks: usize, vsize: usize)
    ensures
        too_large_text(Some((chunks, vsize))) == decimal(chunks as nat) + " chunk(s) \u{b7} ~"@
            + decimal(vsize as nat) + " vB \u{2014} too large to broadcast"@,
        too_large_text(None) == "Too large to broadcast (> 255 chunks)."@,
{
}

}
