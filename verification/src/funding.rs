//! Which coins pay for a note: the keys of coins, the picked coins, what
//! they add up to, and how the pick is shown.

use crate::coins::{
    coins_total, has_outpoint, outpoint_listed, outpoint_position, sum_of, wire_coin_of, Utxo,
    UtxoRec,
};
use crate::hexcodec::{txid_to_wire, wire_txid};
use crate::labels::{short_addr, short_form};
use crate::lists::{copies_where, total_of};
use crate::notebooks::{finds, has_key, NotebookIndex, NotebookMeta};
use crate::seqs::{filter_all, first_at, first_at_found, first_at_is};
use crate::spending::{spending_values, SpendingAddress, SpendingSection, SpendingUtxo};
use crate::state::State;
use crate::text::{
    chars_of, decimal, decimal_reads_back, decimal_text, find_char, join, joined, number_up_to,
    parse_u64, same_text, text_between, texts_of,
};
use vstd::prelude::*;

verus! {

/// How many addresses of each chain are watched ahead of the next unused one.
pub const SPENDING_WINDOW: u32 = 20;

/// The wallet context (rotation seed, account) of the open notebook, if one
/// is open and known.
pub fn notebook_ctx(ix: &NotebookIndex, account: Option<u32>) -> (r: Option<(u32, u32)>)
    ensures
        match r {
            Some(ctx) => account is Some && exists|m: NotebookMeta| #[trigger]
                finds(ix.notebooks@, account->0, m) && m.of_context(ctx.0, ctx.1),
            None => account is None || !has_key(ix.notebooks@, account->0),
        },
{
    match account {
        Some(key) => match ix.get(key) {
            Some(m) => {
                assert(finds(ix.notebooks@, key, *m) && m.of_context(m.seed, m.bip_account));
                Some((m.seed, m.bip_account))
            },
            None => None,
        },
        None => None,
    }
}

/// The key of a coin: its source, transaction id and output number.
pub open spec fn coin_key(spending: bool, txid: Seq<char>, vout: u32) -> Seq<char> {
    (if spending {
        "spending"@
    } else {
        "notebook"@
    }) + ":"@ + txid + ":"@ + decimal(vout as nat)
}

/// The three parts of a key, split at its first two colons: whether the
/// source reads `spending`, the transaction id, and the output number.
pub open spec fn coin_key_parts(key: Seq<char>) -> Option<(bool, Seq<char>, nat)> {
    let colon = |c: char| c == ':';
    let i = first_at(key, colon);
    if i >= key.len() {
        None
    } else {
        let rest = key.skip(i + 1);
        let j = first_at(rest, colon);
        if j >= rest.len() {
            None
        } else {
            match number_up_to(rest.skip(j + 1), u32::MAX as int) {
                Some(vout) => Some((key.take(i) == "spending"@, rest.take(j), vout)),
                None => None,
            }
        }
    }
}

/// The key of a coin.
pub fn funding_key(spending: bool, txid: &str, vout: u32) -> (r: String)
    ensures
        r@ == coin_key(spending, txid@, vout),
{
    let mut out: String = if spending {
        "spending".to_owned()
    } else {
        "notebook".to_owned()
    };
    out.append(":");
    out.append(txid);
    out.append(":");
    out.append(decimal_text(vout as u64).as_str());
    out
}

/// The source, transaction id and output number of a key.
pub fn parse_funding_key(key: &str) -> (r: Option<(bool, String, u32)>)
    ensures
        match r {
            Some((spending, txid, vout)) => coin_key_parts(key@) == Some(
                (spending, txid@, vout as nat),
            ),
            None => coin_key_parts(key@) is None,
        },
{
    let chars: Vec<char> = chars_of(key);
    let n: usize = chars.len();
    let i: usize = find_char(&chars, 0, ':');
    assert(chars@.skip(0) =~= key@);
    if i >= n {
        return None;
    }
    let j: usize = find_char(&chars, i + 1, ':');
    let ghost rest = key@.skip(i + 1);
    if j >= n {
        return None;
    }
    let source: String = text_between(&chars, 0, i);
    let txid: String = text_between(&chars, i + 1, j);
    let number: String = text_between(&chars, j + 1, n);
    assert(source@ =~= key@.take(i as int));
    assert(txid@ =~= rest.take(j - i - 1));
    assert(number@ =~= rest.skip(j - i));
    match parse_u64(number.as_str()) {
        Some(vout) => if vout <= u32::MAX as u64 {
            Some((same_text(source.as_str(), "spending"), txid, vout as u32))
        } else {
            None
        },
        None => None,
    }
}

/// A key reads back as the coin it was made of, where the transaction id
/// holds no colon.
pub proof fn funding_key_reads_back(spending: bool, txid: Seq<char>, vout: u32)
    requires
        !txid.contains(':'),
    ensures
        coin_key_parts(coin_key(spending, txid, vout)) == Some((spending, txid, vout as nat)),
{
    reveal_strlit("spending");
    reveal_strlit("notebook");
    reveal_strlit(":");
    let key = coin_key(spending, txid, vout);
    let colon = |c: char| c == ':';
    let number = decimal(vout as nat);
    decimal_reads_back(vout as nat);
    assert(key[8] == ':');
    first_at_is(key, colon, 8);
    let rest = key.skip(9);
    assert(rest =~= txid + ":"@ + number);
    assert forall|j: int| 0 <= j < txid.len() implies !colon(#[trigger] rest[j]) by {
        assert(rest[j] == txid[j]);
    }
    first_at_is(rest, colon, txid.len() as int);
    assert(rest.skip(txid.len() as int + 1) =~= number);
    assert(rest.take(txid.len() as int) =~= txid);
    if spending {
        assert(key.take(8) =~= "spending"@);
    } else {
        assert(key.take(8) =~= "notebook"@);
        assert("notebook"@[0] != "spending"@[0]);
    }
}

/// Which coins fund the note being composed. Once `touched`, exactly the
/// picked coins are spent; until then an empty `spending` leaves the choice
/// among the notebook coins to the builder.
#[derive(Debug, Clone)]
pub struct FundingPick {
    pub notebook: Vec<(String, u32)>,
    pub spending: Vec<(String, u32)>,
    pub touched: bool,
}

impl Default for FundingPick {
    fn default() -> (r: Self)
        ensures
            r.notebook@.len() == 0,
            r.spending@.len() == 0,
            !r.touched,
    {
        FundingPick { notebook: Vec::new(), spending: Vec::new(), touched: false }
    }
}

/// Whether an entry is the outpoint (`txid`, `vout`).
pub open spec fn is_outpoint(txid: Seq<char>, vout: u32) -> spec_fn((String, u32)) -> bool {
    |o: (String, u32)| o.0@ == txid && o.1 == vout
}

/// `list` without its first entry for the outpoint, or with the outpoint
/// added behind the others where it has none.
pub open spec fn toggled(list: Seq<(String, u32)>, txid: String, vout: u32) -> Seq<(String, u32)> {
    let k = first_at(list, is_outpoint(txid@, vout));
    if k < list.len() {
        list.remove(k)
    } else {
        list.push((txid, vout))
    }
}

/// Adds an outpoint to a list, or takes it out where it is listed.
fn toggle_outpoint(list: &mut Vec<(String, u32)>, txid: String, vout: u32)
    ensures
        final(list)@ == toggled(old(list)@, txid, vout),
{
    let ghost p = is_outpoint(txid@, vout);
    match outpoint_position(list.as_slice(), txid.as_str(), vout) {
        Some(k) => {
            proof {
                first_at_is(list@, p, k as int);
            }
            list.remove(k);
        },
        None => {
            proof {
                first_at_is(list@, p, list@.len() as int);
            }
            list.push((txid, vout));
        },
    }
}

impl FundingPick {
    /// The picked coins of a source.
    pub open spec fn picked(&self, spending: bool) -> Seq<(String, u32)> {
        if spending {
            self.spending@
        } else {
            self.notebook@
        }
    }

    /// Whether a coin is picked.
    pub fn is_selected(&self, spending: bool, txid: &str, vout: u32) -> (r: bool)
        ensures
            r == outpoint_listed(self.picked(spending), txid@, vout),
    {
        if spending {
            has_outpoint(self.spending.as_slice(), txid, vout)
        } else {
            has_outpoint(self.notebook.as_slice(), txid, vout)
        }
    }

    /// Picks a coin, or unpicks it; either way the pick is now the user's.
    pub fn toggle(&mut self, spending: bool, txid: String, vout: u32)
        ensures
            final(self).picked(spending) == toggled(old(self).picked(spending), txid, vout),
            final(self).picked(!spending) == old(self).picked(!spending),
            final(self).touched,
    {
        if spending {
            toggle_outpoint(&mut self.spending, txid, vout);
        } else {
            toggle_outpoint(&mut self.notebook, txid, vout);
        }
        self.touched = true;
    }

    /// Which sources the pick draws on.
    pub fn mode_label(&self) -> (r: &'static str)
        ensures
            r@ == match (self.notebook@.len() > 0, self.spending@.len() > 0) {
                (true, true) => "mixed"@,
                (false, true) => "spending"@,
                (true, false) => "notebook"@,
                (false, false) => "none"@,
            },
    {
        let notebook: bool = self.notebook.len() > 0;
        let spending: bool = self.spending.len() > 0;
        if notebook && spending {
            "mixed"
        } else if spending {
            "spending"
        } else if notebook {
            "notebook"
        } else {
            "none"
        }
    }

    /// Whether coins of the spending wallet take part.
    pub fn spending_participates(&self) -> (r: bool)
        ensures
            r == (self.spending@.len() > 0),
    {
        self.spending.len() > 0
    }

    /// Whether the builder is left to choose among the notebook coins.
    pub fn is_auto(&self) -> (r: bool)
        ensures
            r == (!self.touched && self.spending@.len() == 0),
    {
        !self.touched && self.spending.len() == 0
    }

    /// How many coins are picked.
    pub fn count(&self) -> (r: usize)
        requires
            self.notebook@.len() + self.spending@.len() <= usize::MAX,
        ensures
            r == self.notebook@.len() + self.spending@.len(),
    {
        self.notebook.len() + self.spending.len()
    }
}

/// No outpoint is listed twice.
pub open spec fn distinct_outpoints(list: Seq<(String, u32)>) -> bool {
    forall|i: int, j: int|
        0 <= i < j < list.len() ==> !((#[trigger] list[i]).0@ == (#[trigger] list[j]).0@
            && list[i].1 == list[j].1)
}

/// Toggling flips whether that coin is picked and no other, and a pick that
/// lists no coin twice never comes to list one twice.
pub proof fn toggling_flips_one_coin(
    list: Seq<(String, u32)>,
    txid: String,
    vout: u32,
    other_txid: Seq<char>,
    other_vout: u32,
)
    requires
        distinct_outpoints(list),
    ensures
        distinct_outpoints(toggled(list, txid, vout)),
        outpoint_listed(toggled(list, txid, vout), txid@, vout) == !outpoint_listed(
            list,
            txid@,
            vout,
        ),
        !(other_txid == txid@ && other_vout == vout) ==> outpoint_listed(
            toggled(list, txid, vout),
            other_txid,
            other_vout,
        ) == outpoint_listed(list, other_txid, other_vout),
{
    let p = is_outpoint(txid@, vout);
    first_at_found(list, p);
    let k = first_at(list, p);
    let after = toggled(list, txid, vout);
    if k < list.len() {
        assert forall|i: int, j: int| 0 <= i < j < after.len() implies !((
        #[trigger] after[i]).0@ == (#[trigger] after[j]).0@ && after[i].1 == after[j].1) by {
            let a = if i < k { i } else { i + 1 };
            let b = if j < k { j } else { j + 1 };
            assert(after[i] == list[a] && after[j] == list[b]);
        }
        assert forall|i: int| 0 <= i < after.len() implies !((#[trigger] after[i]).0@ == txid@
            && after[i].1 == vout) by {
            let a = if i < k { i } else { i + 1 };
            assert(after[i] == list[a]);
            assert(p(list[k]));
        }
        if outpoint_listed(list, other_txid, other_vout) && !(other_txid == txid@ && other_vout
            == vout) {
            let i = choose|i: int|
                0 <= i < list.len() && (#[trigger] list[i]).0@ == other_txid && list[i].1
                    == other_vout;
            let a = if i < k { i } else { i - 1 };
            assert(after[a] == list[i]);
        }
    } else {
        assert(after[list.len() as int] == (txid, vout));
        assert forall|i: int, j: int| 0 <= i < j < after.len() implies !((
        #[trigger] after[i]).0@ == (#[trigger] after[j]).0@ && after[i].1 == after[j].1) by {
            assert(after[i] == list[i]);
            assert(!p(list[i]));
            if j < list.len() {
                assert(after[j] == list[j]);
            }
        }
        assert forall|i: int| 0 <= i < list.len() implies !((#[trigger] list[i]).0@ == txid@
            && list[i].1 == vout) by {
            assert(!p(list[i]));
        }
        if outpoint_listed(list, other_txid, other_vout) {
            let i = choose|i: int|
                0 <= i < list.len() && (#[trigger] list[i]).0@ == other_txid && list[i].1
                    == other_vout;
            assert(after[i] == list[i]);
        }
    }
}

/// The outpoints of notebook coins.
pub open spec fn coin_outpoints(utxos: Seq<UtxoRec>) -> Seq<(String, u32)> {
    utxos.map_values(|u: UtxoRec| (u.txid, u.vout))
}

/// The outpoints of spending coins.
pub open spec fn spending_outpoints(utxos: Seq<SpendingUtxo>) -> Seq<(String, u32)> {
    utxos.map_values(|u: SpendingUtxo| (u.txid, u.vout))
}

/// The pick a fresh note starts with: every coin of the spending wallet where
/// that is on and holds any value, every notebook coin otherwise.
pub fn default_funding_pick(st: &State, spending_section: Option<&SpendingSection>) -> (r:
    FundingPick)
    requires
        match spending_section {
            Some(s) => s.enabled ==> sum_of(spending_values(s.utxos@)) <= u64::MAX,
            None => true,
        },
    ensures
        match spending_section {
            Some(s) if s.enabled && sum_of(spending_values(s.utxos@)) > 0 => {
                &&& r.notebook@.len() == 0
                &&& r.spending@ == spending_outpoints(s.utxos@)
                &&& r.spending@.len() == s.utxos@.len()
                &&& forall|i: int|
                    0 <= i < s.utxos@.len() ==> (#[trigger] r.spending@[i]).0 == s.utxos@[i].txid
                        && r.spending@[i].1 == s.utxos@[i].vout
            },
            _ => {
                &&& r.notebook@ == coin_outpoints(st.utxos@)
                &&& r.notebook@.len() == st.utxos@.len()
                &&& forall|i: int|
                    0 <= i < st.utxos@.len() ==> (#[trigger] r.notebook@[i]).0 == st.utxos@[i].txid
                        && r.notebook@[i].1 == st.utxos@[i].vout
                &&& r.spending@.len() == 0
            },
        },
        !r.touched,
{
    match spending_section {
        Some(s) => if s.enabled && s.balance() > 0 {
            let mut spending: Vec<(String, u32)> = Vec::new();
            let mut i: usize = 0;
            while i < s.utxos.len()
                invariant
                    i <= s.utxos.len(),
                    spending@ == spending_outpoints(s.utxos@).take(i as int),
                decreases s.utxos.len() - i,
            {
                spending.push((s.utxos[i].txid.clone(), s.utxos[i].vout));
                i = i + 1;
                assert(spending@ =~= spending_outpoints(s.utxos@).take(i as int));
            }
            assert(spending@ =~= spending_outpoints(s.utxos@));
            return FundingPick { notebook: Vec::new(), spending, touched: false };
        },
        None => {},
    }
    let mut notebook: Vec<(String, u32)> = Vec::new();
    let mut i: usize = 0;
    while i < st.utxos.len()
        invariant
            i <= st.utxos.len(),
            notebook@ == coin_outpoints(st.utxos@).take(i as int),
        decreases st.utxos.len() - i,
    {
        notebook.push((st.utxos[i].txid.clone(), st.utxos[i].vout));
        i = i + 1;
        assert(notebook@ =~= coin_outpoints(st.utxos@).take(i as int));
    }
    assert(notebook@ =~= coin_outpoints(st.utxos@));
    FundingPick { notebook, spending: Vec::new(), touched: false }
}

/// The notebook coins that a list names.
pub open spec fn selected_coins(utxos: Seq<UtxoRec>, list: Seq<(String, u32)>) -> Seq<UtxoRec> {
    utxos.filter(|u: UtxoRec| outpoint_listed(list, u.txid@, u.vout))
}

/// The spending coins that a list names.
pub open spec fn selected_spending(utxos: Seq<SpendingUtxo>, list: Seq<(String, u32)>) -> Seq<
    SpendingUtxo,
> {
    utxos.filter(|u: SpendingUtxo| outpoint_listed(list, u.txid@, u.vout))
}

/// The notebook coins that a list names, in the order of the ledger.
pub fn pick_coins(utxos: &Vec<UtxoRec>, list: &Vec<(String, u32)>) -> (r: Vec<UtxoRec>)
    ensures
        r@ == selected_coins(utxos@, list@),
{
    let ghost keep = |u: UtxoRec| outpoint_listed(list@, u.txid@, u.vout);
    let test = |u: &UtxoRec| -> (b: bool)
        ensures
            b == keep(*u),
        {
            has_outpoint(list.as_slice(), u.txid.as_str(), u.vout)
        };
    copies_where(utxos, test, Ghost(keep))
}

/// The spending coins that a list names, in the order of the ledger.
pub fn pick_spending(utxos: &Vec<SpendingUtxo>, list: &Vec<(String, u32)>) -> (r: Vec<SpendingUtxo>)
    ensures
        r@ == selected_spending(utxos@, list@),
{
    let ghost keep = |u: SpendingUtxo| outpoint_listed(list@, u.txid@, u.vout);
    let test = |u: &SpendingUtxo| -> (b: bool)
        ensures
            b == keep(*u),
        {
            has_outpoint(list.as_slice(), u.txid.as_str(), u.vout)
        };
    copies_where(utxos, test, Ghost(keep))
}

/// What the selected coins of both sources add up to.
pub open spec fn selected_value(
    utxos: Seq<UtxoRec>,
    spending: Seq<SpendingUtxo>,
    notebook_list: Seq<(String, u32)>,
    spending_list: Seq<(String, u32)>,
) -> nat {
    sum_of(selected_coins(utxos, notebook_list).map_values(|u: UtxoRec| u.value)) + sum_of(
        selected_spending(spending, spending_list).map_values(|u: SpendingUtxo| u.value),
    )
}

/// What the picked coins add up to.
pub fn selected_total(
    utxos: &Vec<UtxoRec>,
    spending: &Vec<SpendingUtxo>,
    pick: &FundingPick,
) -> (r: u64)
    requires
        selected_value(utxos@, spending@, pick.notebook@, pick.spending@) <= u64::MAX,
    ensures
        r == selected_value(utxos@, spending@, pick.notebook@, pick.spending@),
{
    let coins: Vec<UtxoRec> = pick_coins(utxos, &pick.notebook);
    let others: Vec<SpendingUtxo> = pick_spending(spending, &pick.spending);
    let value = |u: &SpendingUtxo| -> (n: u64)
        ensures
            n == u.value,
        {
            u.value
        };
    coins_total(&coins) + total_of(&others, value, Ghost(|u: SpendingUtxo| u.value))
}

/// A number of coins and what they add up to.
pub open spec fn coins_text(n: nat, total: nat) -> Seq<char> {
    decimal(n) + " coin(s) \u{b7} "@ + decimal(total) + " sats"@
}

/// A number of coins and what they add up to, as text.
pub fn coins_line(n: usize, total: u64) -> (r: String)
    ensures
        r@ == coins_text(n as nat, total as nat),
{
    let mut out: String = decimal_text(n as u64);
    out.append(" coin(s) \u{b7} ");
    out.append(decimal_text(total).as_str());
    out.append(" sats");
    out
}

/// How the spending wallet is summed up beside the coin list.
pub fn spending_summary(enabled: bool, n: usize, total: u64) -> (r: String)
    ensures
        r@ == if !enabled {
            "Off"@
        } else if total == 0 {
            "No coins"@
        } else {
            coins_text(n as nat, total as nat)
        },
{
    if !enabled {
        "Off".to_owned()
    } else if total == 0 {
        "No coins".to_owned()
    } else {
        coins_line(n, total)
    }
}

/// How the source of the coins is named beside the draft.
pub fn pay_from_label(pick: &FundingPick) -> (r: &'static str)
    ensures
        r@ == match (pick.notebook@.len() > 0, pick.spending@.len() > 0) {
            (true, true) => "Mixed"@,
            (false, true) => "Spending wallet"@,
            _ => "Notebook"@,
        },
{
    if pick.spending.len() == 0 {
        "Notebook"
    } else if pick.notebook.len() == 0 {
        "Spending wallet"
    } else {
        "Mixed"
    }
}

/// The warning shown where a pick links the two sources on chain.
pub open spec fn link_warning_text() -> Seq<char> {
    "This note spends from both the notebook and the spending wallet \u{2014} their addresses become publicly linked on-chain."@
}

/// The warning that the two sources become linked; empty where only one is
/// picked from.
pub fn link_warning(pick: &FundingPick) -> (r: String)
    ensures
        r@ == if pick.notebook@.len() > 0 && pick.spending@.len() > 0 {
            link_warning_text()
        } else {
            Seq::<char>::empty()
        },
{
    if pick.notebook.len() > 0 && pick.spending.len() > 0 {
        "This note spends from both the notebook and the spending wallet \u{2014} their addresses become publicly linked on-chain.".to_owned()
    } else {
        String::new()
    }
}

/// The line under a coin: its transaction id, output number, and the address
/// index that owns it where it belongs to the spending wallet.
pub fn coin_meta(txid: &str, vout: u32, index: Option<u32>) -> (r: String)
    ensures
        r@ == "txid "@ + short_form(txid@) + " \u{b7} output "@ + decimal(vout as nat) + match index {
            Some(i) => " \u{b7} idx "@ + decimal(i as nat),
            None => Seq::<char>::empty(),
        },
{
    let mut out: String = "txid ".to_owned();
    out.append(short_addr(txid).as_str());
    out.append(" \u{b7} output ");
    out.append(decimal_text(vout as u64).as_str());
    match index {
        Some(i) => {
            let mut tail: String = " \u{b7} idx ".to_owned();
            tail.append(decimal_text(i as u64).as_str());
            out.append(tail.as_str());
        },
        None => {
            assert(out@ =~= out@ + Seq::<char>::empty());
        },
    }
    out
}

/// The line of an issued address: its chain, index and address.
pub open spec fn address_text(a: SpendingAddress) -> Seq<char> {
    (if a.chain == 1 {
        "change"@
    } else {
        "receive"@
    }) + "/"@ + decimal(a.index as nat) + "  "@ + a.address@
}

/// The issued addresses, one to a line.
pub fn address_lines(used: &Vec<SpendingAddress>) -> (r: String)
    ensures
        r@ == joined(used@.map_values(|a: SpendingAddress| address_text(a)), "\n"@),
{
    let ghost all = used@.map_values(|a: SpendingAddress| address_text(a));
    let mut lines: Vec<String> = Vec::new();
    let mut i: usize = 0;
    assert(texts_of(lines@) =~= all.take(0));
    while i < used.len()
        invariant
            i <= used.len(),
            all == used@.map_values(|a: SpendingAddress| address_text(a)),
            texts_of(lines@) == all.take(i as int),
        decreases used.len() - i,
    {
        let ghost before = lines@;
        let mut line: String = if used[i].chain == 1 {
            "change".to_owned()
        } else {
            "receive".to_owned()
        };
        line.append("/");
        line.append(decimal_text(used[i].index as u64).as_str());
        line.append("  ");
        line.append(used[i].address.as_str());
        lines.push(line);
        i = i + 1;
        assert(texts_of(lines@) =~= texts_of(before).push(line@));
        assert(texts_of(lines@) =~= all.take(i as int));
    }
    assert(all.take(i as int) =~= all);
    join(&lines, "\n")
}

/// The addresses of a chain that are watched, from its next unused index on;
/// fewer near the end of the index range.
pub open spec fn chain_window(chain: u32, base: u32) -> Seq<(u32, u32)> {
    let n = if base + SPENDING_WINDOW <= u32::MAX {
        SPENDING_WINDOW as int
    } else {
        u32::MAX - base
    };
    Seq::new(n as nat, |i: int| (chain, (base + i) as u32))
}

/// The watched (chain, index) pairs: the receive chain, then the change
/// chain.
pub open spec fn window(next_receive: u32, next_change: u32) -> Seq<(u32, u32)> {
    chain_window(0, next_receive) + chain_window(1, next_change)
}

/// The (chain, index) pairs to watch ahead of what has been issued.
pub fn watch_window(next_receive: u32, next_change: u32) -> (r: Vec<(u32, u32)>)
    ensures
        r@ == window(next_receive, next_change),
{
    let mut out: Vec<(u32, u32)> = Vec::new();
    let mut i: u32 = 0;
    while i < SPENDING_WINDOW && i < u32::MAX - next_receive
        invariant
            i <= chain_window(0, next_receive).len(),
            out@ == chain_window(0, next_receive).take(i as int),
        decreases SPENDING_WINDOW - i,
    {
        out.push((0, next_receive + i));
        i = i + 1;
        assert(out@ =~= chain_window(0, next_receive).take(i as int));
    }
    let ghost first = chain_window(0, next_receive);
    assert(out@ =~= first);
    let mut j: u32 = 0;
    assert(out@ =~= first + chain_window(1, next_change).take(0));
    while j < SPENDING_WINDOW && j < u32::MAX - next_change
        invariant
            j <= chain_window(1, next_change).len(),
            out@ == first + chain_window(1, next_change).take(j as int),
        decreases SPENDING_WINDOW - j,
    {
        out.push((1, next_change + j));
        j = j + 1;
        assert(out@ =~= first + chain_window(1, next_change).take(j as int));
    }
    assert(chain_window(1, next_change).take(j as int) =~= chain_window(1, next_change));
    out
}

/// How the coins of a note are put together.
#[derive(Debug, Clone, Copy, PartialEq, Eq, Structural)]
pub enum ComposeMode {
    /// The builder chooses among the notebook coins.
    Auto,
    /// Exactly the picked notebook coins.
    NotebookExact,
    /// The picked coins of the spending wallet, and of the notebook if any.
    Mixed,
}

/// How the coins of a note are put together.
pub fn compose_mode(pick: &FundingPick) -> (r: ComposeMode)
    ensures
        r == if pick.spending@.len() > 0 {
            ComposeMode::Mixed
        } else if pick.touched {
            ComposeMode::NotebookExact
        } else {
            ComposeMode::Auto
        },
{
    if pick.is_auto() {
        ComposeMode::Auto
    } else if pick.spending_participates() {
        ComposeMode::Mixed
    } else {
        ComposeMode::NotebookExact
    }
}

/// Whether every coin has a well-formed transaction id.
pub open spec fn all_wire(utxos: Seq<UtxoRec>) -> bool {
    forall|i: int| 0 <= i < utxos.len() ==> wire_txid((#[trigger] utxos[i]).txid@) is Some
}

/// The picked notebook coins as inputs; an error where one of them has a
/// malformed transaction id.
pub fn notebook_inputs(utxos: &Vec<UtxoRec>, list: &Vec<(String, u32)>) -> (r: Result<
    Vec<Utxo>,
    String,
>)
    ensures
        ({
            let picked = selected_coins(utxos@, list@);
            if all_wire(picked) {
                r matches Ok(v) && v@.len() == picked.len() && forall|i: int|
                    0 <= i < picked.len() ==> wire_coin_of(#[trigger] picked[i], v@[i])
            } else {
                r matches Err(e) && e@ == "bad notebook txid"@
            }
        }),
{
    let picked: Vec<UtxoRec> = pick_coins(utxos, list);
    let mut out: Vec<Utxo> = Vec::new();
    let mut i: usize = 0;
    while i < picked.len()
        invariant
            i <= picked.len(),
            picked@ == selected_coins(utxos@, list@),
            out@.len() == i,
            forall|j: int| 0 <= j < i ==> wire_coin_of(#[trigger] picked@[j], out@[j]),
        decreases picked.len() - i,
    {
        match txid_to_wire(picked[i].txid.as_str()) {
            Some(txid) => {
                out.push(Utxo { txid, vout: picked[i].vout, value: picked[i].value });
            },
            None => {
                assert(!all_wire(picked@));
                return Err("bad notebook txid".to_owned());
            },
        }
        i = i + 1;
    }
    assert forall|j: int| 0 <= j < picked@.len() implies wire_txid(
        (#[trigger] picked@[j]).txid@,
    ) is Some by {
        assert(wire_coin_of(picked@[j], out@[j]));
    }
    Ok(out)
}

/// A coin of the spending wallet as an input, with the place of its key.
#[derive(Debug, Clone, Copy)]
pub struct SpendingInput {
    pub coin: Utxo,
    pub chain: u32,
    pub index: u32,
}

/// `input` is the spending coin `u`.
pub open spec fn input_of(u: SpendingUtxo, input: SpendingInput) -> bool {
    &&& wire_txid(u.txid@) == Some(input.coin.txid@)
    &&& input.coin.vout == u.vout
    &&& input.coin.value == u.value
    &&& input.chain == u.chain
    &&& input.index == u.index
}

/// A coin of the spending wallet as an input; an error where its transaction
/// id is malformed.
pub fn spending_input(u: &SpendingUtxo) -> (r: Result<SpendingInput, String>)
    ensures
        match r {
            Ok(input) => input_of(*u, input),
            Err(e) => wire_txid(u.txid@) is None && e@ == "bad spending txid"@,
        },
{
    match txid_to_wire(u.txid.as_str()) {
        Some(txid) => Ok(
            SpendingInput {
                coin: Utxo { txid, vout: u.vout, value: u.value },
                chain: u.chain,
                index: u.index,
            },
        ),
        None => Err("bad spending txid".to_owned()),
    }
}

/// The outpoints of the picked coins of the spending wallet, in the order of
/// its ledger.
pub fn spent_outpoints(utxos: &Vec<SpendingUtxo>, list: &Vec<(String, u32)>) -> (r: Vec<
    (String, u32),
>)
    ensures
        r@ == spending_outpoints(selected_spending(utxos@, list@)),
{
    let picked: Vec<SpendingUtxo> = pick_spending(utxos, list);
    let mut out: Vec<(String, u32)> = Vec::new();
    let mut i: usize = 0;
    while i < picked.len()
        invariant
            i <= picked.len(),
            out@ == spending_outpoints(picked@).take(i as int),
        decreases picked.len() - i,
    {
        out.push((picked[i].txid.clone(), picked[i].vout));
        i = i + 1;
        assert(out@ =~= spending_outpoints(picked@).take(i as int));
    }
    assert(out@ =~= spending_outpoints(picked@));
    out
}

/// The outpoints of coins are theirs one for one, in order: none is left out.
pub proof fn every_coin_has_its_outpoint(utxos: Seq<UtxoRec>, spending: Seq<SpendingUtxo>)
    ensures
        coin_outpoints(utxos).len() == utxos.len(),
        forall|i: int|
            0 <= i < utxos.len() ==> (#[trigger] coin_outpoints(utxos)[i]).0 == utxos[i].txid
                && coin_outpoints(utxos)[i].1 == utxos[i].vout,
        spending_outpoints(spending).len() == spending.len(),
        forall|i: int|
            0 <= i < spending.len() ==> (#[trigger] spending_outpoints(spending)[i]).0
                == spending[i].txid && spending_outpoints(spending)[i].1 == spending[i].vout,
{
}

/// A pick that lists the outpoints of all coins selects all coins, and spends
/// exactly what they are worth.
pub proof fn the_default_pick_selects_every_coin(
    utxos: Seq<UtxoRec>,
    spending: Seq<SpendingUtxo>,
)
    ensures
        selected_coins(utxos, coin_outpoints(utxos)) == utxos,
        selected_spending(spending, spending_outpoints(spending)) == spending,
        selected_value(utxos, spending, coin_outpoints(utxos), spending_outpoints(spending))
            == sum_of(utxos.map_values(|u: UtxoRec| u.value)) + sum_of(
            spending.map_values(|u: SpendingUtxo| u.value),
        ),
{
    let own = coin_outpoints(utxos);
    let other = spending_outpoints(spending);
    assert forall|i: int| 0 <= i < utxos.len() implies outpoint_listed(
        own,
        (#[trigger] utxos[i]).txid@,
        utxos[i].vout,
    ) by {
        assert(own[i].0@ == utxos[i].txid@);
    }
    assert forall|i: int| 0 <= i < spending.len() implies outpoint_listed(
        other,
        (#[trigger] spending[i]).txid@,
        spending[i].vout,
    ) by {
        assert(other[i].0@ == spending[i].txid@);
    }
    filter_all(utxos, |u: UtxoRec| outpoint_listed(own, u.txid@, u.vout));
    filter_all(spending, |u: SpendingUtxo| outpoint_listed(other, u.txid@, u.vout));
}

/// A pick selects, in the order of the ledger, exactly the coins whose
/// transaction id and output number it lists, and is worth their sum.
pub proof fn a_pick_selects_what_it_lists(
    utxos: Seq<UtxoRec>,
    spending: Seq<SpendingUtxo>,
    own: Seq<(String, u32)>,
    other: Seq<(String, u32)>,
)
    ensures
        selected_coins(utxos, own) == utxos.filter(
            |u: UtxoRec|
                exists|j: int|
                    0 <= j < own.len() && (#[trigger] own[j]).0@ == u.txid@ && own[j].1 == u.vout,
        ),
        selected_spending(spending, other) == spending.filter(
            |u: SpendingUtxo|
                exists|j: int|
                    0 <= j < other.len() && (#[trigger] other[j]).0@ == u.txid@ && other[j].1
                        == u.vout,
        ),
        selected_value(utxos, spending, own, other) == sum_of(
            selected_coins(utxos, own).map_values(|u: UtxoRec| u.value),
        ) + sum_of(selected_spending(spending, other).map_values(|u: SpendingUtxo| u.value)),
{
    let a = |u: UtxoRec| outpoint_listed(own, u.txid@, u.vout);
    let b = |u: UtxoRec|
        exists|j: int|
            0 <= j < own.len() && (#[trigger] own[j]).0@ == u.txid@ && own[j].1 == u.vout;
    assert(a =~= b);
    let c = |u: SpendingUtxo| outpoint_listed(other, u.txid@, u.vout);
    let d = |u: SpendingUtxo|
        exists|j: int|
            0 <= j < other.len() && (#[trigger] other[j]).0@ == u.txid@ && other[j].1 == u.vout;
    assert(c =~= d);
}

/// Picking a coin adds it behind the others, and picking it once more takes
/// it out again: the pick is as it was.
pub proof fn toggling_twice_restores_a_pick(list: Seq<(String, u32)>, txid: String, vout: u32)
    requires
        forall|j: int|
            0 <= j < list.len() ==> (#[trigger] list[j]).0@ != txid@ || list[j].1 != vout,
    ensures
        toggled(list, txid, vout) == list.push((txid, vout)),
        toggled(toggled(list, txid, vout), txid, vout) == list,
{
    let p = is_outpoint(txid@, vout);
    first_at_is(list, p, list.len() as int);
    let more = list.push((txid, vout));
    assert forall|j: int| 0 <= j < list.len() implies !p(#[trigger] more[j]) by {
        assert(more[j] == list[j]);
    }
    first_at_is(more, p, list.len() as int);
    assert(more.remove(list.len() as int) =~= list);
}

/// Unpicking a coin takes out its first entry and leaves the others in order.
pub proof fn unpicking_keeps_the_other_coins(
    list: Seq<(String, u32)>,
    txid: String,
    vout: u32,
    k: int,
)
    requires
        0 <= k < list.len(),
        list[k].0@ == txid@ && list[k].1 == vout,
        forall|j: int| 0 <= j < k ==> (#[trigger] list[j]).0@ != txid@ || list[j].1 != vout,
    ensures
        toggled(list, txid, vout) == list.take(k) + list.skip(k + 1),
{
    first_at_is(list, is_outpoint(txid@, vout), k);
    assert(list.remove(k) =~= list.take(k) + list.skip(k + 1));
}

/// The watched window is the next 20 indexes of the receive chain and then the
/// next 20 of the change chain, as far as the index range goes.
pub proof fn the_window_is_the_next_twenty_of_each_chain(next_receive: u32, next_change: u32)
    ensures
        forall|chain: u32, index: u32| #[trigger]
            window(next_receive, next_change).contains((chain, index)) <==> index < u32::MAX && (
            (chain == 0 && next_receive <= index < next_receive + 20) || (chain == 1
                && next_change <= index < next_change + 20)),
        next_receive + 20 <= u32::MAX && next_change + 20 <= u32::MAX ==> {
            let w = window(next_receive, next_change);
            &&& w.len() == 40
            &&& forall|i: int|
                0 <= i < 20 ==> (#[trigger] w[i]).0 == 0 && w[i].1 == next_receive + i
            &&& forall|i: int|
                20 <= i < 40 ==> (#[trigger] w[i]).0 == 1 && w[i].1 == next_change + i - 20
        },
{
    let w = window(next_receive, next_change);
    let a = chain_window(0, next_receive);
    let b = chain_window(1, next_change);
    assert forall|chain: u32, index: u32| #[trigger] w.contains((chain, index)) <==> index < u32::MAX
        && ((chain == 0 && next_receive <= index < next_receive + 20) || (chain == 1 && next_change
        <= index < next_change + 20)) by {
        if w.contains((chain, index)) {
            let i = choose|i: int| 0 <= i < w.len() && w[i] == (chain, index);
            if i < a.len() {
                assert(w[i] == a[i]);
            } else {
                assert(w[i] == b[i - a.len()]);
            }
        }
        if chain == 0 && next_receive <= index < next_receive + 20 && index < u32::MAX {
            assert(w[index - next_receive] == a[index - next_receive]);
        }
        if chain == 1 && next_change <= index < next_change + 20 && index < u32::MAX {
            assert(w[a.len() + (index - next_change)] == b[index - next_change]);
        }
    }
}

/// A coin of the spending wallet becomes an input with its own outpoint and
/// value, signed by the key of its own place.
pub proof fn inputs_keep_the_place_of_their_coin(u: SpendingUtxo, input: SpendingInput)
    requires
        input_of(u, input),
    ensures
        wire_txid(u.txid@) == Some(input.coin.txid@),
        input.coin.vout == u.vout,
        input.coin.value == u.value,
        input.chain == u.chain,
        input.index == u.index,
{
}

/// The key of a coin names its ledger, its transaction id and its output
/// number, and a key of any other ledger is read as the notebook's.
pub proof fn keys_name_their_coin(
    ledger: Seq<char>,
    txid: Seq<char>,
    vout: u32,
    number: Seq<char>,
)
    requires
        !ledger.contains(':'),
        !txid.contains(':'),
    ensures
        coin_key(true, txid, vout) == "spending:"@ + txid + ":"@ + decimal(vout as nat),
        coin_key(false, txid, vout) == "notebook:"@ + txid + ":"@ + decimal(vout as nat),
        ({
            let key = ledger + ":"@ + txid + ":"@ + number;
            let n = number_up_to(number, u32::MAX as int);
            &&& n is None ==> coin_key_parts(key) is None
            &&& n is Some ==> coin_key_parts(key) == Some((ledger == "spending"@, txid, n->0))
        }),
        coin_key_parts(ledger) is None,
        coin_key_parts(ledger + ":"@ + txid) is None,
{
    reveal_strlit("spending:");
    reveal_strlit("notebook:");
    reveal_strlit("spending");
    reveal_strlit("notebook");
    reveal_strlit(":");
    assert("spending"@ + ":"@ =~= "spending:"@);
    assert("notebook"@ + ":"@ =~= "notebook:"@);
    let colon = |c: char| c == ':';
    let tail = txid + ":"@ + number;
    let key = ledger + ":"@ + txid + ":"@ + number;
    let short = ledger + ":"@ + txid;
    assert forall|j: int| 0 <= j < ledger.len() implies !colon(#[trigger] ledger[j]) by {
        assert(ledger.contains(ledger[j]));
    }
    assert forall|j: int| 0 <= j < txid.len() implies !colon(#[trigger] txid[j]) by {
        assert(txid.contains(txid[j]));
    }
    first_at_is(ledger, colon, ledger.len() as int);
    first_at_is(txid, colon, txid.len() as int);
    assert forall|j: int| 0 <= j < ledger.len() implies !colon(#[trigger] key[j]) by {
        assert(key[j] == ledger[j]);
    }
    assert(key[ledger.len() as int] == ':');
    first_at_is(key, colon, ledger.len() as int);
    assert(key.skip(ledger.len() as int + 1) =~= tail);
    assert(key.take(ledger.len() as int) =~= ledger);
    assert forall|j: int| 0 <= j < txid.len() implies !colon(#[trigger] tail[j]) by {
        assert(tail[j] == txid[j]);
    }
    assert(tail[txid.len() as int] == ':');
    first_at_is(tail, colon, txid.len() as int);
    assert(tail.skip(txid.len() as int + 1) =~= number);
    assert(tail.take(txid.len() as int) =~= txid);
    assert forall|j: int| 0 <= j < ledger.len() implies !colon(#[trigger] short[j]) by {
        assert(short[j] == ledger[j]);
    }
    assert(short[ledger.len() as int] == ':');
    first_at_is(short, colon, ledger.len() as int);
    assert(short.skip(ledger.len() as int + 1) =~= txid);
}

/// An issued address is shown with its chain, its index and its text.
pub proof fn addresses_are_shown_with_their_place(a: SpendingAddress)
    ensures
        a.chain == 1 ==> address_text(a) == "change"@ + "/"@ + decimal(a.index as nat) + "  "@
            + a.address@,
        a.chain != 1 ==> address_text(a) == "receive"@ + "/"@ + decimal(a.index as nat) + "  "@
            + a.address@,
{
}

/// A pick has one list for either ledger.
pub proof fn a_pick_has_a_list_for_either_ledger(pick: FundingPick)
    ensures
        pick.picked(true) == pick.spending@,
        pick.picked(false) == pick.notebook@,
{
}

}
