//! Sweeping and consolidating: one transaction that spends every coin of
//! every visible notebook, to an outside address or into one coin.

use crate::coins::{
    coin_values, coins_total, has_outpoint, outpoint_listed, sum_of, wire_coin_of, wire_coins, Utxo,
    UtxoRec,
};
use crate::hexcodec::{display_reads_back, display_txid, is_lower_hex, txid_to_display, wire_txid};
use crate::labels::{short_addr, short_form};
use crate::lists::retain_where;
use crate::ordering::{
    picked, sorting_keeps_the_items_and_orders_them, stable_order, stable_sort, stably_sorted,
};
use crate::seqs::{filter_all, filtered_is_from};
use crate::text::{decimal, decimal_text};
use vstd::prelude::*;

verus! {

/// A signed sweep that waits for the user to confirm it.
#[derive(Debug)]
pub struct SweepPlan {
    /// Transaction id, display text.
    pub txid_hex: String,
    pub raw_hex: String,
    pub fee: u64,
    pub vsize: u64,
    /// The value of the one output.
    pub recv: u64,
    /// Whether the output is a coin of the wallet.
    pub consolidate: bool,
    /// Where a sweep goes.
    pub dest: Option<String>,
    /// The outpoints that each notebook contributed.
    pub spent_by_account: Vec<(u32, Vec<(String, u32)>)>,
    /// The notebook that a consolidated coin lands in.
    pub dest_account: u32,
}

/// Whether the sweep spends a coin of a notebook.
pub open spec fn sweeps_coin(
    spent: Seq<(u32, Vec<(String, u32)>)>,
    account: u32,
    txid: Seq<char>,
    vout: u32,
) -> bool {
    exists|i: int|
        0 <= i < spent.len() && (#[trigger] spent[i]).0 == account && outpoint_listed(
            spent[i].1@,
            txid,
            vout,
        )
}

/// Whether the sweep spends a coin of a notebook.
fn is_swept(spent: &Vec<(u32, Vec<(String, u32)>)>, account: u32, txid: &str, vout: u32) -> (r: bool)
    ensures
        r == sweeps_coin(spent@, account, txid@, vout),
{
    let mut i: usize = 0;
    while i < spent.len()
        invariant
            i <= spent.len(),
            forall|j: int|
                0 <= j < i ==> !((#[trigger] spent@[j]).0 == account && outpoint_listed(
                    spent@[j].1@,
                    txid@,
                    vout,
                )),
        decreases spent.len() - i,
    {
        if spent[i].0 == account && has_outpoint(spent[i].1.as_slice(), txid, vout) {
            return true;
        }
        i = i + 1;
    }
    false
}

/// The coins of a notebook that the sweep does not spend.
pub open spec fn coins_unswept(
    utxos: Seq<UtxoRec>,
    spent: Seq<(u32, Vec<(String, u32)>)>,
    account: u32,
) -> Seq<UtxoRec> {
    utxos.filter(|u: UtxoRec| !sweeps_coin(spent, account, u.txid@, u.vout))
}

impl SweepPlan {
    /// Whether the ledger of a notebook changes.
    pub open spec fn concerns(&self, account: u32) -> bool {
        ||| self.consolidate && account == self.dest_account
        ||| exists|i: int|
            0 <= i < self.spent_by_account@.len() && (#[trigger] self.spent_by_account@[i]).0
                == account
    }

    /// The coins that the sweep adds to the ledger of a notebook.
    pub open spec fn new_coins(&self, account: u32) -> Seq<UtxoRec> {
        if self.consolidate && account == self.dest_account {
            seq![UtxoRec { txid: self.txid_hex, vout: 0, value: self.recv }]
        } else {
            seq![]
        }
    }

    /// How many coins the sweep spends.
    pub open spec fn inputs(&self) -> nat {
        spent_count(self.spent_by_account@)
    }
}

/// How many outpoints the notebooks contributed.
pub open spec fn spent_count(spent: Seq<(u32, Vec<(String, u32)>)>) -> nat
    decreases spent.len(),
{
    if spent.len() == 0 {
        0
    } else {
        spent_count(spent.drop_last()) + spent.last().1@.len()
    }
}

/// Settles the ledger of one notebook: its spent coins go, and the new coin
/// comes where it lands there.
pub fn settle_sweep(utxos: &mut Vec<UtxoRec>, account: u32, plan: &SweepPlan)
    ensures
        final(utxos)@ == coins_unswept(old(utxos)@, plan.spent_by_account@, account)
            + plan.new_coins(account),
{
    let ghost all = utxos@;
    let ghost keep = |u: UtxoRec| !sweeps_coin(plan.spent_by_account@, account, u.txid@, u.vout);
    let test = |u: &UtxoRec| -> (b: bool)
        ensures
            b == keep(*u),
        {
            !is_swept(&plan.spent_by_account, account, u.txid.as_str(), u.vout)
        };
    retain_where(utxos, test, Ghost(keep));
    if plan.consolidate && account == plan.dest_account {
        utxos.push(UtxoRec { txid: plan.txid_hex.clone(), vout: 0, value: plan.recv });
    }
    assert(utxos@ =~= all.filter(keep) + plan.new_coins(account));
}

/// The notebooks whose ledgers change, each once.
pub fn sweep_accounts(plan: &SweepPlan) -> (r: Vec<u32>)
    ensures
        forall|a: u32| #[trigger] r@.contains(a) == plan.concerns(a),
        r@.no_duplicates(),
{
    let mut out: Vec<u32> = Vec::new();
    let mut i: usize = 0;
    while i < plan.spent_by_account.len()
        invariant
            i <= plan.spent_by_account.len(),
            out@.no_duplicates(),
            forall|a: u32| #[trigger]
                out@.contains(a) == exists|j: int|
                    0 <= j < i && (#[trigger] plan.spent_by_account@[j]).0 == a,
        decreases plan.spent_by_account.len() - i,
    {
        let ghost before = out@;
        let account: u32 = plan.spent_by_account[i].0;
        push_once(&mut out, account);
        assert forall|a: u32| #[trigger] out@.contains(a) == exists|j: int|
            0 <= j < i + 1 && (#[trigger] plan.spent_by_account@[j]).0 == a by {
            assert(out@.contains(a) == (before.contains(a) || a == account));
            if a == account {
                assert(plan.spent_by_account@[i as int].0 == a);
            }
        }
        i = i + 1;
    }
    if plan.consolidate {
        push_once(&mut out, plan.dest_account);
    }
    out
}

/// Adds a number to a list that does not hold it yet.
fn push_once(list: &mut Vec<u32>, n: u32)
    requires
        old(list)@.no_duplicates(),
    ensures
        final(list)@.no_duplicates(),
        forall|a: u32| #[trigger]
            final(list)@.contains(a) == (old(list)@.contains(a) || a == n),
{
    let ghost before = list@;
    let mut i: usize = 0;
    while i < list.len()
        invariant
            i <= list.len(),
            list@ == before,
            before == old(list)@,
            before.no_duplicates(),
            forall|j: int| 0 <= j < i ==> #[trigger] before[j] != n,
        decreases list.len() - i,
    {
        if list[i] == n {
            assert(before.contains(n));
            return;
        }
        i = i + 1;
    }
    list.push(n);
    assert forall|a: u32| #[trigger] list@.contains(a) == (before.contains(a) || a == n) by {
        if before.contains(a) {
            let j = choose|j: int| 0 <= j < before.len() && before[j] == a;
            assert(list@[j] == a);
        }
        if a == n {
            assert(list@[before.len() as int] == n);
        }
    }
}

/// How many coins a sweep spends.
pub fn swept_inputs(plan: &SweepPlan) -> (r: usize)
    requires
        plan.inputs() <= usize::MAX,
    ensures
        r == plan.inputs(),
{
    let ghost spent = plan.spent_by_account@;
    let mut n: usize = 0;
    let mut i: usize = 0;
    while i < plan.spent_by_account.len()
        invariant
            i <= plan.spent_by_account.len(),
            spent == plan.spent_by_account@,
            spent_count(spent) <= usize::MAX,
            n == spent_count(spent.take(i as int)),
        decreases plan.spent_by_account.len() - i,
    {
        proof {
            assert(spent.take(i + 1).drop_last() =~= spent.take(i as int));
            spent_count_take_le(spent, i + 1);
        }
        n = n + plan.spent_by_account[i].1.len();
        i = i + 1;
    }
    assert(spent.take(i as int) =~= spent);
    n
}

/// A count is no less than the count of a beginning.
proof fn spent_count_take_le(spent: Seq<(u32, Vec<(String, u32)>)>, n: int)
    requires
        0 <= n <= spent.len(),
    ensures
        spent_count(spent.take(n)) <= spent_count(spent),
    decreases spent.len() - n,
{
    if n < spent.len() {
        spent_count_take_le(spent, n + 1);
        assert(spent.take(n + 1).drop_last() =~= spent.take(n));
    } else {
        assert(spent.take(n) =~= spent);
    }
}

/// The outpoints of coins, with display transaction ids.
pub fn coin_outpoint_texts(coins: &Vec<Utxo>) -> (r: Vec<(String, u32)>)
    ensures
        r@.len() == coins@.len(),
        forall|i: int|
            0 <= i < r@.len() ==> (#[trigger] r@[i]).0@ == display_txid(coins@[i].txid@)
                && r@[i].1 == coins@[i].vout,
{
    let mut out: Vec<(String, u32)> = Vec::new();
    let mut i: usize = 0;
    while i < coins.len()
        invariant
            i <= coins.len(),
            out@.len() == i,
            forall|j: int|
                0 <= j < i ==> (#[trigger] out@[j]).0@ == display_txid(coins@[j].txid@)
                    && out@[j].1 == coins@[j].vout,
        decreases coins.len() - i,
    {
        out.push((txid_to_display(&coins[i].txid), coins[i].vout));
        i = i + 1;
    }
    out
}

/// A ledger whose transaction ids are written in lower case, as they are
/// displayed, is empty once its coins are swept.
pub proof fn sweeping_empties_the_ledger(
    utxos: Seq<UtxoRec>,
    coins: Seq<Utxo>,
    shown: Vec<(String, u32)>,
    spent: Seq<(u32, Vec<(String, u32)>)>,
    account: u32,
    k: int,
)
    requires
        forall|i: int|
            0 <= i < utxos.len() ==> is_lower_hex((#[trigger] utxos[i]).txid@)
                && utxos[i].txid@.len() == 64,
        wire_coins(utxos, coins),
        shown@.len() == coins.len(),
        forall|i: int|
            0 <= i < shown@.len() ==> (#[trigger] shown@[i]).0@ == display_txid(coins[i].txid@)
                && shown@[i].1 == coins[i].vout,
        0 <= k < spent.len(),
        spent[k] == (account, shown),
    ensures
        coins_unswept(utxos, spent, account).len() == 0,
{
    let good = |u: UtxoRec| wire_txid(u.txid@) is Some;
    let keep = |u: UtxoRec| !sweeps_coin(spent, account, u.txid@, u.vout);
    assert forall|i: int| 0 <= i < utxos.len() implies good(#[trigger] utxos[i]) by {
        display_reads_back(utxos[i].txid@);
    }
    filter_all(utxos, good);
    assert forall|i: int| 0 <= i < utxos.len() implies !keep(#[trigger] utxos[i]) by {
        display_reads_back(utxos[i].txid@);
        assert(wire_coin_of(utxos.filter(good)[i], coins[i]));
        assert(shown@[i].0@ == utxos[i].txid@ && shown@[i].1 == utxos[i].vout);
        assert(spent[k].0 == account);
    }
    let left = utxos.filter(keep);
    if left.len() > 0 {
        filtered_is_from(utxos, keep, 0);
    }
}

/// How many coins the ledgers hold together.
pub open spec fn coin_count(ledgers: Seq<Vec<UtxoRec>>) -> nat
    decreases ledgers.len(),
{
    if ledgers.len() == 0 {
        0
    } else {
        coin_count(ledgers.drop_last()) + ledgers.last()@.len()
    }
}

/// What the coins of the ledgers add up to.
pub open spec fn wallet_value(ledgers: Seq<Vec<UtxoRec>>) -> nat
    decreases ledgers.len(),
{
    if ledgers.len() == 0 {
        0
    } else {
        wallet_value(ledgers.drop_last()) + sum_of(coin_values(ledgers.last()@))
    }
}

/// Counts and values never shrink with more ledgers.
proof fn wallet_take_le(ledgers: Seq<Vec<UtxoRec>>, n: int)
    requires
        0 <= n <= ledgers.len(),
    ensures
        coin_count(ledgers.take(n)) <= coin_count(ledgers),
        wallet_value(ledgers.take(n)) <= wallet_value(ledgers),
    decreases ledgers.len() - n,
{
    if n < ledgers.len() {
        wallet_take_le(ledgers, n + 1);
        assert(ledgers.take(n + 1).drop_last() =~= ledgers.take(n));
    } else {
        assert(ledgers.take(n) =~= ledgers);
    }
}

/// How many coins the notebooks of the wallet hold, and their value.
pub fn wallet_balance(ledgers: &Vec<Vec<UtxoRec>>) -> (r: (usize, u64))
    requires
        coin_count(ledgers@) <= usize::MAX,
        wallet_value(ledgers@) <= u64::MAX,
    ensures
        r.0 == coin_count(ledgers@),
        r.1 == wallet_value(ledgers@),
{
    let mut n: usize = 0;
    let mut total: u64 = 0;
    let mut i: usize = 0;
    while i < ledgers.len()
        invariant
            i <= ledgers.len(),
            coin_count(ledgers@) <= usize::MAX,
            wallet_value(ledgers@) <= u64::MAX,
            n == coin_count(ledgers@.take(i as int)),
            total == wallet_value(ledgers@.take(i as int)),
        decreases ledgers.len() - i,
    {
        proof {
            assert(ledgers@.take(i + 1).drop_last() =~= ledgers@.take(i as int));
            wallet_take_le(ledgers@, i + 1);
        }
        n = n + ledgers[i].len();
        total = total + coins_total(&ledgers[i]);
        i = i + 1;
    }
    assert(ledgers@.take(i as int) =~= ledgers@);
    (n, total)
}

/// A coin of the wallet with the name of its notebook.
#[derive(Debug)]
pub struct WalletCoin {
    pub value: u64,
    pub notebook: String,
    pub txid: String,
    pub vout: u32,
}

/// The sort keys that put the most valuable coin first.
pub open spec fn value_keys(coins: Seq<WalletCoin>) -> Seq<u128> {
    coins.map_values(|c: WalletCoin| (u64::MAX - c.value) as u128)
}

/// Sorts coins by value, the most valuable first; coins of equal value keep
/// their order.
pub fn sort_by_value(coins: &mut Vec<WalletCoin>)
    ensures
        stably_sorted(old(coins)@, value_keys(old(coins)@), final(coins)@),
{
    let mut keys: Vec<u128> = Vec::new();
    let mut i: usize = 0;
    while i < coins.len()
        invariant
            i <= coins.len(),
            coins@ == old(coins)@,
            keys@ == value_keys(coins@).take(i as int),
        decreases coins.len() - i,
    {
        keys.push((u64::MAX - coins[i].value) as u128);
        i = i + 1;
        assert(keys@ =~= value_keys(coins@).take(i as int));
    }
    assert(keys@ =~= value_keys(coins@));
    stable_sort(coins, &mut keys);
}

/// What a sweep leaves of the wallet's value, where that is enough for an
/// output.
pub open spec fn sweep_receives(total: int, fee: int, dust_limit: int) -> Option<int> {
    if total <= fee || total - fee < dust_limit {
        None
    } else {
        Some(total - fee)
    }
}

/// The line about the inputs of a sweep.
pub fn sweep_inputs_line(n: usize, total: u64) -> (r: String)
    ensures
        r@ == "Inputs \u{b7} "@ + decimal(n as nat) + " coin(s) \u{b7} "@ + decimal(total as nat)
            + " sats (all notebooks)"@,
{
    let mut out: String = "Inputs \u{b7} ".to_owned();
    out.append(decimal_text(n as u64).as_str());
    out.append(" coin(s) \u{b7} ");
    out.append(decimal_text(total).as_str());
    out.append(" sats (all notebooks)");
    out
}

/// The cost line of a sweep that can be made.
pub open spec fn sweep_text(
    consolidate: bool,
    n: nat,
    total: nat,
    vsize: nat,
    fee_text: Seq<char>,
    rate_text: Seq<char>,
    recv: nat,
) -> Seq<char> {
    if consolidate {
        "Consolidates "@ + decimal(n) + " coins into one \u{b7} ~"@ + decimal(vsize)
            + " vB \u{b7} fee ~"@ + fee_text + " @ "@ + rate_text + " sat/vB \u{b7} keeps "@ + decimal(
            recv,
        ) + " sats"@
    } else {
        "Sweeps "@ + decimal(total) + " sats \u{b7} ~"@ + decimal(vsize) + " vB \u{b7} fee ~"@
            + fee_text + " @ "@ + rate_text + " sat/vB \u{b7} destination receives "@ + decimal(recv)
            + " sats"@
    }
}

/// The cost line of a sweep of `n` coins worth `total`, and whether it can be
/// made: where what is left after the fee is at least the dust limit.
pub fn sweep_quote(
    consolidate: bool,
    n: usize,
    total: u64,
    vsize: usize,
    fee: u64,
    dust_limit: u64,
    fee_text: &str,
    rate_text: &str,
) -> (r: (String, bool))
    ensures
        match sweep_receives(total as int, fee as int, dust_limit as int) {
            Some(recv) => {
                &&& r.1
                &&& r.0@ == sweep_text(
                    consolidate,
                    n as nat,
                    total as nat,
                    vsize as nat,
                    fee_text@,
                    rate_text@,
                    recv as nat,
                )
            },
            None => {
                &&& !r.1
                &&& r.0@ == "Balance "@ + decimal(total as nat) + " sats can't cover the ~"@
                    + decimal(fee as nat) + " sat fee."@
            },
        },
{
    if total <= fee || total - fee < dust_limit {
        let mut out: String = "Balance ".to_owned();
        out.append(decimal_text(total).as_str());
        out.append(" sats can't cover the ~");
        out.append(decimal_text(fee).as_str());
        out.append(" sat fee.");
        return (out, false);
    }
    let recv: u64 = total - fee;
    if consolidate {
        let mut out: String = "Consolidates ".to_owned();
        out.append(decimal_text(n as u64).as_str());
        out.append(" coins into one \u{b7} ~");
        out.append(decimal_text(vsize as u64).as_str());
        out.append(" vB \u{b7} fee ~");
        out.append(fee_text);
        out.append(" @ ");
        out.append(rate_text);
        out.append(" sat/vB \u{b7} keeps ");
        out.append(decimal_text(recv).as_str());
        out.append(" sats");
        (out, true)
    } else {
        let mut out: String = "Sweeps ".to_owned();
        out.append(decimal_text(total).as_str());
        out.append(" sats \u{b7} ~");
        out.append(decimal_text(vsize as u64).as_str());
        out.append(" vB \u{b7} fee ~");
        out.append(fee_text);
        out.append(" @ ");
        out.append(rate_text);
        out.append(" sat/vB \u{b7} destination receives ");
        out.append(decimal_text(recv).as_str());
        out.append(" sats");
        (out, true)
    }
}

/// The line above a sweep that waits for confirmation; it warns where coins
/// of several notebooks are linked.
pub fn sweep_context_line(consolidate: bool, network: &str, n_notebooks: usize) -> (r: String)
    ensures
        r@ == (if consolidate {
            "Consolidate"@
        } else {
            "Sweep"@
        }) + " \u{b7} "@ + network@ + if n_notebooks > 1 {
            " - spends coins from "@ + decimal(n_notebooks as nat)
                + " notebooks, publicly linking their addresses on-chain."@
        } else {
            Seq::<char>::empty()
        },
{
    let mut out: String = if consolidate {
        "Consolidate".to_owned()
    } else {
        "Sweep".to_owned()
    };
    out.append(" \u{b7} ");
    out.append(network);
    let mut tail = String::new();
    if n_notebooks > 1 {
        tail = " - spends coins from ".to_owned();
        tail.append(decimal_text(n_notebooks as u64).as_str());
        tail.append(" notebooks, publicly linking their addresses on-chain.");
    }
    out.append(tail.as_str());
    out
}

/// What was done, as the first line after signing a sweep.
pub open spec fn sweep_done_text(plan: SweepPlan, inputs: nat) -> Seq<char> {
    if plan.consolidate {
        "Consolidated "@ + decimal(inputs) + " coin(s) into one \u{b7} "@ + decimal(
            plan.recv as nat,
        ) + " sats"@
    } else {
        match plan.dest {
            Some(d) => "Swept "@ + decimal(inputs) + " coin(s) \u{b7} "@ + decimal(plan.recv as nat)
                + " sats to "@ + short_form(d@),
            None => "Swept "@ + decimal(inputs) + " coin(s) \u{b7} "@ + decimal(plan.recv as nat)
                + " sats"@,
        }
    }
}

/// The summary after signing a sweep.
pub fn sweep_summary(plan: &SweepPlan) -> (r: String)
    requires
        plan.inputs() <= usize::MAX,
    ensures
        r@ == sweep_done_text(*plan, plan.inputs()) + "\nfee "@ + decimal(plan.fee as nat)
            + " sats \u{b7} "@ + decimal(plan.vsize as nat) + " vB\ntxid: "@ + plan.txid_hex@,
{
    let inputs: usize = swept_inputs(plan);
    let mut out: String = if plan.consolidate {
        let mut line: String = "Consolidated ".to_owned();
        line.append(decimal_text(inputs as u64).as_str());
        line.append(" coin(s) into one \u{b7} ");
        line.append(decimal_text(plan.recv).as_str());
        line.append(" sats");
        line
    } else {
        let mut line: String = "Swept ".to_owned();
        line.append(decimal_text(inputs as u64).as_str());
        line.append(" coin(s) \u{b7} ");
        line.append(decimal_text(plan.recv).as_str());
        match &plan.dest {
            Some(d) => {
                line.append(" sats to ");
                line.append(short_addr(d.as_str()).as_str());
            },
            None => {
                line.append(" sats");
            },
        }
        line
    };
    out.append("\nfee ");
    out.append(decimal_text(plan.fee).as_str());
    out.append(" sats \u{b7} ");
    out.append(decimal_text(plan.vsize).as_str());
    out.append(" vB\ntxid: ");
    out.append(plan.txid_hex.as_str());
    out
}

/// How a coin of the wallet is listed.
pub fn wallet_coin_label(c: &WalletCoin) -> (r: String)
    ensures
        r@ == decimal(c.value as nat) + " sats \u{b7} "@ + c.notebook@,
{
    let mut out: String = decimal_text(c.value);
    out.append(" sats \u{b7} ");
    out.append(c.notebook.as_str());
    out
}

/// The line that sums up the coins of the wallet. Their value is given as
/// text because it may show a price beside it.
pub fn wallet_summary(n: usize, value_text: &str, notebooks: usize) -> (r: String)
    ensures
        r@ == decimal(n as nat) + " coin(s) \u{b7} "@ + value_text@ + " across "@ + decimal(
            notebooks as nat,
        ) + " notebook(s)"@,
{
    let mut out: String = decimal_text(n as u64);
    out.append(" coin(s) \u{b7} ");
    out.append(value_text);
    out.append(" across ");
    out.append(decimal_text(notebooks as u64).as_str());
    out.append(" notebook(s)");
    out
}

/// Whether there is anything to consolidate.
pub fn can_consolidate(n: usize) -> (r: bool)
    ensures
        r == (n >= 2),
{
    n >= 2
}

/// Why a sweep cannot be priced, the first reason that applies: there is no
/// coin, the fee rate is no number, or the destination is no address. A
/// consolidation has no destination to check.
pub fn sweep_problem(
    n: usize,
    rate_error: Option<String>,
    consolidate: bool,
    dest_valid: bool,
    network: &str,
) -> (r: Option<String>)
    ensures
        if n == 0 {
            r matches Some(e) && e@ == "Nothing to sweep \u{2014} no spendable coins."@
        } else if rate_error is Some {
            r == rate_error
        } else if !consolidate && !dest_valid {
            r matches Some(e) && e@ == "Destination is not a valid "@ + network@ + " address."@
        } else {
            r is None
        },
{
    if n == 0 {
        return Some("Nothing to sweep \u{2014} no spendable coins.".to_owned());
    }
    if rate_error.is_some() {
        return rate_error;
    }
    if !consolidate && !dest_valid {
        let mut out: String = "Destination is not a valid ".to_owned();
        out.append(network);
        out.append(" address.");
        return Some(out);
    }
    None
}

/// The most valuable coins of the wallet come first.
pub proof fn most_valuable_coins_come_first(
    coins: Seq<WalletCoin>,
    list: Seq<WalletCoin>,
    i: int,
    j: int,
)
    requires
        stably_sorted(coins, value_keys(coins), list),
        0 <= i < j < list.len(),
    ensures
        list[i].value >= list[j].value,
{
    let keys = value_keys(coins);
    let p = choose|p: Seq<int>| #[trigger] stable_order(keys, p) && picked(coins, p, list);
    assert(list[i] == coins[p[i]] && list[j] == coins[p[j]]);
    assert(keys[p[i]] == u64::MAX - list[i].value && keys[p[j]] == u64::MAX - list[j].value);
}

/// A sweep that is quoted as payable pays out all that the fee leaves, which
/// is at least the dust limit.
pub proof fn sweeps_balance(total: int, fee: int, dust_limit: int)
    ensures
        match sweep_receives(total, fee, dust_limit) {
            Some(recv) => recv + fee == total && recv >= dust_limit && recv > 0,
            None => total - fee < dust_limit || total <= fee,
        },
{
}

/// A sweep leaves in a notebook, in order, exactly the coins that it does not
/// list for that notebook.
pub proof fn exactly_the_listed_coins_are_swept(
    utxos: Seq<UtxoRec>,
    spent: Seq<(u32, Vec<(String, u32)>)>,
    account: u32,
)
    ensures
        coins_unswept(utxos, spent, account) == utxos.filter(
            |u: UtxoRec|
                forall|i: int, j: int|
                    0 <= i < spent.len() && spent[i].0 == account && 0 <= j < spent[i].1@.len()
                        ==> (#[trigger] spent[i].1@[j]).0@ != u.txid@ || spent[i].1@[j].1 != u.vout,
        ),
{
    let left = |u: UtxoRec| !sweeps_coin(spent, account, u.txid@, u.vout);
    let unnamed = |u: UtxoRec|
        forall|i: int, j: int|
            0 <= i < spent.len() && spent[i].0 == account && 0 <= j < spent[i].1@.len() ==> (
            #[trigger] spent[i].1@[j]).0@ != u.txid@ || spent[i].1@[j].1 != u.vout;
    assert forall|u: UtxoRec| #[trigger] left(u) == unnamed(u) by {
        if !left(u) {
            let i = choose|i: int|
                0 <= i < spent.len() && (#[trigger] spent[i]).0 == account && outpoint_listed(
                    spent[i].1@,
                    u.txid@,
                    u.vout,
                );
            let list = spent[i].1@;
            let j = choose|j: int|
                0 <= j < list.len() && (#[trigger] list[j]).0@ == u.txid@ && list[j].1 == u.vout;
            assert(spent[i].1@[j].0@ == u.txid@);
        }
        if !unnamed(u) {
            let (i, j) = choose|i: int, j: int|
                0 <= i < spent.len() && spent[i].0 == account && 0 <= j < spent[i].1@.len() && (
                #[trigger] spent[i].1@[j]).0@ == u.txid@ && spent[i].1@[j].1 == u.vout;
            assert(outpoint_listed(spent[i].1@, u.txid@, u.vout));
            assert(spent[i].0 == account);
        }
    }
    assert(left =~= unnamed);
}

/// A consolidation pays its one output into the notebook it was made for, and
/// no sweep adds a coin anywhere else. Every notebook that gave or gets a coin
/// is concerned, and no other.
pub proof fn the_new_coin_lands_in_one_notebook(plan: SweepPlan, account: u32)
    ensures
        plan.consolidate && account == plan.dest_account ==> {
            &&& plan.new_coins(account).len() == 1
            &&& plan.new_coins(account)[0].txid == plan.txid_hex
            &&& plan.new_coins(account)[0].vout == 0
            &&& plan.new_coins(account)[0].value == plan.recv
            &&& plan.concerns(account)
        },
        !plan.consolidate || account != plan.dest_account ==> plan.new_coins(account).len() == 0,
        forall|i: int|
            0 <= i < plan.spent_by_account@.len() && (#[trigger] plan.spent_by_account@[i]).0
                == account ==> plan.concerns(account),
        plan.concerns(account) ==> (plan.consolidate && account == plan.dest_account) || exists|
            i: int,
        |
            0 <= i < plan.spent_by_account@.len() && (#[trigger] plan.spent_by_account@[i]).0
                == account,
{
}

/// Every notebook counts with all its coins: one more notebook adds as many
/// inputs as it lists, and as many coins and as much value as it holds.
pub proof fn every_notebook_counts(
    spent: Seq<(u32, Vec<(String, u32)>)>,
    more: (u32, Vec<(String, u32)>),
    ledgers: Seq<Vec<UtxoRec>>,
    ledger: Vec<UtxoRec>,
)
    ensures
        spent_count(Seq::<(u32, Vec<(String, u32)>)>::empty()) == 0,
        spent_count(spent.push(more)) == spent_count(spent) + more.1@.len(),
        coin_count(Seq::<Vec<UtxoRec>>::empty()) == 0,
        coin_count(ledgers.push(ledger)) == coin_count(ledgers) + ledger@.len(),
        wallet_value(Seq::<Vec<UtxoRec>>::empty()) == 0,
        wallet_value(ledgers.push(ledger)) == wallet_value(ledgers) + sum_of(
            ledger@.map_values(|u: UtxoRec| u.value),
        ),
{
    assert(spent.push(more).drop_last() =~= spent);
    assert(ledgers.push(ledger).drop_last() =~= ledgers);
}

/// Sorting the coins of the wallet loses none and invents none.
pub proof fn sorting_keeps_every_coin(coins: Seq<WalletCoin>, list: Seq<WalletCoin>)
    requires
        stably_sorted(coins, value_keys(coins), list),
    ensures
        list.len() == coins.len(),
        forall|i: int| 0 <= i < coins.len() ==> list.contains(#[trigger] coins[i]),
        forall|i: int| 0 <= i < list.len() ==> coins.contains(#[trigger] list[i]),
{
    let key = |c: WalletCoin| (u64::MAX - c.value) as u128;
    assert(value_keys(coins) =~= coins.map_values(key));
    sorting_keeps_the_items_and_orders_them(coins, key, list);
}

/// The line of a sweep tells a consolidation by its number of coins and what
/// it keeps, and any other sweep by the total and what the destination gets.
pub proof fn sweep_lines_say_what_arrives(
    n: nat,
    total: nat,
    vsize: nat,
    fee_text: Seq<char>,
    rate_text: Seq<char>,
    recv: nat,
)
    ensures
        ({
            let middle = decimal(vsize) + " vB \u{b7} fee ~"@ + fee_text + " @ "@ + rate_text;
            &&& sweep_text(true, n, total, vsize, fee_text, rate_text, recv) == "Consolidates "@
                + decimal(n) + " coins into one \u{b7} ~"@ + middle + " sat/vB \u{b7} keeps "@
                + decimal(recv) + " sats"@
            &&& sweep_text(false, n, total, vsize, fee_text, rate_text, recv) == "Sweeps "@
                + decimal(total) + " sats \u{b7} ~"@ + middle
                + " sat/vB \u{b7} destination receives "@ + decimal(recv) + " sats"@
        }),
{
    let middle = decimal(vsize) + " vB \u{b7} fee ~"@ + fee_text + " @ "@ + rate_text;
    assert(sweep_text(true, n, total, vsize, fee_text, rate_text, recv) =~= "Consolidates "@
        + decimal(n) + " coins into one \u{b7} ~"@ + middle + " sat/vB \u{b7} keeps "@ + decimal(
        recv,
    ) + " sats"@);
    assert(sweep_text(false, n, total, vsize, fee_text, rate_text, recv) =~= "Sweeps "@ + decimal(
        total,
    ) + " sats \u{b7} ~"@ + middle + " sat/vB \u{b7} destination receives "@ + decimal(recv)
        + " sats"@);
}

/// What a sweep has done is told by the number of its inputs, what arrived,
/// and the short destination where it has one.
pub proof fn done_lines_say_what_arrived(plan: SweepPlan, inputs: nat)
    ensures
        ({
            let recv = decimal(plan.recv as nat);
            &&& plan.consolidate ==> sweep_done_text(plan, inputs) == "Consolidated "@ + decimal(
                inputs,
            ) + " coin(s) into one \u{b7} "@ + recv + " sats"@
            &&& !plan.consolidate && plan.dest is None ==> sweep_done_text(plan, inputs) == "Swept "@
                + decimal(inputs) + " coin(s) \u{b7} "@ + recv + " sats"@
            &&& !plan.consolidate && plan.dest is Some ==> sweep_done_text(plan, inputs) == "Swept "@
                + decimal(inputs) + " coin(s) \u{b7} "@ + recv + " sats to "@ + short_form(
                (plan.dest->0)@,
            )
        }),
        plan.inputs() == spent_count(plan.spent_by_account@),
{
}

}
