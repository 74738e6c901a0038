//! Coins of a notebook: the recorded unspent outputs, sums over them, and
//! the lists of outpoints that select or spend them.

use crate::hexcodec::{txid_to_wire, wire_txid};
use crate::lists::{retain_where, total_of};
use crate::seqs::{filter_all, filter_take_none, filter_take_step, filtered_is_from};
use crate::text::same_text;
use vstd::prelude::*;

verus! {

/// One unspent output of a notebook.
#[derive(Debug)]
pub struct UtxoRec {
    /// Transaction id, display text.
    pub txid: String,
    pub vout: u32,
    pub value: u64,
}

impl Clone for UtxoRec {
    fn clone(&self) -> (r: Self)
        ensures
            r == *self,
    {
        UtxoRec { txid: self.txid.clone(), vout: self.vout, value: self.value }
    }
}

/// One unspent output as a transaction builder takes it: the transaction id
/// in wire order.
#[derive(Debug, Clone, Copy, PartialEq, Eq)]
pub struct Utxo {
    pub txid: [u8; 32],
    pub vout: u32,
    pub value: u64,
}

/// The sum of `values`.
pub open spec fn sum_of(values: Seq<u64>) -> nat
    decreases values.len(),
{
    if values.len() == 0 {
        0
    } else {
        sum_of(values.drop_last()) + values.last() as nat
    }
}

/// A sum is no less than the sum of a beginning of the same values.
pub proof fn sum_of_take_le(values: Seq<u64>, n: int)
    requires
        0 <= n <= values.len(),
    ensures
        sum_of(values.take(n)) <= sum_of(values),
    decreases values.len() - n,
{
    if n < values.len() {
        sum_of_take_le(values, n + 1);
        assert(values.take(n + 1).drop_last() =~= values.take(n));
    } else {
        assert(values.take(n) =~= values);
    }
}

/// The sum of two lists one after the other is the sum of their sums.
pub proof fn sum_of_concat(a: Seq<u64>, b: Seq<u64>)
    ensures
        sum_of(a + b) == sum_of(a) + sum_of(b),
    decreases b.len(),
{
    if b.len() == 0 {
        assert(a + b =~= a);
    } else {
        sum_of_concat(a, b.drop_last());
        assert((a + b).drop_last() =~= a + b.drop_last());
    }
}

/// What a filter keeps and what it drops add up to the whole.
pub proof fn filter_splits_sum<T>(
    items: Seq<T>,
    value: spec_fn(T) -> u64,
    keep: spec_fn(T) -> bool,
    drop: spec_fn(T) -> bool,
)
    requires
        forall|x: T| #[trigger] keep(x) == !drop(x),
    ensures
        sum_of(items.filter(keep).map_values(value)) + sum_of(items.filter(drop).map_values(value))
            == sum_of(items.map_values(value)),
    decreases items.len(),
{
    reveal(Seq::filter);
    if items.len() > 0 {
        let rest = items.drop_last();
        let x = items.last();
        filter_splits_sum(rest, value, keep, drop);
        assert(items.map_values(value).drop_last() =~= rest.map_values(value));
        if keep(x) {
            assert(items.filter(keep).map_values(value).drop_last() =~= rest.filter(keep).map_values(
                value,
            ));
        } else {
            assert(items.filter(drop).map_values(value).drop_last() =~= rest.filter(drop).map_values(
                value,
            ));
        }
    }
}

/// The values of notebook coins.
pub open spec fn coin_values(utxos: Seq<UtxoRec>) -> Seq<u64> {
    utxos.map_values(|u: UtxoRec| u.value)
}

/// Whether `list` names the outpoint (`txid`, `vout`).
pub open spec fn outpoint_listed(list: Seq<(String, u32)>, txid: Seq<char>, vout: u32) -> bool {
    exists|i: int| 0 <= i < list.len() && (#[trigger] list[i]).0@ == txid && list[i].1 == vout
}

/// Where `list` first names an outpoint, if it does.
pub fn outpoint_position(list: &[(String, u32)], txid: &str, vout: u32) -> (r: Option<usize>)
    ensures
        match r {
            Some(k) => {
                &&& k < list@.len()
                &&& list@[k as int].0@ == txid@ && list@[k as int].1 == vout
                &&& forall|j: int|
                    0 <= j < k ==> !((#[trigger] list@[j]).0@ == txid@ && list@[j].1 == vout)
            },
            None => !outpoint_listed(list@, txid@, vout),
        },
{
    let mut i: usize = 0;
    while i < list.len()
        invariant
            i <= list@.len(),
            forall|j: int| 0 <= j < i ==> !((#[trigger] list@[j]).0@ == txid@ && list@[j].1 == vout),
        decreases list@.len() - i,
    {
        if list[i].1 == vout && same_text(list[i].0.as_str(), txid) {
            return Some(i);
        }
        i = i + 1;
    }
    None
}

/// Whether `list` names an outpoint.
pub fn has_outpoint(list: &[(String, u32)], txid: &str, vout: u32) -> (r: bool)
    ensures
        r == outpoint_listed(list@, txid@, vout),
{
    outpoint_position(list, txid, vout).is_some()
}

/// The sum of the coins of a notebook.
pub fn coins_total(utxos: &Vec<UtxoRec>) -> (r: u64)
    requires
        sum_of(coin_values(utxos@)) <= u64::MAX,
    ensures
        r == sum_of(coin_values(utxos@)),
{
    let value = |u: &UtxoRec| -> (n: u64)
        ensures
            n == u.value,
        {
            u.value
        };
    total_of(utxos, value, Ghost(|u: UtxoRec| u.value))
}

/// The coins that `spent` does not name.
pub open spec fn coins_kept(utxos: Seq<UtxoRec>, spent: Seq<(String, u32)>) -> Seq<UtxoRec> {
    utxos.filter(|u: UtxoRec| !outpoint_listed(spent, u.txid@, u.vout))
}

/// Drops the coins that `spent` names; the others keep their order.
pub fn drop_spent(utxos: &mut Vec<UtxoRec>, spent: &[(String, u32)])
    ensures
        final(utxos)@ == coins_kept(old(utxos)@, spent@),
{
    let ghost keep = |u: UtxoRec| !outpoint_listed(spent@, u.txid@, u.vout);
    let test = |u: &UtxoRec| -> (b: bool)
        ensures
            b == keep(*u),
        {
            !has_outpoint(spent, u.txid.as_str(), u.vout)
        };
    retain_where(utxos, test, Ghost(keep));
}

/// `c` is the notebook coin `u` with its transaction id in wire order.
pub open spec fn wire_coin_of(u: UtxoRec, c: Utxo) -> bool {
    &&& wire_txid(u.txid@) == Some(c.txid@)
    &&& c.vout == u.vout
    &&& c.value == u.value
}

/// `out` holds, in order, the wire form of the coins of `utxos` whose
/// transaction id is well formed.
pub open spec fn wire_coins(utxos: Seq<UtxoRec>, out: Seq<Utxo>) -> bool {
    let good = utxos.filter(|u: UtxoRec| wire_txid(u.txid@) is Some);
    &&& out.len() == good.len()
    &&& forall|i: int| 0 <= i < good.len() ==> wire_coin_of(#[trigger] good[i], out[i])
}

/// The coins of a notebook for a transaction builder; one whose transaction
/// id is malformed is left out.
pub fn core_utxos(utxos: &Vec<UtxoRec>) -> (r: Vec<Utxo>)
    ensures
        wire_coins(utxos@, r@),
{
    let ghost good = |u: UtxoRec| wire_txid(u.txid@) is Some;
    let mut out: Vec<Utxo> = Vec::new();
    let mut i: usize = 0;
    proof {
        filter_take_none(utxos@, good);
    }
    while i < utxos.len()
        invariant
            i <= utxos.len(),
            good == (|u: UtxoRec| wire_txid(u.txid@) is Some),
            wire_coins(utxos@.take(i as int), out@),
        decreases utxos.len() - i,
    {
        proof {
            filter_take_step(utxos@, i as int, good);
        }
        match txid_to_wire(utxos[i].txid.as_str()) {
            Some(txid) => {
                out.push(Utxo { txid, vout: utxos[i].vout, value: utxos[i].value });
            },
            None => {},
        }
        i = i + 1;
    }
    assert(utxos@.take(i as int) =~= utxos@);
    out
}

/// A sum counts every value once: no values add up to nothing, and one more
/// value adds itself.
pub proof fn sums_count_every_value(values: Seq<u64>, value: u64)
    ensures
        sum_of(Seq::<u64>::empty()) == 0,
        sum_of(seq![value]) == value,
        sum_of(values.push(value)) == sum_of(values) + value,
        sum_of(seq![value] + values) == value + sum_of(values),
{
    assert(values.push(value).drop_last() =~= values);
    assert(seq![value].drop_last() =~= seq![]);
    sum_of_concat(seq![value], values);
}

/// Every coin counts with its own value, in its place.
pub proof fn coins_count_with_their_values(utxos: Seq<UtxoRec>)
    ensures
        coin_values(utxos).len() == utxos.len(),
        forall|i: int| 0 <= i < utxos.len() ==> #[trigger] coin_values(utxos)[i] == utxos[i].value,
{
}

/// After coins are dropped, the ledger holds, in order, exactly the coins
/// whose transaction id and output number no dropped outpoint has.
pub proof fn exactly_the_unspent_coins_are_kept(utxos: Seq<UtxoRec>, spent: Seq<(String, u32)>)
    ensures
        coins_kept(utxos, spent) == utxos.filter(
            |u: UtxoRec|
                forall|j: int|
                    0 <= j < spent.len() ==> (#[trigger] spent[j]).0@ != u.txid@ || spent[j].1
                        != u.vout,
        ),
{
    let kept = |u: UtxoRec| !outpoint_listed(spent, u.txid@, u.vout);
    let unnamed = |u: UtxoRec|
        forall|j: int|
            0 <= j < spent.len() ==> (#[trigger] spent[j]).0@ != u.txid@ || spent[j].1 != u.vout;
    assert(kept =~= unnamed);
}

/// Well-formed coins reach the transaction builder one for one, each with its
/// output number, its value and its transaction id in the byte order of the
/// wire.
pub proof fn coins_reach_the_builder_unchanged(utxos: Seq<UtxoRec>, out: Seq<Utxo>, i: int)
    requires
        wire_coins(utxos, out),
        forall|k: int| 0 <= k < utxos.len() ==> wire_txid((#[trigger] utxos[k]).txid@) is Some,
        0 <= i < utxos.len(),
    ensures
        out.len() == utxos.len(),
        out[i].vout == utxos[i].vout,
        out[i].value == utxos[i].value,
        wire_txid(utxos[i].txid@) == Some(out[i].txid@),
{
    filter_all(utxos, |u: UtxoRec| wire_txid(u.txid@) is Some);
    let good = utxos.filter(|u: UtxoRec| wire_txid(u.txid@) is Some);
    assert(good[i] == utxos[i]);
    assert(wire_coin_of(good[i], out[i]));
}

/// A coin with a malformed transaction id never reaches the builder: what
/// does is as many as the well-formed coins, and each is one of them.
pub proof fn only_well_formed_coins_reach_the_builder(utxos: Seq<UtxoRec>, out: Seq<Utxo>, i: int)
    requires
        wire_coins(utxos, out),
        0 <= i < out.len(),
    ensures
        out.len() == utxos.filter(|u: UtxoRec| wire_txid(u.txid@) is Some).len(),
        exists|k: int|
            0 <= k < utxos.len() && wire_txid((#[trigger] utxos[k]).txid@) == Some(out[i].txid@)
                && utxos[k].vout == out[i].vout && utxos[k].value == out[i].value,
{
    let good = |u: UtxoRec| wire_txid(u.txid@) is Some;
    filtered_is_from(utxos, good, i);
    assert(wire_coin_of(utxos.filter(good)[i], out[i]));
    let k = choose|k: int| 0 <= k < utxos.len() && utxos[k] == utxos.filter(good)[i];
    assert(utxos[k].vout == out[i].vout);
}

}
