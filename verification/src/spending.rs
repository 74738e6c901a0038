//! The spending wallet: one wallet per (network, seed, account) context, the
//! same granularity notebooks are visible at, since it is a property of the
//! account and not of any one notebook within it.

use crate::coins::{filter_splits_sum, has_outpoint, outpoint_listed, sum_of, sum_of_concat};
use crate::hexcodec::{decode, hex_bytes, is_hex};
use crate::lists::{retain_where, total_of};
use crate::seqs::{filter_push, filter_take_none, filter_take_step};
use crate::text::same_text;
use vstd::prelude::*;

verus! {

/// One address the spending wallet has issued, on either chain. Enough to
/// derive its signing key again; the key itself is never recorded.
#[derive(Debug, PartialEq, Eq)]
pub struct SpendingAddress {
    /// 0 = receive chain, 1 = change chain.
    pub chain: u32,
    pub index: u32,
    pub address: String,
    pub spk_hex: String,
}

impl Clone for SpendingAddress {
    fn clone(&self) -> (r: Self)
        ensures
            r == *self,
    {
        SpendingAddress {
            chain: self.chain,
            index: self.index,
            address: self.address.clone(),
            spk_hex: self.spk_hex.clone(),
        }
    }
}

/// An issued address by its texts and numbers.
#[verifier::ext_equal]
pub struct Issued {
    pub chain: u32,
    pub index: u32,
    pub address: Seq<char>,
    pub spk_hex: Seq<char>,
}

impl View for SpendingAddress {
    type V = Issued;

    open spec fn view(&self) -> Issued {
        Issued {
            chain: self.chain,
            index: self.index,
            address: self.address@,
            spk_hex: self.spk_hex@,
        }
    }
}

/// The issued addresses of a list by their texts and numbers.
pub open spec fn issued_in(list: Seq<SpendingAddress>) -> Seq<Issued> {
    list.map_values(|a: SpendingAddress| a@)
}

/// One coin of the spending wallet, with the (chain, index) that owns it:
/// each coin can belong to an address of its own.
#[derive(Debug, PartialEq, Eq)]
pub struct SpendingUtxo {
    /// Transaction id, display text.
    pub txid: String,
    pub vout: u32,
    pub value: u64,
    pub chain: u32,
    pub index: u32,
}

impl Clone for SpendingUtxo {
    fn clone(&self) -> (r: Self)
        ensures
            r == *self,
    {
        SpendingUtxo {
            txid: self.txid.clone(),
            vout: self.vout,
            value: self.value,
            chain: self.chain,
            index: self.index,
        }
    }
}

/// The bookkeeping of one context: whether the wallet is on, the next unused
/// index of each chain, every address issued so far, and its coins.
#[derive(Debug, Clone, PartialEq, Eq)]
pub struct SpendingSection {
    pub network: String,
    pub seed: u32,
    pub bip_account: u32,
    pub enabled: bool,
    pub next_receive: u32,
    pub next_change: u32,
    pub used: Vec<SpendingAddress>,
    pub utxos: Vec<SpendingUtxo>,
}

/// The values of spending coins.
pub open spec fn spending_values(utxos: Seq<SpendingUtxo>) -> Seq<u64> {
    utxos.map_values(|u: SpendingUtxo| u.value)
}

/// The spending coins that `spent` does not name.
pub open spec fn spending_kept(utxos: Seq<SpendingUtxo>, spent: Seq<(String, u32)>) -> Seq<
    SpendingUtxo,
> {
    utxos.filter(|u: SpendingUtxo| !outpoint_listed(spent, u.txid@, u.vout))
}

/// Whether `used` holds the address at (`chain`, `index`).
pub open spec fn is_issued(used: Seq<SpendingAddress>, chain: u32, index: u32) -> bool {
    exists|i: int|
        0 <= i < used.len() && (#[trigger] used[i]).chain == chain && used[i].index == index
}

/// The decoded script of every address whose script text is hexadecimal.
pub open spec fn scripts_of(used: Seq<SpendingAddress>) -> Seq<Seq<u8>> {
    used.filter(|a: SpendingAddress| is_hex(a.spk_hex@)).map_values(
        |a: SpendingAddress| hex_bytes(a.spk_hex@),
    )
}

/// The contents of byte vectors.
pub open spec fn bytes_of(v: Seq<Vec<u8>>) -> Seq<Seq<u8>> {
    v.map_values(|b: Vec<u8>| b@)
}

/// `after` is `before` once the address `addr` is recorded as issued.
pub open spec fn marks(
    before: SpendingSection,
    addr: SpendingAddress,
    after: SpendingSection,
) -> bool {
    &&& after.next_change == if addr.chain == 1 && addr.index >= before.next_change {
        addr.index + 1
    } else {
        before.next_change as int
    }
    &&& after.next_receive == if addr.chain != 1 && addr.index >= before.next_receive {
        addr.index + 1
    } else {
        before.next_receive as int
    }
    &&& after.used@ == if is_issued(before.used@, addr.chain, addr.index) {
        before.used@
    } else {
        before.used@.push(addr)
    }
    &&& after.network == before.network
    &&& after.seed == before.seed
    &&& after.bip_account == before.bip_account
    &&& after.enabled == before.enabled
    &&& after.utxos == before.utxos
}

/// `after` is `before` once the coins that `spent` names are gone and the
/// change, if any, is added behind the others.
pub open spec fn spends(
    before: SpendingSection,
    spent: Seq<(String, u32)>,
    change: Option<SpendingUtxo>,
    after: SpendingSection,
) -> bool {
    &&& after.utxos@ == spending_kept(before.utxos@, spent) + match change {
        Some(c) => seq![c],
        None => seq![],
    }
    &&& after.network == before.network
    &&& after.seed == before.seed
    &&& after.bip_account == before.bip_account
    &&& after.enabled == before.enabled
    &&& after.next_receive == before.next_receive
    &&& after.next_change == before.next_change
    &&& after.used == before.used
}

impl SpendingSection {
    /// Whether this is the section of a context.
    pub open spec fn in_scope(&self, network: Seq<char>, seed: u32, bip_account: u32) -> bool {
        &&& self.network@ == network
        &&& self.seed == seed
        &&& self.bip_account == bip_account
    }

    /// The next unused index of a chain; every chain but the change chain
    /// counts with the receive chain.
    pub open spec fn next_index(&self, chain: u32) -> u32 {
        if chain == 1 {
            self.next_change
        } else {
            self.next_receive
        }
    }

    /// No index at or past a counter has been issued, and no (chain, index)
    /// is recorded twice.
    pub open spec fn wf(&self) -> bool {
        &&& forall|i: int|
            0 <= i < self.used@.len() ==> (#[trigger] self.used@[i]).index < self.next_index(
                self.used@[i].chain,
            )
        &&& forall|i: int, j: int|
            0 <= i < j < self.used@.len() ==> !((#[trigger] self.used@[i]).chain == (
            #[trigger] self.used@[j]).chain && self.used@[i].index == self.used@[j].index)
    }

    /// A section that was just created for a context: off, and empty.
    pub open spec fn is_fresh(&self, network: Seq<char>, seed: u32, bip_account: u32) -> bool {
        &&& self.in_scope(network, seed, bip_account)
        &&& !self.enabled
        &&& self.next_receive == 0
        &&& self.next_change == 0
        &&& self.used@.len() == 0
        &&& self.utxos@.len() == 0
    }

    pub fn new(network: &str, seed: u32, bip_account: u32) -> (r: Self)
        ensures
            r.is_fresh(network@, seed, bip_account),
            r.wf(),
    {
        SpendingSection {
            network: network.to_owned(),
            seed,
            bip_account,
            enabled: false,
            next_receive: 0,
            next_change: 0,
            used: Vec::new(),
            utxos: Vec::new(),
        }
    }

    /// Whether this is the section of (`network`, `seed`, `bip_account`).
    pub fn matches(&self, network: &str, seed: u32, bip_account: u32) -> (r: bool)
        ensures
            r == self.in_scope(network@, seed, bip_account),
    {
        same_text(self.network.as_str(), network) && self.seed == seed && self.bip_account
            == bip_account
    }

    /// The sum of the coins.
    pub fn balance(&self) -> (r: u64)
        requires
            sum_of(spending_values(self.utxos@)) <= u64::MAX,
        ensures
            r == sum_of(spending_values(self.utxos@)),
    {
        let value = |u: &SpendingUtxo| -> (n: u64)
            ensures
                n == u.value,
            {
                u.value
            };
        total_of(&self.utxos, value, Ghost(|u: SpendingUtxo| u.value))
    }

    /// The script of every issued address, decoded: what this wallet adds to
    /// the scripts a scan recognises as its own. An address whose script text
    /// is not hexadecimal is skipped.
    pub fn self_spks(&self) -> (r: Vec<Vec<u8>>)
        ensures
            bytes_of(r@) == scripts_of(self.used@),
    {
        let ghost good = |a: SpendingAddress| is_hex(a.spk_hex@);
        let mut out: Vec<Vec<u8>> = Vec::new();
        let mut i: usize = 0;
        proof {
            filter_take_none(self.used@, good);
            assert(scripts_of(self.used@.take(0)) =~= seq![]);
            assert(bytes_of(out@) =~= seq![]);
        }
        while i < self.used.len()
            invariant
                i <= self.used.len(),
                good == (|a: SpendingAddress| is_hex(a.spk_hex@)),
                bytes_of(out@) == scripts_of(self.used@.take(i as int)),
            decreases self.used.len() - i,
        {
            let ghost before = out@;
            proof {
                filter_take_step(self.used@, i as int, good);
            }
            match decode(self.used[i].spk_hex.as_str()) {
                Some(spk) => {
                    out.push(spk);
                    assert(bytes_of(out@) =~= bytes_of(before).push(spk@));
                },
                None => {},
            }
            i = i + 1;
            assert(bytes_of(out@) =~= scripts_of(self.used@.take(i as int)));
        }
        assert(self.used@.take(i as int) =~= self.used@);
        out
    }

    /// Records that (chain, index) has been issued, and moves the counter of
    /// its chain past it: an index is never handed out twice. Recording an
    /// address again changes nothing.
    pub fn mark_used(&mut self, addr: SpendingAddress)
        requires
            addr.index < u32::MAX,
        ensures
            marks(*old(self), addr, *final(self)),
            old(self).wf() ==> final(self).wf(),
    {
        if addr.chain == 1 {
            if addr.index >= self.next_change {
                self.next_change = addr.index + 1;
            }
        } else if addr.index >= self.next_receive {
            self.next_receive = addr.index + 1;
        }
        let mut i: usize = 0;
        let mut known = false;
        while i < self.used.len() && !known
            invariant
                i <= self.used.len(),
                known ==> is_issued(self.used@, addr.chain, addr.index),
                !known ==> forall|j: int|
                    0 <= j < i ==> !((#[trigger] self.used@[j]).chain == addr.chain
                        && self.used@[j].index == addr.index),
            decreases self.used.len() - i,
        {
            if self.used[i].chain == addr.chain && self.used[i].index == addr.index {
                known = true;
            }
            i = i + 1;
        }
        if !known {
            self.used.push(addr);
        }
    }

    /// Replaces the coins: an import carries all of them.
    pub fn set_utxos(&mut self, utxos: Vec<SpendingUtxo>)
        ensures
            *final(self) == (SpendingSection { utxos, ..*old(self) }),
    {
        self.utxos = utxos;
    }

    /// Drops the coins that `spent` names and adds the change, so that an
    /// unconfirmed transaction can already be built upon.
    pub fn apply_spend(&mut self, spent: &[(String, u32)], change: Option<SpendingUtxo>)
        ensures
            spends(*old(self), spent@, change, *final(self)),
            old(self).wf() ==> final(self).wf(),
    {
        let ghost all = self.utxos@;
        let ghost keep = |u: SpendingUtxo| !outpoint_listed(spent@, u.txid@, u.vout);
        let test = |u: &SpendingUtxo| -> (b: bool)
            ensures
                b == keep(*u),
            {
                !has_outpoint(spent, u.txid.as_str(), u.vout)
            };
        retain_where(&mut self.utxos, test, Ghost(keep));
        match change {
            Some(c) => {
                self.utxos.push(c);
            },
            None => {},
        }
        assert(self.utxos@ =~= spending_kept(all, spent@) + match change {
            Some(c) => seq![c],
            None => seq![],
        });
    }
}

impl Default for SpendingSection {
    fn default() -> (r: Self)
        ensures
            r.is_fresh(seq![], 0, 0),
            r.wf(),
    {
        let r = SpendingSection {
            network: String::new(),
            seed: 0,
            bip_account: 0,
            enabled: false,
            next_receive: 0,
            next_change: 0,
            used: Vec::new(),
            utxos: Vec::new(),
        };
        r
    }
}

/// Where the first section of a context stands.
pub open spec fn is_first_in_scope(
    sections: Seq<SpendingSection>,
    k: int,
    network: Seq<char>,
    seed: u32,
    bip_account: u32,
) -> bool {
    &&& 0 <= k < sections.len()
    &&& sections[k].in_scope(network, seed, bip_account)
    &&& forall|j: int| 0 <= j < k ==> !(#[trigger] sections[j]).in_scope(network, seed, bip_account)
}

/// Whether a context has a section.
pub open spec fn has_section(
    sections: Seq<SpendingSection>,
    network: Seq<char>,
    seed: u32,
    bip_account: u32,
) -> bool {
    exists|k: int|
        0 <= k < sections.len() && (#[trigger] sections[k]).in_scope(network, seed, bip_account)
}

/// `after` is `before` with the section of a context, `was`, replaced by
/// `now`; where the context has none, `was` is a fresh one and `now` is added
/// behind the others.
pub open spec fn replaces(
    before: Seq<SpendingSection>,
    network: Seq<char>,
    seed: u32,
    bip_account: u32,
    was: SpendingSection,
    now: SpendingSection,
    after: Seq<SpendingSection>,
) -> bool {
    if has_section(before, network, seed, bip_account) {
        exists|k: int| #[trigger]
            is_first_in_scope(before, k, network, seed, bip_account) && was == before[k] && after
                =~= before.update(k, now)
    } else {
        &&& was.is_fresh(network, seed, bip_account)
        &&& after =~= before.push(now)
    }
}

/// Where the first section of a context stands, if it has one.
fn section_position(
    sections: &[SpendingSection],
    network: &str,
    seed: u32,
    bip_account: u32,
) -> (r: Option<usize>)
    ensures
        match r {
            Some(k) => is_first_in_scope(sections@, k as int, network@, seed, bip_account),
            None => !has_section(sections@, network@, seed, bip_account),
        },
{
    let mut i: usize = 0;
    while i < sections.len()
        invariant
            i <= sections@.len(),
            forall|j: int|
                0 <= j < i ==> !(#[trigger] sections@[j]).in_scope(network@, seed, bip_account),
        decreases sections@.len() - i,
    {
        if sections[i].matches(network, seed, bip_account) {
            return Some(i);
        }
        i = i + 1;
    }
    None
}

/// An index that holds spending sections, whatever else it holds.
pub trait SpendingIndex: Sized {
    /// The sections.
    spec fn sections(&self) -> Seq<SpendingSection>;

    /// Whether two indexes differ in nothing but their sections.
    spec fn same_but_sections(&self, other: &Self) -> bool;

    fn spending_sections(&self) -> (r: &[SpendingSection])
        ensures
            r@ == self.sections(),
    ;

    fn spending_sections_mut(&mut self) -> (r: &mut Vec<SpendingSection>)
        ensures
            r@ == old(self).sections(),
            final(self).sections() == final(r)@,
            final(self).same_but_sections(old(self)),
    ;

    /// The section of a context, if it has one.
    fn spending(&self, network: &str, seed: u32, bip_account: u32) -> (r: Option<&SpendingSection>)
        ensures
            match r {
                Some(s) => exists|k: int| #[trigger]
                    is_first_in_scope(self.sections(), k, network@, seed, bip_account)
                        && self.sections()[k] == *s,
                None => !has_section(self.sections(), network@, seed, bip_account),
            },
    {
        let sections = self.spending_sections();
        match section_position(sections, network, seed, bip_account) {
            Some(k) => Some(&sections[k]),
            None => None,
        }
    }

    /// The section of a context, created behind the others if it has none. A
    /// new section is off: everything still depends on `enabled`.
    fn spending_mut(&mut self, network: &str, seed: u32, bip_account: u32) -> (r: &mut SpendingSection)
        ensures
            final(self).same_but_sections(old(self)),
            r.in_scope(network@, seed, bip_account),
            replaces(
                old(self).sections(),
                network@,
                seed,
                bip_account,
                *r,
                *final(r),
                final(self).sections(),
            ),
    {
        let sections = self.spending_sections_mut();
        match section_position(sections.as_slice(), network, seed, bip_account) {
            Some(k) => &mut sections[k],
            None => {
                let k: usize = sections.len();
                sections.push(SpendingSection::new(network, seed, bip_account));
                &mut sections[k]
            },
        }
    }
}

/// Recording an address again changes nothing.
pub proof fn marking_twice_is_marking_once(
    before: SpendingSection,
    addr: SpendingAddress,
    after: SpendingSection,
    again: SpendingAddress,
    end: SpendingSection,
)
    requires
        marks(before, addr, after),
        again.chain == addr.chain,
        again.index == addr.index,
        marks(after, again, end),
    ensures
        end.used@ == after.used@,
        end.next_receive == after.next_receive,
        end.next_change == after.next_change,
        end.utxos == after.utxos,
        end.enabled == after.enabled,
        end.network == after.network,
        end.seed == after.seed,
        end.bip_account == after.bip_account,
{
    if !is_issued(before.used@, addr.chain, addr.index) {
        assert(after.used@[after.used@.len() - 1] == addr);
    }
    assert(is_issued(after.used@, again.chain, again.index));
}

/// Recording an address never moves a counter back, moves the counter of its
/// chain past it, and forgets no address.
pub proof fn marking_only_advances(
    before: SpendingSection,
    addr: SpendingAddress,
    after: SpendingSection,
)
    requires
        marks(before, addr, after),
    ensures
        after.next_receive >= before.next_receive,
        after.next_change >= before.next_change,
        after.next_index(addr.chain) > addr.index,
        is_issued(after.used@, addr.chain, addr.index),
        forall|chain: u32, index: u32|
            is_issued(before.used@, chain, index) ==> is_issued(after.used@, chain, index),
{
    if !is_issued(before.used@, addr.chain, addr.index) {
        assert(after.used@[after.used@.len() - 1] == addr);
    }
    assert forall|chain: u32, index: u32| is_issued(before.used@, chain, index) implies is_issued(
        after.used@,
        chain,
        index,
    ) by {
        let i = choose|i: int|
            0 <= i < before.used@.len() && (#[trigger] before.used@[i]).chain == chain
                && before.used@[i].index == index;
        assert(after.used@[i] == before.used@[i]);
    }
}

/// Fresh-address discipline: an index at or past the counter of its chain
/// has never been issued.
pub proof fn next_indexes_are_unissued(section: SpendingSection, chain: u32, index: u32)
    requires
        section.wf(),
        index >= section.next_index(chain),
    ensures
        !is_issued(section.used@, chain, index),
{
}

/// Spending conserves value: what remains is what was there, less the coins
/// that were dropped, plus the change.
pub proof fn spending_conserves_value(
    before: SpendingSection,
    spent: Seq<(String, u32)>,
    change: Option<SpendingUtxo>,
    after: SpendingSection,
)
    requires
        spends(before, spent, change, after),
    ensures
        sum_of(spending_values(after.utxos@)) + sum_of(
            spending_values(
                before.utxos@.filter(|u: SpendingUtxo| outpoint_listed(spent, u.txid@, u.vout)),
            ),
        ) == sum_of(spending_values(before.utxos@)) + match change {
            Some(c) => c.value as nat,
            None => 0,
        },
{
    let value = |u: SpendingUtxo| u.value;
    let keep = |u: SpendingUtxo| !outpoint_listed(spent, u.txid@, u.vout);
    let drop = |u: SpendingUtxo| outpoint_listed(spent, u.txid@, u.vout);
    filter_splits_sum(before.utxos@, value, keep, drop);
    let kept = before.utxos@.filter(keep);
    match change {
        Some(c) => {
            assert(spending_values(after.utxos@) =~= spending_values(kept) + seq![c.value]);
            sum_of_concat(spending_values(kept), seq![c.value]);
            assert(seq![c.value].drop_last() =~= seq![]);
            reveal_with_fuel(sum_of, 2);
        },
        None => {
            assert(after.utxos@ =~= kept);
        },
    }
}

/// No spent coin survives: after a spend, a listed outpoint can only be the
/// change itself.
pub proof fn spent_coins_are_gone(
    before: SpendingSection,
    spent: Seq<(String, u32)>,
    change: Option<SpendingUtxo>,
    after: SpendingSection,
    i: int,
)
    requires
        spends(before, spent, change, after),
        0 <= i < after.utxos@.len(),
        outpoint_listed(spent, after.utxos@[i].txid@, after.utxos@[i].vout),
    ensures
        change == Some(after.utxos@[i]),
        i == after.utxos@.len() - 1,
{
    broadcast use vstd::seq_lib::group_filter_ensures;

    let kept = spending_kept(before.utxos@, spent);
    if i < kept.len() {
        assert(kept[i] == after.utxos@[i]);
    }
}

/// Getting or creating the section of a context leaves the sections of every
/// other context as they were.
pub proof fn other_contexts_are_untouched(
    before: Seq<SpendingSection>,
    after: Seq<SpendingSection>,
    was: SpendingSection,
    section: SpendingSection,
    network: Seq<char>,
    seed: u32,
    bip_account: u32,
    other_network: Seq<char>,
    other_seed: u32,
    other_account: u32,
)
    requires
        section.in_scope(network, seed, bip_account),
        replaces(before, network, seed, bip_account, was, section, after),
        (other_network, other_seed, other_account) != (network, seed, bip_account),
    ensures
        after.filter(|s: SpendingSection| s.in_scope(other_network, other_seed, other_account))
            == before.filter(
            |s: SpendingSection| s.in_scope(other_network, other_seed, other_account),
        ),
        has_section(after, network, seed, bip_account),
{
    let other = |s: SpendingSection| s.in_scope(other_network, other_seed, other_account);
    if has_section(before, network, seed, bip_account) {
        let k = choose|k: int| #[trigger]
            is_first_in_scope(before, k, network, seed, bip_account) && was == before[k] && after
                == before.update(k, section);
        let head = before.take(k);
        let tail = before.skip(k + 1);
        assert(before =~= head.push(before[k]) + tail);
        assert(after =~= head.push(section) + tail);
        filter_push(head, before[k], other);
        filter_push(head, section, other);
        Seq::filter_distributes_over_add(head.push(before[k]), tail, other);
        Seq::filter_distributes_over_add(head.push(section), tail, other);
        assert(after[k] == section);
    } else {
        filter_push(before, section, other);
        assert(after[before.len() as int] == section);
    }
}

/// Every coin of the wallet counts with its own value, in its place.
pub proof fn spending_coins_count_with_their_values(utxos: Seq<SpendingUtxo>)
    ensures
        spending_values(utxos).len() == utxos.len(),
        forall|i: int|
            0 <= i < utxos.len() ==> #[trigger] spending_values(utxos)[i] == utxos[i].value,
{
}

/// After a spend the wallet holds, in order, exactly the coins that no spent
/// outpoint names, and the change behind them; nothing else of it changes.
pub proof fn exactly_the_unspent_coins_stay(
    before: SpendingSection,
    spent: Seq<(String, u32)>,
    change: Option<SpendingUtxo>,
    after: SpendingSection,
)
    requires
        spends(before, spent, change, after),
    ensures
        ({
            let kept = before.utxos@.filter(
                |u: SpendingUtxo|
                    forall|j: int|
                        0 <= j < spent.len() ==> (#[trigger] spent[j]).0@ != u.txid@ || spent[j].1
                            != u.vout,
            );
            match change {
                Some(c) => after.utxos@ == kept.push(c),
                None => after.utxos@ == kept,
            }
        }),
        after.used == before.used,
        after.next_receive == before.next_receive,
        after.next_change == before.next_change,
        after.network == before.network,
        after.seed == before.seed,
        after.bip_account == before.bip_account,
        after.enabled == before.enabled,
{
    let kept = |u: SpendingUtxo| !outpoint_listed(spent, u.txid@, u.vout);
    let unnamed = |u: SpendingUtxo|
        forall|j: int|
            0 <= j < spent.len() ==> (#[trigger] spent[j]).0@ != u.txid@ || spent[j].1 != u.vout;
    assert(kept =~= unnamed);
}

/// Recording an address moves the counter of its chain to the index behind it,
/// never back, and leaves the counter of the other chain alone. The address is
/// added behind the others where its place is not recorded yet.
pub proof fn marking_counts_past_the_address(
    before: SpendingSection,
    addr: SpendingAddress,
    after: SpendingSection,
)
    requires
        marks(before, addr, after),
    ensures
        addr.chain == 1 ==> {
            &&& after.next_receive == before.next_receive
            &&& addr.index < before.next_change ==> after.next_change == before.next_change
            &&& addr.index >= before.next_change ==> after.next_change == addr.index + 1
        },
        addr.chain != 1 ==> {
            &&& after.next_change == before.next_change
            &&& addr.index < before.next_receive ==> after.next_receive == before.next_receive
            &&& addr.index >= before.next_receive ==> after.next_receive == addr.index + 1
        },
        (exists|i: int|
            0 <= i < before.used@.len() && (#[trigger] before.used@[i]).chain == addr.chain
                && before.used@[i].index == addr.index) ==> after.used@ == before.used@,
        (forall|i: int|
            0 <= i < before.used@.len() ==> (#[trigger] before.used@[i]).chain != addr.chain
                || before.used@[i].index != addr.index) ==> after.used@ == before.used@.push(addr),
        after.utxos == before.utxos,
        after.network == before.network,
        after.seed == before.seed,
        after.bip_account == before.bip_account,
        after.enabled == before.enabled,
{
}

/// The scripts of issued addresses are read from their texts one after the
/// other; an address whose text is no hexadecimal adds none.
pub proof fn every_readable_script_is_the_wallets(used: Seq<SpendingAddress>, addr: SpendingAddress)
    ensures
        scripts_of(Seq::<SpendingAddress>::empty()) == Seq::<Seq<u8>>::empty(),
        is_hex(addr.spk_hex@) ==> scripts_of(used.push(addr)) == scripts_of(used).push(
            hex_bytes(addr.spk_hex@),
        ),
        !is_hex(addr.spk_hex@) ==> scripts_of(used.push(addr)) == scripts_of(used),
{
    let good = |a: SpendingAddress| is_hex(a.spk_hex@);
    filter_push(used, addr, good);
    assert(Seq::<SpendingAddress>::empty().filter(good) =~= Seq::<SpendingAddress>::empty()) by {
        reveal(Seq::filter);
    }
    assert(scripts_of(Seq::<SpendingAddress>::empty()) =~= Seq::<Seq<u8>>::empty());
    if good(addr) {
        assert(scripts_of(used.push(addr)) =~= scripts_of(used).push(hex_bytes(addr.spk_hex@)));
    }
}

/// The section of a context changes in its place, and every other section
/// stays in its own; a context without one gets it behind the others, off,
/// empty and with nothing issued.
pub proof fn sections_change_in_their_place(
    before: Seq<SpendingSection>,
    network: Seq<char>,
    seed: u32,
    bip_account: u32,
    was: SpendingSection,
    now: SpendingSection,
    after: Seq<SpendingSection>,
)
    requires
        replaces(before, network, seed, bip_account, was, now, after),
    ensures
        forall|k: int|
            0 <= k < before.len() && (#[trigger] before[k]).network@ == network && before[k].seed
                == seed && before[k].bip_account == bip_account && (forall|j: int|
                0 <= j < k ==> (#[trigger] before[j]).network@ != network || before[j].seed != seed
                    || before[j].bip_account != bip_account) ==> was == before[k] && after
                == before.update(k, now),
        (forall|k: int|
            0 <= k < before.len() ==> (#[trigger] before[k]).network@ != network || before[k].seed
                != seed || before[k].bip_account != bip_account) ==> {
            &&& after == before.push(now)
            &&& was.network@ == network && was.seed == seed && was.bip_account == bip_account
            &&& !was.enabled && was.next_receive == 0 && was.next_change == 0
            &&& was.used@.len() == 0 && was.utxos@.len() == 0
        },
{
    assert forall|k: int|
        0 <= k < before.len() && (#[trigger] before[k]).network@ == network && before[k].seed
            == seed && before[k].bip_account == bip_account && (forall|j: int|
            0 <= j < k ==> (#[trigger] before[j]).network@ != network || before[j].seed != seed
                || before[j].bip_account != bip_account) implies was == before[k] && after
        == before.update(k, now) by {
        assert(before[k].in_scope(network, seed, bip_account));
        let q = choose|q: int| #[trigger]
            is_first_in_scope(before, q, network, seed, bip_account) && was == before[q] && after
                =~= before.update(q, now);
        assert(q == k) by {
            if q < k {
                assert(before[q].in_scope(network, seed, bip_account));
            }
        }
    }
    if forall|k: int|
        0 <= k < before.len() ==> (#[trigger] before[k]).network@ != network || before[k].seed
            != seed || before[k].bip_account != bip_account {
        assert(!has_section(before, network, seed, bip_account));
    }
}

/// The texts and numbers of issued addresses are their own.
pub proof fn issued_addresses_are_taken_whole(list: Seq<SpendingAddress>)
    ensures
        issued_in(list).len() == list.len(),
        forall|i: int|
            0 <= i < list.len() ==> {
                &&& (#[trigger] issued_in(list)[i]).chain == list[i].chain
                &&& issued_in(list)[i].index == list[i].index
                &&& issued_in(list)[i].address == list[i].address@
                &&& issued_in(list)[i].spk_hex == list[i].spk_hex@
            },
{
}

/// A wallet is funded exactly where one of its coins is worth anything.
pub proof fn a_funded_wallet_has_a_coin_of_value(utxos: Seq<SpendingUtxo>)
    ensures
        sum_of(spending_values(utxos)) > 0 <==> exists|i: int|
            0 <= i < utxos.len() && (#[trigger] utxos[i]).value > 0,
    decreases utxos.len(),
{
    if utxos.len() > 0 {
        let rest = utxos.drop_last();
        a_funded_wallet_has_a_coin_of_value(rest);
        assert(spending_values(utxos).drop_last() =~= spending_values(rest));
        if utxos.last().value > 0 {
            assert(utxos[utxos.len() - 1].value > 0);
        } else if exists|i: int| 0 <= i < rest.len() && (#[trigger] rest[i]).value > 0 {
            let i = choose|i: int| 0 <= i < rest.len() && (#[trigger] rest[i]).value > 0;
            assert(utxos[i].value > 0);
        } else {
            assert forall|i: int| 0 <= i < utxos.len() implies (#[trigger] utxos[i]).value == 0 by {
                if i < rest.len() {
                    assert(rest[i].value == 0);
                }
            }
        }
    }
}

}
