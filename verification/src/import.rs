//! Importing the coins of a sync bundle.
//!
//! A coin without an owner, or owned by the notebook's address, goes to the
//! notebook's ledger. A coin at an address the spending wallet has issued
//! goes to the wallet's. An address that the wallet has not recorded is
//! looked for among the next addresses of both chains; where it is found, it
//! is exactly an address that the wallet would have issued, and it is adopted:
//! the counter of its chain moves past it. Addresses that are merely known to
//! have a history are adopted first, so that a coin further on is still
//! reached.
//!
//! Deriving addresses is not done here: the import takes a table of derived
//! addresses, and says which ones are missing from it.

use crate::change::DerivedAddress;
use crate::coins::UtxoRec;
use crate::funding::{the_window_is_the_next_twenty_of_each_chain, watch_window, window};
use crate::hexcodec::{encode, hex_bytes, hex_reads_back, hex_text};
use crate::lists::position_where;
use crate::notebooks::NotebookIndex;
use crate::seqs::{
    filter_keeps, filter_take_none, filter_take_step, filtered_is_from, first_at, first_at_found,
    first_at_is, first_at_same,
};
use crate::spending::{
    has_section, is_issued, issued_in, marking_counts_past_the_address, marking_only_advances,
    marks, replaces, Issued, SpendingAddress, SpendingIndex,
    SpendingSection, SpendingUtxo,
};
use crate::state::State;
use crate::text::{decimal, decimal_text, same_text};
use vstd::prelude::*;

verus! {

/// One coin of a bundle.
#[derive(Debug)]
pub struct BundleUtxo {
    pub txid: String,
    pub vout: u32,
    pub value: u64,
    pub owner_address: Option<String>,
}

/// One line of the table of derived addresses; `derived` is missing where the
/// address could not be derived.
#[derive(Debug)]
pub struct TableRow {
    pub chain: u32,
    pub index: u32,
    pub derived: Option<DerivedAddress>,
}

/// What an import starts from.
#[derive(Debug)]
pub struct ImportInput {
    /// The notebook's own address.
    pub notebook_addr: String,
    /// The addresses the spending wallet has issued.
    pub used: Vec<SpendingAddress>,
    pub next_receive: u32,
    pub next_change: u32,
    /// Watched addresses with any history.
    pub owner_used: Vec<String>,
    pub utxos: Vec<BundleUtxo>,
}

/// What an import gives.
#[derive(Debug)]
pub struct ImportOutcome {
    pub notebook: Vec<UtxoRec>,
    pub spending: Vec<SpendingUtxo>,
    /// The addresses to record as issued, in the order they were adopted.
    pub newly_used: Vec<SpendingAddress>,
    /// How many of them, the first ones, were adopted for their history
    /// alone.
    pub history_only: usize,
}

/// How far an import has come: the adopted addresses and the counters.
#[verifier::ext_equal]
pub struct Progress {
    pub adopted: Seq<Issued>,
    pub next_receive: u32,
    pub next_change: u32,
}

/// How far an import has come with the coins.
#[verifier::ext_equal]
pub struct CoinProgress {
    pub progress: Progress,
    pub notebook: Seq<UtxoRec>,
    pub spending: Seq<SpendingUtxo>,
}

/// Whether a line of the table is the one at (`chain`, `index`).
pub open spec fn is_row(chain: u32, index: u32) -> spec_fn(TableRow) -> bool {
    |r: TableRow| r.chain == chain && r.index == index
}

/// Whether the table has a line for (`chain`, `index`).
pub open spec fn has_row(table: Seq<TableRow>, at: (u32, u32)) -> bool {
    first_at(table, is_row(at.0, at.1)) < table.len()
}

/// The address at (`chain`, `index`), if it could be derived.
pub open spec fn derived_at(table: Seq<TableRow>, at: (u32, u32)) -> Option<DerivedAddress> {
    let k = first_at(table, is_row(at.0, at.1));
    if k < table.len() {
        table[k].derived
    } else {
        None
    }
}

/// Whether the table has a line for every one of `places`.
pub open spec fn covers(table: Seq<TableRow>, places: Seq<(u32, u32)>) -> bool {
    forall|i: int| 0 <= i < places.len() ==> has_row(table, #[trigger] places[i])
}

/// Whether an issued address is `address`.
pub open spec fn is_at(address: Seq<char>) -> spec_fn(Issued) -> bool {
    |a: Issued| a.address == address
}

/// Whether a place of the window derives `address`.
pub open spec fn derives(table: Seq<TableRow>, address: Seq<char>) -> spec_fn((u32, u32)) -> bool {
    |at: (u32, u32)|
        derived_at(table, at) is Some && derived_at(table, at)->0.address@ == address
}

/// The places of the window that the table lacks.
pub open spec fn lacking(table: Seq<TableRow>, p: Progress) -> Seq<(u32, u32)> {
    window(p.next_receive, p.next_change).filter(|at: (u32, u32)| !has_row(table, at))
}

/// Whether an address is recorded or was adopted.
pub open spec fn is_known(used: Seq<Issued>, p: Progress, address: Seq<char>) -> bool {
    first_at(used, is_at(address)) < used.len() || first_at(p.adopted, is_at(address))
        < p.adopted.len()
}

/// The progress once the place `at` is adopted.
pub open spec fn adopt(p: Progress, at: (u32, u32), d: DerivedAddress) -> Progress {
    let next = (at.1 + 1) as u32;
    Progress {
        adopted: p.adopted.push(
            Issued {
                chain: at.0,
                index: at.1,
                address: d.address@,
                spk_hex: hex_text(d.script@),
            },
        ),
        next_receive: if at.0 == 0 && next > p.next_receive {
            next
        } else {
            p.next_receive
        },
        next_change: if at.0 != 0 && next > p.next_change {
            next
        } else {
            p.next_change
        },
    }
}

/// Looks up who owns an address: the recorded addresses first, then the
/// adopted ones, then the window ahead of the counters, whose match is
/// adopted. Gives the progress and the place of the address.
pub open spec fn resolve(
    used: Seq<Issued>,
    table: Seq<TableRow>,
    p: Progress,
    address: Seq<char>,
) -> (Progress, Option<(u32, u32)>) {
    let i = first_at(used, is_at(address));
    let j = first_at(p.adopted, is_at(address));
    let places = window(p.next_receive, p.next_change);
    let k = first_at(places, derives(table, address));
    if i < used.len() {
        (p, Some((used[i].chain, used[i].index)))
    } else if j < p.adopted.len() {
        (p, Some((p.adopted[j].chain, p.adopted[j].index)))
    } else if k < places.len() {
        (adopt(p, places[k], derived_at(table, places[k])->0), Some(places[k]))
    } else {
        (p, None)
    }
}

/// Whether the line `r` of the table is the first for its place, the place is
/// among the next twenty of its chain, and `address` is derived there.
pub open spec fn offers(table: Seq<TableRow>, p: Progress, address: Seq<char>, r: int) -> bool {
    &&& 0 <= r < table.len()
    &&& forall|s: int|
        0 <= s < r ==> (#[trigger] table[s]).chain != table[r].chain || table[s].index
            != table[r].index
    &&& table[r].index < u32::MAX
    &&& (table[r].chain == 0 && p.next_receive <= table[r].index < p.next_receive + 20) || (
    table[r].chain == 1 && p.next_change <= table[r].index < p.next_change + 20)
    &&& table[r].derived matches Some(d)
    &&& d.address@ == address
}

/// Whether an address is recorded, was adopted, or is derived ahead of the
/// counters.
pub open spec fn placeable(
    used: Seq<Issued>,
    table: Seq<TableRow>,
    p: Progress,
    address: Seq<char>,
) -> bool {
    ||| exists|i: int| 0 <= i < used.len() && (#[trigger] used[i]).address == address
    ||| exists|i: int| 0 <= i < p.adopted.len() && (#[trigger] p.adopted[i]).address == address
    ||| exists|r: int| #[trigger] offers(table, p, address, r)
}

impl ImportInput {
    /// The recorded addresses by their texts and numbers.
    pub open spec fn recorded(&self) -> Seq<Issued> {
        issued_in(self.used@)
    }

    /// The progress once the first `n` addresses with a history are looked
    /// up; the notebook's own address is none of the wallet's.
    pub open spec fn used_pass(&self, table: Seq<TableRow>, n: int) -> Progress
        decreases n,
    {
        if n <= 0 {
            Progress {
                adopted: seq![],
                next_receive: self.next_receive,
                next_change: self.next_change,
            }
        } else {
            let p = self.used_pass(table, n - 1);
            let a = self.owner_used@[n - 1]@;
            if a == self.notebook_addr@ {
                p
            } else {
                resolve(self.recorded(), table, p, a).0
            }
        }
    }

    /// Whether a coin is the notebook's.
    pub open spec fn is_notebook_coin(&self, u: BundleUtxo) -> bool {
        match u.owner_address {
            None => true,
            Some(a) => a@ == self.notebook_addr@,
        }
    }

    /// The progress once the first `n` coins are sorted.
    pub open spec fn coin_pass(&self, table: Seq<TableRow>, n: int) -> CoinProgress
        decreases n,
    {
        if n <= 0 {
            CoinProgress {
                progress: self.used_pass(table, self.owner_used@.len() as int),
                notebook: seq![],
                spending: seq![],
            }
        } else {
            let c = self.coin_pass(table, n - 1);
            let u = self.utxos@[n - 1];
            if self.is_notebook_coin(u) {
                CoinProgress {
                    notebook: c.notebook.push(
                        UtxoRec { txid: u.txid, vout: u.vout, value: u.value },
                    ),
                    ..c
                }
            } else {
                let (p, place) = resolve(
                    self.recorded(),
                    table,
                    c.progress,
                    u.owner_address->0@,
                );
                CoinProgress {
                    progress: p,
                    notebook: c.notebook,
                    spending: match place {
                        Some(at) => c.spending.push(
                            SpendingUtxo {
                                txid: u.txid,
                                vout: u.vout,
                                value: u.value,
                                chain: at.0,
                                index: at.1,
                            },
                        ),
                        None => c.spending,
                    },
                }
            }
        }
    }

    /// Whether the coin at `i` of the bundle is owned by an address other than
    /// the notebook's that the wallet can place when the turn of the coin
    /// comes.
    pub open spec fn is_placed(&self, table: Seq<TableRow>, i: int) -> bool {
        &&& self.utxos@[i].owner_address matches Some(a)
        &&& a@ != self.notebook_addr@
        &&& placeable(self.recorded(), table, self.coin_pass(table, i).progress, a@)
    }

    /// Whether `notebook` and `spending` are the coins of the bundle by owner:
    /// in the order of the bundle, the ledger of the notebook has the coins
    /// that are nobody else's and the one of the wallet has those that it can
    /// place, and each keeps its transaction id, its output number and its
    /// value.
    pub open spec fn sorts_into(
        &self,
        table: Seq<TableRow>,
        notebook: Seq<UtxoRec>,
        spending: Seq<SpendingUtxo>,
    ) -> bool {
        let all = Seq::new(self.utxos@.len(), |i: int| i);
        let own = all.filter(
            |i: int|
                self.utxos@[i].owner_address is None || (self.utxos@[i].owner_address->0)@
                    == self.notebook_addr@,
        );
        let placed = all.filter(|i: int| self.is_placed(table, i));
        &&& notebook.len() == own.len()
        &&& forall|j: int|
            0 <= j < own.len() ==> {
                &&& (#[trigger] notebook[j]).txid == self.utxos@[own[j]].txid
                &&& notebook[j].vout == self.utxos@[own[j]].vout
                &&& notebook[j].value == self.utxos@[own[j]].value
            }
        &&& spending.len() == placed.len()
        &&& forall|j: int|
            0 <= j < placed.len() ==> {
                &&& (#[trigger] spending[j]).txid == self.utxos@[placed[j]].txid
                &&& spending[j].vout == self.utxos@[placed[j]].vout
                &&& spending[j].value == self.utxos@[placed[j]].value
            }
    }

    /// Whether looking up an address needs no line that the table lacks.
    pub open spec fn can_resolve(
        &self,
        table: Seq<TableRow>,
        p: Progress,
        address: Seq<char>,
    ) -> bool {
        is_known(self.recorded(), p, address) || covers(
            table,
            window(p.next_receive, p.next_change),
        )
    }

    /// Whether the table has what the first `n` addresses with a history
    /// need.
    pub open spec fn used_covered(&self, table: Seq<TableRow>, n: int) -> bool {
        forall|i: int|
            0 <= i < n && #[trigger] self.owner_used@[i]@ != self.notebook_addr@
                ==> self.can_resolve(table, self.used_pass(table, i), self.owner_used@[i]@)
    }

    /// Whether the table has what the first `n` coins need.
    pub open spec fn coins_covered(&self, table: Seq<TableRow>, n: int) -> bool {
        forall|i: int|
            0 <= i < n && !self.is_notebook_coin(#[trigger] self.utxos@[i]) ==> self.can_resolve(
                table,
                self.coin_pass(table, i).progress,
                self.utxos@[i].owner_address->0@,
            )
    }

    /// Whether the table has what the whole import needs.
    pub open spec fn covered(&self, table: Seq<TableRow>) -> bool {
        self.used_covered(table, self.owner_used@.len() as int) && self.coins_covered(
            table,
            self.utxos@.len() as int,
        )
    }

    /// Whether the address with a history at `n` is the first thing that the
    /// table lacks lines for.
    pub open spec fn stops_at_address(&self, table: Seq<TableRow>, n: int) -> bool {
        &&& 0 <= n < self.owner_used@.len()
        &&& self.used_covered(table, n)
        &&& self.owner_used@[n]@ != self.notebook_addr@
        &&& !self.can_resolve(table, self.used_pass(table, n), self.owner_used@[n]@)
    }

    /// Whether the coin at `n` is the first thing that the table lacks lines
    /// for.
    pub open spec fn stops_at_coin(&self, table: Seq<TableRow>, n: int) -> bool {
        &&& self.used_covered(table, self.owner_used@.len() as int)
        &&& 0 <= n < self.utxos@.len()
        &&& self.coins_covered(table, n)
        &&& !self.is_notebook_coin(self.utxos@[n])
        &&& !self.can_resolve(
            table,
            self.coin_pass(table, n).progress,
            self.utxos@[n].owner_address->0@,
        )
    }

    /// Whether `missing` are the places that the table lacks at the first
    /// address or coin that cannot be looked up.
    pub open spec fn stops_with(&self, table: Seq<TableRow>, missing: Seq<(u32, u32)>) -> bool {
        ||| exists|n: int| #[trigger]
            self.stops_at_address(table, n) && missing == lacking(table, self.used_pass(table, n))
        ||| exists|n: int| #[trigger]
            self.stops_at_coin(table, n) && missing == lacking(
                table,
                self.coin_pass(table, n).progress,
            )
    }

    /// The input of an import into a spending wallet, which may not exist
    /// yet.
    pub fn new(
        notebook_addr: String,
        section: Option<&SpendingSection>,
        owner_used: Vec<String>,
        utxos: Vec<BundleUtxo>,
    ) -> (r: Self)
        ensures
            r.notebook_addr == notebook_addr,
            r.owner_used == owner_used,
            r.utxos == utxos,
            match section {
                Some(s) => {
                    &&& r.used@ == s.used@
                    &&& r.next_receive == s.next_receive
                    &&& r.next_change == s.next_change
                },
                None => {
                    &&& r.used@.len() == 0
                    &&& r.next_receive == 0
                    &&& r.next_change == 0
                },
            },
    {
        let mut used: Vec<SpendingAddress> = Vec::new();
        let mut next_receive: u32 = 0;
        let mut next_change: u32 = 0;
        match section {
            Some(s) => {
                let mut i: usize = 0;
                while i < s.used.len()
                    invariant
                        i <= s.used.len(),
                        used@ == s.used@.take(i as int),
                    decreases s.used.len() - i,
                {
                    used.push(s.used[i].clone());
                    i = i + 1;
                    assert(used@ =~= s.used@.take(i as int));
                }
                assert(used@ =~= s.used@);
                next_receive = s.next_receive;
                next_change = s.next_change;
            },
            None => {},
        }
        ImportInput { notebook_addr, used, next_receive, next_change, owner_used, utxos }
    }
}

/// Where an address is first listed, or the length of the list.
fn issued_position(list: &Vec<SpendingAddress>, address: &str) -> (r: usize)
    ensures
        r <= list.len(),
        r == first_at(issued_in(list@), is_at(address@)),
{
    let ghost hit = |a: SpendingAddress| is_at(address@)(a@);
    let test = |a: &SpendingAddress| -> (b: bool)
        ensures
            b == hit(*a),
        {
            same_text(a.address.as_str(), address)
        };
    proof {
        first_at_same(issued_in(list@), is_at(address@), list@, hit);
    }
    position_where(list, test, Ghost(hit))
}

/// Where the table has its line for a place, or the length of the table.
fn row_position(table: &Vec<TableRow>, chain: u32, index: u32) -> (r: usize)
    ensures
        r <= table.len(),
        r == first_at(table@, is_row(chain, index)),
{
    let test = |row: &TableRow| -> (b: bool)
        ensures
            b == is_row(chain, index)(*row),
        {
            row.chain == chain && row.index == index
        };
    position_where(table, test, Ghost(is_row(chain, index)))
}

/// The places that the table lacks.
fn missing_rows(table: &Vec<TableRow>, places: &Vec<(u32, u32)>) -> (r: Vec<(u32, u32)>)
    ensures
        r@ == places@.filter(|at: (u32, u32)| !has_row(table@, at)),
        r@.len() == 0 <==> covers(table@, places@),
{
    let ghost lacks = |at: (u32, u32)| !has_row(table@, at);
    let mut out: Vec<(u32, u32)> = Vec::new();
    let mut i: usize = 0;
    proof {
        filter_take_none(places@, lacks);
    }
    while i < places.len()
        invariant
            i <= places.len(),
            lacks == (|at: (u32, u32)| !has_row(table@, at)),
            out@ == places@.take(i as int).filter(lacks),
            out@.len() == 0 <==> covers(table@, places@.take(i as int)),
        decreases places.len() - i,
    {
        let ghost seen = places@.take(i as int);
        let ghost now = places@.take(i + 1);
        proof {
            filter_take_step(places@, i as int, lacks);
        }
        let (chain, index) = places[i];
        let ghost before = out@;
        if row_position(table, chain, index) >= table.len() {
            out.push((chain, index));
            assert(now[i as int] == places@[i as int]);
            assert(!covers(table@, now));
        } else {
            proof {
                if covers(table@, seen) {
                    assert forall|j: int| 0 <= j < now.len() implies has_row(
                        table@,
                        #[trigger] now[j],
                    ) by {
                        if j < i {
                            assert(now[j] == seen[j]);
                        }
                    }
                }
                if covers(table@, now) {
                    assert forall|j: int| 0 <= j < seen.len() implies has_row(
                        table@,
                        #[trigger] seen[j],
                    ) by {
                        assert(seen[j] == now[j]);
                    }
                }
            }
        }
        i = i + 1;
    }
    assert(places@.take(i as int) =~= places@);
    out
}

/// The first place of the window that derives an address, or the length of
/// the window.
fn derive_position(table: &Vec<TableRow>, places: &Vec<(u32, u32)>, address: &str) -> (r: usize)
    ensures
        r <= places.len(),
        r == first_at(places@, derives(table@, address@)),
{
    let test = |at: &(u32, u32)| -> (b: bool)
        ensures
            b == derives(table@, address@)(*at),
        {
            let k: usize = row_position(table, at.0, at.1);
            if k < table.len() {
                match &table[k].derived {
                    Some(d) => same_text(d.address.as_str(), address),
                    None => false,
                }
            } else {
                false
            }
        };
    position_where(places, test, Ghost(derives(table@, address@)))
}

/// Whether every index has a next one.
pub open spec fn indexes_in_range(list: Seq<SpendingAddress>) -> bool {
    forall|i: int| 0 <= i < list.len() ==> (#[trigger] list[i]).index < u32::MAX
}

/// The part of an import that looks up addresses.
struct Resolver {
    adopted: Vec<SpendingAddress>,
    next_receive: u32,
    next_change: u32,
}

impl Resolver {
    spec fn progress(&self) -> Progress {
        Progress {
            adopted: issued_in(self.adopted@),
            next_receive: self.next_receive,
            next_change: self.next_change,
        }
    }

    /// Looks up an address; the places that the table lacks are an error.
    fn resolve_owner(&mut self, input: &ImportInput, table: &Vec<TableRow>, address: &str) -> (r:
        Result<Option<(u32, u32)>, Vec<(u32, u32)>>)
        ensures
            indexes_in_range(old(self).adopted@) ==> indexes_in_range(final(self).adopted@),
            match r {
                Ok(place) => {
                    &&& input.can_resolve(table@, old(self).progress(), address@)
                    &&& resolve(input.recorded(), table@, old(self).progress(), address@) == (
                        final(self).progress(),
                        place,
                    )
                },
                Err(missing) => {
                    &&& !input.can_resolve(table@, old(self).progress(), address@)
                    &&& missing@.len() > 0
                    &&& missing@ == lacking(table@, old(self).progress())
                    &&& *final(self) == *old(self)
                },
            },
    {
        let ghost p = self.progress();
        let i: usize = issued_position(&input.used, address);
        if i < input.used.len() {
            assert(input.recorded()[i as int] == input.used@[i as int]@);
            return Ok(Some((input.used[i].chain, input.used[i].index)));
        }
        let j: usize = issued_position(&self.adopted, address);
        if j < self.adopted.len() {
            assert(p.adopted[j as int] == self.adopted@[j as int]@);
            return Ok(Some((self.adopted[j].chain, self.adopted[j].index)));
        }
        let places: Vec<(u32, u32)> = watch_window(self.next_receive, self.next_change);
        let missing: Vec<(u32, u32)> = missing_rows(table, &places);
        if missing.len() > 0 {
            return Err(missing);
        }
        let k: usize = derive_position(table, &places, address);
        if k >= places.len() {
            return Ok(None);
        }
        proof {
            first_at_found(places@, derives(table@, address@));
        }
        let (chain, index) = places[k];
        let row: usize = row_position(table, chain, index);
        match &table[row].derived {
            Some(d) => {
                let addr = SpendingAddress {
                    chain,
                    index,
                    address: d.address.clone(),
                    spk_hex: encode(d.script.as_slice()),
                };
                let ghost before = self.adopted@;
                assert(index < u32::MAX);
                if chain == 0 {
                    if index + 1 > self.next_receive {
                        self.next_receive = index + 1;
                    }
                } else if index + 1 > self.next_change {
                    self.next_change = index + 1;
                }
                self.adopted.push(addr);
                proof {
                    let after = adopt(p, (chain, index), *d);
                    assert(addr@ =~= after.adopted[before.len() as int]);
                    assert(issued_in(self.adopted@) =~= after.adopted);
                    assert(self.progress() =~= after);
                }
                Ok(Some((chain, index)))
            },
            None => Ok(None),
        }
    }
}

/// Sorts the coins of a bundle by owner and adopts the addresses found on the
/// way. Where the table lacks lines, the import says which ones the first
/// address or coin needs that cannot be looked up.
pub fn import_owners(input: &ImportInput, table: &Vec<TableRow>) -> (r: Result<
    ImportOutcome,
    Vec<(u32, u32)>,
>)
    ensures
        match r {
            Ok(out) => {
                let end = input.coin_pass(table@, input.utxos@.len() as int);
                &&& input.covered(table@)
                &&& input.sorts_into(table@, out.notebook@, out.spending@)
                &&& out.notebook@ == end.notebook
                &&& out.spending@ == end.spending
                &&& issued_in(out.newly_used@) == end.progress.adopted
                &&& indexes_in_range(out.newly_used@)
                &&& out.history_only == input.used_pass(
                    table@,
                    input.owner_used@.len() as int,
                ).adopted.len()
            },
            Err(missing) => {
                &&& !input.covered(table@)
                &&& missing@.len() > 0
                &&& input.stops_with(table@, missing@)
            },
        },
{
    let mut resolver = Resolver {
        adopted: Vec::new(),
        next_receive: input.next_receive,
        next_change: input.next_change,
    };
    assert(resolver.progress() =~= input.used_pass(table@, 0));
    let mut i: usize = 0;
    while i < input.owner_used.len()
        invariant
            i <= input.owner_used.len(),
            resolver.progress() == input.used_pass(table@, i as int),
            indexes_in_range(resolver.adopted@),
            input.used_covered(table@, i as int),
        decreases input.owner_used.len() - i,
    {
        let ghost p = resolver.progress();
        if !same_text(input.owner_used[i].as_str(), input.notebook_addr.as_str()) {
            match resolver.resolve_owner(input, table, input.owner_used[i].as_str()) {
                Ok(_) => {},
                Err(missing) => {
                    proof {
                        assert(input.owner_used@[i as int]@ != input.notebook_addr@);
                        assert(!input.used_covered(table@, input.owner_used@.len() as int));
                        assert(p == input.used_pass(table@, i as int));
                        assert(input.stops_at_address(table@, i as int));
                    }
                    return Err(missing);
                },
            }
        }
        i = i + 1;
    }
    let history_only: usize = resolver.adopted.len();
    let mut notebook: Vec<UtxoRec> = Vec::new();
    let mut spending: Vec<SpendingUtxo> = Vec::new();
    let mut k: usize = 0;
    while k < input.utxos.len()
        invariant
            k <= input.utxos.len(),
            input.used_covered(table@, input.owner_used@.len() as int),
            resolver.progress() == input.coin_pass(table@, k as int).progress,
            indexes_in_range(resolver.adopted@),
            notebook@ == input.coin_pass(table@, k as int).notebook,
            spending@ == input.coin_pass(table@, k as int).spending,
            input.coins_covered(table@, k as int),
        decreases input.utxos.len() - k,
    {
        let ghost p = resolver.progress();
        let ghost c = input.coin_pass(table@, k as int);
        let u: &BundleUtxo = &input.utxos[k];
        let mut foreign = false;
        match &u.owner_address {
            Some(a) => {
                if !same_text(a.as_str(), input.notebook_addr.as_str()) {
                    foreign = true;
                    match resolver.resolve_owner(input, table, a.as_str()) {
                        Ok(place) => {
                            match place {
                                Some(at) => {
                                    spending.push(
                                        SpendingUtxo {
                                            txid: u.txid.clone(),
                                            vout: u.vout,
                                            value: u.value,
                                            chain: at.0,
                                            index: at.1,
                                        },
                                    );
                                },
                                None => {},
                            }
                        },
                        Err(missing) => {
                            proof {
                                assert(!input.is_notebook_coin(input.utxos@[k as int]));
                                assert(!input.coins_covered(table@, input.utxos@.len() as int));
                                assert(p == c.progress);
                                assert(input.stops_at_coin(table@, k as int));
                            }
                            return Err(missing);
                        },
                    }
                }
            },
            None => {},
        }
        if !foreign {
            notebook.push(UtxoRec { txid: u.txid.clone(), vout: u.vout, value: u.value });
        }
        k = k + 1;
    }
    proof {
        coins_are_sorted_by_owner(*input, table@);
    }
    Ok(ImportOutcome { notebook, spending, newly_used: resolver.adopted, history_only })
}

/// `after` is `before` once each of `addrs` is recorded as issued in turn.
pub open spec fn marks_all(
    before: SpendingSection,
    addrs: Seq<SpendingAddress>,
    after: SpendingSection,
) -> bool
    decreases addrs.len(),
{
    if addrs.len() == 0 {
        after == before
    } else {
        exists|mid: SpendingSection|
            marks_all(before, addrs.drop_last(), mid) && #[trigger] marks(mid, addrs.last(), after)
    }
}

/// Records each of `addrs` as issued in turn.
fn mark_all(section: &mut SpendingSection, addrs: &Vec<SpendingAddress>)
    requires
        indexes_in_range(addrs@),
    ensures
        marks_all(*old(section), addrs@, *final(section)),
{
    let mut i: usize = 0;
    assert(addrs@.take(0) =~= seq![]);
    while i < addrs.len()
        invariant
            i <= addrs.len(),
            indexes_in_range(addrs@),
            marks_all(*old(section), addrs@.take(i as int), *section),
        decreases addrs.len() - i,
    {
        let ghost mid = *section;
        section.mark_used(addrs[i].clone());
        proof {
            let now = addrs@.take(i + 1);
            assert(now.drop_last() =~= addrs@.take(i as int));
            assert(marks_all(*old(section), now.drop_last(), mid));
            assert(now.last() == addrs@[i as int]);
            assert(marks(mid, now.last(), *section));
        }
        i = i + 1;
    }
    assert(addrs@.take(i as int) =~= addrs@);
}

/// The spending section `now` follows from `was` by an import that adopts
/// `newly_used` and gives the coins `utxos`.
pub open spec fn imports(
    was: SpendingSection,
    newly_used: Seq<SpendingAddress>,
    utxos: Vec<SpendingUtxo>,
    now: SpendingSection,
) -> bool {
    exists|mid: SpendingSection| #[trigger]
        marks_all(was, newly_used, mid) && now == (SpendingSection { utxos, ..mid })
}

/// Applies an import: the notebook's coins and the chain height are replaced;
/// the wallet of the context gets its coins and the adopted addresses, where
/// it exists or anything was adopted. Says whether the wallet was concerned.
pub fn apply_import(
    st: &mut State,
    ix: &mut NotebookIndex,
    network: &str,
    seed: u32,
    bip_account: u32,
    outcome: ImportOutcome,
    tip_height: u64,
    bundle_time: u64,
) -> (r: bool)
    requires
        indexes_in_range(outcome.newly_used@),
    ensures
        *final(st) == (State {
            utxos: outcome.notebook,
            tip_height: Some(tip_height),
            bundle_time: Some(bundle_time),
            ..*old(st)
        }),
        r == (has_section(old(ix).spending@, network@, seed, bip_account)
            || outcome.newly_used@.len() > 0),
        r ==> {
            &&& final(ix).same_but_sections(old(ix))
            &&& exists|was: SpendingSection, now: SpendingSection|
                replaces(
                    old(ix).spending@,
                    network@,
                    seed,
                    bip_account,
                    was,
                    now,
                    final(ix).spending@,
                ) && #[trigger] imports(was, outcome.newly_used@, outcome.spending, now)
        },
        !r ==> *final(ix) == *old(ix),
{
    st.utxos = outcome.notebook;
    st.tip_height = Some(tip_height);
    st.bundle_time = Some(bundle_time);
    let exists_already: bool = ix.spending(network, seed, bip_account).is_some();
    if !exists_already && outcome.newly_used.len() == 0 {
        return false;
    }
    let section = ix.spending_mut(network, seed, bip_account);
    let ghost was = *section;
    mark_all(section, &outcome.newly_used);
    let ghost mid = *section;
    section.set_utxos(outcome.spending);
    let ghost now = *section;
    assert(marks_all(was, outcome.newly_used@, mid));
    assert(imports(was, outcome.newly_used@, outcome.spending, now));
    assert(replaces(old(ix).spending@, network@, seed, bip_account, was, now, ix.spending@));
    true
}

/// Where a counter that starts at `start` stands once the addresses of `list`
/// are issued in turn: the change counter, or the counter of the rest.
pub open spec fn counter_after(start: int, list: Seq<Issued>, change: bool) -> int
    decreases list.len(),
{
    if list.len() == 0 {
        start
    } else {
        let before = counter_after(start, list.drop_last(), change);
        let last = list.last();
        if (last.chain == 1) == change && last.index >= before {
            last.index + 1
        } else {
            before
        }
    }
}

/// Whether each of `list` is at or past the counter of its chain when its
/// turn comes, on a chain that is 0 or 1.
pub open spec fn fresh_in_turn(next_receive: int, next_change: int, list: Seq<Issued>) -> bool
    decreases list.len(),
{
    list.len() > 0 ==> {
        let rest = list.drop_last();
        let last = list.last();
        &&& fresh_in_turn(next_receive, next_change, rest)
        &&& last.chain <= 1
        &&& last.index >= if last.chain == 1 {
            counter_after(next_change, rest, true)
        } else {
            counter_after(next_receive, rest, false)
        }
    }
}

/// What holds of every progress of an import.
spec fn consistent(input: ImportInput, p: Progress) -> bool {
    &&& p.next_receive == counter_after(input.next_receive as int, p.adopted, false)
    &&& p.next_change == counter_after(input.next_change as int, p.adopted, true)
    &&& fresh_in_turn(input.next_receive as int, input.next_change as int, p.adopted)
}

/// Every adopted address is behind the counter of its chain.
spec fn behind(p: Progress) -> bool {
    forall|i: int|
        0 <= i < p.adopted.len() ==> (#[trigger] p.adopted[i]).index < if p.adopted[i].chain == 1 {
            p.next_change
        } else {
            p.next_receive
        }
}

/// Looking up an address keeps the progress consistent, moves no counter
/// back, and leaves the address it found behind the counter, unless it was
/// recorded before.
proof fn resolving_advances(
    input: ImportInput,
    table: Seq<TableRow>,
    p: Progress,
    address: Seq<char>,
)
    requires
        consistent(input, p),
        behind(p),
    ensures
        ({
            let (q, place) = resolve(input.recorded(), table, p, address);
            &&& consistent(input, q)
            &&& q.next_receive >= p.next_receive
            &&& q.next_change >= p.next_change
            &&& behind(q)
            &&& place is Some && first_at(input.recorded(), is_at(address)) >= input.recorded().len()
                ==> (place->0).1 < if (place->0).0 == 1 {
                q.next_change
            } else {
                q.next_receive
            }
        }),
{
    let (q, place) = resolve(input.recorded(), table, p, address);
    let places = window(p.next_receive, p.next_change);
    first_at_found(input.recorded(), is_at(address));
    first_at_found(p.adopted, is_at(address));
    first_at_found(places, derives(table, address));
    if q.adopted.len() > p.adopted.len() {
        let at = place->0;
        assert(q.adopted.drop_last() =~= p.adopted);
        assert(at.0 <= 1 && at.1 < u32::MAX);
        assert(at.1 >= if at.0 == 1 {
            p.next_change
        } else {
            p.next_receive
        });
        assert forall|i: int| 0 <= i < q.adopted.len() implies (#[trigger] q.adopted[i]).index
            < if q.adopted[i].chain == 1 {
            q.next_change
        } else {
            q.next_receive
        } by {
            if i < p.adopted.len() {
                assert(q.adopted[i] == p.adopted[i]);
            }
        }
    }
}

/// The first pass is consistent throughout.
proof fn used_pass_is_consistent(input: ImportInput, table: Seq<TableRow>, n: int)
    requires
        0 <= n <= input.owner_used@.len(),
    ensures
        consistent(input, input.used_pass(table, n)),
        behind(input.used_pass(table, n)),
    decreases n,
{
    if n > 0 {
        used_pass_is_consistent(input, table, n - 1);
        resolving_advances(
            input,
            table,
            input.used_pass(table, n - 1),
            input.owner_used@[n - 1]@,
        );
    }
}

/// The second pass is consistent throughout.
proof fn coin_pass_is_consistent(input: ImportInput, table: Seq<TableRow>, n: int)
    requires
        0 <= n <= input.utxos@.len(),
    ensures
        consistent(input, input.coin_pass(table, n).progress),
        behind(input.coin_pass(table, n).progress),
    decreases n,
{
    if n > 0 {
        coin_pass_is_consistent(input, table, n - 1);
        resolving_advances(
            input,
            table,
            input.coin_pass(table, n - 1).progress,
            input.utxos@[n - 1].owner_address->0@,
        );
    } else {
        used_pass_is_consistent(input, table, input.owner_used@.len() as int);
    }
}

/// No counter moves back in the course of the first pass.
proof fn used_pass_only_advances(input: ImportInput, table: Seq<TableRow>, m: int, n: int)
    requires
        0 <= m <= n <= input.owner_used@.len(),
    ensures
        input.used_pass(table, m).next_receive <= input.used_pass(table, n).next_receive,
        input.used_pass(table, m).next_change <= input.used_pass(table, n).next_change,
    decreases n - m,
{
    if m < n {
        used_pass_only_advances(input, table, m, n - 1);
        used_pass_is_consistent(input, table, n - 1);
        resolving_advances(
            input,
            table,
            input.used_pass(table, n - 1),
            input.owner_used@[n - 1]@,
        );
    }
}

/// No counter ever moves back: an import ends with counters at or past the
/// ones it started with, at every step.
pub proof fn counters_never_go_back(input: ImportInput, table: Seq<TableRow>, m: int, n: int)
    requires
        0 <= m <= n <= input.utxos@.len(),
    ensures
        input.next_receive <= input.coin_pass(table, m).progress.next_receive,
        input.next_change <= input.coin_pass(table, m).progress.next_change,
        input.coin_pass(table, m).progress.next_receive <= input.coin_pass(
            table,
            n,
        ).progress.next_receive,
        input.coin_pass(table, m).progress.next_change <= input.coin_pass(
            table,
            n,
        ).progress.next_change,
    decreases n,
{
    if m < n {
        counters_never_go_back(input, table, m, n - 1);
        coin_pass_is_consistent(input, table, n - 1);
        resolving_advances(
            input,
            table,
            input.coin_pass(table, n - 1).progress,
            input.utxos@[n - 1].owner_address->0@,
        );
    } else if m > 0 {
        counters_never_go_back(input, table, m - 1, n - 1);
        coin_pass_is_consistent(input, table, n - 1);
        resolving_advances(
            input,
            table,
            input.coin_pass(table, n - 1).progress,
            input.utxos@[n - 1].owner_address->0@,
        );
    } else {
        used_pass_only_advances(input, table, 0, input.owner_used@.len() as int);
    }
}

/// An address that is reported to have a history, and that the wallet can
/// place, is never offered as a next address again: at the end of the import
/// the counter of its chain is past it.
pub proof fn reported_addresses_are_passed(input: ImportInput, table: Seq<TableRow>, i: int)
    requires
        forall|k: int|
            0 <= k < input.used@.len() ==> (#[trigger] input.used@[k]).index
                < if input.used@[k].chain == 1 {
                input.next_change
            } else {
                input.next_receive
            },
        0 <= i < input.owner_used@.len(),
        input.owner_used@[i]@ != input.notebook_addr@,
        resolve(
            input.recorded(),
            table,
            input.used_pass(table, i),
            input.owner_used@[i]@,
        ).1 is Some,
    ensures
        ({
            let at = resolve(
                input.recorded(),
                table,
                input.used_pass(table, i),
                input.owner_used@[i]@,
            ).1->0;
            let end = input.coin_pass(table, input.utxos@.len() as int).progress;
            at.1 < if at.0 == 1 {
                end.next_change
            } else {
                end.next_receive
            }
        }),
{
    let a = input.owner_used@[i]@;
    let p = input.used_pass(table, i);
    let used = input.recorded();
    let n = input.owner_used@.len() as int;
    used_pass_is_consistent(input, table, i);
    resolving_advances(input, table, p, a);
    used_pass_only_advances(input, table, 0, i);
    used_pass_only_advances(input, table, i + 1, n);
    counters_never_go_back(input, table, 0, input.utxos@.len() as int);
    first_at_found(used, is_at(a));
    let k = first_at(used, is_at(a));
    if k < used.len() {
        assert(used[k] == input.used@[k]@);
    }
    assert(input.used_pass(table, i + 1) == resolve(used, table, p, a).0);
}

/// The notebook's ledger after an import holds exactly the coins without an
/// owner and the coins owned by the notebook's address, in the order of the
/// bundle.
pub proof fn notebook_coins_are_all_kept(input: ImportInput, table: Seq<TableRow>, n: int)
    requires
        0 <= n <= input.utxos@.len(),
    ensures
        input.coin_pass(table, n).notebook == input.utxos@.take(n).filter(
            |u: BundleUtxo| input.is_notebook_coin(u),
        ).map_values(|u: BundleUtxo| UtxoRec { txid: u.txid, vout: u.vout, value: u.value }),
    decreases n,
{
    let own = |u: BundleUtxo| input.is_notebook_coin(u);
    let rec = |u: BundleUtxo| UtxoRec { txid: u.txid, vout: u.vout, value: u.value };
    let now = input.coin_pass(table, n).notebook;
    if n > 0 {
        notebook_coins_are_all_kept(input, table, n - 1);
        filter_take_step(input.utxos@, n - 1, own);
        let before = input.utxos@.take(n - 1).filter(own);
        let u = input.utxos@[n - 1];
        if own(u) {
            assert(before.push(u).map_values(rec) =~= before.map_values(rec).push(rec(u)));
        }
    } else {
        filter_take_none(input.utxos@, own);
        assert(now =~= input.utxos@.take(0).filter(own).map_values(rec));
    }
}

/// What recording addresses does to the counters and the records.
proof fn marking_all_counts(
    was: SpendingSection,
    addrs: Seq<SpendingAddress>,
    now: SpendingSection,
)
    requires
        marks_all(was, addrs, now),
        was.wf(),
        fresh_in_turn(was.next_receive as int, was.next_change as int, issued_in(addrs)),
    ensures
        now.wf(),
        now.next_receive == counter_after(was.next_receive as int, issued_in(addrs), false),
        now.next_change == counter_after(was.next_change as int, issued_in(addrs), true),
        now.used@ == was.used@ + addrs,
    decreases addrs.len(),
{
    if addrs.len() == 0 {
        assert(now.used@ =~= was.used@ + addrs);
    } else {
        let rest = addrs.drop_last();
        let addr = addrs.last();
        let mid = choose|mid: SpendingSection|
            marks_all(was, rest, mid) && #[trigger] marks(mid, addr, now);
        assert(issued_in(addrs).drop_last() =~= issued_in(rest));
        marking_all_counts(was, rest, mid);
        assert(!is_issued(mid.used@, addr.chain, addr.index));
        assert(now.used@ =~= was.used@ + addrs);
    }
}

/// What an import adopts is what the wallet records: every adopted address is
/// recorded behind the others, and the counters of the wallet are the ones
/// that the import counted with. The next import therefore knows them all.
pub proof fn adopted_addresses_are_recorded(
    input: ImportInput,
    table: Seq<TableRow>,
    was: SpendingSection,
    newly_used: Seq<SpendingAddress>,
    utxos: Vec<SpendingUtxo>,
    now: SpendingSection,
)
    requires
        was.wf(),
        was.next_receive == input.next_receive,
        was.next_change == input.next_change,
        issued_in(newly_used) == input.coin_pass(
            table,
            input.utxos@.len() as int,
        ).progress.adopted,
        imports(was, newly_used, utxos, now),
    ensures
        now.wf(),
        now.used@ == was.used@ + newly_used,
        ({
            let end = input.coin_pass(table, input.utxos@.len() as int).progress;
            now.next_receive == end.next_receive && now.next_change == end.next_change
        }),
{
    coin_pass_is_consistent(input, table, input.utxos@.len() as int);
    let mid = choose|mid: SpendingSection| #[trigger]
        marks_all(was, newly_used, mid) && now == (SpendingSection { utxos, ..mid });
    marking_all_counts(was, newly_used, mid);
}

/// Why a bundle cannot be imported: it is for another network. A bundle that
/// names no network is taken.
pub fn network_problem(bundle_network: &str, network: &str) -> (r: Option<String>)
    ensures
        if bundle_network@.len() > 0 && bundle_network@ != network@ {
            r matches Some(e) && e@ == "bundle is for "@ + bundle_network@ + ", app is on "@
                + network@ + " \u{2014} switch network first"@
        } else {
            r is None
        },
{
    if bundle_network.is_empty() || same_text(bundle_network, network) {
        return None;
    }
    let mut out: String = "bundle is for ".to_owned();
    out.append(bundle_network);
    out.append(", app is on ");
    out.append(network);
    out.append(" \u{2014} switch network first");
    Some(out)
}

/// The line that reports an import.
pub fn import_line(src: &str, notes: usize, new: usize, utxos: usize, tip_height: u64) -> (r: String)
    ensures
        r@ == "Imported ("@ + src@ + "): "@ + decimal(notes as nat) + " note(s) ("@ + decimal(
            new as nat,
        ) + " new), "@ + decimal(utxos as nat) + " utxo(s), height "@ + decimal(tip_height as nat)
            + "."@,
{
    let mut out: String = "Imported (".to_owned();
    out.append(src);
    out.append("): ");
    out.append(decimal_text(notes as u64).as_str());
    out.append(" note(s) (");
    out.append(decimal_text(new as u64).as_str());
    out.append(" new), ");
    out.append(decimal_text(utxos as u64).as_str());
    out.append(" utxo(s), height ");
    out.append(decimal_text(tip_height).as_str());
    out.append(".");
    out
}

/// A place of the window that derives an address has a line that offers it.
proof fn deriving_is_offering(
    table: Seq<TableRow>,
    p: Progress,
    address: Seq<char>,
    at: (u32, u32),
)
    requires
        window(p.next_receive, p.next_change).contains(at),
    ensures
        derives(table, address)(at) ==> offers(
            table,
            p,
            address,
            first_at(table, is_row(at.0, at.1)),
        ),
{
    first_at_found(table, is_row(at.0, at.1));
    the_window_is_the_next_twenty_of_each_chain(p.next_receive, p.next_change);
    let r = first_at(table, is_row(at.0, at.1));
    if derives(table, address)(at) {
        assert(is_row(at.0, at.1)(table[r]));
        assert(window(p.next_receive, p.next_change).contains((at.0, at.1)));
        assert forall|s: int| 0 <= s < r implies (#[trigger] table[s]).chain != table[r].chain
            || table[s].index != table[r].index by {
            assert(!is_row(at.0, at.1)(table[s]));
        }
    }
}

/// An address that a line offers is derived in the window, no later than
/// there.
proof fn offering_is_deriving(
    table: Seq<TableRow>,
    p: Progress,
    address: Seq<char>,
    r: int,
)
    requires
        offers(table, p, address, r),
    ensures
        ({
            let places = window(p.next_receive, p.next_change);
            let k = first_at(places, derives(table, address));
            &&& k < places.len()
            &&& places[k].0 < table[r].chain || (places[k].0 == table[r].chain && places[k].1
                <= table[r].index)
        }),
{
    let places = window(p.next_receive, p.next_change);
    let at = (table[r].chain, table[r].index);
    the_window_is_the_next_twenty_of_each_chain(p.next_receive, p.next_change);
    first_at_is(table, is_row(at.0, at.1), r);
    assert(places.contains(at));
    let i = choose|i: int| 0 <= i < places.len() && places[i] == at;
    assert(derives(table, address)(places[i]));
    first_at_found(places, derives(table, address));
}

/// An address is placed where it is recorded, else where it was adopted, else
/// at the first place that derives it among the next twenty of the receive
/// chain and then of the change chain. Only in the last case is anything
/// adopted: that one address, with its script, and the counter of its chain
/// moves to the index behind it.
pub proof fn owners_are_placed_where_they_belong(
    used: Seq<Issued>,
    table: Seq<TableRow>,
    p: Progress,
    address: Seq<char>,
)
    ensures
        ({
            let (q, place) = resolve(used, table, p, address);
            let recorded = exists|i: int|
                0 <= i < used.len() && (#[trigger] used[i]).address == address;
            let adopted = exists|i: int|
                0 <= i < p.adopted.len() && (#[trigger] p.adopted[i]).address == address;
            &&& place is Some <==> placeable(used, table, p, address)
            &&& recorded ==> exists|i: int|
                {
                    &&& 0 <= i < used.len()
                    &&& (#[trigger] used[i]).address == address
                    &&& forall|j: int| 0 <= j < i ==> (#[trigger] used[j]).address != address
                    &&& place == Some((used[i].chain, used[i].index))
                }
            &&& !recorded && adopted ==> exists|i: int|
                {
                    &&& 0 <= i < p.adopted.len()
                    &&& (#[trigger] p.adopted[i]).address == address
                    &&& forall|j: int| 0 <= j < i ==> (#[trigger] p.adopted[j]).address != address
                    &&& place == Some((p.adopted[i].chain, p.adopted[i].index))
                }
            &&& recorded || adopted || place is None ==> q == p
            &&& !recorded && !adopted && place is Some ==> {
                let at = place->0;
                &&& exists|r: int|
                    {
                        &&& #[trigger] offers(table, p, address, r)
                        &&& at == (table[r].chain, table[r].index)
                        &&& hex_bytes(q.adopted.last().spk_hex) == (table[r].derived->0).script@
                    }
                &&& forall|r: int| #[trigger]
                    offers(table, p, address, r) ==> at.0 < table[r].chain || (at.0
                        == table[r].chain && at.1 <= table[r].index)
                &&& q.adopted.len() == p.adopted.len() + 1
                &&& q.adopted.drop_last() == p.adopted
                &&& q.adopted.last().chain == at.0
                &&& q.adopted.last().index == at.1
                &&& q.adopted.last().address == address
                &&& at.0 == 0 ==> q.next_receive == at.1 + 1 && q.next_change == p.next_change
                &&& at.0 == 1 ==> q.next_change == at.1 + 1 && q.next_receive == p.next_receive
            }
        }),
{
    let (q, place) = resolve(used, table, p, address);
    let places = window(p.next_receive, p.next_change);
    let i = first_at(used, is_at(address));
    let j = first_at(p.adopted, is_at(address));
    let k = first_at(places, derives(table, address));
    first_at_found(used, is_at(address));
    first_at_found(p.adopted, is_at(address));
    first_at_found(places, derives(table, address));
    assert forall|m: int| 0 <= m < i implies (#[trigger] used[m]).address != address by {
        assert(!is_at(address)(used[m]));
    }
    assert forall|m: int| 0 <= m < j implies (#[trigger] p.adopted[m]).address != address by {
        assert(!is_at(address)(p.adopted[m]));
    }
    if i < used.len() {
        assert(is_at(address)(used[i]));
    } else if j < p.adopted.len() {
        assert(is_at(address)(p.adopted[j]));
    } else if k < places.len() {
        let at = places[k];
        let r = first_at(table, is_row(at.0, at.1));
        assert(places.contains(at));
        deriving_is_offering(table, p, address, at);
        first_at_found(table, is_row(at.0, at.1));
        assert(is_row(at.0, at.1)(table[r]));
        assert(offers(table, p, address, r));
        hex_reads_back((table[r].derived->0).script@);
        assert(q.adopted.drop_last() =~= p.adopted);
    }
    assert forall|r: int| #[trigger] offers(table, p, address, r) implies k < places.len() && (
    places[k].0 < table[r].chain || (places[k].0 == table[r].chain && places[k].1
        <= table[r].index)) by {
        offering_is_deriving(table, p, address, r);
    }
}

/// The coins sorted so far are those of the beginning of the bundle.
proof fn coins_are_sorted_up_to(
    input: ImportInput,
    table: Seq<TableRow>,
    all: Seq<int>,
    own: spec_fn(int) -> bool,
    placed: spec_fn(int) -> bool,
    n: int,
)
    requires
        0 <= n <= input.utxos@.len(),
        all == Seq::new(input.utxos@.len(), |i: int| i),
        forall|i: int| #[trigger]
            own(i) <==> input.utxos@[i].owner_address is None || (
            input.utxos@[i].owner_address->0)@ == input.notebook_addr@,
        forall|i: int| #[trigger] placed(i) <==> input.is_placed(table, i),
    ensures
        ({
            let c = input.coin_pass(table, n);
            let a = all.take(n).filter(own);
            let b = all.take(n).filter(placed);
            &&& c.notebook.len() == a.len()
            &&& forall|j: int|
                0 <= j < a.len() ==> {
                    &&& (#[trigger] c.notebook[j]).txid == input.utxos@[a[j]].txid
                    &&& c.notebook[j].vout == input.utxos@[a[j]].vout
                    &&& c.notebook[j].value == input.utxos@[a[j]].value
                }
            &&& c.spending.len() == b.len()
            &&& forall|j: int|
                0 <= j < b.len() ==> {
                    &&& (#[trigger] c.spending[j]).txid == input.utxos@[b[j]].txid
                    &&& c.spending[j].vout == input.utxos@[b[j]].vout
                    &&& c.spending[j].value == input.utxos@[b[j]].value
                }
        }),
    decreases n,
{
    if n == 0 {
        filter_take_none(all, own);
        filter_take_none(all, placed);
    } else {
        coins_are_sorted_up_to(input, table, all, own, placed, n - 1);
        filter_take_step(all, n - 1, own);
        filter_take_step(all, n - 1, placed);
        let c = input.coin_pass(table, n - 1);
        let d = input.coin_pass(table, n);
        let u = input.utxos@[n - 1];
        assert(own(n - 1) == input.is_notebook_coin(u));
        if !own(n - 1) {
            owners_are_placed_where_they_belong(
                input.recorded(),
                table,
                c.progress,
                u.owner_address->0@,
            );
        }
        assert(placed(n - 1) == input.is_placed(table, n - 1));
    }
}

/// The coins an import gives the wallet are, in the order of the bundle,
/// exactly the coins whose owner the wallet can place, and those it gives the
/// notebook exactly the ones that are nobody else's. Each keeps the
/// transaction id, the output number and the value of its bundle coin.
pub proof fn coins_are_sorted_by_owner(input: ImportInput, table: Seq<TableRow>)
    ensures
        ({
            let end = input.coin_pass(table, input.utxos@.len() as int);
            let all = Seq::new(input.utxos@.len(), |i: int| i);
            let own = all.filter(
                |i: int|
                    input.utxos@[i].owner_address is None || (input.utxos@[i].owner_address->0)@
                        == input.notebook_addr@,
            );
            let placed = all.filter(
                |i: int|
                    {
                        &&& input.utxos@[i].owner_address matches Some(a)
                        &&& a@ != input.notebook_addr@
                        &&& placeable(
                            input.recorded(),
                            table,
                            input.coin_pass(table, i).progress,
                            a@,
                        )
                    },
            );
            &&& end.notebook.len() == own.len()
            &&& forall|j: int|
                0 <= j < own.len() ==> {
                    &&& (#[trigger] end.notebook[j]).txid == input.utxos@[own[j]].txid
                    &&& end.notebook[j].vout == input.utxos@[own[j]].vout
                    &&& end.notebook[j].value == input.utxos@[own[j]].value
                }
            &&& end.spending.len() == placed.len()
            &&& forall|j: int|
                0 <= j < placed.len() ==> {
                    &&& (#[trigger] end.spending[j]).txid == input.utxos@[placed[j]].txid
                    &&& end.spending[j].vout == input.utxos@[placed[j]].vout
                    &&& end.spending[j].value == input.utxos@[placed[j]].value
                }
            &&& input.sorts_into(table, end.notebook, end.spending)
        }),
{
    let n = input.utxos@.len() as int;
    let all = Seq::new(input.utxos@.len(), |i: int| i);
    let own = |i: int|
        input.utxos@[i].owner_address is None || (input.utxos@[i].owner_address->0)@
            == input.notebook_addr@;
    let placed = |i: int| input.is_placed(table, i);
    let can = |i: int|
        {
            &&& input.utxos@[i].owner_address matches Some(a)
            &&& a@ != input.notebook_addr@
            &&& placeable(input.recorded(), table, input.coin_pass(table, i).progress, a@)
        };
    assert(placed =~= can);
    coins_are_sorted_up_to(input, table, all, own, placed, n);
    assert(all.take(n) =~= all);
}

/// One more coin: a coin that the wallet can place is added behind the others
/// at the place of its owner, and the owner is from then on recorded or
/// adopted there. Any other coin leaves the wallet as it was.
pub proof fn a_coin_goes_to_the_place_of_its_owner(
    input: ImportInput,
    table: Seq<TableRow>,
    n: int,
    now: CoinProgress,
)
    requires
        0 <= n < input.utxos@.len(),
        now == input.coin_pass(table, n + 1),
    ensures
        input.is_placed(table, n) ==> {
            let owner = (input.utxos@[n].owner_address->0)@;
            let coin = now.spending.last();
            &&& now.spending.len() == input.coin_pass(table, n).spending.len() + 1
            &&& (exists|i: int|
                {
                    &&& 0 <= i < input.used@.len()
                    &&& (#[trigger] input.used@[i]).address@ == owner
                    &&& input.used@[i].chain == coin.chain
                    &&& input.used@[i].index == coin.index
                }) || (exists|i: int|
                {
                    &&& 0 <= i < now.progress.adopted.len()
                    &&& (#[trigger] now.progress.adopted[i]).address == owner
                    &&& now.progress.adopted[i].chain == coin.chain
                    &&& now.progress.adopted[i].index == coin.index
                })
        },
        !input.is_placed(table, n) ==> {
            &&& now.spending == input.coin_pass(table, n).spending
            &&& now.progress == input.coin_pass(table, n).progress
        },
{
    let u = input.utxos@[n];
    let used = input.recorded();
    let p = input.coin_pass(table, n).progress;
    if !input.is_notebook_coin(u) {
        let owner = u.owner_address->0@;
        owners_are_placed_where_they_belong(used, table, p, owner);
        let (q, place) = resolve(used, table, p, owner);
        if place is Some {
            if exists|i: int| 0 <= i < used.len() && (#[trigger] used[i]).address == owner {
                let i = choose|i: int|
                    {
                        &&& 0 <= i < used.len()
                        &&& (#[trigger] used[i]).address == owner
                        &&& forall|j: int| 0 <= j < i ==> (#[trigger] used[j]).address != owner
                        &&& place == Some((used[i].chain, used[i].index))
                    };
                assert(used[i] == input.used@[i]@);
                assert(input.used@[i].address@ == owner);
            } else if exists|i: int|
                0 <= i < p.adopted.len() && (#[trigger] p.adopted[i]).address == owner {
                let i = choose|i: int|
                    {
                        &&& 0 <= i < p.adopted.len()
                        &&& (#[trigger] p.adopted[i]).address == owner
                        &&& forall|j: int| 0 <= j < i ==> (#[trigger] p.adopted[j]).address != owner
                        &&& place == Some((p.adopted[i].chain, p.adopted[i].index))
                    };
                assert(now.progress.adopted[i].address == owner);
            } else {
                let last = q.adopted.len() - 1;
                assert(now.progress.adopted[last].address == owner);
            }
        }
    }
}

/// Reported addresses are looked up one after the other: one that the wallet
/// can place is recorded or adopted from then on, and any other changes
/// nothing. The notebook's own address is passed over.
pub proof fn every_reported_address_is_looked_up(
    input: ImportInput,
    table: Seq<TableRow>,
    n: int,
    now: Progress,
)
    requires
        0 <= n < input.owner_used@.len(),
        now == input.used_pass(table, n + 1),
    ensures
        ({
            let was = input.used_pass(table, n);
            let address = input.owner_used@[n]@;
            &&& address == input.notebook_addr@ ==> now == was
            &&& !placeable(input.recorded(), table, was, address) ==> now == was
            &&& address != input.notebook_addr@ && placeable(input.recorded(), table, was, address)
                ==> (exists|i: int|
                0 <= i < input.used@.len() && (#[trigger] input.used@[i]).address@ == address) || (
            exists|i: int|
                0 <= i < now.adopted.len() && (#[trigger] now.adopted[i]).address == address)
        }),
        input.used_pass(table, 0).adopted.len() == 0,
        input.used_pass(table, 0).next_receive == input.next_receive,
        input.used_pass(table, 0).next_change == input.next_change,
        input.coin_pass(table, 0).progress == input.used_pass(
            table,
            input.owner_used@.len() as int,
        ),
        input.coin_pass(table, 0).notebook.len() == 0,
        input.coin_pass(table, 0).spending.len() == 0,
{
    let was = input.used_pass(table, n);
    let used = input.recorded();
    let address = input.owner_used@[n]@;
    owners_are_placed_where_they_belong(used, table, was, address);
    if address != input.notebook_addr@ && placeable(used, table, was, address) {
        if exists|i: int| 0 <= i < used.len() && (#[trigger] used[i]).address == address {
            let i = choose|i: int| 0 <= i < used.len() && (#[trigger] used[i]).address == address;
            assert(used[i] == input.used@[i]@);
            assert(input.used@[i].address@ == address);
        } else if now.adopted.len() > was.adopted.len() {
            let last = now.adopted.len() - 1;
            assert(now.adopted[last].address == address);
        }
    }
}

/// The places asked for are exactly those among the next twenty of each chain
/// that the table has no line for, and an address can be looked up exactly
/// where it is recorded, was adopted, or there are no such places.
pub proof fn only_missing_lines_are_asked_for(
    input: ImportInput,
    table: Seq<TableRow>,
    p: Progress,
    address: Seq<char>,
)
    ensures
        forall|chain: u32, index: u32| #[trigger]
            lacking(table, p).contains((chain, index)) <==> {
                &&& index < u32::MAX
                &&& (chain == 0 && p.next_receive <= index < p.next_receive + 20) || (chain == 1
                    && p.next_change <= index < p.next_change + 20)
                &&& forall|r: int|
                    0 <= r < table.len() ==> (#[trigger] table[r]).chain != chain || table[r].index
                        != index
            },
        input.can_resolve(table, p, address) <==> {
            ||| exists|i: int|
                0 <= i < input.used@.len() && (#[trigger] input.used@[i]).address@ == address
            ||| exists|i: int|
                0 <= i < p.adopted.len() && (#[trigger] p.adopted[i]).address == address
            ||| lacking(table, p).len() == 0
        },
{
    let w = window(p.next_receive, p.next_change);
    let lacks = |at: (u32, u32)| !has_row(table, at);
    let missing = w.filter(lacks);
    let used = input.recorded();
    the_window_is_the_next_twenty_of_each_chain(p.next_receive, p.next_change);
    assert forall|chain: u32, index: u32| true implies #[trigger] has_row(table, (chain, index)) == (
    exists|r: int|
        0 <= r < table.len() && (#[trigger] table[r]).chain == chain && table[r].index == index) by {
        first_at_found(table, is_row(chain, index));
        let k = first_at(table, is_row(chain, index));
        if k < table.len() {
            assert(is_row(chain, index)(table[k]));
        } else {
            assert forall|r: int| 0 <= r < table.len() implies (#[trigger] table[r]).chain != chain
                || table[r].index != index by {
                assert(!is_row(chain, index)(table[r]));
            }
        }
    }
    assert forall|chain: u32, index: u32| #[trigger] missing.contains((chain, index)) <==> (
    w.contains((chain, index)) && !has_row(table, (chain, index))) by {
        if missing.contains((chain, index)) {
            let i = choose|i: int| 0 <= i < missing.len() && missing[i] == (chain, index);
            filtered_is_from(w, lacks, i);
        }
        if w.contains((chain, index)) && lacks((chain, index)) {
            let i = choose|i: int| 0 <= i < w.len() && w[i] == (chain, index);
            filter_keeps(w, lacks, i);
        }
    }
    if covers(table, w) {
        if missing.len() > 0 {
            filtered_is_from(w, lacks, 0);
            let q = choose|q: int| 0 <= q < w.len() && w[q] == missing[0];
            assert(has_row(table, w[q]));
        }
    } else {
        let q = choose|q: int| 0 <= q < w.len() && !has_row(table, #[trigger] w[q]);
        filter_keeps(w, lacks, q);
    }
    first_at_found(used, is_at(address));
    first_at_found(p.adopted, is_at(address));
    let i = first_at(used, is_at(address));
    let j = first_at(p.adopted, is_at(address));
    if i < used.len() {
        assert(used[i] == input.used@[i]@);
        assert(input.used@[i].address@ == address);
    }
    if j < p.adopted.len() {
        assert(p.adopted[j].address == address);
    }
    assert forall|m: int| 0 <= m < input.used@.len() && (#[trigger] input.used@[m]).address@
        == address implies i < used.len() by {
        assert(is_at(address)(used[m]));
    }
    assert forall|m: int| 0 <= m < p.adopted.len() && (#[trigger] p.adopted[m]).address
        == address implies j < p.adopted.len() by {
        assert(is_at(address)(p.adopted[m]));
    }
}

/// Recording addresses in turn records each of them, forgets none, and leaves
/// the coins and the context alone.
proof fn marking_all_records_each(
    was: SpendingSection,
    addrs: Seq<SpendingAddress>,
    now: SpendingSection,
)
    requires
        marks_all(was, addrs, now),
    ensures
        forall|i: int|
            0 <= i < addrs.len() ==> is_issued(
                now.used@,
                (#[trigger] addrs[i]).chain,
                addrs[i].index,
            ),
        forall|i: int|
            0 <= i < addrs.len() ==> (#[trigger] addrs[i]).index < if addrs[i].chain == 1 {
                now.next_change
            } else {
                now.next_receive
            },
        now.next_receive >= was.next_receive,
        now.next_change >= was.next_change,
        was.used@.len() <= now.used@.len(),
        now.used@.take(was.used@.len() as int) == was.used@,
        now.network == was.network,
        now.seed == was.seed,
        now.bip_account == was.bip_account,
        now.enabled == was.enabled,
    decreases addrs.len(),
{
    if addrs.len() == 0 {
        assert(now.used@.take(was.used@.len() as int) =~= was.used@);
    } else {
        let rest = addrs.drop_last();
        let last = addrs.last();
        let mid = choose|mid: SpendingSection|
            marks_all(was, rest, mid) && #[trigger] marks(mid, last, now);
        marking_all_records_each(was, rest, mid);
        marking_only_advances(mid, last, now);
        marking_counts_past_the_address(mid, last, now);
        assert(now.used@ == mid.used@ || now.used@ == mid.used@.push(last));
        assert(now.used@.take(was.used@.len() as int) =~= mid.used@.take(was.used@.len() as int));
        assert forall|i: int| 0 <= i < addrs.len() implies is_issued(
            now.used@,
            (#[trigger] addrs[i]).chain,
            addrs[i].index,
        ) && addrs[i].index < if addrs[i].chain == 1 {
            now.next_change
        } else {
            now.next_receive
        } by {
            if i < rest.len() {
                assert(rest[i] == addrs[i]);
                assert(is_issued(mid.used@, rest[i].chain, rest[i].index));
            }
        }
    }
}

/// A wallet after an import has exactly the coins of the import, every
/// adopted address recorded and behind the counter of its chain, every earlier
/// address where it was, and its own context.
pub proof fn an_import_gives_the_wallet_its_coins(
    was: SpendingSection,
    newly_used: Seq<SpendingAddress>,
    utxos: Vec<SpendingUtxo>,
    now: SpendingSection,
)
    requires
        imports(was, newly_used, utxos, now),
    ensures
        now.utxos == utxos,
        was.used@.len() <= now.used@.len(),
        now.used@.take(was.used@.len() as int) == was.used@,
        forall|i: int|
            #![trigger newly_used[i]]
            0 <= i < newly_used.len() ==> exists|k: int|
                {
                    &&& 0 <= k < now.used@.len()
                    &&& (#[trigger] now.used@[k]).chain == newly_used[i].chain
                    &&& now.used@[k].index == newly_used[i].index
                },
        forall|i: int|
            0 <= i < newly_used.len() ==> (#[trigger] newly_used[i]).index
                < if newly_used[i].chain == 1 {
                now.next_change
            } else {
                now.next_receive
            },
        now.next_receive >= was.next_receive,
        now.next_change >= was.next_change,
        now.network == was.network,
        now.seed == was.seed,
        now.bip_account == was.bip_account,
        now.enabled == was.enabled,
{
    let mid = choose|mid: SpendingSection| #[trigger]
        marks_all(was, newly_used, mid) && now == (SpendingSection { utxos, ..mid });
    marking_all_records_each(was, newly_used, mid);
    assert forall|i: int|
        #![trigger newly_used[i]]
        0 <= i < newly_used.len() implies exists|k: int|
        {
            &&& 0 <= k < now.used@.len()
            &&& (#[trigger] now.used@[k]).chain == newly_used[i].chain
            &&& now.used@[k].index == newly_used[i].index
        } by {
        assert(is_issued(now.used@, newly_used[i].chain, newly_used[i].index));
    }
}

/// A line of the table stays the first for its place when lines are added
/// behind it.
proof fn added_lines_stand_behind(table: Seq<TableRow>, more: Seq<TableRow>, at: (u32, u32))
    ensures
        has_row(table, at) ==> has_row(table + more, at) && derived_at(table + more, at)
            == derived_at(table, at),
        has_row(more, at) ==> has_row(table + more, at),
{
    let p = is_row(at.0, at.1);
    let all = table + more;
    first_at_found(table, p);
    first_at_found(more, p);
    first_at_found(all, p);
    let k = first_at(table, p);
    if k < table.len() {
        assert forall|j: int| 0 <= j < k implies !p(#[trigger] all[j]) by {
            assert(all[j] == table[j]);
        }
        assert(all[k] == table[k]);
        first_at_is(all, p, k);
    } else if first_at(more, p) < more.len() {
        let m = table.len() + first_at(more, p);
        assert(p(all[m]));
    }
}

/// A lookup that needs no line the table lacks gives the same with more lines.
proof fn lookups_stay(
    input: ImportInput,
    table: Seq<TableRow>,
    more: Seq<TableRow>,
    p: Progress,
    address: Seq<char>,
)
    requires
        input.can_resolve(table, p, address),
    ensures
        input.can_resolve(table + more, p, address),
        resolve(input.recorded(), table + more, p, address) == resolve(
            input.recorded(),
            table,
            p,
            address,
        ),
{
    let places = window(p.next_receive, p.next_change);
    let all = table + more;
    if !is_known(input.recorded(), p, address) {
        assert forall|i: int| 0 <= i < places.len() implies has_row(all, #[trigger] places[i]) by {
            added_lines_stand_behind(table, more, places[i]);
        }
        assert forall|i: int| 0 <= i < places.len() implies derives(all, address)(
            #[trigger] places[i],
        ) == derives(table, address)(places[i]) by {
            assert(has_row(table, places[i]));
            added_lines_stand_behind(table, more, places[i]);
        }
        first_at_same(places, derives(all, address), places, derives(table, address));
        first_at_found(places, derives(table, address));
        let k = first_at(places, derives(table, address));
        if k < places.len() {
            assert(has_row(table, places[k]));
            added_lines_stand_behind(table, more, places[k]);
        }
    }
}

/// The first pass gives the same with more lines.
proof fn used_passes_stay(
    input: ImportInput,
    table: Seq<TableRow>,
    more: Seq<TableRow>,
    n: int,
)
    requires
        0 <= n <= input.owner_used@.len(),
        input.used_covered(table, n),
    ensures
        input.used_covered(table + more, n),
        input.used_pass(table + more, n) == input.used_pass(table, n),
    decreases n,
{
    if n > 0 {
        used_passes_stay(input, table, more, n - 1);
        let a = input.owner_used@[n - 1]@;
        if a != input.notebook_addr@ {
            lookups_stay(input, table, more, input.used_pass(table, n - 1), a);
        }
    }
}

/// The second pass gives the same with more lines.
proof fn coin_passes_stay(
    input: ImportInput,
    table: Seq<TableRow>,
    more: Seq<TableRow>,
    n: int,
)
    requires
        0 <= n <= input.utxos@.len(),
        input.used_covered(table, input.owner_used@.len() as int),
        input.coins_covered(table, n),
    ensures
        input.coins_covered(table + more, n),
        input.coin_pass(table + more, n) == input.coin_pass(table, n),
    decreases n,
{
    if n > 0 {
        coin_passes_stay(input, table, more, n - 1);
        let u = input.utxos@[n - 1];
        if !input.is_notebook_coin(u) {
            lookups_stay(
                input,
                table,
                more,
                input.coin_pass(table, n - 1).progress,
                u.owner_address->0@,
            );
        }
    } else {
        used_passes_stay(input, table, more, input.owner_used@.len() as int);
    }
}

/// An import that has the lines it needs gives the same however many lines
/// are added behind them.
pub proof fn more_lines_change_nothing(
    input: ImportInput,
    table: Seq<TableRow>,
    more: Seq<TableRow>,
)
    requires
        input.covered(table),
    ensures
        input.covered(table + more),
        input.coin_pass(table + more, input.utxos@.len() as int) == input.coin_pass(
            table,
            input.utxos@.len() as int,
        ),
        input.used_pass(table + more, input.owner_used@.len() as int) == input.used_pass(
            table,
            input.owner_used@.len() as int,
        ),
{
    used_passes_stay(input, table, more, input.owner_used@.len() as int);
    coin_passes_stay(input, table, more, input.utxos@.len() as int);
}

/// An import that stops asks for enough: with a line for every place it asked
/// for, the address or the coin it stopped at is looked up as well, and
/// everything before it as it was.
pub proof fn asked_lines_are_enough(
    input: ImportInput,
    table: Seq<TableRow>,
    more: Seq<TableRow>,
    missing: Seq<(u32, u32)>,
    n: int,
)
    requires
        input.stops_with(table, missing),
        covers(more, missing),
    ensures
        input.stops_at_address(table, n) ==> input.used_covered(table + more, n + 1),
        input.stops_at_coin(table, n) ==> input.used_covered(
            table + more,
            input.owner_used@.len() as int,
        ) && input.coins_covered(table + more, n + 1),
        !input.covered(table),
{
    if exists|m: int| #[trigger]
        input.stops_at_address(table, m) && missing == lacking(table, input.used_pass(table, m)) {
        let m = choose|m: int| #[trigger]
            input.stops_at_address(table, m) && missing == lacking(
                table,
                input.used_pass(table, m),
            );
        imports_stop_at_the_first_gap(input, table, m, n);
        imports_stop_at_the_first_gap(input, table, m, m);
        used_passes_stay(input, table, more, m);
        asked_lines_cover(table, more, input.used_pass(table, m), missing);
    } else {
        let m = choose|m: int| #[trigger]
            input.stops_at_coin(table, m) && missing == lacking(
                table,
                input.coin_pass(table, m).progress,
            );
        imports_stop_at_the_first_gap(input, table, m, n);
        imports_stop_at_the_first_gap(input, table, n, m);
        imports_stop_at_the_first_gap(input, table, m, m);
        used_passes_stay(input, table, more, input.owner_used@.len() as int);
        coin_passes_stay(input, table, more, m);
        asked_lines_cover(table, more, input.coin_pass(table, m).progress, missing);
    }
}

/// With a line for every place it lacks a table covers the window.
proof fn asked_lines_cover(
    table: Seq<TableRow>,
    more: Seq<TableRow>,
    p: Progress,
    missing: Seq<(u32, u32)>,
)
    requires
        missing == lacking(table, p),
        covers(more, missing),
    ensures
        covers(table + more, window(p.next_receive, p.next_change)),
{
    let places = window(p.next_receive, p.next_change);
    let lacks = |at: (u32, u32)| !has_row(table, at);
    assert forall|i: int| 0 <= i < places.len() implies has_row(
        table + more,
        #[trigger] places[i],
    ) by {
        let at = places[i];
        added_lines_stand_behind(table, more, at);
        if lacks(at) {
            filter_keeps(places, lacks, i);
            let k = choose|k: int| 0 <= k < missing.len() && missing[k] == at;
            assert(has_row(more, missing[k]));
        }
    }
}

/// An import has the lines it needs exactly where it stops nowhere, and it
/// stops at one thing only.
pub proof fn imports_stop_at_the_first_gap(
    input: ImportInput,
    table: Seq<TableRow>,
    m: int,
    n: int,
)
    ensures
        input.covered(table) ==> !input.stops_at_address(table, n) && !input.stops_at_coin(table, n),
        input.stops_at_address(table, m) && input.stops_at_address(table, n) ==> m == n,
        input.stops_at_coin(table, m) && input.stops_at_coin(table, n) ==> m == n,
        !(input.stops_at_address(table, m) && input.stops_at_coin(table, n)),
{
    if input.stops_at_address(table, n) {
        assert(input.owner_used@[n]@ != input.notebook_addr@);
    }
    if input.stops_at_address(table, m) {
        assert(input.owner_used@[m]@ != input.notebook_addr@);
    }
    if input.stops_at_coin(table, n) {
        assert(!input.is_notebook_coin(input.utxos@[n]));
    }
    if input.stops_at_coin(table, m) {
        assert(!input.is_notebook_coin(input.utxos@[m]));
    }
}

}
