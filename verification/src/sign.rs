//! Signing a note: what a signed transaction does to the ledgers, the notes
//! and the contacts.

use crate::coins::{
    coin_values, coins_kept, drop_spent, filter_splits_sum, outpoint_listed, sum_of, sum_of_concat,
    UtxoRec,
};
use crate::contacts::{all_fronted, contacts_in, upsert_contacts};
use crate::hexcodec::{
    display_txid, encode, hex_bytes, hex_reads_back, hex_text, txid_to_display,
};
use crate::notebooks::NotebookIndex;
use crate::spending::{
    exactly_the_unspent_coins_stay, marking_counts_past_the_address, marking_only_advances, marks,
    replaces, spends, SpendingAddress, SpendingIndex, SpendingSection, SpendingUtxo,
};
use crate::state::{NoteRec, State};
use vstd::prelude::*;

verus! {

/// A signed note transaction.
#[derive(Debug)]
pub struct SignedTx {
    /// Transaction id, display text.
    pub txid_hex: String,
    pub raw_hex: String,
    pub fee: u64,
    pub vsize: u64,
    /// The value of the change output; 0 where there is none.
    pub change: u64,
    /// The inputs, transaction ids in wire order.
    pub spent_outpoints: Vec<([u8; 32], u32)>,
}

/// A signed note that waits for the user to confirm it.
#[derive(Debug)]
pub struct Plan {
    pub note: SignedTx,
    pub text: String,
    pub private: bool,
    pub note_id: [u8; 4],
    pub chunks: u64,
    /// Every recipient, in output order; empty for a note to oneself.
    pub recipients: Vec<String>,
    /// The coins of the spending wallet that the note spends.
    pub spending_spent: Vec<(String, u32)>,
    /// The fresh change address, where change goes to the spending wallet.
    pub spending_change_addr: Option<SpendingAddress>,
    /// Whether change belongs in the notebook's ledger.
    pub change_is_notebook: bool,
    /// Whether the transaction leaves a dust coin at the notebook's address.
    pub notebook_dust: bool,
}

/// Whether the transaction spends an outpoint given by its display text.
pub open spec fn spends_coin(spent: Seq<([u8; 32], u32)>, txid: Seq<char>, vout: u32) -> bool {
    exists|i: int|
        0 <= i < spent.len() && display_txid((#[trigger] spent[i]).0@) == txid && spent[i].1 == vout
}

impl Plan {
    /// The outputs come in this order: the payloads, every recipient, the
    /// dust coin if there is one, the change if there is any. This is where
    /// the dust coin stands.
    pub open spec fn dust_vout(&self) -> int {
        self.chunks + self.recipients@.len()
    }

    /// Where the change stands: behind the dust coin, or in its place.
    pub open spec fn change_vout(&self) -> int {
        self.dust_vout() + if self.notebook_dust {
            1int
        } else {
            0
        }
    }

    /// Whether the output numbers are in range, and a fresh change address
    /// that is paid is not the last of its chain.
    pub open spec fn wf(&self) -> bool {
        &&& self.change_vout() <= u32::MAX
        &&& match self.spending_coin() {
            Some(c) => c.0.index < u32::MAX,
            None => true,
        }
    }

    /// The coins that the transaction adds to the notebook's ledger.
    pub open spec fn notebook_coins(&self, dust_limit: u64) -> Seq<UtxoRec> {
        (if self.notebook_dust {
            seq![
                UtxoRec {
                    txid: self.note.txid_hex,
                    vout: self.dust_vout() as u32,
                    value: dust_limit,
                },
            ]
        } else {
            seq![]
        }) + if self.note.change > 0 && self.change_is_notebook {
            seq![
                UtxoRec {
                    txid: self.note.txid_hex,
                    vout: self.change_vout() as u32,
                    value: self.note.change,
                },
            ]
        } else {
            seq![]
        }
    }

    /// The coin that the transaction adds to the spending wallet, with its
    /// address.
    pub open spec fn spending_coin(&self) -> Option<(SpendingAddress, SpendingUtxo)> {
        match self.spending_change_addr {
            Some(a) if self.note.change > 0 => Some(
                (
                    a,
                    SpendingUtxo {
                        txid: self.note.txid_hex,
                        vout: self.change_vout() as u32,
                        value: self.note.change,
                        chain: a.chain,
                        index: a.index,
                    },
                ),
            ),
            _ => None,
        }
    }

    /// Whether the spending wallet is concerned.
    pub open spec fn touches_spending(&self) -> bool {
        self.spending_spent@.len() > 0 || self.spending_change_addr is Some
    }

    /// `rec` is the record of the note.
    pub open spec fn recorded_as(&self, rec: NoteRec) -> bool {
        &&& rec.id@ == hex_text(self.note_id@)
        &&& rec.text == self.text
        &&& rec.private == self.private
        &&& rec.txid == self.note.txid_hex
        &&& rec.raw_hex == self.note.raw_hex
        &&& rec.fee == self.note.fee
        &&& rec.vsize == self.note.vsize
        &&& rec.chunks == self.chunks
        &&& rec.height is None
        &&& rec.blocktime is None
        &&& rec.status@ == "pending"@
        &&& rec.directed == (self.recipients@.len() > 0)
        &&& rec.to == if self.recipients@.len() > 0 {
            Some(self.recipients@[0])
        } else {
            None
        }
        &&& rec.from is None
        &&& rec.recipients == self.recipients
    }
}

/// The coins of the notebook that a transaction does not spend.
pub open spec fn coins_left(utxos: Seq<UtxoRec>, spent: Seq<([u8; 32], u32)>) -> Seq<UtxoRec> {
    utxos.filter(|u: UtxoRec| !spends_coin(spent, u.txid@, u.vout))
}

/// The spending section `now` follows from `was` by a transaction that spends
/// `spent` and pays change to a fresh address, if any.
pub open spec fn settles(
    was: SpendingSection,
    spent: Seq<(String, u32)>,
    change: Option<(SpendingAddress, SpendingUtxo)>,
    now: SpendingSection,
) -> bool {
    match change {
        Some(c) => exists|mid: SpendingSection| #[trigger]
            marks(was, c.0, mid) && spends(mid, spent, Some(c.1), now),
        None => spends(was, spent, None, now),
    }
}

/// The outpoints with their transaction ids as display text.
pub fn display_outpoints(spent: &Vec<([u8; 32], u32)>) -> (r: Vec<(String, u32)>)
    ensures
        r@.len() == spent@.len(),
        forall|i: int|
            0 <= i < r@.len() ==> (#[trigger] r@[i]).0@ == display_txid(spent@[i].0@) && r@[i].1
                == spent@[i].1,
{
    let mut out: Vec<(String, u32)> = Vec::new();
    let mut i: usize = 0;
    while i < spent.len()
        invariant
            i <= spent.len(),
            out@.len() == i,
            forall|j: int|
                0 <= j < i ==> (#[trigger] out@[j]).0@ == display_txid(spent@[j].0@) && out@[j].1
                    == spent@[j].1,
        decreases spent.len() - i,
    {
        out.push((txid_to_display(&spent[i].0), spent[i].1));
        i = i + 1;
    }
    out
}

/// Display outpoints name what the wire outpoints spend.
proof fn display_names_what_is_spent(
    utxos: Seq<UtxoRec>,
    spent: Seq<([u8; 32], u32)>,
    shown: Seq<(String, u32)>,
)
    requires
        shown.len() == spent.len(),
        forall|i: int|
            0 <= i < shown.len() ==> (#[trigger] shown[i]).0@ == display_txid(spent[i].0@)
                && shown[i].1 == spent[i].1,
    ensures
        coins_kept(utxos, shown) == coins_left(utxos, spent),
{
    let a = |u: UtxoRec| !outpoint_listed(shown, u.txid@, u.vout);
    let b = |u: UtxoRec| !spends_coin(spent, u.txid@, u.vout);
    assert forall|u: UtxoRec| #[trigger] a(u) == b(u) by {
        if outpoint_listed(shown, u.txid@, u.vout) {
            let i = choose|i: int|
                0 <= i < shown.len() && (#[trigger] shown[i]).0@ == u.txid@ && shown[i].1 == u.vout;
            assert(display_txid(spent[i].0@) == u.txid@);
        }
        if spends_coin(spent, u.txid@, u.vout) {
            let i = choose|i: int|
                0 <= i < spent.len() && display_txid((#[trigger] spent[i]).0@) == u.txid@
                    && spent[i].1 == u.vout;
            assert(shown[i].0@ == u.txid@);
        }
    }
    assert(a =~= b);
}

/// Settles the notebook's ledger: the spent coins go, the dust coin and the
/// change come. Change to an outside address is not the notebook's.
pub fn settle_notebook(utxos: &mut Vec<UtxoRec>, plan: &Plan, dust_limit: u64)
    requires
        plan.wf(),
    ensures
        final(utxos)@ == coins_left(old(utxos)@, plan.note.spent_outpoints@)
            + plan.notebook_coins(dust_limit),
{
    let ghost all = utxos@;
    let spent: Vec<(String, u32)> = display_outpoints(&plan.note.spent_outpoints);
    drop_spent(utxos, spent.as_slice());
    proof {
        display_names_what_is_spent(all, plan.note.spent_outpoints@, spent@);
    }
    let ghost left = utxos@;
    let dust_vout: u32 = plan.chunks as u32 + plan.recipients.len() as u32;
    if plan.notebook_dust {
        utxos.push(
            UtxoRec { txid: plan.note.txid_hex.clone(), vout: dust_vout, value: dust_limit },
        );
    }
    let change_vout: u32 = if plan.notebook_dust {
        dust_vout + 1
    } else {
        dust_vout
    };
    if plan.note.change > 0 && plan.change_is_notebook {
        utxos.push(
            UtxoRec {
                txid: plan.note.txid_hex.clone(),
                vout: change_vout,
                value: plan.note.change,
            },
        );
    }
    assert(utxos@ =~= left + plan.notebook_coins(dust_limit));
}

/// Settles the spending wallet of a context, and says whether there was
/// anything to settle.
pub fn settle_spending(
    ix: &mut NotebookIndex,
    network: &str,
    seed: u32,
    bip_account: u32,
    plan: &Plan,
) -> (r: bool)
    requires
        plan.wf(),
    ensures
        r == plan.touches_spending(),
        r ==> {
            &&& final(ix).same_but_sections(old(ix))
            &&& exists|was: SpendingSection, now: SpendingSection|
                replaces(
                    old(ix).spending@,
                    network@,
                    seed,
                    bip_account,
                    was,
                    now,
                    final(ix).spending@,
                ) && #[trigger] settles(was, plan.spending_spent@, plan.spending_coin(), now)
        },
        !r ==> *final(ix) == *old(ix),
{
    if plan.spending_spent.len() == 0 && plan.spending_change_addr.is_none() {
        return false;
    }
    let ghost before = ix.spending@;
    let section = ix.spending_mut(network, seed, bip_account);
    let ghost was = *section;
    match &plan.spending_change_addr {
        Some(addr) if plan.note.change > 0 => {
            let dust_vout: u32 = plan.chunks as u32 + plan.recipients.len() as u32;
            let change_vout: u32 = if plan.notebook_dust {
                dust_vout + 1
            } else {
                dust_vout
            };
            let coin = SpendingUtxo {
                txid: plan.note.txid_hex.clone(),
                vout: change_vout,
                value: plan.note.change,
                chain: addr.chain,
                index: addr.index,
            };
            section.mark_used(addr.clone());
            let ghost mid = *section;
            section.apply_spend(plan.spending_spent.as_slice(), Some(coin));
            proof {
                let c = plan.spending_coin()->0;
                assert(plan.spending_coin() == Some((*addr, coin)));
                assert(marks(was, c.0, mid));
                assert(spends(mid, plan.spending_spent@, Some(c.1), *section));
            }
            assert(settles(was, plan.spending_spent@, plan.spending_coin(), *section));
        },
        _ => {
            section.apply_spend(plan.spending_spent.as_slice(), None);
            assert(plan.spending_coin() is None);
            assert(settles(was, plan.spending_spent@, plan.spending_coin(), *section));
        },
    }
    let ghost now = *section;
    assert(settles(was, plan.spending_spent@, plan.spending_coin(), now));
    proof {
        assert(replaces(before, network@, seed, bip_account, was, now, ix.spending@));
    }
    true
}

/// Signing a note: both ledgers are settled, every recipient becomes the most
/// recent contact in turn, and the note is recorded as pending. Says whether
/// the spending wallet was concerned.
pub fn sign_note(
    st: &mut State,
    ix: &mut NotebookIndex,
    network: &str,
    seed: u32,
    bip_account: u32,
    plan: Plan,
    dust_limit: u64,
) -> (r: bool)
    requires
        plan.wf(),
    ensures
        final(st).utxos@ == coins_left(old(st).utxos@, plan.note.spent_outpoints@)
            + plan.notebook_coins(dust_limit),
        contacts_in(final(st).contacts@) == all_fronted(
            contacts_in(old(st).contacts@),
            plan.recipients@,
        ),
        final(st).notes@.len() == old(st).notes@.len() + 1,
        final(st).notes@.drop_last() == old(st).notes@,
        plan.recorded_as(final(st).notes@.last()),
        *final(st) == (State {
            utxos: final(st).utxos,
            contacts: final(st).contacts,
            notes: final(st).notes,
            ..*old(st)
        }),
        r == plan.touches_spending(),
        r ==> {
            &&& final(ix).same_but_sections(old(ix))
            &&& exists|was: SpendingSection, now: SpendingSection|
                replaces(
                    old(ix).spending@,
                    network@,
                    seed,
                    bip_account,
                    was,
                    now,
                    final(ix).spending@,
                ) && #[trigger] settles(was, plan.spending_spent@, plan.spending_coin(), now)
        },
        !r ==> *final(ix) == *old(ix),
{
    settle_notebook(&mut st.utxos, &plan, dust_limit);
    let touched: bool = settle_spending(ix, network, seed, bip_account, &plan);
    upsert_contacts(st, &plan.recipients);
    let ghost p = plan;
    let to: Option<String> = if plan.recipients.len() > 0 {
        Some(plan.recipients[0].clone())
    } else {
        None
    };
    let rec = NoteRec {
        id: encode(plan.note_id.as_slice()),
        text: plan.text,
        private: plan.private,
        txid: plan.note.txid_hex,
        raw_hex: plan.note.raw_hex,
        fee: plan.note.fee,
        vsize: plan.note.vsize,
        chunks: plan.chunks,
        height: None,
        blocktime: None,
        status: "pending".to_owned(),
        directed: plan.recipients.len() > 0,
        to,
        from: None,
        recipients: plan.recipients,
    };
    assert(p.recorded_as(rec));
    st.notes.push(rec);
    assert(st.notes@.drop_last() =~= old(st).notes@);
    touched
}

/// The coins that a signed note adds stand behind its payloads and its
/// recipients, at different outputs: no recipient's coin is ever taken for
/// the notebook's own.
pub proof fn own_outputs_follow_the_recipients(plan: Plan, dust_limit: u64, i: int)
    requires
        plan.wf(),
        0 <= i < plan.notebook_coins(dust_limit).len(),
    ensures
        plan.notebook_coins(dust_limit)[i].vout >= plan.chunks + plan.recipients@.len(),
        plan.notebook_coins(dust_limit)[i].txid == plan.note.txid_hex,
        forall|j: int|
            0 <= j < i ==> plan.notebook_coins(dust_limit)[j].vout
                < plan.notebook_coins(dust_limit)[i].vout,
        plan.spending_coin() is Some ==> (plan.spending_coin()->0).1.vout >= plan.chunks
            + plan.recipients@.len(),
        plan.spending_coin() is Some && plan.notebook_dust ==> (plan.spending_coin()->0).1.vout
            > plan.dust_vout(),
{
}

/// Signing keeps account of the notebook's value: what the ledger holds is
/// what it held, less the coins spent, plus the dust coin and the change.
pub proof fn signing_conserves_notebook_value(utxos: Seq<UtxoRec>, plan: Plan, dust_limit: u64)
    ensures
        sum_of(
            coin_values(
                coins_left(utxos, plan.note.spent_outpoints@) + plan.notebook_coins(dust_limit),
            ),
        ) + sum_of(
            coin_values(
                utxos.filter(
                    |u: UtxoRec| spends_coin(plan.note.spent_outpoints@, u.txid@, u.vout),
                ),
            ),
        ) == sum_of(coin_values(utxos)) + (if plan.notebook_dust {
            dust_limit as int
        } else {
            0
        }) + (if plan.change_is_notebook {
            plan.note.change as int
        } else {
            0
        }),
{
    let spent = plan.note.spent_outpoints@;
    let value = |u: UtxoRec| u.value;
    let keep = |u: UtxoRec| !spends_coin(spent, u.txid@, u.vout);
    let drop = |u: UtxoRec| spends_coin(spent, u.txid@, u.vout);
    filter_splits_sum(utxos, value, keep, drop);
    let left = coins_left(utxos, spent);
    let new = plan.notebook_coins(dust_limit);
    assert(coin_values(left + new) =~= coin_values(left) + coin_values(new));
    sum_of_concat(coin_values(left), coin_values(new));
    reveal_with_fuel(sum_of, 3);
    if new.len() > 0 {
        assert(coin_values(new).drop_last() =~= coin_values(new.drop_last()));
    }
    if new.len() > 1 {
        assert(coin_values(new).drop_last().drop_last() =~= seq![]);
    }
}

/// No coin that a signed note spends stays in the notebook's ledger.
pub proof fn spent_notebook_coins_are_gone(utxos: Seq<UtxoRec>, spent: Seq<([u8; 32], u32)>, i: int)
    requires
        0 <= i < coins_left(utxos, spent).len(),
    ensures
        !spends_coin(spent, coins_left(utxos, spent)[i].txid@, coins_left(utxos, spent)[i].vout),
{
    broadcast use vstd::seq_lib::group_filter_ensures;

    let keep = |u: UtxoRec| !spends_coin(spent, u.txid@, u.vout);
    assert(keep(coins_left(utxos, spent)[i]));
}

/// The number of an output is how many outputs stand before it: the dust coin
/// comes behind the payloads and the recipients, and the change behind these
/// and the dust coin if there is one, whichever ledger it goes to. Both keep
/// the transaction id and their amounts.
pub proof fn own_coins_stand_right_behind_the_other_outputs(plan: Plan, dust_limit: u64)
    requires
        plan.wf(),
    ensures
        ({
            let before_dust = plan.chunks + plan.recipients@.len();
            let before_change = if plan.notebook_dust {
                before_dust + 1
            } else {
                before_dust
            };
            let own_change = plan.note.change > 0 && plan.change_is_notebook;
            let coins = plan.notebook_coins(dust_limit);
            &&& plan.notebook_dust ==> {
                &&& coins.len() > 0
                &&& coins[0].vout == before_dust
                &&& coins[0].value == dust_limit
                &&& coins[0].txid == plan.note.txid_hex
            }
            &&& own_change ==> {
                &&& coins.len() > 0
                &&& coins.last().vout == before_change
                &&& coins.last().value == plan.note.change
                &&& coins.last().txid == plan.note.txid_hex
            }
            &&& plan.notebook_dust && own_change ==> coins.len() == 2
            &&& plan.notebook_dust != own_change ==> coins.len() == 1
            &&& !plan.notebook_dust && !own_change ==> coins.len() == 0
            &&& match plan.spending_change_addr {
                Some(a) => if plan.note.change > 0 {
                    &&& plan.spending_coin() matches Some(c)
                    &&& c.0 == a
                    &&& c.1.vout == before_change
                    &&& c.1.value == plan.note.change
                    &&& c.1.txid == plan.note.txid_hex
                    &&& c.1.chain == a.chain
                    &&& c.1.index == a.index
                } else {
                    plan.spending_coin() is None
                },
                None => plan.spending_coin() is None,
            }
        }),
{
}

/// A signed note leaves in the notebook, in order, exactly the coins that none
/// of its inputs names.
pub proof fn exactly_the_inputs_leave_the_notebook(
    utxos: Seq<UtxoRec>,
    spent: Seq<([u8; 32], u32)>,
)
    ensures
        coins_left(utxos, spent) == utxos.filter(
            |u: UtxoRec|
                forall|j: int|
                    0 <= j < spent.len() ==> display_txid((#[trigger] spent[j]).0@) != u.txid@
                        || spent[j].1 != u.vout,
        ),
{
    let left = |u: UtxoRec| !spends_coin(spent, u.txid@, u.vout);
    let unnamed = |u: UtxoRec|
        forall|j: int|
            0 <= j < spent.len() ==> display_txid((#[trigger] spent[j]).0@) != u.txid@
                || spent[j].1 != u.vout;
    assert(left =~= unnamed);
}

/// The spending wallet is settled where the note spends from it or has a fresh
/// change address, and nowhere else.
pub proof fn only_its_own_business_touches_the_wallet(plan: Plan)
    ensures
        plan.spending_spent@.len() > 0 ==> plan.touches_spending(),
        plan.spending_change_addr is Some ==> plan.touches_spending(),
        plan.spending_spent@.len() == 0 && plan.spending_change_addr is None
            ==> !plan.touches_spending(),
{
}

/// Settling the spending wallet takes out exactly the coins that were spent
/// and adds the change coin behind the others, as it is. The address that the
/// change goes to is recorded, and its chain counts past it.
pub proof fn settling_takes_the_spent_and_adds_the_change(
    was: SpendingSection,
    spent: Seq<(String, u32)>,
    change: Option<(SpendingAddress, SpendingUtxo)>,
    now: SpendingSection,
)
    requires
        settles(was, spent, change, now),
    ensures
        ({
            let kept = was.utxos@.filter(
                |u: SpendingUtxo|
                    forall|j: int|
                        0 <= j < spent.len() ==> (#[trigger] spent[j]).0@ != u.txid@ || spent[j].1
                            != u.vout,
            );
            match change {
                Some(c) => {
                    &&& now.utxos@ == kept.push(c.1)
                    &&& c.0.chain == 1 ==> now.next_change > c.0.index && now.next_receive
                        == was.next_receive
                    &&& c.0.chain != 1 ==> now.next_receive > c.0.index && now.next_change
                        == was.next_change
                    &&& now.used@ == was.used@ || now.used@ == was.used@.push(c.0)
                    &&& exists|i: int|
                        0 <= i < now.used@.len() && (#[trigger] now.used@[i]).chain == c.0.chain
                            && now.used@[i].index == c.0.index
                },
                None => {
                    &&& now.utxos@ == kept
                    &&& now.used@ == was.used@
                    &&& now.next_receive == was.next_receive
                    &&& now.next_change == was.next_change
                },
            }
        }),
        now.network == was.network,
        now.seed == was.seed,
        now.bip_account == was.bip_account,
        now.enabled == was.enabled,
{
    match change {
        Some(c) => {
            let mid = choose|mid: SpendingSection| #[trigger]
                marks(was, c.0, mid) && spends(mid, spent, Some(c.1), now);
            marking_counts_past_the_address(was, c.0, mid);
            marking_only_advances(was, c.0, mid);
            exactly_the_unspent_coins_stay(mid, spent, Some(c.1), now);
            if forall|i: int|
                0 <= i < was.used@.len() ==> (#[trigger] was.used@[i]).chain != c.0.chain
                    || was.used@[i].index != c.0.index {
                assert(mid.used@ == was.used@.push(c.0));
                assert(mid.used@[was.used@.len() as int] == c.0);
            }
        },
        None => {
            exactly_the_unspent_coins_stay(was, spent, None, now);
        },
    }
}

/// The record of a signed note holds what was signed: its text, its
/// transaction, what it cost and whom it goes to, and it is pending.
pub proof fn the_record_holds_what_was_signed(plan: Plan, rec: NoteRec)
    requires
        plan.recorded_as(rec),
    ensures
        hex_bytes(rec.id@) == plan.note_id@,
        rec.text@ == plan.text@,
        rec.private == plan.private,
        rec.txid@ == plan.note.txid_hex@,
        rec.raw_hex@ == plan.note.raw_hex@,
        rec.fee == plan.note.fee,
        rec.vsize == plan.note.vsize,
        rec.chunks == plan.chunks,
        rec.height is None,
        rec.blocktime is None,
        rec.status@ == "pending"@,
        rec.from is None,
        rec.directed <==> plan.recipients@.len() > 0,
        rec.recipients@ == plan.recipients@,
        plan.recipients@.len() > 0 ==> rec.to == Some(plan.recipients@[0]),
        plan.recipients@.len() == 0 ==> rec.to is None,
{
    hex_reads_back(plan.note_id@);
}

}
