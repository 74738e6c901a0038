//! Where the change of a note goes: back to the notebook, to a fresh address
//! of the spending wallet, or to an address the user typed.

use crate::hexcodec::{encode, hex_bytes, hex_reads_back, hex_text, is_hex};
use crate::labels::{short_addr, short_form};
use crate::spending::SpendingAddress;
use crate::text::{same_text, trim, trimmed};
use vstd::prelude::*;
use vstd::slice::slice_to_vec;

verus! {

/// The script length of a notebook address.
pub const NOTEBOOK_SPK_LEN: usize = 34;

/// The script length of a spending-wallet address.
pub const SPENDING_SPK_LEN: usize = 22;

/// The change destination picked for the note being composed: `auto`,
/// `notebook` or `custom`.
#[derive(Debug, Clone)]
pub struct ChangePickState {
    pub choice: String,
    pub custom_address: String,
}

impl Default for ChangePickState {
    fn default() -> (r: Self)
        ensures
            r.choice@ == "auto"@,
            r.custom_address@ == Seq::<char>::empty(),
    {
        ChangePickState { choice: "auto".to_owned(), custom_address: String::new() }
    }
}

/// What a choice comes down to.
#[derive(Debug, Clone, Copy, PartialEq, Eq, Structural)]
pub enum ChangeDest {
    /// The address the user typed.
    Custom,
    /// The notebook's own address.
    Notebook,
    /// The next unused change address of the spending wallet.
    FreshSpending,
}

/// The destination of a choice: anything but `custom` and `notebook` is the
/// automatic choice, which protects the coins of the spending wallet where
/// any takes part.
pub open spec fn dest_of(choice: Seq<char>, spending_participates: bool) -> ChangeDest {
    if choice == "custom"@ {
        ChangeDest::Custom
    } else if choice == "notebook"@ || !spending_participates {
        ChangeDest::Notebook
    } else {
        ChangeDest::FreshSpending
    }
}

/// The destination of a choice.
pub fn change_dest(choice: &str, spending_participates: bool) -> (r: ChangeDest)
    ensures
        r == dest_of(choice@, spending_participates),
{
    if same_text(choice, "custom") {
        ChangeDest::Custom
    } else if same_text(choice, "notebook") || !spending_participates {
        ChangeDest::Notebook
    } else {
        ChangeDest::FreshSpending
    }
}

/// Whether change belongs in the notebook's ledger: unless it goes to a typed
/// address, and where the spending wallet takes part only when the notebook
/// was chosen.
pub fn change_is_notebook(choice: &str, spending_participates: bool) -> (r: bool)
    ensures
        r == if spending_participates {
            choice@ == "notebook"@
        } else {
            choice@ != "custom"@
        },
{
    if spending_participates {
        same_text(choice, "notebook")
    } else {
        !same_text(choice, "custom")
    }
}

/// Change is recorded in the notebook's ledger exactly where it is paid to
/// the notebook's address.
pub proof fn ledger_follows_destination(choice: Seq<char>, spending_participates: bool)
    ensures
        (dest_of(choice, spending_participates) == ChangeDest::Notebook) == if spending_participates {
            choice == "notebook"@
        } else {
            choice != "custom"@
        },
{
    reveal_strlit("custom");
    reveal_strlit("notebook");
    assert("custom"@.len() != "notebook"@.len());
}

/// An address of the spending wallet as it was derived.
#[derive(Debug)]
pub struct DerivedAddress {
    pub address: String,
    pub script: [u8; SPENDING_SPK_LEN],
}

/// What looking up the destination gave: the script of the typed address, the
/// script of the notebook, or the next change address, each where the
/// destination asks for it.
#[derive(Debug)]
pub enum ChangeLookup {
    Custom(Result<Vec<u8>, String>),
    Notebook([u8; NOTEBOOK_SPK_LEN]),
    FreshSpending(Result<DerivedAddress, String>),
}

impl ChangeLookup {
    /// The destination that was looked up.
    pub open spec fn dest(&self) -> ChangeDest {
        match self {
            ChangeLookup::Custom(_) => ChangeDest::Custom,
            ChangeLookup::Notebook(_) => ChangeDest::Notebook,
            ChangeLookup::FreshSpending(_) => ChangeDest::FreshSpending,
        }
    }
}

/// `addr` is the change address at `index` as the wallet records it.
pub open spec fn is_change_address(
    addr: SpendingAddress,
    index: u32,
    derived: DerivedAddress,
) -> bool {
    &&& addr.chain == 1
    &&& addr.index == index
    &&& addr.address == derived.address
    &&& addr.spk_hex@ == hex_text(derived.script@)
}

/// The script that a lookup found, or why it found none.
pub open spec fn script_found(lookup: ChangeLookup) -> Result<Seq<u8>, String> {
    match lookup {
        ChangeLookup::Custom(Ok(script)) => Ok(script@),
        ChangeLookup::Custom(Err(e)) => Err(e),
        ChangeLookup::Notebook(script) => Ok(script@),
        ChangeLookup::FreshSpending(Ok(derived)) => Ok(derived.script@),
        ChangeLookup::FreshSpending(Err(e)) => Err(e),
    }
}

/// The change script of a choice, and the address to record as used once the
/// note is signed: an aborted note must not use up an index. `lookup` is what
/// looking up the destination of the choice gave.
pub fn resolve_change(
    choice: &str,
    spending_participates: bool,
    lookup: ChangeLookup,
    next_change_index: u32,
) -> (r: Result<(Vec<u8>, Option<SpendingAddress>), String>)
    requires
        lookup.dest() == dest_of(choice@, spending_participates),
    ensures
        match script_found(lookup) {
            Ok(script) => {
                &&& r matches Ok(c)
                &&& c.0@ == script
                &&& match lookup {
                    ChangeLookup::FreshSpending(Ok(derived)) => c.1 is Some && is_change_address(
                        c.1->0,
                        next_change_index,
                        derived,
                    ),
                    _ => c.1 is None,
                }
            },
            Err(e) => r matches Err(x) && x == e,
        },
{
    match lookup {
        ChangeLookup::Custom(Ok(script)) => Ok((script, None)),
        ChangeLookup::Custom(Err(e)) => Err(e),
        ChangeLookup::Notebook(script) => Ok((slice_to_vec(script.as_slice()), None)),
        ChangeLookup::FreshSpending(Ok(derived)) => {
            let spk_hex: String = encode(derived.script.as_slice());
            let addr = SpendingAddress {
                chain: 1,
                index: next_change_index,
                address: derived.address,
                spk_hex,
            };
            Ok((slice_to_vec(derived.script.as_slice()), Some(addr)))
        },
        ChangeLookup::FreshSpending(Err(e)) => Err(e),
    }
}

/// The recorded script of a fresh change address reads back as the script
/// that the transaction pays.
pub proof fn recorded_change_script_reads_back(
    addr: SpendingAddress,
    index: u32,
    derived: DerivedAddress,
)
    requires
        is_change_address(addr, index, derived),
    ensures
        is_hex(addr.spk_hex@),
        hex_bytes(addr.spk_hex@) == derived.script@,
{
    hex_reads_back(derived.script@);
}

/// The length of the change script of a destination; `typed` is the script of
/// the typed address, or why it could not be read.
pub open spec fn len_preview(dest: ChangeDest, typed: Result<Vec<u8>, String>) -> Result<
    nat,
    String,
> {
    match dest {
        ChangeDest::Custom => match typed {
            Ok(script) => Ok(script@.len()),
            Err(e) => Err(e),
        },
        ChangeDest::Notebook => Ok(NOTEBOOK_SPK_LEN as nat),
        ChangeDest::FreshSpending => Ok(SPENDING_SPK_LEN as nat),
    }
}

/// The length of the change script, without deriving an address: only a typed
/// address has to be read, and `typed` is what that gave.
pub fn change_spk_len_preview(
    choice: &str,
    spending_participates: bool,
    typed: Result<Vec<u8>, String>,
) -> (r: Result<usize, String>)
    ensures
        match len_preview(dest_of(choice@, spending_participates), typed) {
            Ok(n) => r matches Ok(x) && x == n,
            Err(e) => r matches Err(x) && x == e,
        },
{
    match change_dest(choice, spending_participates) {
        ChangeDest::Custom => match typed {
            Ok(script) => Ok(script.len()),
            Err(e) => Err(e),
        },
        ChangeDest::Notebook => Ok(NOTEBOOK_SPK_LEN),
        ChangeDest::FreshSpending => Ok(SPENDING_SPK_LEN),
    }
}

/// The preview prices the script that is paid later: where a choice resolves
/// to a script, its preview is the length of that script, and a preview fails
/// exactly where the typed address was chosen and could not be read. `typed`
/// is what reading the typed address gives, which is also what looking it up
/// gives.
pub proof fn the_preview_prices_the_script_paid(
    choice: Seq<char>,
    spending_participates: bool,
    lookup: ChangeLookup,
    typed: Result<Vec<u8>, String>,
)
    requires
        lookup.dest() == dest_of(choice, spending_participates),
        lookup matches ChangeLookup::Custom(found) ==> found == typed,
    ensures
        ({
            let preview = len_preview(dest_of(choice, spending_participates), typed);
            &&& script_found(lookup) matches Ok(script) ==> preview == Ok::<nat, String>(
                script.len(),
            )
            &&& preview is Err <==> choice == "custom"@ && typed is Err
        }),
{
}

/// What the automatic choice would do, in words.
pub fn auto_change_label(spending_participates: bool) -> (r: &'static str)
    ensures
        r@ == if spending_participates {
            "Fresh spending-wallet address \u{2014} protects the change from address reuse."@
        } else {
            "Notebook address \u{2014} the same address it goes to today."@
        },
{
    if spending_participates {
        "Fresh spending-wallet address \u{2014} protects the change from address reuse."
    } else {
        "Notebook address \u{2014} the same address it goes to today."
    }
}

/// How the change destination is named beside the draft.
pub fn change_label(pick: &ChangePickState, spending_participates: bool) -> (r: String)
    ensures
        r@ == if pick.choice@ == "custom"@ {
            if pick.custom_address@.len() > 0 {
                short_form(pick.custom_address@)
            } else {
                "custom address"@
            }
        } else if pick.choice@ == "notebook"@ {
            "notebook"@
        } else if spending_participates {
            "fresh spending address"@
        } else {
            "back to you"@
        },
{
    if same_text(pick.choice.as_str(), "custom") {
        if pick.custom_address.as_str().is_empty() {
            "custom address".to_owned()
        } else {
            short_addr(pick.custom_address.as_str())
        }
    } else if same_text(pick.choice.as_str(), "notebook") {
        "notebook".to_owned()
    } else if spending_participates {
        "fresh spending address".to_owned()
    } else {
        "back to you".to_owned()
    }
}

/// The change address to expect among the outputs: the typed one, where it
/// was chosen and is not blank.
pub fn expected_change(pick: &ChangePickState) -> (r: Option<String>)
    ensures
        match r {
            Some(a) => pick.choice@ == "custom"@ && trimmed(
                pick.custom_address@,
            ).len() > 0 && a@ == trimmed(pick.custom_address@),
            None => pick.choice@ != "custom"@ || trimmed(
                pick.custom_address@,
            ).len() == 0,
        },
{
    let typed: &str = trim(pick.custom_address.as_str());
    if same_text(pick.choice.as_str(), "custom") && !typed.is_empty() {
        Some(typed.to_owned())
    } else {
        None
    }
}

/// Change goes to the typed address exactly where that was chosen, back to the
/// notebook where that was chosen or the spending wallet pays nothing, and to
/// a fresh address of the spending wallet otherwise.
pub proof fn change_goes_where_it_was_chosen(choice: Seq<char>, spending_participates: bool)
    ensures
        choice == "custom"@ ==> dest_of(choice, spending_participates) == ChangeDest::Custom,
        choice == "notebook"@ ==> dest_of(choice, spending_participates) == ChangeDest::Notebook,
        choice != "custom"@ && choice != "notebook"@ && spending_participates ==> dest_of(
            choice,
            spending_participates,
        ) == ChangeDest::FreshSpending,
        choice != "custom"@ && choice != "notebook"@ && !spending_participates ==> dest_of(
            choice,
            spending_participates,
        ) == ChangeDest::Notebook,
{
    reveal_strlit("custom");
    reveal_strlit("notebook");
    assert("custom"@.len() != "notebook"@.len());
}

/// The change script is the one that was looked up, byte for byte, and only an
/// address that could not be had is an error.
pub proof fn the_looked_up_script_is_paid(
    script: Vec<u8>,
    own: [u8; NOTEBOOK_SPK_LEN],
    derived: DerivedAddress,
    error: String,
)
    ensures
        script_found(ChangeLookup::Custom(Ok(script))) == Ok::<Seq<u8>, String>(script@),
        script_found(ChangeLookup::Notebook(own)) == Ok::<Seq<u8>, String>(own@),
        script_found(ChangeLookup::FreshSpending(Ok(derived))) == Ok::<Seq<u8>, String>(
            derived.script@,
        ),
        script_found(ChangeLookup::Custom(Err(error))) == Err::<Seq<u8>, String>(error),
        script_found(ChangeLookup::FreshSpending(Err(error))) == Err::<Seq<u8>, String>(error),
        NOTEBOOK_SPK_LEN == 34,
        SPENDING_SPK_LEN == 22,
{
}

/// A fresh change address is recorded on the change chain, at the index that
/// was asked for, with the address that was derived.
pub proof fn fresh_change_is_recorded_at_its_index(
    addr: SpendingAddress,
    index: u32,
    derived: DerivedAddress,
)
    requires
        is_change_address(addr, index, derived),
    ensures
        addr.chain == 1,
        addr.index == index,
        addr.address@ == derived.address@,
        hex_bytes(addr.spk_hex@) == derived.script@,
{
    hex_reads_back(derived.script@);
}

}
