//! What the confirmation screen needs to know: which scripts are the
//! wallet's own, where inputs come from, and where the user goes back to.

use crate::hexcodec::{decode, display_txid, hex_bytes, is_hex, txid_to_display};
use crate::notebooks::NotebookIndex;
use crate::psbt::same_bytes;
use crate::spending::{
    bytes_of, has_section, is_first_in_scope, scripts_of, SpendingAddress, SpendingIndex,
};
use crate::text::{decimal, decimal_text, same_text};
use vstd::prelude::*;

verus! {

/// The scripts of the spending wallet of a context.
pub open spec fn spending_scripts(
    ix: NotebookIndex,
    network: Seq<char>,
    seed: u32,
    bip_account: u32,
    scripts: Seq<Seq<u8>>,
) -> bool {
    if has_section(ix.spending@, network, seed, bip_account) {
        exists|k: int| #[trigger]
            is_first_in_scope(ix.spending@, k, network, seed, bip_account) && scripts
                == scripts_of(ix.spending@[k].used@)
    } else {
        scripts == Seq::<Seq<u8>>::empty()
    }
}

/// A copy of byte strings.
fn copy_scripts(scripts: &Vec<Vec<u8>>, out: &mut Vec<Vec<u8>>)
    ensures
        bytes_of(final(out)@) == bytes_of(old(out)@) + bytes_of(scripts@),
{
    let ghost before = out@;
    let mut i: usize = 0;
    assert(bytes_of(out@) =~= bytes_of(before) + bytes_of(scripts@.take(0)));
    while i < scripts.len()
        invariant
            i <= scripts.len(),
            bytes_of(out@) == bytes_of(before) + bytes_of(scripts@.take(i as int)),
        decreases scripts.len() - i,
    {
        let ghost mid = out@;
        let copy: Vec<u8> = scripts[i].clone();
        assert(copy@ =~= scripts@[i as int]@);
        out.push(copy);
        assert(bytes_of(out@) =~= bytes_of(mid).push(copy@));
        i = i + 1;
        assert(bytes_of(out@) =~= bytes_of(before) + bytes_of(scripts@.take(i as int)));
    }
    assert(scripts@.take(i as int) =~= scripts@);
}

/// Every script that the wallet controls in a context, the notebooks' first,
/// and the ones of the spending wallet alone.
pub fn confirm_self_spks(
    ix: &NotebookIndex,
    network: &str,
    seed: u32,
    bip_account: u32,
    notebook_spks: &Vec<Vec<u8>>,
) -> (r: (Vec<Vec<u8>>, Vec<Vec<u8>>))
    ensures
        spending_scripts(*ix, network@, seed, bip_account, bytes_of(r.1@)),
        bytes_of(r.0@) == bytes_of(notebook_spks@) + bytes_of(r.1@),
{
    let spending: Vec<Vec<u8>> = match ix.spending(network, seed, bip_account) {
        Some(s) => s.self_spks(),
        None => Vec::new(),
    };
    assert(spending@.len() == 0 ==> bytes_of(spending@) =~= Seq::<Seq<u8>>::empty());
    let mut own: Vec<Vec<u8>> = Vec::new();
    copy_scripts(notebook_spks, &mut own);
    copy_scripts(&spending, &mut own);
    assert(bytes_of(own@) =~= bytes_of(notebook_spks@) + bytes_of(spending@));
    (own, spending)
}

/// `scripts` with `script` added behind the others where it is missing.
pub open spec fn with_script(scripts: Seq<Seq<u8>>, script: Seq<u8>) -> Seq<Seq<u8>> {
    if scripts.contains(script) {
        scripts
    } else {
        scripts.push(script)
    }
}

/// Adds a script that is missing.
fn add_script(scripts: &mut Vec<Vec<u8>>, script: &Vec<u8>)
    ensures
        bytes_of(final(scripts)@) == with_script(bytes_of(old(scripts)@), script@),
{
    let ghost before = scripts@;
    let mut i: usize = 0;
    while i < scripts.len()
        invariant
            i <= scripts.len(),
            scripts@ == before,
            before == old(scripts)@,
            forall|j: int| 0 <= j < i ==> (#[trigger] before[j])@ != script@,
        decreases scripts.len() - i,
    {
        if same_bytes(&scripts[i], script) {
            assert(bytes_of(before)[i as int] == script@);
            return;
        }
        i = i + 1;
    }
    proof {
        if bytes_of(before).contains(script@) {
            let j = choose|j: int| 0 <= j < bytes_of(before).len() && bytes_of(before)[j] == script@;
            assert(before[j]@ == script@);
        }
    }
    let copy: Vec<u8> = script.clone();
    assert(copy@ =~= script@);
    scripts.push(copy);
    assert(bytes_of(scripts@) =~= bytes_of(before).push(script@));
}

/// Adds the script of a fresh change address to both lists: it is not
/// recorded as issued before the transaction is signed, and its output is the
/// wallet's all the same.
pub fn add_change_script(
    self_spks: &mut Vec<Vec<u8>>,
    spending_spks: &mut Vec<Vec<u8>>,
    addr: &SpendingAddress,
)
    ensures
        if is_hex(addr.spk_hex@) {
            &&& bytes_of(final(self_spks)@) == with_script(
                bytes_of(old(self_spks)@),
                hex_bytes(addr.spk_hex@),
            )
            &&& bytes_of(final(spending_spks)@) == with_script(
                bytes_of(old(spending_spks)@),
                hex_bytes(addr.spk_hex@),
            )
        } else {
            &&& *final(self_spks) == *old(self_spks)
            &&& *final(spending_spks) == *old(spending_spks)
        },
{
    match decode(addr.spk_hex.as_str()) {
        Some(script) => {
            add_script(spending_spks, &script);
            add_script(self_spks, &script);
        },
        None => {},
    }
}

/// How an input is named among the previous outputs.
pub fn prevout_key(txid: &[u8; 32], vout: u32) -> (r: String)
    ensures
        r@ == display_txid(txid@) + ":"@ + decimal(vout as nat),
{
    let mut out: String = txid_to_display(txid);
    out.append(":");
    out.append(decimal_text(vout as u64).as_str());
    out
}

/// Where an input of a note comes from.
pub fn input_source(spending: bool, notebook_name: &str) -> (r: String)
    ensures
        r@ == if spending {
            "Spending wallet"@
        } else {
            "Notebook \u{b7} "@ + notebook_name@
        },
{
    if spending {
        "Spending wallet".to_owned()
    } else {
        let mut out: String = "Notebook \u{b7} ".to_owned();
        out.append(notebook_name);
        out
    }
}

/// Where an input of an outside transaction comes from.
pub fn outside_input_source(ours: bool) -> (r: &'static str)
    ensures
        r@ == if ours {
            "This notebook"@
        } else {
            "External funding"@
        },
{
    if ours {
        "This notebook"
    } else {
        "External funding"
    }
}

/// The line above a note that waits for confirmation.
pub fn note_context_line(directed: bool, private: bool, network: &str) -> (r: String)
    ensures
        r@ == (if directed {
            "Directed"@
        } else if private {
            "Private"@
        } else {
            "Public"@
        }) + " note \u{b7} "@ + network@,
{
    let mut out: String = if directed {
        "Directed".to_owned()
    } else if private {
        "Private".to_owned()
    } else {
        "Public".to_owned()
    };
    out.append(" note \u{b7} ");
    out.append(network);
    out
}

/// What is shown of a note that waits for confirmation.
pub fn composed_preview(private: bool, text: &str) -> (r: String)
    ensures
        r@ == if private {
            "Private note (encrypted)"@
        } else {
            text@
        },
{
    if private {
        "Private note (encrypted)".to_owned()
    } else {
        text.to_owned()
    }
}

/// What waits for confirmation.
#[derive(Debug, Clone, Copy, PartialEq, Eq, Structural)]
pub enum ConfirmKind {
    Compose,
    Sweep,
    Psbt,
}

/// What the name of a kind stands for; any other name is a composed note.
pub open spec fn kind_named(name: Seq<char>) -> ConfirmKind {
    if name == "sweep"@ || name == "consolidate"@ {
        ConfirmKind::Sweep
    } else if name == "psbt"@ {
        ConfirmKind::Psbt
    } else {
        ConfirmKind::Compose
    }
}

/// What waits for confirmation, by its name.
pub fn confirm_kind(name: &str) -> (r: ConfirmKind)
    ensures
        r == kind_named(name@),
{
    if same_text(name, "sweep") || same_text(name, "consolidate") {
        ConfirmKind::Sweep
    } else if same_text(name, "psbt") {
        ConfirmKind::Psbt
    } else {
        ConfirmKind::Compose
    }
}

/// The screen that a cancelled confirmation goes back to.
pub fn back_screen(kind: ConfirmKind) -> (r: i32)
    ensures
        r == match kind {
            ConfirmKind::Sweep => 10,
            ConfirmKind::Psbt => 5,
            ConfirmKind::Compose => 3int,
        },
{
    match kind {
        ConfirmKind::Sweep => 10,
        ConfirmKind::Psbt => 5,
        ConfirmKind::Compose => 3,
    }
}

/// Adding a script makes it one of the list, keeps every other in its place,
/// and adds it once however often it is added.
pub proof fn scripts_are_added_once(scripts: Seq<Seq<u8>>, script: Seq<u8>)
    ensures
        with_script(scripts, script).contains(script),
        scripts.len() <= with_script(scripts, script).len() <= scripts.len() + 1,
        with_script(scripts, script).take(scripts.len() as int) == scripts,
        with_script(with_script(scripts, script), script) == with_script(scripts, script),
        scripts.no_duplicates() ==> with_script(scripts, script).no_duplicates(),
{
    let now = with_script(scripts, script);
    if !scripts.contains(script) {
        assert(now[scripts.len() as int] == script);
    }
    assert(now.take(scripts.len() as int) =~= scripts);
}

/// The wallet's own scripts are all those of the addresses it has issued in
/// the context, and none where it has no wallet there.
pub proof fn own_scripts_are_those_of_the_context(
    ix: NotebookIndex,
    network: Seq<char>,
    seed: u32,
    bip_account: u32,
    scripts: Seq<Seq<u8>>,
    k: int,
)
    requires
        spending_scripts(ix, network, seed, bip_account, scripts),
    ensures
        (forall|j: int|
            0 <= j < ix.spending@.len() ==> (#[trigger] ix.spending@[j]).network@ != network
                || ix.spending@[j].seed != seed || ix.spending@[j].bip_account != bip_account)
            ==> scripts.len() == 0,
        ({
            &&& 0 <= k < ix.spending@.len()
            &&& ix.spending@[k].network@ == network
            &&& ix.spending@[k].seed == seed
            &&& ix.spending@[k].bip_account == bip_account
            &&& forall|j: int|
                0 <= j < k ==> (#[trigger] ix.spending@[j]).network@ != network
                    || ix.spending@[j].seed != seed || ix.spending@[j].bip_account != bip_account
        }) ==> scripts == scripts_of(ix.spending@[k].used@),
{
}

/// A sweep goes by two names and a transaction to sign by one; every other
/// name stands for a composed note.
pub proof fn kinds_go_by_their_names(name: Seq<char>)
    ensures
        kind_named(name) == ConfirmKind::Sweep <==> name == "sweep"@ || name == "consolidate"@,
        kind_named("psbt"@) == ConfirmKind::Psbt,
        name != "sweep"@ && name != "consolidate"@ && name != "psbt"@ ==> kind_named(name)
            == ConfirmKind::Compose,
{
    reveal_strlit("sweep");
    reveal_strlit("consolidate");
    reveal_strlit("psbt");
    assert("psbt"@.len() == 4 && "sweep"@.len() == 5 && "consolidate"@.len() == 11);
}

}
