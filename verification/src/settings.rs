//! Device settings, the wallet context, and the texts of the notebook list,
//! the recovery and the export screens.

use crate::notebooks::{finds, has_key, is_first_with_key, NotebookIndex, NotebookMeta};
use crate::state::{chunk_in_effect, DEFAULT_CHUNK, MIN_CHUNK};
use crate::text::{
    decimal, decimal_reads_back, decimal_text, digit_char, digits_value, is_white_space, join,
    joined, number_in, number_up_to, parse_u64, same_text, texts_of, trim, trimmed,
    trimming_takes_white_space_off_both_ends,
};
use vstd::prelude::*;

verus! {

/// The chunk size that every relay accepts.
pub const COMPAT_CHUNK: usize = 80;

/// The highest seed index and account that can be set.
pub const MAX_CONTEXT: u32 = 9999;

/// The settings that all notebooks share.
#[derive(Debug, Clone)]
pub struct DeviceConfig {
    pub network: String,
    /// The chunk size picked by the user; `None` for the default.
    pub chunk_override: Option<usize>,
    /// The rotation seed that new notebooks derive under.
    pub seed_index: u32,
    /// The account of the wallet context.
    pub account: u32,
}

impl Default for DeviceConfig {
    fn default() -> (r: Self)
        ensures
            r.network@ == "mainnet"@,
            r.chunk_override is None,
            r.seed_index == 0,
            r.account == 0,
    {
        DeviceConfig {
            network: "mainnet".to_owned(),
            chunk_override: None,
            seed_index: 0,
            account: 0,
        }
    }
}

/// What a state file from before the settings were shared says of them.
#[derive(Debug)]
pub struct OldSettings {
    /// The key of the notebook.
    pub account: u32,
    pub network: String,
    pub chunk_override: Option<usize>,
}

/// The old state file of the lowest notebook stands at `k`; of several, the
/// first one.
pub open spec fn is_lowest(old_files: Seq<OldSettings>, k: int) -> bool {
    &&& 0 <= k < old_files.len()
    &&& forall|j: int|
        0 <= j < old_files.len() ==> old_files[k].account <= (#[trigger] old_files[j]).account
    &&& forall|j: int| 0 <= j < k ==> old_files[k].account < (#[trigger] old_files[j]).account
}

/// The settings of a device that has none yet: those in the old state file of
/// the lowest notebook, and the defaults where there is no such file.
pub fn boot_config(old_files: &Vec<OldSettings>) -> (r: DeviceConfig)
    ensures
        if old_files@.len() > 0 {
            exists|k: int| #[trigger]
                is_lowest(old_files@, k) && r.network == old_files@[k].network
                    && r.chunk_override == old_files@[k].chunk_override
        } else {
            r.network@ == "mainnet"@ && r.chunk_override is None
        },
        r.seed_index == 0,
        r.account == 0,
{
    if old_files.len() == 0 {
        return DeviceConfig::default();
    }
    let mut lowest: usize = 0;
    let mut i: usize = 1;
    assert(is_lowest(old_files@.take(1), 0));
    while i < old_files.len()
        invariant
            i <= old_files.len(),
            is_lowest(old_files@.take(i as int), lowest as int),
        decreases old_files.len() - i,
    {
        let ghost seen = old_files@.take(i as int);
        let ghost now = old_files@.take(i + 1);
        assert(seen[lowest as int] == old_files@[lowest as int]);
        assert forall|j: int| 0 <= j < i implies seen[j] == #[trigger] now[j] by {}
        if old_files[i].account < old_files[lowest].account {
            lowest = i;
        }
        i = i + 1;
    }
    assert(old_files@.take(i as int) =~= old_files@);
    DeviceConfig {
        network: old_files[lowest].network.clone(),
        chunk_override: old_files[lowest].chunk_override,
        seed_index: 0,
        account: 0,
    }
}

/// The network after another one.
pub open spec fn network_after(network: Seq<char>) -> Seq<char> {
    if network == "mainnet"@ {
        "testnet4"@
    } else if network == "testnet4"@ {
        "signet"@
    } else if network == "signet"@ {
        "regtest"@
    } else {
        "mainnet"@
    }
}

/// The network that follows in the cycle.
pub fn next_network(network: &str) -> (r: &'static str)
    ensures
        r@ == network_after(network@),
{
    if same_text(network, "mainnet") {
        "testnet4"
    } else if same_text(network, "testnet4") {
        "signet"
    } else if same_text(network, "signet") {
        "regtest"
    } else {
        "mainnet"
    }
}

/// The four networks form one cycle: wherever it starts, four steps from a
/// network of the cycle lead back to it, and any other name leads into it.
pub proof fn networks_form_a_cycle(network: Seq<char>)
    ensures
        ({
            let n = network_after(network_after(network_after(network_after(network))));
            let known = network == "mainnet"@ || network == "testnet4"@ || network == "signet"@
                || network == "regtest"@;
            if known {
                n == network
            } else {
                network_after(network) == "mainnet"@
            }
        }),
{
    reveal_strlit("mainnet");
    reveal_strlit("testnet4");
    reveal_strlit("signet");
    reveal_strlit("regtest");
    assert("mainnet"@.len() != "testnet4"@.len());
    assert("mainnet"@.len() != "signet"@.len());
    assert("testnet4"@.len() != "signet"@.len());
    assert("mainnet"@[0] != "regtest"@[0]);
    assert("testnet4"@.len() != "regtest"@.len());
    assert("signet"@.len() != "regtest"@.len());
}

/// Which choice of the chunk size setting is shown: the default, the
/// compatible size, or a size of one's own.
pub fn chunk_mode(size: Option<usize>) -> (r: i32)
    ensures
        r == match size {
            None => 0,
            Some(c) => if c == COMPAT_CHUNK {
                1
            } else {
                2int
            },
        },
{
    match size {
        None => 0,
        Some(c) => if c == COMPAT_CHUNK {
            1
        } else {
            2
        },
    }
}

/// What a choice of the chunk size sets: nothing, the compatible size, or the
/// number typed where it is in range.
pub open spec fn chosen_chunk(mode: i32, text: Seq<char>) -> Result<Option<usize>, Seq<char>> {
    if mode == 0 {
        Ok(None)
    } else if mode == 1 {
        Ok(Some(COMPAT_CHUNK))
    } else {
        match number_up_to(trimmed(text), DEFAULT_CHUNK as int) {
            Some(n) => if n >= MIN_CHUNK {
                Ok(Some(n as usize))
            } else {
                Err("Chunk size must be 20\u{2013}100000 bytes."@)
            },
            None => Err("Chunk size must be 20\u{2013}100000 bytes."@),
        }
    }
}

/// What a choice of the chunk size sets.
pub fn chunk_choice(mode: i32, text: &str) -> (r: Result<Option<usize>, String>)
    ensures
        match chosen_chunk(mode, text@) {
            Ok(c) => r == Ok::<Option<usize>, String>(c),
            Err(e) => r matches Err(x) && x@ == e,
        },
{
    if mode == 0 {
        return Ok(None);
    }
    if mode == 1 {
        return Ok(Some(COMPAT_CHUNK));
    }
    match parse_u64(trim(text)) {
        Some(n) => if MIN_CHUNK as u64 <= n && n <= DEFAULT_CHUNK as u64 {
            return Ok(Some(n as usize));
        },
        None => {},
    }
    Err("Chunk size must be 20\u{2013}100000 bytes.".to_owned())
}

/// A chunk size that can be chosen is used as it was chosen.
pub proof fn chosen_chunks_are_used(mode: i32, text: Seq<char>)
    ensures
        match chosen_chunk(mode, text) {
            Ok(Some(n)) => chunk_in_effect(Some(n)) == n,
            Ok(None) => chunk_in_effect(None) == DEFAULT_CHUNK,
            Err(_) => true,
        },
{
}

/// The number typed into a field of the wallet context, where it is in range.
pub open spec fn context_number(text: Seq<char>) -> Option<nat> {
    number_up_to(trimmed(text), MAX_CONTEXT as int)
}

/// The number typed into a field of the wallet context.
fn parse_context(text: &str) -> (r: Option<u32>)
    ensures
        match r {
            Some(n) => context_number(text@) == Some(n as nat),
            None => context_number(text@) is None,
        },
{
    match parse_u64(trim(text)) {
        Some(n) => if n <= MAX_CONTEXT as u64 {
            Some(n as u32)
        } else {
            None
        },
        None => None,
    }
}

/// A wallet context that was typed in, and what of it is new.
#[derive(Debug, Clone, Copy, PartialEq, Eq, Structural)]
pub struct ContextChange {
    pub seed: u32,
    pub account: u32,
    pub seed_changed: bool,
    pub account_changed: bool,
}

/// The wallet context that was typed in; an error where either field is not a
/// number in range.
pub fn context_change(seed: u32, account: u32, seed_text: &str, account_text: &str) -> (r: Result<
    ContextChange,
    String,
>)
    ensures
        match (context_number(seed_text@), context_number(account_text@)) {
            (Some(s), Some(a)) => r matches Ok(c) && c.seed == s && c.account == a
                && c.seed_changed == (s != seed) && c.account_changed == (a != account),
            _ => r matches Err(e) && e@ == "Seed and account must be 0\u{2013}9999."@,
        },
{
    match (parse_context(seed_text), parse_context(account_text)) {
        (Some(s), Some(a)) => Ok(
            ContextChange {
                seed: s,
                account: a,
                seed_changed: s != seed,
                account_changed: a != account,
            },
        ),
        _ => Err("Seed and account must be 0\u{2013}9999.".to_owned()),
    }
}

/// The confirmation of a wallet context.
pub fn context_saved_line(seed: u32, account: u32) -> (r: String)
    ensures
        r@ == "Saved \u{b7} seed "@ + decimal(seed as nat) + " \u{b7} account "@ + decimal(
            account as nat,
        ),
{
    let mut out: String = "Saved \u{b7} seed ".to_owned();
    out.append(decimal_text(seed as u64).as_str());
    out.append(" \u{b7} account ");
    out.append(decimal_text(account as u64).as_str());
    out
}

/// Why a notebook cannot be archived: it holds coins. Taking one out of the
/// archive is always possible.
pub fn archive_problem(archived: bool, balance: u64) -> (r: Option<String>)
    ensures
        if archived && balance > 0 {
            r matches Some(e) && e@ == "This notebook holds "@ + decimal(balance as nat)
                + " sats \u{2014} empty it first."@
        } else {
            r is None
        },
{
    if !archived || balance == 0 {
        return None;
    }
    let mut out: String = "This notebook holds ".to_owned();
    out.append(decimal_text(balance).as_str());
    out.append(" sats \u{2014} empty it first.");
    Some(out)
}

/// What saving the name dialog does.
#[derive(Debug, Clone, Copy, PartialEq, Eq, Structural)]
pub enum NameAction {
    /// The dialog is closed.
    Nothing,
    Create,
    Rename(u32),
}

/// What saving the name dialog does, by what it was opened for: -1 is closed,
/// -2 a new notebook, anything else the key of a notebook.
pub fn name_action(selected: i32) -> (r: NameAction)
    ensures
        r == if selected == -1 {
            NameAction::Nothing
        } else if selected == -2 {
            NameAction::Create
        } else {
            NameAction::Rename(selected as u32)
        },
{
    if selected == -1 {
        NameAction::Nothing
    } else if selected == -2 {
        NameAction::Create
    } else {
        NameAction::Rename(selected as u32)
    }
}

/// The key of a row of the notebook list.
pub fn row_key(row: i32) -> (r: u32)
    ensures
        r == if row < 0 {
            0
        } else {
            row as int
        },
{
    if row < 0 {
        0
    } else {
        row as u32
    }
}

/// What a notebook is called: its name, or its address in short where the
/// name is blank.
pub open spec fn called(name: Seq<char>, addr_short: Seq<char>) -> Seq<char> {
    if trimmed(name).len() > 0 {
        name
    } else {
        addr_short
    }
}

/// What a notebook is called, by its name.
pub fn name_or_short(name: &str, addr_short: &str) -> (r: String)
    ensures
        r@ == called(name@, addr_short@),
{
    if trim(name).is_empty() {
        addr_short.to_owned()
    } else {
        name.to_owned()
    }
}

/// What a notebook is called, by its key.
pub fn notebook_name(ix: &NotebookIndex, account: u32, addr_short: &str) -> (r: String)
    ensures
        if has_key(ix.notebooks@, account) {
            exists|m: NotebookMeta| #[trigger]
                finds(ix.notebooks@, account, m) && r@ == called(m.name@, addr_short@)
        } else {
            r@ == addr_short@
        },
{
    match ix.get(account) {
        Some(m) => {
            let r: String = name_or_short(m.name.as_str(), addr_short);
            proof {
                assert(finds(ix.notebooks@, account, *m));
                let k = choose|k: int| #[trigger]
                    is_first_with_key(ix.notebooks@, k, account)
                        && ix.notebooks@[k] == *m;
                assert(ix.notebooks@[k].account == account);
            }
            r
        },
        None => addr_short.to_owned(),
    }
}

/// The line under a notebook in the list.
pub fn notebook_row_meta(addr_short: &str, notes: usize) -> (r: String)
    ensures
        r@ == addr_short@ + " \u{b7} "@ + decimal(notes as nat) + (if notes == 1 {
            " note"@
        } else {
            " notes"@
        }),
{
    let mut out: String = addr_short.to_owned();
    out.append(" \u{b7} ");
    out.append(decimal_text(notes as u64).as_str());
    out.append(
        if notes == 1 {
            " note"
        } else {
            " notes"
        },
    );
    out
}

/// What stands in place of an empty notebook list.
pub fn empty_line(shown: usize, archived: usize) -> (r: &'static str)
    ensures
        r@ == if shown > 0 {
            ""@
        } else if archived > 0 {
            "All notebooks are archived."@
        } else {
            "No notebooks yet \u{2014} create one to start writing."@
        },
{
    if shown > 0 {
        ""
    } else if archived > 0 {
        "All notebooks are archived."
    } else {
        "No notebooks yet \u{2014} create one to start writing."
    }
}

/// The heading of the archived notebooks; empty where there are none.
pub fn archived_label(archived: usize) -> (r: String)
    ensures
        r@ == if archived == 0 {
            Seq::<char>::empty()
        } else {
            "Archived ("@ + decimal(archived as nat) + ")"@
        },
{
    if archived == 0 {
        return String::new();
    }
    let mut out: String = "Archived (".to_owned();
    out.append(decimal_text(archived as u64).as_str());
    out.append(")");
    out
}

/// A number in at least two places.
pub open spec fn two_places(n: nat) -> Seq<char> {
    if n < 10 {
        " "@ + decimal(n)
    } else {
        decimal(n)
    }
}

/// A number in at least four digits.
pub open spec fn four_digits(n: nat) -> Seq<char> {
    if n < 10 {
        "000"@ + decimal(n)
    } else if n < 100 {
        "00"@ + decimal(n)
    } else if n < 1000 {
        "0"@ + decimal(n)
    } else {
        decimal(n)
    }
}

/// A numbered word.
pub open spec fn numbered(i: int, word: Seq<char>) -> Seq<char> {
    two_places((i + 1) as nat) + ". "@ + word
}

/// The lines of a column of words.
pub open spec fn column_lines(words: Seq<Seq<char>>, from: int, to: int) -> Seq<Seq<char>> {
    Seq::new((to - from) as nat, |i: int| numbered(from + i, words[from + i]))
}

/// A column of numbered words, one to a line.
pub fn word_column(words: &Vec<String>, from: usize, to: usize) -> (r: String)
    requires
        from <= to <= words.len(),
    ensures
        r@ == joined(column_lines(texts_of(words@), from as int, to as int), "\n"@),
{
    let ghost all = column_lines(texts_of(words@), from as int, to as int);
    let mut lines: Vec<String> = Vec::new();
    let mut i: usize = from;
    assert(texts_of(lines@) =~= all.take(0));
    while i < to
        invariant
            from <= i <= to <= words.len(),
            all == column_lines(texts_of(words@), from as int, to as int),
            texts_of(lines@) == all.take(i - from),
        decreases to - i,
    {
        let ghost before = lines@;
        let n: u64 = i as u64 + 1;
        let mut line: String = if n < 10 {
            " ".to_owned()
        } else {
            String::new()
        };
        line.append(decimal_text(n).as_str());
        assert(line@ =~= two_places(n as nat));
        line.append(". ");
        line.append(words[i].as_str());
        lines.push(line);
        i = i + 1;
        assert(texts_of(lines@) =~= texts_of(before).push(line@));
        assert(texts_of(lines@) =~= all.take(i - from));
    }
    assert(all.take(i - from) =~= all);
    join(&lines, "\n")
}

/// The word numbers one after the other, four digits each.
pub open spec fn seed_digits(indices: Seq<u16>) -> Seq<char>
    decreases indices.len(),
{
    if indices.len() == 0 {
        seq![]
    } else {
        seed_digits(indices.drop_last()) + four_digits(indices.last() as nat)
    }
}

/// The digits of a seed code.
pub fn seed_qr_digits(indices: &Vec<u16>) -> (r: String)
    ensures
        r@ == seed_digits(indices@),
{
    let mut out = String::new();
    let mut i: usize = 0;
    assert(indices@.take(0) =~= seq![]);
    while i < indices.len()
        invariant
            i <= indices.len(),
            out@ == seed_digits(indices@.take(i as int)),
        decreases indices.len() - i,
    {
        let ghost before = out@;
        let n: u16 = indices[i];
        let mut part: String = if n < 10 {
            "000".to_owned()
        } else if n < 100 {
            "00".to_owned()
        } else if n < 1000 {
            "0".to_owned()
        } else {
            String::new()
        };
        part.append(decimal_text(n as u64).as_str());
        assert(part@ =~= four_digits(n as nat));
        out.append(part.as_str());
        assert(indices@.take(i + 1).drop_last() =~= indices@.take(i as int));
        i = i + 1;
    }
    assert(indices@.take(i as int) =~= indices@);
    out
}

/// The number of digits of a number below 10000 is at most four.
proof fn four_digits_are_four(n: nat)
    requires
        n < 10000,
    ensures
        four_digits(n).len() == 4,
{
    reveal_strlit("000");
    reveal_strlit("00");
    reveal_strlit("0");
    reveal_with_fuel(decimal, 5);
}

/// A seed code has four digits for each word, so that its words can be told
/// apart.
pub proof fn seed_codes_have_four_digits_a_word(indices: Seq<u16>)
    requires
        forall|i: int| 0 <= i < indices.len() ==> #[trigger] indices[i] < 10000,
    ensures
        seed_digits(indices).len() == 4 * indices.len(),
    decreases indices.len(),
{
    if indices.len() > 0 {
        let rest = indices.drop_last();
        assert forall|i: int| 0 <= i < rest.len() implies #[trigger] rest[i] < 10000 by {
            assert(rest[i] == indices[i]);
        }
        assert(indices[indices.len() - 1] < 10000);
        seed_codes_have_four_digits_a_word(rest);
        four_digits_are_four(indices.last() as nat);
    }
}

/// The title of the words of a seed.
pub fn seed_title(index: u32) -> (r: String)
    ensures
        r@ == "Seed "@ + decimal(index as nat) + " \u{b7} 24 words"@,
{
    let mut out: String = "Seed ".to_owned();
    out.append(decimal_text(index as u64).as_str());
    out.append(" \u{b7} 24 words");
    out
}

/// The title of an export: the fingerprint where it is known, the seed and
/// the account.
pub fn export_title(fingerprint: Option<&str>, seed_index: u32, account: u32) -> (r: String)
    ensures
        r@ == (match fingerprint {
            Some(f) => f@ + " \u{b7} Seed "@,
            None => "Seed "@,
        }) + decimal(seed_index as nat) + " \u{b7} account "@ + decimal(account as nat),
{
    let mut out: String = match fingerprint {
        Some(f) => {
            let mut t: String = f.to_owned();
            t.append(" \u{b7} Seed ");
            t
        },
        None => "Seed ".to_owned(),
    };
    out.append(decimal_text(seed_index as u64).as_str());
    out.append(" \u{b7} account ");
    out.append(decimal_text(account as u64).as_str());
    out
}

/// What can be exported.
#[derive(Debug, Clone, Copy, PartialEq, Eq, Structural)]
pub enum ExportKind {
    Xpub,
    Descriptor,
    Hex,
    Wif,
}

/// What the number of an export stands for.
pub fn export_kind(which: i32) -> (r: ExportKind)
    ensures
        r == if which == 0 {
            ExportKind::Xpub
        } else if which == 1 {
            ExportKind::Descriptor
        } else if which == 2 {
            ExportKind::Hex
        } else {
            ExportKind::Wif
        },
{
    if which == 0 {
        ExportKind::Xpub
    } else if which == 1 {
        ExportKind::Descriptor
    } else if which == 2 {
        ExportKind::Hex
    } else {
        ExportKind::Wif
    }
}

/// The label of an export; keys are those of one notebook.
pub fn export_label(kind: ExportKind, notebook: &str) -> (r: String)
    ensures
        r@ == match kind {
            ExportKind::Xpub => "Account xpub \u{b7} all addresses \u{b7} watch-only"@,
            ExportKind::Descriptor => "Descriptor (tr) \u{b7} all addresses \u{b7} watch-only"@,
            ExportKind::Hex => "Notebook \""@ + notebook@ + "\" \u{b7} hex"@,
            ExportKind::Wif => "Notebook \""@ + notebook@ + "\" \u{b7} WIF"@,
        },
{
    match kind {
        ExportKind::Xpub => "Account xpub \u{b7} all addresses \u{b7} watch-only".to_owned(),
        ExportKind::Descriptor => {
            "Descriptor (tr) \u{b7} all addresses \u{b7} watch-only".to_owned()
        },
        ExportKind::Hex => {
            let mut out: String = "Notebook \"".to_owned();
            out.append(notebook);
            out.append("\" \u{b7} hex");
            out
        },
        ExportKind::Wif => {
            let mut out: String = "Notebook \"".to_owned();
            out.append(notebook);
            out.append("\" \u{b7} WIF");
            out
        },
    }
}

/// The name of a receive index without a notebook.
pub fn index_name(index: i32) -> (r: String)
    ensures
        r@ == if index < 0 {
            "index -"@ + decimal((-index) as nat)
        } else {
            "index "@ + decimal(index as nat)
        },
{
    if index < 0 {
        let mut out: String = "index -".to_owned();
        out.append(decimal_text((-(index as i64)) as u64).as_str());
        out
    } else {
        let mut out: String = "index ".to_owned();
        out.append(decimal_text(index as u64).as_str());
        out
    }
}

/// The line about the last sync.
pub fn sync_line(tip_height: Option<u64>) -> (r: String)
    ensures
        r@ == match tip_height {
            Some(h) => "synced to height "@ + decimal(h as nat),
            None => "never synced"@,
        },
{
    match tip_height {
        Some(h) => {
            let mut out: String = "synced to height ".to_owned();
            out.append(decimal_text(h).as_str());
            out
        },
        None => "never synced".to_owned(),
    }
}

/// The lines about the state of a notebook. The fee rates are given as text.
pub fn status_text(
    network: &str,
    balance: u64,
    utxos: usize,
    tip_height: Option<u64>,
    rates: &str,
    chunk: usize,
) -> (r: String)
    ensures
        r@ == "network: "@ + network@ + "\nbalance: "@ + decimal(balance as nat) + " sats \u{b7} "@
            + decimal(utxos as nat) + " utxos\nchain height: "@ + (match tip_height {
            Some(h) => decimal(h as nat),
            None => "\u{2014}"@,
        }) + "\nfees (sat/vB): "@ + rates@ + " \u{b7} chunk: "@ + decimal(chunk as nat) + " bytes"@,
{
    let mut out: String = "network: ".to_owned();
    out.append(network);
    out.append("\nbalance: ");
    out.append(decimal_text(balance).as_str());
    out.append(" sats \u{b7} ");
    out.append(decimal_text(utxos as u64).as_str());
    out.append(" utxos\nchain height: ");
    match tip_height {
        Some(h) => {
            out.append(decimal_text(h).as_str());
        },
        None => {
            out.append("\u{2014}");
        },
    }
    out.append("\nfees (sat/vB): ");
    out.append(rates);
    out.append(" \u{b7} chunk: ");
    out.append(decimal_text(chunk as u64).as_str());
    out.append(" bytes");
    out
}

/// A notebook whose keys can be exported.
#[derive(Debug)]
pub struct ExportRow {
    pub index: i32,
    pub name: String,
    pub addr: String,
}

/// The rows to choose an export from: the first receive index where there is
/// no notebook.
pub fn export_rows(rows: Vec<ExportRow>) -> (r: Vec<ExportRow>)
    ensures
        if rows@.len() > 0 {
            r@ == rows@
        } else {
            &&& r@.len() == 1
            &&& r@[0].index == 0
            &&& r@[0].name@ == "index 0"@
            &&& r@[0].addr@ == Seq::<char>::empty()
        },
{
    if rows.len() > 0 {
        return rows;
    }
    let mut out: Vec<ExportRow> = Vec::new();
    out.push(ExportRow { index: 0, name: "index 0".to_owned(), addr: String::new() });
    out
}

/// Switching goes from the main network to the fourth test network, on to
/// signet, on to regtest, and back.
pub proof fn networks_follow_one_another()
    ensures
        network_after("mainnet"@) == "testnet4"@,
        network_after("testnet4"@) == "signet"@,
        network_after("signet"@) == "regtest"@,
        network_after("regtest"@) == "mainnet"@,
{
    reveal_strlit("mainnet");
    reveal_strlit("testnet4");
    reveal_strlit("signet");
    reveal_strlit("regtest");
    assert("mainnet"@.len() == 7 && "testnet4"@.len() == 8);
    assert("signet"@.len() == 6 && "regtest"@.len() == 7);
    assert("mainnet"@[0] == 'm' && "regtest"@[0] == 'r');
}

/// The standard size stands for no choice and the compatible one for 80. Any
/// other is taken as it was typed, exactly where it is a number from 20 to
/// 100000.
pub proof fn sizes_are_taken_as_typed(mode: i32, text: Seq<char>)
    ensures
        mode == 0 ==> chosen_chunk(mode, text) == Ok::<Option<usize>, Seq<char>>(None),
        mode == 1 ==> chosen_chunk(mode, text) == Ok::<Option<usize>, Seq<char>>(Some(80usize)),
        mode != 0 && mode != 1 ==> {
            let typed = number_in(trimmed(text));
            &&& chosen_chunk(mode, text) is Ok <==> typed is Some && 20 <= typed->0 <= 100_000
            &&& chosen_chunk(mode, text) matches Ok(c) ==> c is Some && c->0 == typed->0
        },
{
}

/// A context number is taken as it was typed, exactly where it is a number up
/// to 9999.
pub proof fn contexts_are_taken_as_typed(text: Seq<char>)
    ensures
        context_number(text) is Some <==> number_in(trimmed(text)) is Some && number_in(
            trimmed(text),
        )->0 <= 9999,
        context_number(text) is Some ==> context_number(text) == number_in(trimmed(text)),
{
}

/// A notebook goes by its name as it is written, and by its address only where
/// the name is blank.
pub proof fn blank_names_give_way_to_addresses(name: Seq<char>, addr_short: Seq<char>)
    ensures
        (exists|i: int| 0 <= i < name.len() && !is_white_space(#[trigger] name[i])) ==> called(
            name,
            addr_short,
        ) == name,
        (forall|i: int| 0 <= i < name.len() ==> is_white_space(#[trigger] name[i])) ==> called(
            name,
            addr_short,
        ) == addr_short,
{
    let (i, j) = trimming_takes_white_space_off_both_ends(name);
    if i < j {
        assert(!is_white_space(name[i]));
    }
}

/// Four digits stand for a number below ten thousand and read back as it.
pub proof fn four_digits_read_back(n: nat)
    requires
        n < 10000,
    ensures
        four_digits(n).len() == 4,
        number_in(four_digits(n)) == Some(n),
{
    decimal_reads_back(n);
    decimal_reads_back(n / 10);
    decimal_reads_back(n / 100);
    decimal_reads_back(n / 1000);
    reveal_with_fuel(decimal, 4);
    reveal_with_fuel(digits_value, 5);
    reveal_strlit("0");
    reveal_strlit("00");
    reveal_strlit("000");
    let t = four_digits(n);
    assert(t.len() == 4);
    assert(t[0] == digit_char((n / 1000) as int));
    assert(t[1] == digit_char((n / 100 % 10) as int));
    assert(t[2] == digit_char((n / 10 % 10) as int));
    assert(t[3] == digit_char((n % 10) as int));
    let a = t.drop_last();
    let b = a.drop_last();
    let c = b.drop_last();
    assert(c.drop_last().len() == 0);
    assert(digits_value(c) == Some(n / 1000));
    assert(digits_value(b) == Some(n / 100));
    assert(digits_value(a) == Some(n / 10));
    assert(digits_value(t) == Some(n));
    assert(t[0] != '+');
}

/// The seed code is the four digits of every word, one after the other.
pub proof fn seed_codes_list_every_word(indices: Seq<u16>, index: u16)
    ensures
        seed_digits(Seq::<u16>::empty()) == Seq::<char>::empty(),
        seed_digits(indices.push(index)) == seed_digits(indices) + four_digits(index as nat),
{
    assert(indices.push(index).drop_last() =~= indices);
}

/// A column of words has a line for each, numbered from one over all columns,
/// and ends in the word.
pub proof fn columns_number_their_words(words: Seq<Seq<char>>, from: int, to: int, i: int)
    requires
        0 <= from <= i < to <= words.len(),
    ensures
        column_lines(words, from, to).len() == to - from,
        i + 1 >= 10 ==> column_lines(words, from, to)[i - from] == decimal((i + 1) as nat) + ". "@
            + words[i],
        i + 1 < 10 ==> column_lines(words, from, to)[i - from] == " "@ + decimal((i + 1) as nat)
            + ". "@ + words[i],
{
}

/// Exactly one old file is the lowest: none has a lower key, and of those with
/// the same key it is the first.
pub proof fn one_old_file_is_the_lowest(old_files: Seq<OldSettings>, k: int, j: int)
    requires
        is_lowest(old_files, k),
    ensures
        0 <= k < old_files.len(),
        0 <= j < old_files.len() ==> old_files[k].account <= old_files[j].account,
        0 <= j < k ==> old_files[j].account != old_files[k].account,
        is_lowest(old_files, j) ==> j == k,
{
}

}
