//! Where things are kept: the paths of state and exchange files, the
//! directories above them, and which files of the inbox are bundles.

use crate::ordering::{names_in_order, sort_names, text_le};
use crate::seqs::{
    filter_keeps, filter_take_none, filter_take_step, filtered_is_from, first_at, first_at_found,
    first_at_is,
};
use crate::text::{
    chars_of, decimal, decimal_is_injective, decimal_reads_back, decimal_text, find_char,
    same_text, text_between, texts_of,
};
use vstd::prelude::*;

verus! {

/// The directory of the device's own files.
pub const STATE_DIR: &'static str = "/.chain-notes";

/// The file of the notebook index.
pub const NOTEBOOKS_PATH: &'static str = "/.chain-notes/notebooks.json";

/// The file of the device settings.
pub const CONFIG_PATH: &'static str = "/.chain-notes/config.json";

/// Where bundles are put for import.
pub const INBOX_DIR: &'static str = "/chain-notes/inbox";

/// Where signed transactions are put.
pub const OUTBOX_DIR: &'static str = "/chain-notes/outbox";

/// The state file of a notebook on a network: each notebook has a ledger of
/// its own on each network.
pub open spec fn state_file(network: Seq<char>, account: u32) -> Seq<char> {
    "/.chain-notes/state-"@ + network + "-"@ + decimal(account as nat) + ".json"@
}

/// The state file of a notebook from before ledgers were kept per network.
pub open spec fn old_state_file(account: u32) -> Seq<char> {
    "/.chain-notes/state-"@ + decimal(account as nat) + ".json"@
}

/// The state file of a notebook on a network.
pub fn state_path(net: &str, account: u32) -> (r: String)
    ensures
        r@ == state_file(net@, account),
{
    let mut out: String = "/.chain-notes/state-".to_owned();
    out.append(net);
    out.append("-");
    out.append(decimal_text(account as u64).as_str());
    out.append(".json");
    out
}

/// The state file of a notebook from before ledgers were kept per network.
pub fn state_path_v1(account: u32) -> (r: String)
    ensures
        r@ == old_state_file(account),
{
    let mut out: String = "/.chain-notes/state-".to_owned();
    out.append(decimal_text(account as u64).as_str());
    out.append(".json");
    out
}

/// The text behind the last dash is what a text ends with, where that has no
/// dash.
proof fn last_dash_is_unique(a: Seq<char>, m: Seq<char>, b: Seq<char>, n: Seq<char>)
    requires
        a + "-"@ + m == b + "-"@ + n,
        !m.contains('-'),
        !n.contains('-'),
    ensures
        a == b,
        m == n,
{
    reveal_strlit("-");
    let x = a + "-"@ + m;
    let y = b + "-"@ + n;
    assert(x.len() == a.len() + 1 + m.len());
    assert(y.len() == b.len() + 1 + n.len());
    if m.len() < n.len() {
        let i = a.len() as int;
        assert(x[i] == '-');
        assert(y[i] == n[i - b.len() - 1]);
    } else if n.len() < m.len() {
        let i = b.len() as int;
        assert(y[i] == '-');
        assert(x[i] == m[i - a.len() - 1]);
    }
    assert(a.len() == b.len());
    assert(a =~= x.take(a.len() as int));
    assert(b =~= y.take(b.len() as int));
    assert(m =~= x.skip(a.len() as int + 1));
    assert(n =~= y.skip(b.len() as int + 1));
}

/// A decimal number has no dash.
proof fn decimal_has_no_dash(n: nat)
    ensures
        !decimal(n).contains('-'),
{
    decimal_reads_back(n);
}

/// No two ledgers share a file: a state file belongs to one network and one
/// notebook, and is never one from before ledgers were kept per network.
pub proof fn state_files_are_distinct(
    network: Seq<char>,
    account: u32,
    other_network: Seq<char>,
    other_account: u32,
)
    ensures
        state_file(network, account) == state_file(other_network, other_account) ==> network
            == other_network && account == other_account,
        state_file(network, account) != old_state_file(other_account),
{
    reveal_strlit("-");
    let head = "/.chain-notes/state-"@;
    let tail = ".json"@;
    let d1 = decimal(account as nat);
    let d2 = decimal(other_account as nat);
    decimal_has_no_dash(account as nat);
    decimal_has_no_dash(other_account as nat);
    let x = state_file(network, account);
    let y = state_file(other_network, other_account);
    let core_x = network + "-"@ + d1;
    let core_y = other_network + "-"@ + d2;
    assert(x =~= head + core_x + tail);
    assert(y =~= head + core_y + tail);
    if x == y {
        assert(core_x =~= x.subrange(head.len() as int, x.len() - tail.len()));
        assert(core_y =~= y.subrange(head.len() as int, y.len() - tail.len()));
        last_dash_is_unique(network, d1, other_network, d2);
        decimal_is_injective(account as nat, other_account as nat);
    }
    let z = old_state_file(other_account);
    if x == z {
        assert(core_x =~= x.subrange(head.len() as int, x.len() - tail.len()));
        assert(d2 =~= z.subrange(head.len() as int, z.len() - tail.len()));
        assert(core_x[network.len() as int] == '-');
        assert(d2.contains('-'));
    }
}

/// The file of a signed transaction in the outbox.
pub fn outbox_file(txid: &str) -> (r: String)
    ensures
        r@ == OUTBOX_DIR@ + "/"@ + txid@ + ".hex"@,
{
    let mut out: String = OUTBOX_DIR.to_owned();
    out.append("/");
    out.append(txid);
    out.append(".hex");
    out
}

/// The file of a signed outside transaction in the outbox.
pub fn outbox_psbt_file(txid: &str) -> (r: String)
    ensures
        r@ == OUTBOX_DIR@ + "/"@ + txid@ + ".psbt.hex"@,
{
    let mut out: String = OUTBOX_DIR.to_owned();
    out.append("/");
    out.append(txid);
    out.append(".psbt.hex");
    out
}

/// The path of a file in the inbox.
pub fn inbox_file(name: &str) -> (r: String)
    ensures
        r@ == INBOX_DIR@ + "/"@ + name@,
{
    let mut out: String = INBOX_DIR.to_owned();
    out.append("/");
    out.append(name);
    out
}

/// The parts of a path between slashes that are not empty.
pub open spec fn components(path: Seq<char>) -> Seq<Seq<char>>
    decreases path.len(),
{
    let i = first_at(path, |c: char| c == '/');
    if i < 0 || i >= path.len() {
        if path.len() > 0 {
            seq![path]
        } else {
            seq![]
        }
    } else if i == 0 {
        components(path.skip(1))
    } else {
        seq![path.take(i)] + components(path.skip(i + 1))
    }
}

/// A path made of parts.
pub open spec fn path_of(parts: Seq<Seq<char>>) -> Seq<char>
    decreases parts.len(),
{
    if parts.len() == 0 {
        seq![]
    } else {
        path_of(parts.drop_last()) + "/"@ + parts.last()
    }
}

/// The directories on the way to a path, and the path itself.
pub open spec fn dirs_of(parts: Seq<Seq<char>>) -> Seq<Seq<char>> {
    Seq::new(parts.len(), |i: int| path_of(parts.take(i + 1)))
}

/// Adding one part adds the path that ends with it.
proof fn dirs_of_push(parts: Seq<Seq<char>>, part: Seq<char>)
    ensures
        path_of(parts.push(part)) == path_of(parts) + "/"@ + part,
        dirs_of(parts.push(part)) == dirs_of(parts).push(path_of(parts.push(part))),
{
    let more = parts.push(part);
    assert(more.drop_last() =~= parts);
    assert forall|i: int| 0 <= i < parts.len() implies #[trigger] dirs_of(more)[i] == dirs_of(
        parts,
    )[i] by {
        assert(more.take(i + 1) =~= parts.take(i + 1));
    }
    assert(more.take(parts.len() as int + 1) =~= more);
    assert(dirs_of(more) =~= dirs_of(parts).push(path_of(more)));
}

/// The directories to create for a path, the outermost first: creating one
/// does not create those above it.
pub fn dirs_to_create(path: &str) -> (r: Vec<String>)
    ensures
        texts_of(r@) == dirs_of(components(path@)),
{
    let chars: Vec<char> = chars_of(path);
    let ghost slash = |c: char| c == '/';
    let ghost mut parts: Seq<Seq<char>> = seq![];
    let mut out: Vec<String> = Vec::new();
    let mut so_far = String::new();
    let mut start: usize = 0;
    proof {
        assert(chars@.skip(0) =~= path@);
        assert(parts + components(path@) =~= components(path@));
        assert(texts_of(out@) =~= dirs_of(parts));
    }
    while start < chars.len()
        invariant
            start <= chars.len(),
            slash == (|c: char| c == '/'),
            parts + components(chars@.skip(start as int)) == components(path@),
            texts_of(out@) == dirs_of(parts),
            so_far@ == path_of(parts),
        decreases chars.len() - start,
    {
        let ghost rest = chars@.skip(start as int);
        let end: usize = find_char(&chars, start, '/');
        let ghost i = end - start;
        proof {
            first_at_found(rest, slash);
        }
        if end > start {
            let part: String = text_between(&chars, start, end);
            let ghost before = out@;
            proof {
                assert(part@ =~= rest.take(i));
                dirs_of_push(parts, part@);
            }
            so_far.append("/");
            so_far.append(part.as_str());
            out.push(so_far.clone());
            proof {
                assert(texts_of(out@) =~= texts_of(before).push(so_far@));
                if end < chars.len() {
                    assert(rest.skip(i + 1) =~= chars@.skip(end + 1));
                    assert(parts.push(part@) + components(rest.skip(i + 1)) =~= parts + (
                    seq![part@] + components(rest.skip(i + 1))));
                } else {
                    assert(rest.take(i) =~= rest);
                    assert(chars@.skip(end as int) =~= seq![]);
                    assert(components(seq![]) =~= seq![]) by {
                        first_at_found(Seq::<char>::empty(), slash);
                    }
                    assert(parts.push(part@) + components(seq![]) =~= parts + seq![part@]);
                }
                parts = parts.push(part@);
            }
        } else {
            assert(rest.skip(1) =~= chars@.skip(end + 1));
        }
        if end < chars.len() {
            start = end + 1;
        } else {
            start = end;
        }
    }
    proof {
        assert(chars@.skip(start as int) =~= seq![]);
        first_at_found(Seq::<char>::empty(), slash);
        assert(parts + components(seq![]) =~= parts);
    }
    out
}

/// An entry of a directory.
#[derive(Debug)]
pub struct DirEntry {
    pub name: String,
    pub is_file: bool,
}

/// Where a bundle was found.
#[derive(Debug, Clone, Copy, PartialEq, Eq, Structural)]
pub enum BundlePlace {
    Internal,
    Airlock,
}

/// A bundle file of the inbox.
#[derive(Debug)]
pub struct BundleFile {
    pub name: String,
    pub place: BundlePlace,
}

/// Whether an entry is a bundle: a file whose name ends in `.json`.
pub open spec fn is_bundle(e: DirEntry) -> bool {
    e.is_file && e.name@.len() >= 5 && e.name@.skip(e.name@.len() - 5) == ".json"@
}

/// Whether an entry is a bundle.
fn check_bundle(e: &DirEntry) -> (r: bool)
    ensures
        r == is_bundle(*e),
{
    let chars: Vec<char> = chars_of(e.name.as_str());
    let n: usize = chars.len();
    if !e.is_file || n < 5 {
        return false;
    }
    let tail: String = text_between(&chars, n - 5, n);
    assert(tail@ =~= e.name@.skip(n - 5));
    same_text(tail.as_str(), ".json")
}

/// The names of the bundles among entries.
pub open spec fn bundle_names_in(entries: Seq<DirEntry>) -> Seq<String> {
    entries.filter(|e: DirEntry| is_bundle(e)).map_values(|e: DirEntry| e.name)
}

/// `names` are the names of the bundles among `entries`, in order.
pub open spec fn lists_bundles(entries: Seq<DirEntry>, names: Seq<String>) -> bool {
    &&& names_in_order(names)
    &&& names.to_multiset() == bundle_names_in(entries).to_multiset()
}

/// The names of the bundles among entries, in order.
pub fn bundle_names(entries: &Vec<DirEntry>) -> (r: Vec<String>)
    ensures
        lists_bundles(entries@, r@),
{
    let ghost keep = |e: DirEntry| is_bundle(e);
    let mut out: Vec<String> = Vec::new();
    let mut i: usize = 0;
    proof {
        filter_take_none(entries@, keep);
        assert(out@ =~= bundle_names_in(entries@.take(0)));
    }
    while i < entries.len()
        invariant
            i <= entries.len(),
            keep == (|e: DirEntry| is_bundle(e)),
            out@ == bundle_names_in(entries@.take(i as int)),
        decreases entries.len() - i,
    {
        proof {
            filter_take_step(entries@, i as int, keep);
        }
        if check_bundle(&entries[i]) {
            out.push(entries[i].name.clone());
        }
        i = i + 1;
        assert(out@ =~= bundle_names_in(entries@.take(i as int)));
    }
    assert(entries@.take(i as int) =~= entries@);
    sort_names(&mut out);
    out
}

/// Bundle files of one place.
pub open spec fn files_at(names: Seq<String>, place: BundlePlace) -> Seq<BundleFile> {
    names.map_values(|n: String| BundleFile { name: n, place })
}

/// `files` are the bundles of both inboxes: the internal ones in order, then
/// the ones of the airlock in order.
pub open spec fn lists_inboxes(
    internal: Seq<DirEntry>,
    airlock: Seq<DirEntry>,
    files: Seq<BundleFile>,
) -> bool {
    exists|a: Seq<String>, b: Seq<String>| #[trigger]
        lists_bundles(internal, a) && #[trigger] lists_bundles(airlock, b) && files == files_at(
            a,
            BundlePlace::Internal,
        ) + files_at(b, BundlePlace::Airlock)
}

/// The bundles of both inboxes, for the user to choose from.
pub fn list_inbox_bundles(internal: &Vec<DirEntry>, airlock: &Vec<DirEntry>) -> (r: Vec<BundleFile>)
    ensures
        lists_inboxes(internal@, airlock@, r@),
{
    let a: Vec<String> = bundle_names(internal);
    let b: Vec<String> = bundle_names(airlock);
    let ghost first = files_at(a@, BundlePlace::Internal);
    let ghost second = files_at(b@, BundlePlace::Airlock);
    let mut out: Vec<BundleFile> = Vec::new();
    let mut i: usize = 0;
    while i < a.len()
        invariant
            i <= a.len(),
            first == files_at(a@, BundlePlace::Internal),
            out@ == first.take(i as int),
        decreases a.len() - i,
    {
        out.push(BundleFile { name: a[i].clone(), place: BundlePlace::Internal });
        i = i + 1;
        assert(out@ =~= first.take(i as int));
    }
    let mut j: usize = 0;
    assert(out@ =~= first + second.take(0));
    while j < b.len()
        invariant
            j <= b.len(),
            second == files_at(b@, BundlePlace::Airlock),
            out@ == first + second.take(j as int),
        decreases b.len() - j,
    {
        out.push(BundleFile { name: b[j].clone(), place: BundlePlace::Airlock });
        j = j + 1;
        assert(out@ =~= first + second.take(j as int));
    }
    assert(second.take(j as int) =~= second);
    out
}

/// The bundle that is imported unasked: the first of the list.
pub fn first_inbox_bundle(internal: &Vec<DirEntry>, airlock: &Vec<DirEntry>) -> (r: Option<
    BundleFile,
>)
    ensures
        exists|files: Seq<BundleFile>| #[trigger]
            lists_inboxes(internal@, airlock@, files) && match r {
                Some(f) => files.len() > 0 && f == files[0],
                None => files.len() == 0,
            },
{
    let mut files: Vec<BundleFile> = list_inbox_bundles(internal, airlock);
    let ghost all = files@;
    if files.len() > 0 {
        Some(files.remove(0))
    } else {
        None
    }
}

/// A path is taken apart at its slashes: what stands before a slash and what
/// stands behind it are taken apart on their own, and a text without a slash
/// is one name, or none where it is empty.
pub proof fn paths_are_taken_apart_at_slashes(a: Seq<char>, b: Seq<char>)
    ensures
        components(a + seq!['/'] + b) == components(a) + components(b),
        a.len() > 0 && !a.contains('/') ==> components(a) == seq![a],
        a.len() == 0 ==> components(a).len() == 0,
    decreases a.len(),
{
    let slash = |c: char| c == '/';
    let whole = a + seq!['/'] + b;
    first_at_found(a, slash);
    let i = first_at(a, slash);
    if i < a.len() {
        assert(slash(a[i]));
        assert(a[i] == '/');
        assert forall|j: int| 0 <= j < i implies !slash(#[trigger] whole[j]) by {
            assert(whole[j] == a[j]);
            assert(!slash(a[j]));
        }
        first_at_is(whole, slash, i);
        let rest = a.skip(i + 1);
        paths_are_taken_apart_at_slashes(rest, b);
        assert(whole.skip(i + 1) =~= rest + seq!['/'] + b);
        assert(whole.take(i) =~= a.take(i));
        assert(whole.skip(1) =~= a.skip(1) + seq!['/'] + b);
        assert(components(whole) =~= components(a) + components(b));
    } else {
        assert forall|j: int| 0 <= j < a.len() implies !slash(#[trigger] whole[j]) by {
            assert(whole[j] == a[j]);
            assert(!slash(a[j]));
        }
        assert(whole[a.len() as int] == '/');
        first_at_is(whole, slash, a.len() as int);
        assert(whole.skip(a.len() as int + 1) =~= b);
        assert(whole.take(a.len() as int) =~= a);
        assert(components(whole) =~= components(a) + components(b));
    }
}

/// The path of names is each of them behind a slash, in order.
pub proof fn paths_name_every_part(parts: Seq<Seq<char>>, part: Seq<char>)
    ensures
        path_of(Seq::<Seq<char>>::empty()) == Seq::<char>::empty(),
        path_of(parts.push(part)) == path_of(parts) + seq!['/'] + part,
{
    reveal_strlit("/");
    assert("/"@ =~= seq!['/']);
    assert(parts.push(part).drop_last() =~= parts);
}

/// A path is taken apart into the names it was made of.
pub proof fn paths_read_back(parts: Seq<Seq<char>>)
    requires
        forall|i: int|
            0 <= i < parts.len() ==> (#[trigger] parts[i]).len() > 0 && !parts[i].contains('/'),
    ensures
        components(path_of(parts)) == parts,
    decreases parts.len(),
{
    if parts.len() > 0 {
        let rest = parts.drop_last();
        let part = parts.last();
        assert forall|i: int| 0 <= i < rest.len() implies (#[trigger] rest[i]).len() > 0
            && !rest[i].contains('/') by {
            assert(rest[i] == parts[i]);
        }
        paths_read_back(rest);
        paths_name_every_part(rest, part);
        paths_are_taken_apart_at_slashes(path_of(rest), part);
        paths_are_taken_apart_at_slashes(part, part);
        assert(rest.push(part) =~= parts);
        assert(rest + seq![part] =~= parts);
    } else {
        assert(components(path_of(parts)) =~= parts);
    }
}

/// There is one directory to make for every name of a path, each inside the
/// one before it, and the last is the path itself.
pub proof fn directories_are_made_from_the_top(parts: Seq<Seq<char>>)
    ensures
        dirs_of(parts).len() == parts.len(),
        forall|i: int|
            0 < i < parts.len() ==> #[trigger] dirs_of(parts)[i] == dirs_of(parts)[i - 1] + seq!['/']
                + parts[i],
        parts.len() > 0 ==> dirs_of(parts)[0] == seq!['/'] + parts[0] && dirs_of(parts).last()
            == path_of(parts),
{
    assert forall|i: int| 0 <= i < parts.len() implies #[trigger] dirs_of(parts)[i] == path_of(
        parts.take(i),
    ) + seq!['/'] + parts[i] by {
        paths_name_every_part(parts.take(i), parts[i]);
        assert(parts.take(i).push(parts[i]) =~= parts.take(i + 1));
    }
    if parts.len() > 0 {
        assert(parts.take(parts.len() as int) =~= parts);
        assert(parts.take(0).len() == 0);
        assert(path_of(parts.take(0)) + seq!['/'] + parts[0] =~= seq!['/'] + parts[0]);
    }
}

/// A bundle is a file whose name ends in `.json`, whatever stands before it.
pub proof fn bundles_are_json_files(e: DirEntry, base: Seq<char>)
    ensures
        !e.is_file ==> !is_bundle(e),
        e.is_file && e.name@ == base + seq!['.', 'j', 's', 'o', 'n'] ==> is_bundle(e),
        is_bundle(e) ==> e.name@ == e.name@.take(e.name@.len() - 5) + seq!['.', 'j', 's', 'o', 'n'],
{
    reveal_strlit(".json");
    assert(".json"@ =~= seq!['.', 'j', 's', 'o', 'n']);
    let n = e.name@.len();
    if e.is_file && e.name@ == base + ".json"@ {
        assert(e.name@.skip(n - 5) =~= ".json"@);
    }
    if is_bundle(e) {
        assert(e.name@ =~= e.name@.take(n - 5) + e.name@.skip(n - 5));
    }
}

/// Lists with the same items are as long, and each has what the other has.
proof fn same_items<T>(a: Seq<T>, b: Seq<T>)
    requires
        a.to_multiset() == b.to_multiset(),
    ensures
        a.len() == b.len(),
        forall|i: int| 0 <= i < a.len() ==> b.contains(#[trigger] a[i]),
        forall|i: int| 0 <= i < b.len() ==> a.contains(#[trigger] b[i]),
{
    a.to_multiset_ensures();
    b.to_multiset_ensures();
    assert(a.len() == a.to_multiset().len() && b.len() == b.to_multiset().len());
    assert forall|i: int| 0 <= i < a.len() implies b.contains(#[trigger] a[i]) by {
        assert(a.contains(a[i]));
        assert(a.to_multiset().count(a[i]) > 0);
    }
    assert forall|i: int| 0 <= i < b.len() implies a.contains(#[trigger] b[i]) by {
        assert(b.contains(b[i]));
        assert(b.to_multiset().count(b[i]) > 0);
    }
}

/// The bundles of a directory are listed completely, under their names and in
/// the order of these.
pub proof fn every_bundle_is_listed(entries: Seq<DirEntry>, names: Seq<String>)
    requires
        lists_bundles(entries, names),
    ensures
        names.len() == entries.filter(|e: DirEntry| is_bundle(e)).len(),
        forall|i: int|
            0 <= i < entries.len() && is_bundle(#[trigger] entries[i]) ==> names.contains(
                entries[i].name,
            ),
        forall|i: int, j: int|
            0 <= i < j < names.len() ==> text_le(#[trigger] names[i]@, #[trigger] names[j]@),
{
    let keep = |e: DirEntry| is_bundle(e);
    let kept = entries.filter(keep);
    let all = bundle_names_in(entries);
    same_items(names, all);
    assert forall|i: int|
        0 <= i < entries.len() && is_bundle(#[trigger] entries[i]) implies names.contains(
        entries[i].name,
    ) by {
        filter_keeps(entries, keep, i);
        let k = choose|k: int| 0 <= k < kept.len() && kept[k] == entries[i];
        assert(all[k] == entries[i].name);
    }
}

/// Nothing but bundles of the directory is listed.
pub proof fn only_bundles_are_listed(entries: Seq<DirEntry>, names: Seq<String>, k: int)
    requires
        lists_bundles(entries, names),
        0 <= k < names.len(),
    ensures
        exists|i: int|
            0 <= i < entries.len() && is_bundle(#[trigger] entries[i]) && entries[i].name
                == names[k],
{
    let keep = |e: DirEntry| is_bundle(e);
    let all = bundle_names_in(entries);
    same_items(names, all);
    assert(all.contains(names[k]));
    let q = choose|q: int| 0 <= q < all.len() && all[q] == names[k];
    filtered_is_from(entries, keep, q);
    let i = choose|i: int| 0 <= i < entries.len() && entries[i] == entries.filter(keep)[q];
    assert(is_bundle(entries[i]) && entries[i].name == names[k]);
}

/// Both inboxes are listed completely: first every bundle of the device, then
/// every bundle of the airlock, each marked with its place.
pub proof fn every_inbox_is_listed(
    internal: Seq<DirEntry>,
    airlock: Seq<DirEntry>,
    files: Seq<BundleFile>,
)
    requires
        lists_inboxes(internal, airlock, files),
    ensures
        ({
            let n = internal.filter(|e: DirEntry| is_bundle(e)).len();
            &&& files.len() == n + airlock.filter(|e: DirEntry| is_bundle(e)).len()
            &&& forall|i: int| 0 <= i < n ==> (#[trigger] files[i]).place == BundlePlace::Internal
            &&& forall|i: int|
                n <= i < files.len() ==> (#[trigger] files[i]).place == BundlePlace::Airlock
            &&& forall|k: int|
                0 <= k < internal.len() && is_bundle(#[trigger] internal[k]) ==> exists|i: int|
                    0 <= i < n && (#[trigger] files[i]).name == internal[k].name
            &&& forall|k: int|
                0 <= k < airlock.len() && is_bundle(#[trigger] airlock[k]) ==> exists|i: int|
                    n <= i < files.len() && (#[trigger] files[i]).name == airlock[k].name
        }),
{
    let (a, b) = choose|a: Seq<String>, b: Seq<String>| #[trigger]
        lists_bundles(internal, a) && #[trigger] lists_bundles(airlock, b) && files == files_at(
            a,
            BundlePlace::Internal,
        ) + files_at(b, BundlePlace::Airlock);
    every_bundle_is_listed(internal, a);
    every_bundle_is_listed(airlock, b);
    let n = a.len();
    assert forall|k: int|
        0 <= k < internal.len() && is_bundle(#[trigger] internal[k]) implies exists|i: int|
        0 <= i < n && (#[trigger] files[i]).name == internal[k].name by {
        assert(a.contains(internal[k].name));
        let q = choose|q: int| 0 <= q < a.len() && a[q] == internal[k].name;
        assert(files[q].name == internal[k].name);
    }
    assert forall|k: int|
        0 <= k < airlock.len() && is_bundle(#[trigger] airlock[k]) implies exists|i: int|
        n <= i < files.len() && (#[trigger] files[i]).name == airlock[k].name by {
        assert(b.contains(airlock[k].name));
        let q = choose|q: int| 0 <= q < b.len() && b[q] == airlock[k].name;
        assert(files[n + q].name == airlock[k].name);
    }
}

/// The state of a notebook is kept in the state directory, under its network
/// and its key; a file without a network is an old one.
pub proof fn states_are_kept_in_the_state_directory(network: Seq<char>, account: u32)
    ensures
        state_file(network, account) == "/.chain-notes"@ + "/state-"@ + network + "-"@ + decimal(
            account as nat,
        ) + ".json"@,
        old_state_file(account) == "/.chain-notes"@ + "/state-"@ + decimal(account as nat)
            + ".json"@,
{
    reveal_strlit("/.chain-notes");
    reveal_strlit("/state-");
    reveal_strlit("/.chain-notes/state-");
    assert("/.chain-notes"@ + "/state-"@ =~= "/.chain-notes/state-"@);
}

}
