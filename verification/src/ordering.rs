//! Stable ordering by integer keys, and the lexicographic order of names.

use crate::text::chars_of;
use vstd::prelude::*;

verus! {

/// `p` lists the positions of `keys` by ascending key, and positions with
/// equal keys in their own order. There is exactly one such list.
pub open spec fn stable_order(keys: Seq<u128>, p: Seq<int>) -> bool {
    &&& p.len() == keys.len()
    &&& forall|i: int| 0 <= i < p.len() ==> 0 <= #[trigger] p[i] < keys.len()
    &&& forall|i: int, j: int|
        0 <= i < j < p.len() ==> {
            ||| keys[#[trigger] p[i]] < keys[#[trigger] p[j]]
            ||| keys[p[i]] == keys[p[j]] && p[i] < p[j]
        }
}

/// `out` holds the items that `p` lists, in that order.
pub open spec fn picked<T>(items: Seq<T>, p: Seq<int>, out: Seq<T>) -> bool {
    &&& out.len() == p.len()
    &&& forall|i: int| 0 <= i < p.len() ==> out[i] == items[#[trigger] p[i]]
}

/// A stable order lists every position.
pub proof fn stable_order_lists_all(keys: Seq<u128>, p: Seq<int>, q: int)
    requires
        stable_order(keys, p),
        0 <= q < keys.len(),
    ensures
        exists|i: int| 0 <= i < p.len() && #[trigger] p[i] == q,
{
    assert(p.no_duplicates());
    let all = vstd::set_lib::set_int_range(0, keys.len() as int);
    p.unique_seq_to_set();
    vstd::set_lib::lemma_int_range(0, keys.len() as int);
    assert(p.to_set().subset_of(all)) by {
        assert forall|x: int| p.to_set().contains(x) implies all.contains(x) by {
            let i = choose|i: int| 0 <= i < p.len() && p[i] == x;
            assert(0 <= p[i] < keys.len());
        }
    }
    vstd::set_lib::lemma_subset_equality(p.to_set(), all);
    assert(p.to_set().contains(q));
    assert(p.contains(q));
}

/// `out` is `items` sorted by ascending key, stably: `keys[i]` is the key of
/// `items[i]`, and items with equal keys keep their order.
pub open spec fn stably_sorted<T>(items: Seq<T>, keys: Seq<u128>, out: Seq<T>) -> bool {
    exists|p: Seq<int>| #[trigger] stable_order(keys, p) && picked(items, p, out)
}

/// Sorts `items` by `keys`, stably; the keys move along with their items.
pub fn stable_sort<T>(items: &mut Vec<T>, keys: &mut Vec<u128>)
    requires
        old(items).len() == old(keys).len(),
    ensures
        stably_sorted(old(items)@, old(keys)@, final(items)@),
        exists|p: Seq<int>| #[trigger]
            stable_order(old(keys)@, p) && picked(old(items)@, p, final(items)@) && picked(
                old(keys)@,
                p,
                final(keys)@,
            ),
{
    let ghost items0 = items@;
    let ghost keys0 = keys@;
    let ghost mut p: Seq<int> = Seq::new(items@.len(), |i: int| i);
    let n: usize = items.len();
    let mut i: usize = 0;
    while i < n
        invariant
            i <= n,
            n == items0.len() == keys0.len() == p.len(),
            picked(items0, p, items@),
            picked(keys0, p, keys@),
            forall|k: int| 0 <= k < i ==> 0 <= #[trigger] p[k] < i,
            forall|k: int| i <= k < n ==> #[trigger] p[k] == k,
            forall|a: int, b: int|
                0 <= a < b < i ==> {
                    ||| keys0[#[trigger] p[a]] < keys0[#[trigger] p[b]]
                    ||| keys0[p[a]] == keys0[p[b]] && p[a] < p[b]
                },
        decreases n - i,
    {
        let key: u128 = keys[i];
        let mut j: usize = i;
        while j > 0 && keys[j - 1] > key
            invariant
                j <= i < n,
                n == keys@.len(),
                forall|k: int| j <= k < i ==> #[trigger] keys@[k] > key,
            decreases j,
        {
            j = j - 1;
        }
        let ghost kq = keys@;
        let item = items.remove(i);
        items.insert(j, item);
        let moved: u128 = keys.remove(i);
        keys.insert(j, moved);
        proof {
            let q = p;
            p = q.remove(i as int).insert(j as int, q[i as int]);
            assert forall|a: int, b: int| 0 <= a < b <= i implies {
                ||| keys0[#[trigger] p[a]] < keys0[#[trigger] p[b]]
                ||| keys0[p[a]] == keys0[p[b]] && p[a] < p[b]
            } by {
                let a0 = if a < j { a } else if a == j { i as int } else { a - 1 };
                let b0 = if b < j { b } else if b == j { i as int } else { b - 1 };
                assert(p[a] == q[a0] && p[b] == q[b0]);
                assert(kq[a0] == keys0[q[a0]] && kq[b0] == keys0[q[b0]]);
                if b == j {
                    let l = j - 1;
                    assert(kq[l] == keys0[q[l]]);
                    assert(a < l ==> keys0[q[a]] <= keys0[q[l]]);
                }
            }
            assert forall|k: int| 0 <= k < n implies items@[k] == items0[#[trigger] p[k]] && keys@[k]
                == keys0[p[k]] by {
                let k0 = if k < j { k } else if k == j { i as int } else if k <= i { k - 1 } else { k };
                assert(p[k] == q[k0]);
            }
        }
        i = i + 1;
    }
    proof {
        assert(stable_order(keys0, p));
    }
}

/// The lexicographic order of texts, by code point.
pub open spec fn text_le(a: Seq<char>, b: Seq<char>) -> bool
    decreases a.len(),
{
    if a.len() == 0 {
        true
    } else if b.len() == 0 {
        false
    } else if a[0] == b[0] {
        text_le(a.drop_first(), b.drop_first())
    } else {
        a[0] < b[0]
    }
}

/// Whether `a` comes no later than `b` in the lexicographic order.
pub fn text_not_after(a: &str, b: &str) -> (r: bool)
    ensures
        r == text_le(a@, b@),
{
    let x: Vec<char> = chars_of(a);
    let y: Vec<char> = chars_of(b);
    let mut i: usize = 0;
    assert(x@.skip(0) =~= a@);
    assert(y@.skip(0) =~= b@);
    while i < x.len() && i < y.len() && x[i] == y[i]
        invariant
            i <= x.len(),
            i <= y.len(),
            text_le(a@, b@) == text_le(x@.skip(i as int), y@.skip(i as int)),
        decreases x.len() - i,
    {
        assert(x@.skip(i as int).drop_first() =~= x@.skip(i + 1));
        assert(y@.skip(i as int).drop_first() =~= y@.skip(i + 1));
        i = i + 1;
    }
    if i == x.len() {
        true
    } else if i == y.len() {
        false
    } else {
        x[i] < y[i]
    }
}

/// The lexicographic order is total.
pub proof fn text_le_total(a: Seq<char>, b: Seq<char>)
    ensures
        text_le(a, b) || text_le(b, a),
    decreases a.len(),
{
    if a.len() > 0 && b.len() > 0 && a[0] == b[0] {
        text_le_total(a.drop_first(), b.drop_first());
    }
}

/// The lexicographic order is transitive.
pub proof fn text_le_transitive(a: Seq<char>, b: Seq<char>, c: Seq<char>)
    requires
        text_le(a, b),
        text_le(b, c),
    ensures
        text_le(a, c),
    decreases a.len(),
{
    if a.len() > 0 && b.len() > 0 && c.len() > 0 && a[0] == b[0] && b[0] == c[0] {
        text_le_transitive(a.drop_first(), b.drop_first(), c.drop_first());
    }
}

/// Each name comes no later than those behind it.
pub open spec fn names_in_order(names: Seq<String>) -> bool {
    forall|i: int, j: int|
        0 <= i < j < names.len() ==> text_le(#[trigger] names[i]@, #[trigger] names[j]@)
}

/// Moving one item to another place keeps the collection of items.
proof fn moved_item_keeps_items<T>(s: Seq<T>, i: int, j: int)
    requires
        0 <= j <= i < s.len(),
    ensures
        s.remove(i).insert(j, s[i]).to_multiset() == s.to_multiset(),
{
    broadcast use vstd::seq_lib::group_to_multiset_ensures;

    let t = s.remove(i).insert(j, s[i]);
    assert(t.remove(j) =~= s.remove(i));
    assert(t[j] == s[i]);
    assert(t.to_multiset().remove(s[i]) == s.to_multiset().remove(s[i]));
    assert(s.contains(s[i]) && t.contains(s[i]));
    assert(t.to_multiset() =~= t.to_multiset().remove(s[i]).insert(s[i]));
    assert(s.to_multiset() =~= s.to_multiset().remove(s[i]).insert(s[i]));
}

/// Sorts names lexicographically.
pub fn sort_names(names: &mut Vec<String>)
    ensures
        names_in_order(final(names)@),
        final(names)@.to_multiset() == old(names)@.to_multiset(),
{
    let ghost names0 = names@;
    let n: usize = names.len();
    let mut i: usize = 0;
    while i < n
        invariant
            i <= n,
            n == names@.len(),
            names@.to_multiset() == names0.to_multiset(),
            names_in_order(names@.take(i as int)),
        decreases n - i,
    {
        let ghost before = names@;
        assert forall|a: int, b: int| 0 <= a < b < i implies text_le(
            #[trigger] before[a]@,
            #[trigger] before[b]@,
        ) by {
            assert(before.take(i as int)[a] == before[a]);
            assert(before.take(i as int)[b] == before[b]);
        }
        let mut j: usize = i;
        while j > 0 && !text_not_after(names[j - 1].as_str(), names[i].as_str())
            invariant
                j <= i < n,
                n == names@.len(),
                names@ == before,
                forall|k: int| j <= k < i ==> !text_le(#[trigger] before[k]@, before[i as int]@),
            decreases j,
        {
            j = j - 1;
        }
        let name = names.remove(i);
        names.insert(j, name);
        proof {
            moved_item_keeps_items(before, i as int, j as int);
            let after = names@.take(i + 1);
            assert forall|a: int, b: int| 0 <= a < b < after.len() implies text_le(
                #[trigger] after[a]@,
                #[trigger] after[b]@,
            ) by {
                let a0 = if a < j { a } else if a == j { i as int } else { a - 1 };
                let b0 = if b < j { b } else if b == j { i as int } else { b - 1 };
                assert(after[a] == before[a0]);
                assert(after[b] == before[b0]);
                if b == j {
                    if a < j - 1 {
                        text_le_transitive(before[a]@, before[j - 1]@, before[i as int]@);
                    }
                } else if a == j {
                    text_le_total(before[b0]@, before[i as int]@);
                }
            }
        }
        i = i + 1;
    }
    assert(names@.take(n as int) =~= names@);
}

/// Sorting loses and invents nothing, and no item comes before one of a
/// smaller key.
pub proof fn sorting_keeps_the_items_and_orders_them<T>(
    items: Seq<T>,
    key: spec_fn(T) -> u128,
    out: Seq<T>,
)
    requires
        stably_sorted(items, items.map_values(key), out),
    ensures
        out.len() == items.len(),
        forall|i: int, j: int|
            0 <= i < j < out.len() ==> key(#[trigger] out[i]) <= key(#[trigger] out[j]),
        forall|i: int| 0 <= i < out.len() ==> items.contains(#[trigger] out[i]),
        forall|i: int| 0 <= i < items.len() ==> out.contains(#[trigger] items[i]),
{
    let keys = items.map_values(key);
    let p = choose|p: Seq<int>| #[trigger] stable_order(keys, p) && picked(items, p, out);
    assert forall|i: int, j: int| 0 <= i < j < out.len() implies key(#[trigger] out[i]) <= key(
        #[trigger] out[j],
    ) by {
        assert(out[i] == items[p[i]] && out[j] == items[p[j]]);
        assert(keys[p[i]] == key(out[i]) && keys[p[j]] == key(out[j]));
    }
    assert forall|i: int| 0 <= i < out.len() implies items.contains(#[trigger] out[i]) by {
        assert(out[i] == items[p[i]]);
    }
    assert forall|i: int| 0 <= i < items.len() implies out.contains(#[trigger] items[i]) by {
        stable_order_lists_all(keys, p, i);
        let k = choose|k: int| 0 <= k < p.len() && #[trigger] p[k] == i;
        assert(out[k] == items[p[k]]);
    }
}

/// Items of equal keys keep their order.
pub proof fn equal_keys_keep_their_order<T>(
    items: Seq<T>,
    keys: Seq<u128>,
    out: Seq<T>,
    i: int,
    j: int,
)
    requires
        stably_sorted(items, keys, out),
        0 <= i < j < keys.len(),
        keys[i] == keys[j],
    ensures
        exists|a: int, b: int|
            0 <= a < b < out.len() && #[trigger] out[a] == items[i] && #[trigger] out[b] == items[j],
{
    let p = choose|p: Seq<int>| #[trigger] stable_order(keys, p) && picked(items, p, out);
    stable_order_lists_all(keys, p, i);
    stable_order_lists_all(keys, p, j);
    let a = choose|a: int| 0 <= a < p.len() && #[trigger] p[a] == i;
    let b = choose|b: int| 0 <= b < p.len() && #[trigger] p[b] == j;
    if b < a {
        assert(p[b] < p[a]);
    }
    assert(out[a] == items[p[a]] && out[b] == items[p[b]]);
}

/// Items that are in order already stay as they are.
pub proof fn sorted_items_stay<T>(items: Seq<T>, keys: Seq<u128>, out: Seq<T>)
    requires
        keys.len() == items.len(),
        stably_sorted(items, keys, out),
        forall|i: int, j: int| 0 <= i < j < keys.len() ==> #[trigger] keys[i] <= #[trigger] keys[j],
    ensures
        out == items,
{
    let p = choose|p: Seq<int>| #[trigger] stable_order(keys, p) && picked(items, p, out);
    assert forall|i: int, j: int| 0 <= i < j < p.len() implies #[trigger] p[i] < #[trigger] p[j] by {
        if p[j] < p[i] {
            assert(keys[p[j]] <= keys[p[i]]);
        }
    }
    ascending_in_range(p, 0);
    assert forall|i: int| 0 <= i < items.len() implies out[i] == items[i] by {
        assert(out[i] == items[p[i]]);
    }
    assert(out =~= items);
}

/// Ascending positions in a range of their number are the range itself.
proof fn ascending_in_range(p: Seq<int>, k: int)
    requires
        0 <= k <= p.len(),
        forall|i: int| 0 <= i < p.len() ==> 0 <= #[trigger] p[i] < p.len(),
        forall|i: int, j: int| 0 <= i < j < p.len() ==> #[trigger] p[i] < #[trigger] p[j],
        forall|i: int| 0 <= i < k ==> #[trigger] p[i] == i,
    ensures
        forall|i: int| 0 <= i < p.len() ==> #[trigger] p[i] == i,
    decreases p.len() - k,
{
    if k < p.len() {
        assert(p[k] >= k) by {
            if k > 0 {
                assert(p[k - 1] == k - 1 && p[k - 1] < p[k]);
            }
        }
        if p[k] > k {
            climbs(p, k, p.len() - 1);
        }
        ascending_in_range(p, k + 1);
    }
}

/// Ascending numbers climb by at least one a step.
proof fn climbs(p: Seq<int>, i: int, j: int)
    requires
        0 <= i <= j < p.len(),
        forall|a: int, b: int| 0 <= a < b < p.len() ==> #[trigger] p[a] < #[trigger] p[b],
    ensures
        p[j] - p[i] >= j - i,
    decreases j - i,
{
    if i < j {
        climbs(p, i, j - 1);
        assert(p[j - 1] < p[j]);
    }
}

/// Of two texts the one that ends first where they agree comes first, and
/// else the one with the smaller character where they first differ.
pub proof fn the_first_difference_decides(a: Seq<char>, b: Seq<char>, k: int)
    requires
        0 <= k <= a.len(),
        k <= b.len(),
        forall|i: int| 0 <= i < k ==> #[trigger] a[i] == b[i],
        k < a.len() && k < b.len() ==> a[k] != b[k],
    ensures
        text_le(a, b) <==> k == a.len() || (k < b.len() && a[k] < b[k]),
    decreases k,
{
    if k > 0 {
        assert forall|i: int| 0 <= i < k - 1 implies #[trigger] a.drop_first()[i] == b.drop_first()[i] by {
            assert(a[i + 1] == b[i + 1]);
        }
        assert(a[0] == b[0]);
        if k < a.len() {
            assert(a.drop_first()[k - 1] == a[k]);
        }
        if k < b.len() {
            assert(b.drop_first()[k - 1] == b[k]);
        }
        the_first_difference_decides(a.drop_first(), b.drop_first(), k - 1);
    }
}

}
