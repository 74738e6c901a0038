//! Facts about filtered sequences and first positions.

use vstd::prelude::*;

verus! {

/// Filtering a beginning of `s` that is one item longer.
pub proof fn filter_take_step<T>(s: Seq<T>, i: int, keep: spec_fn(T) -> bool)
    requires
        0 <= i < s.len(),
    ensures
        s.take(i + 1).filter(keep) == if keep(s[i]) {
            s.take(i).filter(keep).push(s[i])
        } else {
            s.take(i).filter(keep)
        },
{
    reveal(Seq::filter);
    assert(s.take(i + 1).drop_last() =~= s.take(i));
}

/// Filtering the empty beginning of `s` gives nothing.
pub proof fn filter_take_none<T>(s: Seq<T>, keep: spec_fn(T) -> bool)
    ensures
        s.take(0).filter(keep) == Seq::<T>::empty(),
{
    reveal(Seq::filter);
}

/// Filtering a pushed item.
pub proof fn filter_push<T>(s: Seq<T>, x: T, keep: spec_fn(T) -> bool)
    ensures
        s.push(x).filter(keep) == if keep(x) {
            s.filter(keep).push(x)
        } else {
            s.filter(keep)
        },
{
    reveal(Seq::filter);
    assert(s.push(x).drop_last() =~= s);
}

/// Filtering by a predicate that holds of every item changes nothing.
pub proof fn filter_all<T>(s: Seq<T>, keep: spec_fn(T) -> bool)
    requires
        forall|i: int| 0 <= i < s.len() ==> keep(#[trigger] s[i]),
    ensures
        s.filter(keep) == s,
    decreases s.len(),
{
    reveal(Seq::filter);
    if s.len() > 0 {
        assert forall|i: int| 0 <= i < s.drop_last().len() implies keep(
            #[trigger] s.drop_last()[i],
        ) by {
            assert(s.drop_last()[i] == s[i]);
        }
        filter_all(s.drop_last(), keep);
        assert(s.drop_last().push(s.last()) =~= s);
    }
}

/// Filtering by a predicate that fails of one item only removes that item.
pub proof fn filter_one_out<T>(s: Seq<T>, keep: spec_fn(T) -> bool, k: int)
    requires
        0 <= k < s.len(),
        !keep(s[k]),
        forall|i: int| 0 <= i < s.len() && i != k ==> keep(#[trigger] s[i]),
    ensures
        s.filter(keep) == s.remove(k),
    decreases s.len(),
{
    reveal(Seq::filter);
    let rest = s.drop_last();
    assert forall|i: int| 0 <= i < rest.len() && i != k implies keep(#[trigger] rest[i]) by {
        assert(rest[i] == s[i]);
    }
    if k == s.len() - 1 {
        filter_all(rest, keep);
        assert(s.remove(k) =~= rest);
    } else {
        assert(rest[k] == s[k]);
        filter_one_out(rest, keep, k);
        assert(s.remove(k) =~= rest.remove(k).push(s.last()));
    }
}

/// What a filter keeps satisfies it and was there before.
pub proof fn filtered_is_from<T>(s: Seq<T>, keep: spec_fn(T) -> bool, i: int)
    requires
        0 <= i < s.filter(keep).len(),
    ensures
        keep(s.filter(keep)[i]),
        exists|q: int| 0 <= q < s.len() && s[q] == s.filter(keep)[i],
    decreases s.len(),
{
    reveal(Seq::filter);
    if s.len() > 0 {
        let rest = s.drop_last();
        if i < rest.filter(keep).len() {
            filtered_is_from(rest, keep, i);
            let q = choose|q: int| 0 <= q < rest.len() && rest[q] == rest.filter(keep)[i];
            assert(s[q] == s.filter(keep)[i]);
        } else {
            assert(s[s.len() - 1] == s.filter(keep)[i]);
        }
    }
}

/// What satisfies a filter is kept by it.
pub proof fn filter_keeps<T>(s: Seq<T>, keep: spec_fn(T) -> bool, i: int)
    requires
        0 <= i < s.len(),
        keep(s[i]),
    ensures
        s.filter(keep).contains(s[i]),
    decreases s.len(),
{
    reveal(Seq::filter);
    let rest = s.drop_last();
    if i < rest.len() {
        filter_keeps(rest, keep, i);
        let k = choose|k: int| 0 <= k < rest.filter(keep).len() && rest.filter(keep)[k] == rest[i];
        assert(s.filter(keep)[k] == s[i]);
    } else {
        assert(s.filter(keep)[rest.filter(keep).len() as int] == s[i]);
    }
}

/// The first position of `s` at which `p` holds, or the length of `s`.
pub open spec fn first_at<T>(s: Seq<T>, p: spec_fn(T) -> bool) -> int
    decreases s.len(),
{
    if s.len() == 0 || p(s[0]) {
        0
    } else {
        1 + first_at(s.drop_first(), p)
    }
}

/// What `first_at` is.
pub proof fn first_at_found<T>(s: Seq<T>, p: spec_fn(T) -> bool)
    ensures
        0 <= first_at(s, p) <= s.len(),
        first_at(s, p) < s.len() ==> p(s[first_at(s, p)]),
        forall|j: int| 0 <= j < first_at(s, p) ==> !p(#[trigger] s[j]),
    decreases s.len(),
{
    if s.len() > 0 && !p(s[0]) {
        let rest = s.drop_first();
        first_at_found(rest, p);
        assert forall|j: int| 0 <= j < first_at(s, p) implies !p(#[trigger] s[j]) by {
            if j > 0 {
                assert(s[j] == rest[j - 1]);
            }
        }
    }
}

/// A position with nothing before it is the first one.
pub proof fn first_at_is<T>(s: Seq<T>, p: spec_fn(T) -> bool, k: int)
    requires
        0 <= k <= s.len(),
        k < s.len() ==> p(s[k]),
        forall|j: int| 0 <= j < k ==> !p(#[trigger] s[j]),
    ensures
        first_at(s, p) == k,
{
    first_at_found(s, p);
    let f = first_at(s, p);
    if f < k {
        assert(p(s[f]));
    }
}

/// Lists whose items pass two tests at the same places have their first such
/// item at the same place.
pub proof fn first_at_same<T, U>(
    s: Seq<T>,
    p: spec_fn(T) -> bool,
    other: Seq<U>,
    q: spec_fn(U) -> bool,
)
    requires
        s.len() == other.len(),
        forall|i: int| #![trigger s[i]] #![trigger other[i]]
            0 <= i < s.len() ==> p(s[i]) == q(other[i]),
    ensures
        first_at(s, p) == first_at(other, q),
{
    first_at_found(s, p);
    let k = first_at(s, p);
    assert forall|j: int| 0 <= j < k implies !q(#[trigger] other[j]) by {
        assert(!p(s[j]));
    }
    first_at_is(other, q, k);
}

}
