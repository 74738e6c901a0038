//! Selecting, counting, finding and adding up items of a list. Each function
//! takes its test or value twice: as code, and as what the code computes.

use crate::coins::{sum_of, sum_of_take_le};
use crate::seqs::{filter_take_none, filter_take_step, first_at, first_at_is};
use vstd::prelude::*;

verus! {

/// Whether `test` can be called on every item and decides `keep`.
pub open spec fn decides<T, F: Fn(&T) -> bool>(test: F, keep: spec_fn(T) -> bool) -> bool {
    &&& forall|x: &T| #[trigger] call_requires(test, (x,))
    &&& forall|x: &T, b: bool| #[trigger] call_ensures(test, (x,), b) ==> b == keep(*x)
}

/// The items that references point at.
pub open spec fn items_of<T>(refs: Seq<&T>) -> Seq<T> {
    refs.map_values(|x: &T| *x)
}

/// Drops the items that the test fails; the others keep their order.
pub(crate) fn retain_where<T, F: Fn(&T) -> bool>(
    list: &mut Vec<T>,
    test: F,
    Ghost(keep): Ghost<spec_fn(T) -> bool>,
)
    requires
        decides(test, keep),
    ensures
        final(list)@ == old(list)@.filter(keep),
{
    let ghost all = list@;
    let ghost mut done: int = 0;
    let mut i: usize = 0;
    proof {
        filter_take_none(all, keep);
        assert(all.skip(0) =~= all);
    }
    while i < list.len()
        invariant
            i <= list.len(),
            0 <= done <= all.len(),
            decides(test, keep),
            i == all.take(done).filter(keep).len(),
            list@ == all.take(done).filter(keep) + all.skip(done),
        decreases list.len() - i,
    {
        let ghost head = all.take(done).filter(keep);
        proof {
            filter_take_step(all, done, keep);
            assert(list@[i as int] == all[done]);
        }
        if test(&list[i]) {
            i = i + 1;
            assert(list@ =~= head.push(all[done]) + all.skip(done + 1));
        } else {
            list.remove(i);
            assert(list@ =~= head + all.skip(done + 1));
        }
        proof {
            done = done + 1;
        }
    }
    assert(all.take(done) =~= all);
    assert(list@ =~= all.filter(keep));
}

/// The items that pass the test, in order.
pub(crate) fn refs_where<'a, T, F: Fn(&T) -> bool>(
    list: &'a Vec<T>,
    test: F,
    Ghost(keep): Ghost<spec_fn(T) -> bool>,
) -> (r: Vec<&'a T>)
    requires
        decides(test, keep),
    ensures
        items_of(r@) == list@.filter(keep),
{
    let mut out: Vec<&'a T> = Vec::new();
    let mut i: usize = 0;
    proof {
        filter_take_none(list@, keep);
        assert(items_of(out@) =~= seq![]);
    }
    while i < list.len()
        invariant
            i <= list.len(),
            decides(test, keep),
            items_of(out@) == list@.take(i as int).filter(keep),
        decreases list.len() - i,
    {
        let ghost before = out@;
        proof {
            filter_take_step(list@, i as int, keep);
        }
        if test(&list[i]) {
            out.push(&list[i]);
            assert(items_of(out@) =~= items_of(before).push(list@[i as int]));
        }
        i = i + 1;
    }
    assert(list@.take(i as int) =~= list@);
    out
}

/// Copies of the items that pass the test, in order.
pub(crate) fn copies_where<T: Clone, F: Fn(&T) -> bool>(
    list: &Vec<T>,
    test: F,
    Ghost(keep): Ghost<spec_fn(T) -> bool>,
) -> (r: Vec<T>)
    requires
        decides(test, keep),
        forall|x: T, y: T| #[trigger] cloned(x, y) ==> x == y,
    ensures
        r@ == list@.filter(keep),
{
    let mut out: Vec<T> = Vec::new();
    let mut i: usize = 0;
    proof {
        filter_take_none(list@, keep);
    }
    while i < list.len()
        invariant
            i <= list.len(),
            decides(test, keep),
            forall|x: T, y: T| #[trigger] cloned(x, y) ==> x == y,
            out@ == list@.take(i as int).filter(keep),
        decreases list.len() - i,
    {
        proof {
            filter_take_step(list@, i as int, keep);
        }
        if test(&list[i]) {
            let item: T = list[i].clone();
            assert(cloned(list@[i as int], item));
            out.push(item);
        }
        i = i + 1;
    }
    assert(list@.take(i as int) =~= list@);
    out
}

/// How many items pass the test.
pub(crate) fn count_where<T, F: Fn(&T) -> bool>(
    list: &Vec<T>,
    test: F,
    Ghost(keep): Ghost<spec_fn(T) -> bool>,
) -> (r: usize)
    requires
        decides(test, keep),
    ensures
        r == list@.filter(keep).len(),
{
    let mut n: usize = 0;
    let mut i: usize = 0;
    proof {
        filter_take_none(list@, keep);
    }
    while i < list.len()
        invariant
            n <= i <= list.len(),
            decides(test, keep),
            n == list@.take(i as int).filter(keep).len(),
        decreases list.len() - i,
    {
        proof {
            filter_take_step(list@, i as int, keep);
        }
        if test(&list[i]) {
            n = n + 1;
        }
        i = i + 1;
    }
    assert(list@.take(i as int) =~= list@);
    n
}

/// The first position of an item that passes the test, or the length of the
/// list.
pub(crate) fn position_where<T, F: Fn(&T) -> bool>(
    list: &Vec<T>,
    test: F,
    Ghost(hit): Ghost<spec_fn(T) -> bool>,
) -> (r: usize)
    requires
        decides(test, hit),
    ensures
        r <= list.len(),
        r == first_at(list@, hit),
{
    let mut i: usize = 0;
    while i < list.len()
        invariant
            i <= list.len(),
            decides(test, hit),
            forall|j: int| 0 <= j < i ==> !hit(#[trigger] list@[j]),
        decreases list.len() - i,
    {
        if test(&list[i]) {
            proof {
                first_at_is(list@, hit, i as int);
            }
            return i;
        }
        i = i + 1;
    }
    proof {
        first_at_is(list@, hit, list@.len() as int);
    }
    i
}

/// The values of the items added up.
pub(crate) fn total_of<T, F: Fn(&T) -> u64>(
    list: &Vec<T>,
    value: F,
    Ghost(worth): Ghost<spec_fn(T) -> u64>,
) -> (r: u64)
    requires
        forall|x: &T| #[trigger] call_requires(value, (x,)),
        forall|x: &T, n: u64| #[trigger] call_ensures(value, (x,), n) ==> n == worth(*x),
        sum_of(list@.map_values(worth)) <= u64::MAX,
    ensures
        r == sum_of(list@.map_values(worth)),
{
    let ghost values = list@.map_values(worth);
    let mut total: u64 = 0;
    let mut i: usize = 0;
    while i < list.len()
        invariant
            i <= list.len(),
            forall|x: &T| #[trigger] call_requires(value, (x,)),
            forall|x: &T, n: u64| #[trigger] call_ensures(value, (x,), n) ==> n == worth(*x),
            values == list@.map_values(worth),
            sum_of(values) <= u64::MAX,
            total == sum_of(values.take(i as int)),
        decreases list.len() - i,
    {
        proof {
            assert(values.take(i + 1).drop_last() =~= values.take(i as int));
            sum_of_take_le(values, i + 1);
        }
        total = total + value(&list[i]);
        i = i + 1;
    }
    assert(values.take(i as int) =~= values);
    total
}

}
