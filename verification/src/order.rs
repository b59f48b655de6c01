//! Putting things in the order of their keys.
//!
//! The order of a sequence of keys is the arrangement of its indices in
//! which the keys ascend, indices of equal keys in their own order. It is
//! built one index after the other: each goes behind the last index whose
//! key is not greater than its own.

use vstd::prelude::*;

verus! {

/// `order` with the index `i` put in: behind every index of `order` whose
/// key is not greater than that of `i`, before the others that follow.
pub open spec fn spec_insert(keys: Seq<i128>, order: Seq<usize>, i: usize) -> Seq<usize>
    decreases order.len(),
{
    if order.len() == 0 {
        seq![i]
    } else if keys[order.last() as int] <= keys[i as int] {
        order.push(i)
    } else {
        spec_insert(keys, order.drop_last(), i).push(order.last())
    }
}

/// The first `n` indices of `keys` in the order of their keys.
pub open spec fn spec_order_of_first(keys: Seq<i128>, n: nat) -> Seq<usize>
    decreases n,
{
    if n == 0 {
        Seq::empty()
    } else {
        spec_insert(keys, spec_order_of_first(keys, (n - 1) as nat), (n - 1) as usize)
    }
}

/// The indices of `keys` in the order of their keys.
pub open spec fn spec_order(keys: Seq<i128>) -> Seq<usize> {
    spec_order_of_first(keys, keys.len())
}

/// Whether `order` arranges the indices below `n`: it holds each of them
/// once and nothing else.
pub open spec fn arranges(order: Seq<usize>, n: nat) -> bool {
    &&& order.len() == n
    &&& forall|k: int| 0 <= k < order.len() ==> (#[trigger] order[k]) < n
    &&& forall|a: int, b: int|
        0 <= a < b < order.len() ==> (#[trigger] order[a]) != (#[trigger] order[b])
    &&& forall|i: int| 0 <= i < n ==> #[trigger] order.contains(i as usize)
}

/// Whether the keys ascend along `order`, indices of equal keys ascending
/// too.
pub open spec fn ascends(keys: Seq<i128>, order: Seq<usize>) -> bool {
    forall|a: int, b: int|
        0 <= a < b < order.len() ==> {
            ||| keys[(#[trigger] order[a]) as int] < keys[(#[trigger] order[b]) as int]
            ||| keys[order[a] as int] == keys[order[b] as int] && order[a] < order[b]
        }
}

/// Putting `i` in at `at` is what `spec_insert` does, where `at` is the place
/// behind the last index of `order` whose key is not greater.
pub proof fn lemma_insert_at(keys: Seq<i128>, order: Seq<usize>, i: usize, at: int)
    requires
        0 <= at <= order.len(),
        at > 0 ==> keys[order[at - 1] as int] <= keys[i as int],
        forall|k: int| at <= k < order.len() ==> keys[(#[trigger] order[k]) as int] > keys[i as int],
    ensures
        spec_insert(keys, order, i) == order.insert(at, i),
    decreases order.len() - at,
{
    if order.len() == 0 {
        assert(order.insert(at, i) =~= seq![i]);
    } else if at == order.len() {
        assert(order.insert(at, i) =~= order.push(i));
    } else {
        assert(keys[order.last() as int] > keys[i as int]);
        lemma_insert_at(keys, order.drop_last(), i, at);
        assert(order.drop_last().insert(at, i).push(order.last()) =~= order.insert(at, i));
    }
}

/// The place at which `spec_insert` puts the index `i` into `order`.
pub open spec fn spec_place(keys: Seq<i128>, order: Seq<usize>, i: usize) -> int
    decreases order.len(),
{
    if order.len() == 0 {
        0
    } else if keys[order.last() as int] <= keys[i as int] {
        order.len() as int
    } else {
        spec_place(keys, order.drop_last(), i)
    }
}

/// `spec_insert` puts the index in at `spec_place`, behind indices with keys
/// that are not greater and before indices with greater keys, where the keys
/// ascend along `order`.
pub proof fn lemma_place(keys: Seq<i128>, order: Seq<usize>, i: usize)
    requires
        ascends(keys, order),
    ensures
        0 <= spec_place(keys, order, i) <= order.len(),
        spec_insert(keys, order, i) == order.insert(spec_place(keys, order, i), i),
        forall|k: int|
            0 <= k < spec_place(keys, order, i) ==> keys[(#[trigger] order[k]) as int] <= keys[i as int],
        forall|k: int|
            spec_place(keys, order, i) <= k < order.len() ==> keys[(#[trigger] order[k]) as int]
                > keys[i as int],
    decreases order.len(),
{
    if order.len() == 0 {
        assert(order.insert(0, i) =~= seq![i]);
    } else if keys[order.last() as int] <= keys[i as int] {
        assert(order.insert(order.len() as int, i) =~= order.push(i));
        assert forall|k: int| 0 <= k < order.len() implies keys[(#[trigger] order[k]) as int]
            <= keys[i as int] by {
            if k < order.len() - 1 {
                assert(keys[order[k] as int] <= keys[order[order.len() - 1] as int]);
            }
        }
    } else {
        let rest = order.drop_last();
        assert(ascends(keys, rest)) by {
            assert forall|a: int, b: int| 0 <= a < b < rest.len() implies {
                ||| keys[(#[trigger] rest[a]) as int] < keys[(#[trigger] rest[b]) as int]
                ||| keys[rest[a] as int] == keys[rest[b] as int] && rest[a] < rest[b]
            } by {
                assert(rest[a] == order[a] && rest[b] == order[b]);
            }
        }
        lemma_place(keys, rest, i);
        let at = spec_place(keys, rest, i);
        assert(rest.insert(at, i).push(order.last()) =~= order.insert(at, i));
        assert forall|k: int| 0 <= k < at implies keys[(#[trigger] order[k]) as int] <= keys[i as int] by {
            assert(order[k] == rest[k]);
        }
        assert forall|k: int| at <= k < order.len() implies keys[(#[trigger] order[k]) as int]
            > keys[i as int] by {
            if k < rest.len() {
                assert(order[k] == rest[k]);
            }
        }
    }
}

/// The order of the first `n` indices arranges them, and along it the keys
/// ascend, indices of equal keys in their own order.
pub proof fn lemma_order_of_first(keys: Seq<i128>, n: nat)
    requires
        n <= keys.len(),
        n <= usize::MAX,
    ensures
        arranges(spec_order_of_first(keys, n), n),
        ascends(keys, spec_order_of_first(keys, n)),
    decreases n,
{
    if n > 0 {
        let before = spec_order_of_first(keys, (n - 1) as nat);
        let i = (n - 1) as usize;
        lemma_order_of_first(keys, (n - 1) as nat);
        lemma_place(keys, before, i);
        let at = spec_place(keys, before, i);
        let after = before.insert(at, i);
        assert forall|k: int| 0 <= k < after.len() implies (#[trigger] after[k]) < n by {
            if k < at {
                assert(after[k] == before[k]);
            } else if k > at {
                assert(after[k] == before[k - 1]);
            }
        }
        assert forall|j: int| 0 <= j < n implies #[trigger] after.contains(j as usize) by {
            if j == n - 1 {
                assert(after[at] == i);
            } else {
                assert(before.contains(j as usize));
                let w = choose|w: int| 0 <= w < before.len() && before[w] == j as usize;
                if w < at {
                    assert(after[w] == before[w]);
                } else {
                    assert(after[w + 1] == before[w]);
                }
            }
        }
        assert forall|a: int, b: int| 0 <= a < b < after.len() implies {
            &&& (#[trigger] after[a]) != (#[trigger] after[b])
            &&& {
                ||| keys[after[a] as int] < keys[after[b] as int]
                ||| keys[after[a] as int] == keys[after[b] as int] && after[a] < after[b]
            }
        } by {
            let x = if a < at {
                a
            } else {
                a - 1
            };
            let y = if b < at {
                b
            } else {
                b - 1
            };
            if a != at {
                assert(after[a] == before[x]);
                assert(before[x] < n - 1);
            }
            if b != at {
                assert(after[b] == before[y]);
                assert(before[y] < n - 1);
            }
            if a != at && b != at {
                assert(x < y);
                assert(before[x] != before[y]);
            }
        }
    }
}

/// The order of a sequence of keys arranges its indices, and along it the
/// keys ascend, indices of equal keys in their own order.
pub proof fn lemma_order(keys: Seq<i128>)
    requires
        keys.len() <= usize::MAX,
    ensures
        arranges(spec_order(keys), keys.len()),
        ascends(keys, spec_order(keys)),
{
    lemma_order_of_first(keys, keys.len());
}

/// Keys that never descend are in order as they stand.
pub proof fn lemma_order_of_ascending(keys: Seq<i128>, n: nat)
    requires
        n <= keys.len(),
        n <= usize::MAX,
        forall|i: int, j: int| 0 <= i < j < keys.len() ==> keys[i] <= keys[j],
    ensures
        spec_order_of_first(keys, n) == Seq::new(n, |i: int| i as usize),
    decreases n,
{
    if n > 0 {
        let before = spec_order_of_first(keys, (n - 1) as nat);
        lemma_order_of_ascending(keys, (n - 1) as nat);
        if n > 1 {
            assert(before.last() == (n - 2) as usize);
            assert(keys[n - 2] <= keys[n - 1]);
        }
        assert(spec_insert(keys, before, (n - 1) as usize) =~= Seq::new(n, |i: int| i as usize));
    } else {
        assert(spec_order_of_first(keys, n) =~= Seq::new(n, |i: int| i as usize));
    }
}

/// The indices of `keys` in the order of their keys.
pub fn order_of(keys: &Vec<i128>) -> (order: Vec<usize>)
    ensures
        order@ == spec_order(keys@),
        arranges(order@, keys@.len()),
        ascends(keys@, order@),
{
    let mut order: Vec<usize> = Vec::new();
    let mut i: usize = 0;
    while i < keys.len()
        invariant
            i <= keys.len(),
            order@ == spec_order_of_first(keys@, i as nat),
        decreases keys.len() - i,
    {
        proof {
            lemma_order_of_first(keys@, i as nat);
        }
        let mut at: usize = order.len();
        while at > 0 && keys[order[at - 1]] > keys[i]
            invariant
                at <= order.len(),
                i < keys.len(),
                arranges(order@, i as nat),
                forall|k: int| at <= k < order.len() ==> keys[(#[trigger] order[k]) as int] > keys[i as int],
            decreases at,
        {
            at -= 1;
        }
        proof {
            lemma_insert_at(keys@, order@, i, at as int);
        }
        order.insert(at, i);
        i += 1;
    }
    proof {
        lemma_order(keys@);
    }
    order
}

/// Whether the numbers never descend.
pub open spec fn ascending(values: Seq<i64>) -> bool {
    forall|i: int, j: int| 0 <= i < j < values.len() ==> values[i] <= values[j]
}

/// The numbers as keys.
pub open spec fn number_keys(values: Seq<i64>) -> Seq<i128> {
    values.map_values(|value: i64| value as i128)
}

/// The numbers in ascending order.
pub open spec fn spec_sorted(values: Seq<i64>) -> Seq<i64> {
    spec_order(number_keys(values)).map_values(|i: usize| values[i as int])
}

/// The numbers in ascending order are as many as they were, never descend,
/// and hold what the numbers held and nothing else.
pub proof fn lemma_sorted(values: Seq<i64>)
    requires
        values.len() <= usize::MAX,
    ensures
        spec_sorted(values).len() == values.len(),
        ascending(spec_sorted(values)),
        forall|i: int| 0 <= i < values.len() ==> spec_sorted(values).contains(#[trigger] values[i]),
        forall|k: int|
            0 <= k < values.len() ==> values.contains(#[trigger] spec_sorted(values)[k]),
{
    let keys = number_keys(values);
    let order = spec_order(keys);
    let sorted = spec_sorted(values);
    lemma_order(keys);
    assert forall|i: int, j: int| 0 <= i < j < sorted.len() implies sorted[i] <= sorted[j] by {
        assert(keys[order[i] as int] <= keys[order[j] as int]);
    }
    assert forall|i: int| 0 <= i < values.len() implies sorted.contains(#[trigger] values[i]) by {
        assert(order.contains(i as usize));
        let k = choose|k: int| 0 <= k < order.len() && order[k] == i as usize;
        assert(sorted[k] == values[i]);
    }
    assert forall|k: int| 0 <= k < values.len() implies values.contains(#[trigger] sorted[k]) by {
        assert(values[order[k] as int] == sorted[k]);
    }
}

/// The numbers in ascending order.
pub fn sort_ascending(values: &Vec<i64>) -> (sorted: Vec<i64>)
    ensures
        sorted@ == spec_sorted(values@),
        ascending(sorted@),
{
    let mut keys: Vec<i128> = Vec::new();
    let mut i: usize = 0;
    while i < values.len()
        invariant
            i <= values.len(),
            keys@ == number_keys(values@.take(i as int)),
        decreases values.len() - i,
    {
        keys.push(values[i] as i128);
        proof {
            assert(keys@ =~= number_keys(values@.take(i as int + 1)));
        }
        i += 1;
    }
    assert(values@.take(values.len() as int) =~= values@);
    let order = order_of(&keys);
    let mut sorted: Vec<i64> = Vec::new();
    let mut k: usize = 0;
    while k < order.len()
        invariant
            k <= order.len(),
            order@ == spec_order(number_keys(values@)),
            arranges(order@, values@.len()),
            sorted@ == spec_sorted(values@).take(k as int),
        decreases order.len() - k,
    {
        sorted.push(values[order[k]]);
        proof {
            assert(sorted@ =~= spec_sorted(values@).take(k as int + 1));
        }
        k += 1;
    }
    proof {
        assert(spec_sorted(values@).take(order.len() as int) =~= spec_sorted(values@));
        lemma_sorted(values@);
    }
    sorted
}

} // verus!
