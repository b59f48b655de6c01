//! Finding the windows of a row of equal windows that hold none of a list of
//! ascending numbers.

use crate::order::ascending;
use vstd::prelude::*;

verus! {

/// Whether one of the numbers is `lo` at least and less than `hi`.
pub open spec fn any_within(ids: Seq<i64>, lo: int, hi: int) -> bool {
    exists|i: int| 0 <= i < ids.len() && lo <= (#[trigger] ids[i]) < hi
}

/// The first number of the window `k`, where the windows are `step` wide and
/// window 0 starts at `begin`.
pub open spec fn window_begin(begin: int, step: int, k: int) -> int {
    begin + k * step
}

/// The windows that hold none of the numbers.
pub open spec fn is_gap(ids: Seq<i64>, begin: int, step: int) -> spec_fn(int) -> bool {
    |k: int| !any_within(ids, window_begin(begin, step, k), window_begin(begin, step, k + 1))
}

/// Of the first `windows` windows those that hold none of the numbers, in
/// ascending order.
pub open spec fn spec_gaps(ids: Seq<i64>, begin: int, step: int, windows: nat) -> Seq<int> {
    Seq::new(windows, |k: int| k).filter(is_gap(ids, begin, step))
}

/// The gaps as the contracts see them.
pub open spec fn gap_views(gaps: Seq<u64>) -> Seq<int> {
    gaps.map_values(|k: u64| k as int)
}

/// The next window starts one step behind this one.
proof fn lemma_window_step(begin: int, step: int, k: int)
    ensures
        window_begin(begin, step, k + 1) == window_begin(begin, step, k) + step,
{
    assert((k + 1) * step == k * step + step) by (nonlinear_arith);
}

/// No window among the first `windows` ends behind the last of them.
proof fn lemma_window_bound(begin: int, step: int, k: int, windows: int)
    requires
        step > 0,
        0 <= k < windows,
    ensures
        window_begin(begin, step, k + 1) <= window_begin(begin, step, windows),
        window_begin(begin, step, 0) == begin,
{
    assert((k + 1) * step <= windows * step) by (nonlinear_arith)
        requires
            step > 0,
            k + 1 <= windows,
    ;
}

/// Walks the windows and the numbers side by side and collects the windows
/// that hold no number. The windows are `step` wide, the first starts at
/// `begin`, and there are `windows` of them; the numbers must not descend.
pub fn gaps(ids: &Vec<i64>, begin: i64, step: i64, windows: u64) -> (missing: Vec<u64>)
    requires
        ascending(ids@),
        step > 0,
        begin + windows * step <= i64::MAX,
    ensures
        gap_views(missing@) == spec_gaps(ids@, begin as int, step as int, windows as nat),
{
    let ghost gap = is_gap(ids@, begin as int, step as int);
    let ghost counted = |k: int| k;
    let mut missing: Vec<u64> = Vec::new();
    let mut seen: usize = 0;
    while seen < ids.len() && ids[seen] < begin
        invariant
            seen <= ids.len(),
            forall|i: int| 0 <= i < seen ==> ids@[i] < begin,
        decreases ids.len() - seen,
    {
        seen += 1;
    }
    let mut k: u64 = 0;
    let mut lo: i64 = begin;
    proof {
        lemma_window_bound(begin as int, step as int, 0, windows as int + 1);
        assert(Seq::new(0, counted).filter(gap) =~= Seq::<int>::empty()) by {
            reveal(Seq::filter);
        }
        assert(gap_views(missing@) =~= Seq::<int>::empty());
    }
    while k < windows
        invariant
            k <= windows,
            step > 0,
            ascending(ids@),
            begin + windows * step <= i64::MAX,
            gap == is_gap(ids@, begin as int, step as int),
            counted == (|k: int| k),
            lo == window_begin(begin as int, step as int, k as int),
            seen <= ids.len(),
            forall|i: int| 0 <= i < seen ==> ids@[i] < lo,
            forall|i: int| seen <= i < ids.len() ==> ids@[i] >= lo,
            gap_views(missing@) == Seq::new(k as nat, counted).filter(gap),
        decreases windows - k,
    {
        proof {
            lemma_window_step(begin as int, step as int, k as int);
            lemma_window_bound(begin as int, step as int, k as int, windows as int);
        }
        let hi: i64 = lo + step;
        let ghost before = missing@;
        let ghost from = seen;
        let hit = seen < ids.len() && ids[seen] < hi;
        if hit {
            assert(lo <= ids@[seen as int] < hi);
            while seen < ids.len() && ids[seen] < hi
                invariant
                    from <= seen <= ids.len(),
                    forall|i: int| 0 <= i < seen ==> ids@[i] < hi,
                decreases ids.len() - seen,
            {
                seen += 1;
            }
            assert forall|i: int| seen <= i < ids.len() implies ids@[i] >= hi by {
                assert(ids@[seen as int] <= ids@[i]);
            }
            assert(any_within(ids@, lo as int, hi as int)) by {
                assert(lo <= ids@[from as int] < hi);
            }
        } else {
            assert(!any_within(ids@, lo as int, hi as int)) by {
                assert forall|i: int| 0 <= i < ids.len() implies !(lo <= (#[trigger] ids@[i]) < hi) by {
                    if i >= seen {
                        assert(ids@[seen as int] <= ids@[i]);
                    }
                }
            }
            missing.push(k);
        }
        proof {
            assert(Seq::new((k + 1) as nat, counted) =~= Seq::new(k as nat, counted).push(k as int));
            Seq::new(k as nat, counted).lemma_filter_push(k as int, gap);
            assert(gap(k as int) == !any_within(ids@, lo as int, hi as int));
            if !hit {
                assert(gap_views(missing@) =~= gap_views(before).push(k as int));
            }
        }
        lo = hi;
        k += 1;
    }
    missing
}

/// Lists that hold the same numbers have the same gaps.
pub proof fn lemma_gaps_of_same_numbers(
    ids: Seq<i64>,
    others: Seq<i64>,
    begin: int,
    step: int,
    windows: nat,
)
    requires
        forall|i: int| 0 <= i < ids.len() ==> others.contains(#[trigger] ids[i]),
        forall|i: int| 0 <= i < others.len() ==> ids.contains(#[trigger] others[i]),
    ensures
        spec_gaps(ids, begin, step, windows) == spec_gaps(others, begin, step, windows),
{
    let all = Seq::new(windows, |k: int| k);
    assert forall|w: int| 0 <= w < all.len() implies is_gap(ids, begin, step)(#[trigger] all[w])
        == is_gap(others, begin, step)(all[w]) by {
        let k = all[w];
        let lo = window_begin(begin, step, k);
        let hi = window_begin(begin, step, k + 1);
        if any_within(ids, lo, hi) {
            let i = choose|i: int| 0 <= i < ids.len() && lo <= (#[trigger] ids[i]) < hi;
            assert(others.contains(ids[i]));
            let j = choose|j: int| 0 <= j < others.len() && others[j] == ids[i];
            assert(lo <= others[j] < hi);
        }
        if any_within(others, lo, hi) {
            let i = choose|i: int| 0 <= i < others.len() && lo <= (#[trigger] others[i]) < hi;
            assert(ids.contains(others[i]));
            let j = choose|j: int| 0 <= j < ids.len() && ids[j] == others[i];
            assert(lo <= ids[j] < hi);
        }
    }
    lemma_filter_agree(all, is_gap(ids, begin, step), is_gap(others, begin, step));
}

/// Two tests that agree on every element of a sequence keep the same
/// elements.
pub proof fn lemma_filter_agree<A>(s: Seq<A>, p: spec_fn(A) -> bool, q: spec_fn(A) -> bool)
    requires
        forall|i: int| 0 <= i < s.len() ==> p(#[trigger] s[i]) == q(s[i]),
    ensures
        s.filter(p) == s.filter(q),
    decreases s.len(),
{
    reveal(Seq::filter);
    if s.len() > 0 {
        assert forall|i: int| 0 <= i < s.drop_last().len() implies p(#[trigger] s.drop_last()[i])
            == q(s.drop_last()[i]) by {
            assert(s.drop_last()[i] == s[i]);
        }
        lemma_filter_agree(s.drop_last(), p, q);
        assert(p(s[s.len() - 1]) == q(s[s.len() - 1]));
    }
}

/// The gaps are windows among the first `windows`, in ascending order, and
/// no more than those.
pub proof fn lemma_gaps_bounded(ids: Seq<i64>, begin: int, step: int, windows: nat)
    ensures
        spec_gaps(ids, begin, step, windows).len() <= windows,
        forall|i: int|
            0 <= i < spec_gaps(ids, begin, step, windows).len() ==> 0 <= (#[trigger] spec_gaps(
                ids,
                begin,
                step,
                windows,
            )[i]) < windows,
{
    let all = Seq::new(windows, |k: int| k);
    let gap = is_gap(ids, begin, step);
    all.lemma_filter_len(gap);
    assert forall|i: int| 0 <= i < all.filter(gap).len() implies 0 <= (#[trigger] all.filter(
        gap,
    )[i]) < windows by {
        all.lemma_filter_contains_rev(gap, all.filter(gap)[i]);
    }
}

} // verus!
