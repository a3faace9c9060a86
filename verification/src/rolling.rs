//! The rolling window accumulator: at each day, the sum of daily usage over
//! the forward-looking window of lead_time + 1 days, truncated at the last
//! available day.
use vstd::prelude::*;

verus! {

/// Sum of `u[a..b]`.
pub open spec fn sum_range(u: Seq<u64>, a: int, b: int) -> int
    decreases b - a,
{
    if a >= b {
        0
    } else {
        u[a] + sum_range(u, a + 1, b)
    }
}

/// Exclusive end of the window anchored at `i`: `i + lt + 1`, truncated to
/// the end of the series.
pub open spec fn win_end(len: int, i: int, lt: int) -> int {
    if i + lt + 1 <= len {
        i + lt + 1
    } else {
        len
    }
}

/// The forward window sum at day `i`: daily usage summed over
/// `[i, min(i + lt, len - 1)]`.
pub open spec fn win_sum(u: Seq<u64>, i: int, lt: int) -> int {
    sum_range(u, i, win_end(u.len() as int, i, lt))
}

pub proof fn lemma_sum_range_nonneg(u: Seq<u64>, a: int, b: int)
    ensures
        sum_range(u, a, b) >= 0,
    decreases b - a,
{
    if a < b {
        lemma_sum_range_nonneg(u, a + 1, b);
    }
}

/// Splitting the last element off a range sum.
pub proof fn lemma_sum_range_split_last(u: Seq<u64>, a: int, b: int)
    requires
        0 <= a <= b < u.len(),
    ensures
        sum_range(u, a, b + 1) == sum_range(u, a, b) + u[b],
    decreases b - a,
{
    if a == b {
        assert(sum_range(u, a + 1, b + 1) == 0);
    } else {
        lemma_sum_range_split_last(u, a + 1, b);
    }
}

/// A range sum of values below `cap` is below `(b - a) * cap`.
pub proof fn lemma_sum_range_bound(u: Seq<u64>, a: int, b: int, cap: int)
    requires
        forall|i: int| 0 <= i < u.len() ==> (#[trigger] u[i]) as int <= cap,
        0 <= a <= b <= u.len(),
        cap >= 0,
    ensures
        sum_range(u, a, b) <= (b - a) * cap,
    decreases b - a,
{
    if a < b {
        lemma_sum_range_bound(u, a + 1, b, cap);
        assert((b - a) * cap == (b - a - 1) * cap + cap) by (nonlinear_arith);
    }
}

/// With a lead time of zero the window sum is the day's own usage.
pub proof fn lemma_rolling_lead_zero(u: Seq<u64>, i: int)
    requires
        0 <= i < u.len(),
    ensures
        win_sum(u, i, 0) == u[i] as int,
{
    assert(sum_range(u, i + 1, i + 1) == 0);
}

/// A window that would run past the last day holds only the available days:
/// the sum is truncated, not zero-filled.
pub proof fn lemma_rolling_truncated(u: Seq<u64>, i: int, lt: int)
    requires
        0 <= i < u.len(),
        i + lt + 1 > u.len(),
    ensures
        win_sum(u, i, lt) == sum_range(u, i, u.len() as int),
{
}

/// Lead times at or beyond the series length all mean the same full-tail
/// window.
pub proof fn lemma_win_clamp(u: Seq<u64>, i: int, lt: int)
    requires
        0 <= i < u.len(),
        lt >= u.len(),
    ensures
        win_sum(u, i, lt) == win_sum(u, i, u.len() as int),
{
}

/// The rolling sums of a whole series, computed with a sliding running sum
/// in one pass; each entry equals the naive re-summation of its window.
pub fn rolling_sums(u: &Vec<u64>, lt: usize) -> (r: Vec<u64>)
    requires
        u@.len() <= 6000,
        lt <= 6000,
        forall|i: int| 0 <= i < u@.len() ==> (#[trigger] u@[i]) as int <= 0x10_0000_0000,
    ensures
        r@.len() == u@.len(),
        forall|i: int| 0 <= i < u@.len() ==> (#[trigger] r@[i]) as int == win_sum(u@, i, lt as int),
        forall|i: int| 0 <= i < u@.len() ==> (#[trigger] r@[i]) as int <= 0x2_0000_0000_0000,
{
    let n = u.len();
    let mut r: Vec<u64> = Vec::new();
    if n == 0 {
        return r;
    }
    proof {
        assert forall|i: int| 0 <= i < u@.len() implies win_sum(u@, i, lt as int)
            <= 0x2_0000_0000_0000 by {
            let e = win_end(u@.len() as int, i, lt as int);
            lemma_sum_range_bound(u@, i, e, 0x10_0000_0000);
        }
    }
    let e0: usize = if lt + 1 <= n {
        lt + 1
    } else {
        n
    };
    let mut wsum: u64 = 0;
    let mut k: usize = 0;
    while k < e0
        invariant
            n == u@.len(),
            n <= 6000,
            lt <= 6000,
            forall|i: int| 0 <= i < u@.len() ==> (#[trigger] u@[i]) as int <= 0x10_0000_0000,
            e0 as int == win_end(n as int, 0, lt as int),
            0 <= k <= e0,
            wsum as int == sum_range(u@, 0, k as int),
        decreases e0 - k,
    {
        proof {
            lemma_sum_range_split_last(u@, 0, k as int);
            lemma_sum_range_bound(u@, 0, k as int + 1, 0x10_0000_0000);
        }
        wsum = wsum + u[k];
        k = k + 1;
    }
    let mut i: usize = 0;
    while i < n
        invariant
            n == u@.len(),
            n <= 6000,
            lt <= 6000,
            forall|j: int| 0 <= j < u@.len() ==> (#[trigger] u@[j]) as int <= 0x10_0000_0000,
            0 <= i <= n,
            r@.len() == i,
            forall|j: int| 0 <= j < i ==> (#[trigger] r@[j]) as int == win_sum(u@, j, lt as int),
            i < n ==> wsum as int == win_sum(u@, i as int, lt as int),
        decreases n - i,
    {
        r.push(wsum);
        proof {
            lemma_sum_range_nonneg(u@, i as int + 1, win_end(n as int, i as int, lt as int));
            if i as int + 1 < n {
                if i as int + (lt as int) + 1 < n {
                    lemma_sum_range_split_last(u@, i as int + 1, i as int + lt as int + 1);
                    lemma_sum_range_bound(
                        u@,
                        i as int + 1,
                        i as int + lt as int + 2,
                        0x10_0000_0000,
                    );
                } else {
                    assert(win_end(n as int, i as int + 1, lt as int) == n);
                }
            }
        }
        wsum = wsum - u[i];
        if i + lt + 1 < n {
            wsum = wsum + u[i + lt + 1];
        }
        i = i + 1;
    }
    r
}

/// The naive window sum at one day, re-summed from scratch; the oracle the
/// running-sum pass is held to.
pub fn window_sum_naive(u: &Vec<u64>, i: usize, lt: usize) -> (r: u64)
    requires
        i < u@.len(),
        u@.len() <= 6000,
        lt <= 6000,
        forall|j: int| 0 <= j < u@.len() ==> (#[trigger] u@[j]) as int <= 0x10_0000_0000,
    ensures
        r as int == win_sum(u@, i as int, lt as int),
{
    let n = u.len();
    let e: usize = if i + lt + 1 <= n {
        i + lt + 1
    } else {
        n
    };
    let mut s: u64 = 0;
    let mut k: usize = i;
    while k < e
        invariant
            n == u@.len(),
            n <= 6000,
            forall|j: int| 0 <= j < u@.len() ==> (#[trigger] u@[j]) as int <= 0x10_0000_0000,
            i <= k <= e,
            e <= n,
            s as int == sum_range(u@, i as int, k as int),
        decreases e - k,
    {
        proof {
            lemma_sum_range_split_last(u@, i as int, k as int);
            lemma_sum_range_bound(u@, i as int, k as int + 1, 0x10_0000_0000);
        }
        s = s + u[k];
        k = k + 1;
    }
    s
}

} // verus!
