//! The statistics reducer: mean, sample standard deviation, maximum and
//! minimum of a warehouse's rolling-sum series, in Q4 fixed point.
//!
//! The standard deviation uses sample semantics (denominator n - 1, the
//! semantics of the data source's stdev aggregate); a one-point series has
//! standard deviation 0.
use vstd::arithmetic::div_mod::{lemma_div_is_ordered, lemma_div_multiples_vanish};
use vstd::prelude::*;

verus! {

pub open spec fn sum_seq(u: Seq<u64>) -> int
    decreases u.len(),
{
    if u.len() == 0 {
        0
    } else {
        sum_seq(u.drop_last()) + u.last() as int
    }
}

pub open spec fn sum_sq_seq(u: Seq<u64>) -> int
    decreases u.len(),
{
    if u.len() == 0 {
        0
    } else {
        sum_sq_seq(u.drop_last()) + (u.last() as int) * (u.last() as int)
    }
}

pub open spec fn max_seq(u: Seq<u64>) -> int
    decreases u.len(),
    when u.len() >= 1
{
    if u.len() == 1 {
        u[0] as int
    } else if u.last() as int > max_seq(u.drop_last()) {
        u.last() as int
    } else {
        max_seq(u.drop_last())
    }
}

pub open spec fn min_seq(u: Seq<u64>) -> int
    decreases u.len(),
    when u.len() >= 1
{
    if u.len() == 1 {
        u[0] as int
    } else if (u.last() as int) < min_seq(u.drop_last()) {
        u.last() as int
    } else {
        min_seq(u.drop_last())
    }
}

/// The integer square root: the largest `r` with `r * r <= x`.
pub open spec fn isqrt_spec(x: int) -> int
    decreases x,
    when x >= 0
{
    if x < 1 {
        0
    } else {
        let r = isqrt_spec(x - 1);
        if (r + 1) * (r + 1) <= x {
            r + 1
        } else {
            r
        }
    }
}

pub proof fn lemma_isqrt_props(x: int)
    requires
        x >= 0,
    ensures
        isqrt_spec(x) >= 0,
        isqrt_spec(x) * isqrt_spec(x) <= x,
        x < (isqrt_spec(x) + 1) * (isqrt_spec(x) + 1),
    decreases x,
{
    if x >= 1 {
        lemma_isqrt_props(x - 1);
        let r = isqrt_spec(x - 1);
        if (r + 1) * (r + 1) <= x {
            assert(x < (r + 2) * (r + 2)) by (nonlinear_arith)
                requires
                    x - 1 < (r + 1) * (r + 1),
                    r >= 0,
            ;
        }
    }
}

pub proof fn lemma_isqrt_unique(x: int, a: int)
    requires
        x >= 0,
        a >= 0,
        a * a <= x,
        x < (a + 1) * (a + 1),
    ensures
        a == isqrt_spec(x),
{
    lemma_isqrt_props(x);
    let b = isqrt_spec(x);
    if a < b {
        assert(false) by (nonlinear_arith)
            requires
                0 <= a < b,
                b * b <= x,
                x < (a + 1) * (a + 1),
        ;
    }
    if b < a {
        assert(false) by (nonlinear_arith)
            requires
                0 <= b < a,
                a * a <= x,
                x < (b + 1) * (b + 1),
        ;
    }
}

/// The integer square root, by binary search.
pub fn isqrt_u128(x: u128) -> (r: u64)
    requires
        x < 0x4000_0000_0000_0000_0000_0000_0000_0000,
    ensures
        r as int == isqrt_spec(x as int),
        (r as int) * (r as int) <= x as int,
{
    let mut lo: u128 = 0;
    let mut hi: u128 = 0x8000_0000_0000_0000;
    proof {
        assert((0x8000_0000_0000_0000u128 as int) * (0x8000_0000_0000_0000u128 as int)
            == 0x4000_0000_0000_0000_0000_0000_0000_0000int) by (nonlinear_arith);
    }
    while lo + 1 < hi
        invariant
            0 <= lo < hi <= 0x8000_0000_0000_0000,
            (lo as int) * (lo as int) <= x as int,
            (x as int) < (hi as int) * (hi as int),
        decreases hi - lo,
    {
        let mid = lo + (hi - lo) / 2;
        proof {
            assert(lo < mid < hi);
            assert((mid as int) * (mid as int) < 0x1_0000_0000_0000_0000_0000_0000_0000_0000int)
                by (nonlinear_arith)
                requires
                    0 <= mid as int <= 0x8000_0000_0000_0000int,
            ;
        }
        if mid * mid <= x {
            lo = mid;
        } else {
            hi = mid;
        }
    }
    proof {
        lemma_isqrt_unique(x as int, lo as int);
    }
    lo as u64
}

/// Mean of the series, floor-rounded to Q4.
pub open spec fn mean_q4_spec(u: Seq<u64>) -> int {
    sum_seq(u) / (u.len() as int)
}

/// The sample-variance numerator `n * sum(x^2) - sum(x)^2`.
pub open spec fn var_num_spec(u: Seq<u64>) -> int {
    u.len() as int * sum_sq_seq(u) - sum_seq(u) * sum_seq(u)
}

/// Sample standard deviation in Q4: the integer square root of
/// `var_num / (n * (n - 1))`; 0 for a one-point series.
pub open spec fn stdev_q4_spec(u: Seq<u64>) -> int {
    if u.len() >= 2 && var_num_spec(u) >= 0 {
        isqrt_spec(var_num_spec(u) / (u.len() as int * (u.len() as int - 1)))
    } else {
        0
    }
}

/// Per-warehouse summary statistics of the rolling-sum series.
#[derive(Clone, Copy, PartialEq, Eq, Structural, Debug)]
pub struct WarehouseStats {
    pub mean: u64,
    pub stdev: u64,
    pub max: u64,
    pub min: u64,
}

/// Reduces a nonempty rolling-sum series to its summary statistics.
#[verifier::rlimit(100)]
pub fn reduce_stats(u: &Vec<u64>) -> (st: WarehouseStats)
    requires
        1 <= u@.len() <= 6000,
        forall|i: int| 0 <= i < u@.len() ==> (#[trigger] u@[i]) as int <= 0x2_0000_0000_0000,
    ensures
        st.mean as int == mean_q4_spec(u@),
        st.stdev as int == stdev_q4_spec(u@),
        st.max as int == max_seq(u@),
        st.min as int == min_seq(u@),
        st.mean <= 0x4000_0000_0000_0000,
        st.stdev <= 0x4_0000_0000_0000,
        st.max <= 0x2_0000_0000_0000,
        st.min <= 0x2_0000_0000_0000,
{
    let n = u.len();
    let u0 = u[0];
    proof {
        assert(u@.take(1).drop_last() =~= Seq::<u64>::empty());
        assert(u@.take(1).last() == u@[0]);
        assert(u@.take(1)[0] == u@[0]);
        assert((u@[0] as int) * (u@[0] as int) <= 0x4_0000_0000_0000_0000_0000_0000int)
            by (nonlinear_arith)
            requires
                0 <= u@[0] as int <= 0x2_0000_0000_0000int,
        ;
        assert(sum_seq(Seq::<u64>::empty()) == 0);
        assert(sum_sq_seq(Seq::<u64>::empty()) == 0);
        assert(sum_seq(u@.take(1)) == u@[0] as int);
        assert(sum_sq_seq(u@.take(1)) == (u@[0] as int) * (u@[0] as int));
        assert(max_seq(u@.take(1)) == u@[0] as int);
        assert(min_seq(u@.take(1)) == u@[0] as int);
    }
    let mut s: u64 = u0;
    let mut q: u128 = (u0 as u128) * (u0 as u128);
    let mut mx: u64 = u0;
    let mut mn: u64 = u0;
    let mut k: usize = 1;
    while k < n
        invariant
            n == u@.len(),
            1 <= n <= 6000,
            forall|i: int| 0 <= i < u@.len() ==> (#[trigger] u@[i]) as int <= 0x2_0000_0000_0000,
            1 <= k <= n,
            s as int == sum_seq(u@.take(k as int)),
            s as int <= k as int * 0x2_0000_0000_0000,
            q as int == sum_sq_seq(u@.take(k as int)),
            q as int <= k as int * 0x4_0000_0000_0000_0000_0000_0000,
            mx as int == max_seq(u@.take(k as int)),
            mn as int == min_seq(u@.take(k as int)),
            mx as int <= 0x2_0000_0000_0000,
            mn as int <= 0x2_0000_0000_0000,
        decreases n - k,
    {
        proof {
            assert(u@.take(k as int + 1).drop_last() =~= u@.take(k as int));
            assert(u@.take(k as int + 1).last() == u@[k as int]);
            assert((u@[k as int] as int) * (u@[k as int] as int)
                <= 0x4_0000_0000_0000_0000_0000_0000int) by (nonlinear_arith)
                requires
                    0 <= u@[k as int] as int <= 0x2_0000_0000_0000int,
            ;
        }
        s = s + u[k];
        q = q + (u[k] as u128) * (u[k] as u128);
        if u[k] > mx {
            mx = u[k];
        }
        if u[k] < mn {
            mn = u[k];
        }
        k = k + 1;
    }
    proof {
        assert(u@.take(n as int) =~= u@);
    }
    let mean = s / (n as u64);
    proof {
        lemma_div_is_ordered(0, s as int, n as int);
        lemma_div_is_ordered(s as int, 0x4000_0000_0000_0000, n as int);
    }
    if n == 1 {
        return WarehouseStats { mean, stdev: 0, max: mx, min: mn };
    }
    let nn = n as u128;
    proof {
        assert((s as int) * (s as int) <= 0x1000_0000_0000_0000_0000_0000_0000_0000int)
            by (nonlinear_arith)
            requires
                0 <= s as int <= 6000 * 0x2_0000_0000_0000,
        ;
        assert((nn as int) * (q as int) <= 6000 * 0x4_0000_0000_0000_0000_0000_0000 * 6000)
            by (nonlinear_arith)
            requires
                0 <= nn as int <= 6000,
                0 <= q as int <= 6000 * 0x4_0000_0000_0000_0000_0000_0000,
        ;
        assert((nn as int) * (nn as int - 1) <= 6000 * 6000 && 0 < (nn as int) * (nn as int - 1))
            by (nonlinear_arith)
            requires
                2 <= nn as int <= 6000,
        ;
    }
    let s2 = (s as u128) * (s as u128);
    let nq = nn * q;
    if nq < s2 {
        // cannot occur for real series; kept so the contract stays exact
        return WarehouseStats { mean, stdev: 0, max: mx, min: mn };
    }
    let num = nq - s2;
    let den = nn * (nn - 1);
    let vq = num / den;
    proof {
        assert(den as int == u@.len() as int * (u@.len() as int - 1));
    }
    let sd = isqrt_u128(vq);
    proof {
        // the variance is at most twice the squared value cap, so the root
        // stays well inside the format range
        let cap: int = 0x2_0000_0000_0000;
        assert(num as int <= den as int * (2 * cap * cap)) by (nonlinear_arith)
            requires
                num as int ==( nn as int) * (q as int) - s2 as int,
                s2 as int >= 0,
                den as int == nn as int * (nn as int - 1),
                2 <= nn as int <= 6000,
                0 <= q as int <= nn as int * (cap * cap),
                cap == 0x2_0000_0000_0000int,
        ;
        lemma_div_is_ordered(num as int, den as int * (2 * cap * cap), den as int);
        lemma_div_multiples_vanish(2 * cap * cap, den as int);
        assert(vq as int <= 2 * cap * cap);
        lemma_isqrt_props(vq as int);
        assert(sd as int <= 0x4_0000_0000_0000) by (nonlinear_arith)
            requires
(                sd as int) * (sd as int) <= 2 * 0x2_0000_0000_0000int * 0x2_0000_0000_0000int,
                sd as int >= 0,
        ;
    }
    WarehouseStats { mean, stdev: sd, max: mx, min: mn }
}

} // verus!
