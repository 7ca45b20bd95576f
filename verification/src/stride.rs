//! Arithmetic progressions bounded from above: the shape shared by the port
//! scanner's walk over ports and the file copier's walk over blocks.

use vstd::prelude::*;
use vstd::arithmetic::div_mod::{lemma_fundamental_div_mod, lemma_fundamental_div_mod_converse};

verus! {

/// How many terms of `start, start + step, start + 2 * step, ...` do not
/// exceed `bound` (for a positive `step`).
pub open spec fn stride_len(start: int, step: int, bound: int) -> nat {
    if start > bound || step <= 0 {
        0
    } else {
        ((bound - start) / step + 1) as nat
    }
}

/// The terms of `start, start + step, start + 2 * step, ...` that do not
/// exceed `bound`, in increasing order.
pub open spec fn stride(start: int, step: int, bound: int) -> Seq<int> {
    Seq::new(stride_len(start, step, bound), |k: int| start + k * step)
}

/// A sequence of `u64` read as mathematical integers.
pub open spec fn ints_u64(s: Seq<u64>) -> Seq<int> {
    s.map_values(|x: u64| x as int)
}

/// A sequence of `u16` read as mathematical integers.
pub open spec fn ints_u16(s: Seq<u16>) -> Seq<int> {
    s.map_values(|x: u16| x as int)
}

/// Once the walk has taken `k` terms, the last of them within `bound` and
/// the next one beyond it, `k` is the length of the progression.
pub proof fn lemma_stride_len_exact(start: int, step: int, bound: int, k: int)
    requires
        step > 0,
        k >= 0,
        start + k * step > bound,
        k > 0 ==> start + (k - 1) * step <= bound,
    ensures
        stride_len(start, step, bound) == k,
{
    if k == 0 {
        assert(start > bound);
    } else {
        assert((k - 1) * step >= 0) by (nonlinear_arith)
            requires
                k >= 1,
                step > 0,
        ;
        assert(k * step == (k - 1) * step + step) by (nonlinear_arith);
        let r = (bound - start) - (k - 1) * step;
        lemma_fundamental_div_mod_converse(bound - start, step, k - 1, r);
    }
}

/// The progression holds the terms `start + j * step` in order, all within
/// `bound`, and stops exactly before the first term beyond it: when it is
/// empty `start` already exceeds `bound`, otherwise one more step from its
/// last term does.
pub proof fn lemma_stride_terms(start: int, step: int, bound: int)
    requires
        step > 0,
    ensures
        forall|j: int|
            0 <= j < stride(start, step, bound).len() ==> #[trigger] stride(start, step, bound)[j]
                == start + j * step && stride(start, step, bound)[j] <= bound,
        stride(start, step, bound).len() == 0 <==> start > bound,
        stride(start, step, bound).len() > 0 ==> stride(start, step, bound).last() + step > bound,
{
    let len = stride_len(start, step, bound);
    if start <= bound {
        let q = (bound - start) / step;
        lemma_fundamental_div_mod(bound - start, step);
        assert(q >= 0) by (nonlinear_arith)
            requires
                bound - start == step * q + (bound - start) % step,
                0 <= (bound - start) % step < step,
                bound - start >= 0,
        ;
        assert(len == q + 1);
        assert forall|j: int| 0 <= j < len implies #[trigger] stride(start, step, bound)[j] <= bound by {
            assert(j * step <= q * step) by (nonlinear_arith)
                requires
                    0 <= j <= q,
                    step > 0,
            ;
            assert(q * step <= bound - start) by (nonlinear_arith)
                requires
                    bound - start == step * q + (bound - start) % step,
                    0 <= (bound - start) % step,
            ;
        }
        assert(q * step + step > bound - start) by (nonlinear_arith)
            requires
                bound - start == step * q + (bound - start) % step,
                (bound - start) % step < step,
        ;
    }
}

/// The terms of a progression, together with whether stepping past the last
/// term leaves the range of values allowed.
pub struct Stride {
    pub points: Vec<u64>,
    pub overflows: bool,
}

/// Walks `start, start + step, ...` while the term does not exceed `bound`,
/// with terms allowed up to `limit` (the largest value of the integer type
/// the walk is done in). `overflows` tells whether the step after the last
/// term would pass `limit`.
pub fn stride_u64(start: u64, step: u64, bound: u64, limit: u64) -> (plan: Stride)
    requires
        step > 0,
        bound <= limit,
    ensures
        ints_u64(plan.points@) == stride(start as int, step as int, bound as int),
        forall|j: int| 0 <= j < plan.points@.len() ==> #[trigger] plan.points@[j] <= bound,
        forall|j: int| 0 <= j < plan.points@.len() ==> #[trigger] plan.points@[j] == start + j * step,
        plan.points@.len() == 0 ==> start > bound,
        plan.points@.len() > 0 ==> plan.points@.last() + step > bound,
        plan.overflows == (plan.points@.len() > 0 && plan.points@.last() + step > limit),
{
    let mut points: Vec<u64> = Vec::new();
    let mut cur: u64 = start;
    let ghost mut k: int = 0;
    loop
        invariant
            step > 0,
            bound <= limit,
            k >= 0,
            cur == start + k * step,
            points@.len() == k,
            forall|j: int| 0 <= j < k ==> #[trigger] points@[j] == start + j * step,
            forall|j: int| 0 <= j < k ==> #[trigger] points@[j] <= bound,
            k > 0 ==> start + (k - 1) * step <= bound,
            k > 0 ==> cur <= limit,
        decreases u64::MAX - cur,
    {
        if cur > bound {
            proof {
                lemma_stride_len_exact(start as int, step as int, bound as int, k);
                if k > 0 {
                    assert((k - 1) * step + step == k * step) by (nonlinear_arith);
                    assert(points@.last() + step == cur);
                }
                assert(ints_u64(points@) =~= stride(start as int, step as int, bound as int));
            }
            return Stride { points, overflows: false };
        }
        points.push(cur);
        assert(k * step + step == (k + 1) * step) by (nonlinear_arith);
        if step > limit - cur {
            proof {
                lemma_stride_len_exact(start as int, step as int, bound as int, k + 1);
                assert(ints_u64(points@) =~= stride(start as int, step as int, bound as int));
            }
            return Stride { points, overflows: true };
        }
        cur = cur + step;
        proof {
            k = k + 1;
        }
    }
}

} // verus!
