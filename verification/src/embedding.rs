//! L2 normalization of recognition embeddings.
//!
//! The recognition model returns a flat vector; dividing it by its
//! Euclidean norm yields the unit embedding handed to the similarity
//! search. Components are fixed-point thousandths; the norm is the
//! integer square root of the sum of squares, and a vector of norm zero
//! passes through unchanged (never a division by zero).

use vstd::prelude::*;
use crate::fixed::{FP_ONE, ROUND_DIV_LIMIT, round_div, round_div_spec};

verus! {

/// Bound on the magnitude of one embedding component.
pub const EMB_LIMIT: i64 = 1_000_000_000_000;

/// Bound on the number of components of an embedding.
pub const MAX_EMB_LEN: usize = 100_000;

/// Sum of squared components.
pub open spec fn norm_sq_spec(s: Seq<i64>) -> int
    decreases s.len(),
{
    if s.len() == 0 {
        0
    } else {
        norm_sq_spec(s.drop_last()) + s.last() * s.last()
    }
}

/// The floor of the square root of a non-negative integer.
pub open spec fn isqrt_spec(n: int) -> int {
    choose|r: int| #![trigger r * r] r >= 0 && r * r <= n < (r + 1) * (r + 1)
}

/// A sum of squares is non-negative, and zero exactly when every
/// component is zero.
pub proof fn lemma_norm_sq_zero(s: Seq<i64>)
    ensures
        norm_sq_spec(s) >= 0,
        norm_sq_spec(s) == 0 <==> (forall|i: int| 0 <= i < s.len() ==> s[i] == 0),
    decreases s.len(),
{
    if s.len() > 0 {
        lemma_norm_sq_zero(s.drop_last());
        assert(s.last() * s.last() >= 0) by (nonlinear_arith);
        assert(s.last() * s.last() == 0 <==> s.last() == 0) by (nonlinear_arith);
        if norm_sq_spec(s) == 0 {
            assert forall|i: int| 0 <= i < s.len() implies s[i] == 0 by {
                if i < s.len() - 1 {
                    assert(s.drop_last()[i] == s[i]);
                }
            }
        }
        if forall|i: int| 0 <= i < s.len() ==> s[i] == 0 {
            assert forall|i: int| 0 <= i < s.drop_last().len() implies s.drop_last()[i] == 0 by {
                assert(s.drop_last()[i] == s[i]);
            }
        }
    }
}

/// The non-negative floor square root is unique, so the specification
/// picks exactly the witness an implementation produces.
pub proof fn lemma_isqrt_unique(n: int, r: int)
    requires
        r >= 0,
        r * r <= n,
        n < (r + 1) * (r + 1),
    ensures
        isqrt_spec(n) == r,
{
    let w = choose|w: int| #![trigger w * w] w >= 0 && w * w <= n < (w + 1) * (w + 1);
    assert(w >= 0 && w * w <= n < (w + 1) * (w + 1));
    assert(w == r) by (nonlinear_arith)
        requires
            r >= 0,
            w >= 0,
            r * r <= n,
            n < (r + 1) * (r + 1),
            w * w <= n,
            n < (w + 1) * (w + 1),
    ;
}

/// Floor of the square root, by bisection.
pub fn isqrt(n: u128) -> (r: u128)
    requires
        n < 0x4000_0000_0000_0000_0000_0000_0000_0000,
    ensures
        r * r <= n,
        n < (r + 1) * (r + 1),
        r as int == isqrt_spec(n as int),
{
    let mut lo: u128 = 0;
    let mut hi: u128 = 0x8000_0000_0000_0000;
    proof {
        assert((0x8000_0000_0000_0000int) * (0x8000_0000_0000_0000int)
            == 0x4000_0000_0000_0000_0000_0000_0000_0000int) by (nonlinear_arith);
    }
    while hi - lo > 1
        invariant
            0 <= lo < hi <= 0x8000_0000_0000_0000,
            lo * lo <= n,
            n < hi * hi,
        decreases hi - lo,
    {
        let mid = lo + (hi - lo) / 2;
        proof {
            assert(lo < mid < hi);
            assert(mid * mid < 0x1_0000_0000_0000_0000_0000_0000_0000_0000int) by (nonlinear_arith)
                requires
                    0 <= mid as int,
                    (mid as int) < 0x1_0000_0000_0000_0000int,
            ;
        }
        if mid * mid <= n {
            lo = mid;
        } else {
            hi = mid;
        }
    }
    proof {
        assert(hi == lo + 1);
        lemma_isqrt_unique(n as int, lo as int);
    }
    lo
}

/// Divides every component by the Euclidean norm (rounding each quotient
/// to the nearest fixed-point step), producing a unit vector in
/// fixed-point thousandths; the zero vector is returned unchanged. No
/// component of the result exceeds one unit in magnitude.
pub fn l2_normalize(v: &Vec<i64>) -> (r: Vec<i64>)
    requires
        v@.len() <= MAX_EMB_LEN,
        forall|i: int| 0 <= i < v@.len() ==> -EMB_LIMIT <= #[trigger] v@[i] <= EMB_LIMIT,
    ensures
        r@.len() == v@.len(),
        norm_sq_spec(v@) == 0 ==> r@ == v@,
        norm_sq_spec(v@) > 0 ==> forall|i: int|
            0 <= i < v@.len() ==> #[trigger] r@[i] == round_div_spec(
                v@[i] * FP_ONE,
                isqrt_spec(norm_sq_spec(v@)),
            ),
        norm_sq_spec(v@) > 0 ==> forall|i: int|
            0 <= i < r@.len() ==> -FP_ONE <= #[trigger] r@[i] <= FP_ONE,
{
    let mut sum: u128 = 0;
    let mut i: usize = 0;
    while i < v.len()
        invariant
            0 <= i <= v@.len(),
            v@.len() <= MAX_EMB_LEN,
            forall|k: int| 0 <= k < v@.len() ==> -EMB_LIMIT <= #[trigger] v@[k] <= EMB_LIMIT,
            sum == norm_sq_spec(v@.subrange(0, i as int)),
            sum <= i * (EMB_LIMIT as int * EMB_LIMIT as int),
        decreases v@.len() - i,
    {
        let c = v[i];
        proof {
            assert(0 <= c as int * c as int <= EMB_LIMIT as int * EMB_LIMIT as int)
                by (nonlinear_arith)
                requires
                    -EMB_LIMIT as int <= c as int <= EMB_LIMIT as int,
            ;
            assert((i as int + 1) * (EMB_LIMIT as int * EMB_LIMIT as int) == i as int * (
            EMB_LIMIT as int * EMB_LIMIT as int) + EMB_LIMIT as int * EMB_LIMIT as int)
                by (nonlinear_arith);
            assert(MAX_EMB_LEN as int * (EMB_LIMIT as int * EMB_LIMIT as int)
                < 0x4000_0000_0000_0000_0000_0000_0000_0000int) by (nonlinear_arith);
            assert(i as int * (EMB_LIMIT as int * EMB_LIMIT as int) <= MAX_EMB_LEN as int * (
            EMB_LIMIT as int * EMB_LIMIT as int)) by (nonlinear_arith)
                requires
                    0 <= i as int <= MAX_EMB_LEN as int,
            ;
            assert(v@.subrange(0, i as int + 1).drop_last() =~= v@.subrange(0, i as int));
            assert(v@.subrange(0, i as int + 1).last() == v@[i as int]);
        }
        sum = sum + (c as i128 * c as i128) as u128;
        i += 1;
    }
    proof {
        assert(v@.subrange(0, v@.len() as int) =~= v@);
        lemma_norm_sq_zero(v@);
        assert(MAX_EMB_LEN as int * (EMB_LIMIT as int * EMB_LIMIT as int)
            < 0x4000_0000_0000_0000_0000_0000_0000_0000int) by (nonlinear_arith);
        assert(v@.len() as int * (EMB_LIMIT as int * EMB_LIMIT as int) <= MAX_EMB_LEN as int * (
        EMB_LIMIT as int * EMB_LIMIT as int)) by (nonlinear_arith)
            requires
                0 <= v@.len() as int <= MAX_EMB_LEN as int,
        ;
    }

    if sum == 0 {
        let mut out: Vec<i64> = Vec::new();
        let mut j: usize = 0;
        while j < v.len()
            invariant
                0 <= j <= v@.len(),
                out@ == v@.subrange(0, j as int),
            decreases v@.len() - j,
        {
            out.push(v[j]);
            proof {
                assert(out@ =~= v@.subrange(0, j as int + 1));
            }
            j += 1;
        }
        proof {
            assert(out@ =~= v@);
        }
        return out;
    }

    let norm = isqrt(sum);
    proof {
        assert(norm >= 1) by {
            if norm == 0 {
                assert(sum < 1);
            }
        }
        assert(norm as int * norm as int <= sum as int);
        assert((norm as int) < 0x8000_0000_0000_0000int) by (nonlinear_arith)
            requires
                norm as int * norm as int <= sum as int,
                (sum as int) < 0x4000_0000_0000_0000_0000_0000_0000_0000int,
                norm as int >= 0,
        ;
        assert((norm as int) < ROUND_DIV_LIMIT as int) by (nonlinear_arith)
            requires
                norm as int * norm as int <= sum as int,
                sum as int <= MAX_EMB_LEN as int * (EMB_LIMIT as int * EMB_LIMIT as int),
                norm as int >= 0,
        ;
    }
    let d = norm as i64;
    proof {
        assert forall|k: int| 0 <= k < v@.len() implies #[trigger] (v@[k] * v@[k])
            <= norm_sq_spec(v@) by {
            lemma_component_sq_le_norm_sq(v@, k);
        }
    }
    let mut out: Vec<i64> = Vec::new();
    let mut j: usize = 0;
    while j < v.len()
        invariant
            0 <= j <= v@.len(),
            forall|k: int| 0 <= k < v@.len() ==> -EMB_LIMIT <= #[trigger] v@[k] <= EMB_LIMIT,
            1 <= d,
            (d as int) < ROUND_DIV_LIMIT,
            d as int == isqrt_spec(norm_sq_spec(v@)),
            forall|k: int| 0 <= k < v@.len() ==> #[trigger] (v@[k] * v@[k]) <= norm_sq_spec(v@),
            norm_sq_spec(v@) < (d + 1) * (d + 1),
            out@.len() == j,
            forall|k: int|
                0 <= k < j ==> #[trigger] out@[k] == round_div_spec(v@[k] * FP_ONE, d as int),
            forall|k: int| 0 <= k < j ==> -FP_ONE <= #[trigger] out@[k] <= FP_ONE,
        decreases v@.len() - j,
    {
        let c = v[j];
        proof {
            assert(v@[j as int] * v@[j as int] <= norm_sq_spec(v@));
            assert(-ROUND_DIV_LIMIT < c as int * FP_ONE < ROUND_DIV_LIMIT) by (nonlinear_arith)
                requires
                    -EMB_LIMIT as int <= c as int <= EMB_LIMIT as int,
            ;
            assert(-(d as int) <= c as int <= d as int) by (nonlinear_arith)
                requires
                    c as int * c as int <= norm_sq_spec(v@),
                    norm_sq_spec(v@) < (d as int + 1) * (d as int + 1),
                    d as int >= 0,
            ;
            assert(c as int * FP_ONE <= FP_ONE * (d as int) && -(FP_ONE * (d as int)) <= c as int
                * FP_ONE) by (nonlinear_arith)
                requires
                    -(d as int) <= c as int <= d as int,
            ;
            crate::fixed::lemma_round_div_le(c as int * FP_ONE, d as int, FP_ONE as int);
            crate::fixed::lemma_round_div_le(-(c as int) * FP_ONE, d as int, FP_ONE as int);
            assert(-(c as int) * FP_ONE == -(c as int * FP_ONE)) by (nonlinear_arith);
            crate::fixed::lemma_round_div_neg(c as int * FP_ONE, d as int);
        }
        out.push(round_div(c * FP_ONE, d));
        j += 1;
    }
    out
}

/// Summed over the vector, rounding each scaled component to the nearest
/// step moves the squared norm by at most a per-component constant:
/// with `K = FP_ONE`, components bounded by `m` and each result equal to
/// `round(c * K / m)`, the scaled result's squared norm, times `m^2`,
/// stays within `K * m^2 * len` below and `(K + 1) * m^2 * len` above
/// `K^2` times the input's squared norm.
proof fn lemma_rounded_scaling_norm_bounds(v: Seq<i64>, r: Seq<i64>, m: int)
    requires
        v.len() == r.len(),
        m >= 1,
        forall|i: int| 0 <= i < v.len() ==> -m <= #[trigger] v[i] <= m,
        forall|i: int| 0 <= i < v.len() ==> #[trigger] r[i] == round_div_spec(v[i] * FP_ONE, m),
    ensures
        m * m * norm_sq_spec(r) >= FP_ONE * FP_ONE * norm_sq_spec(v) - FP_ONE * (m * m) * v.len(),
        m * m * norm_sq_spec(r) <= FP_ONE * FP_ONE * norm_sq_spec(v) + (FP_ONE + 1) * (m * m)
            * v.len(),
    decreases v.len(),
{
    if v.len() == 0 {
    } else {
        let vd = v.drop_last();
        let rd = r.drop_last();
        assert(vd.len() == rd.len());
        assert forall|i: int| 0 <= i < vd.len() implies -m <= #[trigger] vd[i] <= m by {
            assert(vd[i] == v[i]);
        }
        assert forall|i: int| 0 <= i < vd.len() implies #[trigger] rd[i] == round_div_spec(
            vd[i] * FP_ONE,
            m,
        ) by {
            assert(rd[i] == r[i] && vd[i] == v[i]);
        }
        lemma_rounded_scaling_norm_bounds(vd, rd, m);
        let c = v.last() as int;
        let rl = r.last() as int;
        assert(rl == round_div_spec(c * FP_ONE, m));
        crate::fixed::lemma_round_div_error(c * FP_ONE, m);
        let e = rl * m - c * FP_ONE;
        assert(2 * e <= m && 2 * (-e) <= m);
        assert(FP_ONE * FP_ONE * (c * c) - FP_ONE * (m * m) <= (m * m) * (rl * rl) && (m * m) * (rl
            * rl) <= FP_ONE * FP_ONE * (c * c) + (FP_ONE + 1) * (m * m)) by (nonlinear_arith)
            requires
                m >= 1,
                -m <= c <= m,
                e == rl * m - c * FP_ONE,
                2 * e <= m,
                2 * (-e) <= m,
                FP_ONE == 1000,
        ;
        assert(norm_sq_spec(v) == norm_sq_spec(vd) + c * c);
        assert(norm_sq_spec(r) == norm_sq_spec(rd) + rl * rl);
        assert(m * m * (norm_sq_spec(rd) + rl * rl) == m * m * norm_sq_spec(rd) + (m * m) * (rl
            * rl)) by (nonlinear_arith);
        assert(FP_ONE * FP_ONE * (norm_sq_spec(vd) + c * c) == FP_ONE * FP_ONE * norm_sq_spec(vd)
            + FP_ONE * FP_ONE * (c * c)) by (nonlinear_arith);
        assert(FP_ONE * (m * m) * v.len() == FP_ONE * (m * m) * vd.len() + FP_ONE * (m * m))
            by (nonlinear_arith)
            requires
                v.len() == vd.len() + 1,
        ;
        assert((FP_ONE + 1) * (m * m) * v.len() == (FP_ONE + 1) * (m * m) * vd.len() + (FP_ONE + 1)
            * (m * m)) by (nonlinear_arith)
            requires
                v.len() == vd.len() + 1,
        ;
    }
}

/// The squared norm of a normalized non-zero vector is close to one:
/// writing `K` for [`FP_ONE`] and `n` for the length, it is at least
/// `K^2 - K * n` and, scaled by the norm `m`, at most
/// `m * K^2 + 2 * K^2 + m * (K + 1) * n`; for embeddings whose norm far
/// exceeds their length both sides are within a fraction of a percent of
/// `K^2`.
pub proof fn lemma_l2_normalize_norm_close(v: Seq<i64>, r: Seq<i64>)
    requires
        v.len() == r.len(),
        norm_sq_spec(v) > 0,
        forall|i: int| 0 <= i < v.len() ==> #[trigger] r[i] == round_div_spec(
            v[i] * FP_ONE,
            isqrt_spec(norm_sq_spec(v)),
        ),
    ensures
        norm_sq_spec(r) >= FP_ONE * FP_ONE - FP_ONE * v.len(),
        isqrt_spec(norm_sq_spec(v)) * norm_sq_spec(r) <= isqrt_spec(norm_sq_spec(v)) * (FP_ONE
            * FP_ONE) + 2 * (FP_ONE * FP_ONE) + isqrt_spec(norm_sq_spec(v)) * (FP_ONE + 1)
            * v.len(),
{
    let s = norm_sq_spec(v);
    let m = isqrt_spec(s);
    lemma_isqrt_exists(s);
    assert(m >= 0 && m * m <= s < (m + 1) * (m + 1));
    assert(m >= 1) by (nonlinear_arith)
        requires
            m >= 0,
            s >= 1,
            s < (m + 1) * (m + 1),
    ;
    assert forall|i: int| 0 <= i < v.len() implies -m <= #[trigger] v[i] <= m by {
        lemma_component_sq_le_norm_sq(v, i);
        assert(-m <= v[i] <= m) by (nonlinear_arith)
            requires
                v[i] * v[i] <= s,
                s < (m + 1) * (m + 1),
                m >= 0,
        ;
    }
    lemma_rounded_scaling_norm_bounds(v, r, m);
    let nr = norm_sq_spec(r);
    let n = v.len() as int;
    assert(m * m * nr >= FP_ONE * FP_ONE * s - FP_ONE * (m * m) * n);
    assert(m * m * nr <= FP_ONE * FP_ONE * s + (FP_ONE + 1) * (m * m) * n);
    assert(nr >= FP_ONE * FP_ONE - FP_ONE * n) by (nonlinear_arith)
        requires
            m >= 1,
            m * m <= s,
            m * m * nr >= FP_ONE * FP_ONE * s - FP_ONE * (m * m) * n,
    ;
    assert(m * nr <= m * (FP_ONE * FP_ONE) + 2 * (FP_ONE * FP_ONE) + m * (FP_ONE + 1) * n)
        by (nonlinear_arith)
        requires
            m >= 1,
            s < (m + 1) * (m + 1),
            s >= m * m,
            m * m * nr <= FP_ONE * FP_ONE * s + (FP_ONE + 1) * (m * m) * n,
            FP_ONE == 1000,
    ;
}

/// Some integer is the floor square root of any non-negative integer, so
/// [`isqrt_spec`] is well defined.
proof fn lemma_isqrt_exists(n: int)
    requires
        n >= 0,
    ensures
        ({
            let m = isqrt_spec(n);
            m >= 0 && m * m <= n < (m + 1) * (m + 1)
        }),
    decreases n,
{
    if n == 0 {
        assert(0 * 0 <= 0 && 0 < (0 + 1) * (0 + 1)) by (nonlinear_arith);
        lemma_isqrt_unique(0, 0);
    } else {
        lemma_isqrt_exists(n - 1);
        let p = isqrt_spec(n - 1);
        if (p + 1) * (p + 1) <= n {
            assert((p + 1) * (p + 1) <= n < ((p + 1) + 1) * ((p + 1) + 1)) by (nonlinear_arith)
                requires
                    p >= 0,
                    p * p <= n - 1,
                    n - 1 < (p + 1) * (p + 1),
                    (p + 1) * (p + 1) <= n,
            ;
            lemma_isqrt_unique(n, p + 1);
        } else {
            lemma_isqrt_unique(n, p);
        }
    }
}

/// Each squared component is at most the sum of squares.
proof fn lemma_component_sq_le_norm_sq(s: Seq<i64>, k: int)
    requires
        0 <= k < s.len(),
    ensures
        s[k] * s[k] <= norm_sq_spec(s),
    decreases s.len(),
{
    lemma_norm_sq_zero(s.drop_last());
    assert(s.last() * s.last() >= 0) by (nonlinear_arith);
    if k < s.len() - 1 {
        lemma_component_sq_le_norm_sq(s.drop_last(), k);
        assert(s.drop_last()[k] == s[k]);
    }
}

} // verus!
