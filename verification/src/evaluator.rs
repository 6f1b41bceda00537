//! The invariant evaluator: the scalar value of the combined
//! sphere-plus-plane ("torus") constraint for a candidate reserve state.
//!
//! `value = term1 + term2` with
//! `term1 = max(0, sum_interior/sqrt(5) - k_bound - r_interior*sqrt(5))^2` and
//! `term2 = max(0, sqrt(sum(x_i^2) - sum(x_i)^2/5) - r_boundary)^2`.
//! The clamps encode a one-sided distance: a state inside a boundary
//! contributes no penalty.  Under the magnitude bounds of `config` the
//! evaluation is total: no intermediate can overflow.

use vstd::prelude::*;

use crate::config::{
    FIVE_FIXED, INVARIANT_BOUND, MAX_SAFE_VALUE, RESERVE_CAP, SQRT5_FIXED, SQ_TERM_BOUND,
    TOKEN_COUNT,
};
use crate::fixed::{
    clamp0, clamped_sub_fixed, div_fixed_in_range, isqrt, lemma_div_by_at_least_one,
    lemma_mul_fixed_bound, mul_fixed_in_range, sqrt_fixed, SCALE,
};

verus! {

/// Aggregate scalars summarizing many ticks' contribution to the global
/// invariant, produced by the (external) pool aggregation layer and consumed
/// read-only here.
#[derive(Clone, Copy, Debug, PartialEq, Eq, Structural)]
pub struct ConsolidatedInvariantData {
    /// Sum of the interior ticks' reserves.
    pub sum_interior_reserves: u128,
    /// Consolidated radius of the interior ticks.
    pub interior_consolidated_radius: u128,
    /// Consolidated radius of the boundary ticks.
    pub boundary_consolidated_radius: u128,
    /// Total plane-constant bound of the boundary ticks.
    pub boundary_total_k_bound: u128,
}

/// Every consolidated scalar is inside the solver's magnitude bound.
pub open spec fn consolidated_bounded(c: ConsolidatedInvariantData) -> bool {
    &&& c.sum_interior_reserves <= MAX_SAFE_VALUE
    &&& c.interior_consolidated_radius <= MAX_SAFE_VALUE
    &&& c.boundary_consolidated_radius <= MAX_SAFE_VALUE
    &&& c.boundary_total_k_bound <= MAX_SAFE_VALUE
}

/// Every reserve is inside the given cap.
pub open spec fn reserves_bounded(rs: Seq<u128>, cap: u128) -> bool {
    forall|i: int| 0 <= i < rs.len() ==> rs[i] <= cap
}

/// Sum of the first `n` reserves.
pub open spec fn sum_seq(rs: Seq<u128>, n: int) -> int
    decreases n,
{
    if n <= 0 {
        0
    } else {
        sum_seq(rs, n - 1) + rs[n - 1]
    }
}

/// Sum of the first `n` squared reserves, each square truncated at the scale.
pub open spec fn sum_sq_seq(rs: Seq<u128>, n: int) -> int
    decreases n,
{
    if n <= 0 {
        0
    } else {
        sum_sq_seq(rs, n - 1) + (rs[n - 1] * rs[n - 1]) / (SCALE as int)
    }
}

/// The interior ("plane") penalty term; it does not depend on the reserves.
pub open spec fn term1_spec(c: ConsolidatedInvariantData) -> int {
    let scaled = (c.sum_interior_reserves * SCALE) / (SQRT5_FIXED as int);
    let r5 = (c.interior_consolidated_radius * SQRT5_FIXED) / (SCALE as int);
    let inner = clamp0(scaled - c.boundary_total_k_bound - r5);
    (inner * inner) / (SCALE as int)
}

/// The radicand of the variance term: `max(0, sum(x^2) - sum(x)^2 / 5)`,
/// evaluated with the same truncating steps the code takes.
pub open spec fn variance_radicand_spec(rs: Seq<u128>) -> int {
    let total = sum_seq(rs, TOKEN_COUNT as int);
    let squares = sum_sq_seq(rs, TOKEN_COUNT as int);
    let total_sq = (total * total) / (SCALE as int);
    let mean_sq = (total_sq * SCALE) / (FIVE_FIXED as int);
    clamp0(squares - mean_sq)
}

/// The boundary ("sphere") penalty term.
pub open spec fn term2_spec(c: ConsolidatedInvariantData, rs: Seq<u128>) -> int {
    let sv = isqrt((variance_radicand_spec(rs) * SCALE) as nat) as int;
    let inner = clamp0(sv - c.boundary_consolidated_radius);
    (inner * inner) / (SCALE as int)
}

/// The invariant value of a reserve state.
pub open spec fn invariant_spec(c: ConsolidatedInvariantData, rs: Seq<u128>) -> int {
    term1_spec(c) + term2_spec(c, rs)
}

/// Bound on a prefix sum of bounded reserves.
proof fn lemma_sum_seq_bound(rs: Seq<u128>, n: int, cap: u128)
    requires
        0 <= n <= rs.len(),
        reserves_bounded(rs, cap),
    ensures
        0 <= sum_seq(rs, n) <= n * cap,
    decreases n,
{
    if n > 0 {
        lemma_sum_seq_bound(rs, n - 1, cap);
        assert((n - 1) * cap + cap == n * cap) by (nonlinear_arith);
    }
}

/// Bound on a prefix sum of squared bounded reserves.
proof fn lemma_sum_sq_seq_bound(rs: Seq<u128>, n: int, cap: u128, sq_cap: int)
    requires
        0 <= n <= rs.len(),
        reserves_bounded(rs, cap),
        sq_cap == (cap * cap) / (SCALE as int),
    ensures
        0 <= sum_sq_seq(rs, n) <= n * sq_cap,
    decreases n,
{
    if n > 0 {
        lemma_sum_sq_seq_bound(rs, n - 1, cap, sq_cap);
        lemma_mul_fixed_bound(rs[n - 1], rs[n - 1], cap, cap);
        vstd::arithmetic::div_mod::lemma_div_pos_is_pos(rs[n - 1] as int * rs[n - 1] as int, SCALE as int);
        assert((n - 1) * sq_cap + sq_cap == n * sq_cap) by (nonlinear_arith);
    }
}

/// Evaluates the invariant of `reserves` with slot `idx` replaced by
/// `value`, without materializing the substituted vector.
pub fn invariant_with(
    cons: &ConsolidatedInvariantData,
    reserves: &Vec<u128>,
    idx: usize,
    value: u128,
) -> (res: u128)
    requires
        reserves@.len() == TOKEN_COUNT,
        idx < TOKEN_COUNT,
        value <= RESERVE_CAP,
        reserves_bounded(reserves@, RESERVE_CAP),
        consolidated_bounded(*cons),
    ensures
        res == invariant_spec(*cons, reserves@.update(idx as int, value)),
        res <= INVARIANT_BOUND,
{
    let ghost rs = reserves@.update(idx as int, value);
    proof {
        assert(reserves_bounded(rs, RESERVE_CAP));
    }

    // term 1: the plane distance of the interior ticks
    proof {
        lemma_div_by_at_least_one(cons.sum_interior_reserves, SQRT5_FIXED);
    }
    let scaled = div_fixed_in_range(cons.sum_interior_reserves, SQRT5_FIXED);
    proof {
        lemma_mul_fixed_bound(
            cons.interior_consolidated_radius,
            SQRT5_FIXED,
            MAX_SAFE_VALUE,
            SQRT5_FIXED,
        );
    }
    let r5 = mul_fixed_in_range(cons.interior_consolidated_radius, SQRT5_FIXED);
    let inner1 = clamped_sub_fixed(
        clamped_sub_fixed(scaled, cons.boundary_total_k_bound),
        r5,
    );
    proof {
        assert(inner1 == clamp0(
            scaled - cons.boundary_total_k_bound - r5,
        ));
        lemma_mul_fixed_bound(inner1, inner1, MAX_SAFE_VALUE, MAX_SAFE_VALUE);
    }
    let term1 = mul_fixed_in_range(inner1, inner1);

    // term 2: the sphere distance of the full reserve state
    let sv = variance_term_with(reserves, idx, value);
    let inner2 = clamped_sub_fixed(sv, cons.boundary_consolidated_radius);
    proof {
        lemma_mul_fixed_bound(
            inner2,
            inner2,
            0x40_0000_0000_0000_0000_0000u128,
            0x40_0000_0000_0000_0000_0000u128,
        );
    }
    let term2 = mul_fixed_in_range(inner2, inner2);

    term1 + term2
}

/// The variance term of `reserves` with slot `idx` replaced by `value`:
/// `sqrt(sum(x_i^2) - sum(x_i)^2 / 5)`, the clamped radicand evaluated with
/// the same truncating steps the specification takes.
fn variance_term_with(reserves: &Vec<u128>, idx: usize, value: u128) -> (res: u128)
    requires
        reserves@.len() == TOKEN_COUNT,
        idx < TOKEN_COUNT,
        value <= RESERVE_CAP,
        reserves_bounded(reserves@, RESERVE_CAP),
    ensures
        res == isqrt(
            (variance_radicand_spec(reserves@.update(idx as int, value)) * SCALE) as nat,
        ),
        res < 0x40_0000_0000_0000_0000_0000u128,
{
    let ghost rs = reserves@.update(idx as int, value);
    proof {
        assert(reserves_bounded(rs, RESERVE_CAP));
    }
    let mut total: u128 = 0;
    let mut squares: u128 = 0;
    let mut i: usize = 0;
    while i < TOKEN_COUNT
        invariant
            reserves@.len() == TOKEN_COUNT,
            idx < TOKEN_COUNT,
            value <= RESERVE_CAP,
            reserves_bounded(reserves@, RESERVE_CAP),
            rs == reserves@.update(idx as int, value),
            i <= TOKEN_COUNT,
            total == sum_seq(rs, i as int),
            squares == sum_sq_seq(rs, i as int),
            total <= i * RESERVE_CAP,
            squares <= i * SQ_TERM_BOUND,
        decreases TOKEN_COUNT - i,
    {
        let x = if i == idx {
            value
        } else {
            reserves[i]
        };
        proof {
            assert(x == rs[i as int]);
            lemma_mul_fixed_bound(x, x, RESERVE_CAP, RESERVE_CAP);
        }
        let sq = mul_fixed_in_range(x, x);
        total = total + x;
        squares = squares + sq;
        i = i + 1;
    }
    proof {
        lemma_mul_fixed_bound(
            total,
            total,
            0x50_0000_0000_0000_0000_0000u128,
            0x50_0000_0000_0000_0000_0000u128,
        );
    }
    let total_sq = mul_fixed_in_range(total, total);
    proof {
        lemma_div_by_at_least_one(total_sq, FIVE_FIXED);
    }
    let mean_sq = div_fixed_in_range(total_sq, FIVE_FIXED);
    let radicand = clamped_sub_fixed(squares, mean_sq);
    let sv = sqrt_fixed(radicand);
    proof {
        crate::fixed::lemma_sqrt_spec_fits(radicand);
        assert(sv < 0x40_0000_0000_0000_0000_0000u128) by {
            if sv >= 0x40_0000_0000_0000_0000_0000u128 {
                assert(sv * sv >= 0x40_0000_0000_0000_0000_0000u128
                    * 0x40_0000_0000_0000_0000_0000u128) by (nonlinear_arith)
                    requires
                        sv >= 0x40_0000_0000_0000_0000_0000u128,
                ;
            }
        }
    }
    sv
}

/// The variance term of a reserve state as it stands.
pub fn calculate_variance_term(reserves: &Vec<u128>) -> (res: u128)
    requires
        reserves@.len() == TOKEN_COUNT,
        reserves_bounded(reserves@, RESERVE_CAP),
    ensures
        res == isqrt((variance_radicand_spec(reserves@) * SCALE) as nat),
{
    let x0 = reserves[0];
    proof {
        assert(reserves@.update(0, reserves@[0]) =~= reserves@);
    }
    variance_term_with(reserves, 0, x0)
}

/// Evaluates the invariant of a reserve state as it stands.
pub fn compute_invariant(cons: &ConsolidatedInvariantData, reserves: &Vec<u128>) -> (res: u128)
    requires
        reserves@.len() == TOKEN_COUNT,
        reserves_bounded(reserves@, RESERVE_CAP),
        consolidated_bounded(*cons),
    ensures
        res == invariant_spec(*cons, reserves@),
        res <= INVARIANT_BOUND,
{
    let x0 = reserves[0];
    proof {
        assert(reserves@.update(0, reserves@[0]) =~= reserves@);
    }
    invariant_with(cons, reserves, 0, x0)
}

} // verus!
