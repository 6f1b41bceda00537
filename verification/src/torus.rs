//! The torus-invariant swap solver.
//!
//! Given the consolidated invariant data, the reserve vector, the traded
//! pair and the post-fee input amount, it computes the output amount that
//! keeps the combined sphere-plus-plane invariant constant, by bounded
//! Newton-Raphson iteration with a numerical derivative, a trust-region step
//! bound, a gradient probe when the derivative degenerates, and a
//! constant-product fallback with a safety haircut when the iteration budget
//! runs out.  Structural defects of the input are rejected with typed
//! errors; numeric degeneracy never aborts a quote.

use vstd::prelude::*;

use crate::config::{
    INVARIANT_BOUND, MAX_NEWTON_ITERATIONS, MAX_SAFE_VALUE, RESERVE_CAP, TOKEN_COUNT,
};
use crate::errors::OrbitalError;
use crate::evaluator::{
    compute_invariant, consolidated_bounded, invariant_spec, invariant_with, reserves_bounded,
    ConsolidatedInvariantData,
};
use crate::fixed::{
    div_fixed, div_fixed_in_range, lemma_div_by_at_least_one, min_fixed, mul_fixed_in_range,
    signed_diff, signed_sub_fixed, signed_val, SignedFixed, SCALE,
};

verus! {

/// The reserve vector and the traded pair are structurally sound.
pub open spec fn torus_valid_shape(rs: Seq<u128>, iin: usize, iout: usize) -> bool {
    &&& rs.len() == TOKEN_COUNT
    &&& iin < TOKEN_COUNT
    &&& iout < TOKEN_COUNT
    &&& iin != iout
}

/// Every reserve, every consolidated scalar and the input amount are inside
/// the magnitude bound that keeps the evaluation overflow-free.
pub open spec fn torus_magnitudes_ok(
    c: ConsolidatedInvariantData,
    rs: Seq<u128>,
    amt: u128,
) -> bool {
    &&& consolidated_bounded(c)
    &&& reserves_bounded(rs, MAX_SAFE_VALUE)
    &&& amt <= MAX_SAFE_VALUE
}

/// The traded pair has liquidity to quote against: a nonzero input reserve
/// and an output reserve with room for a strictly interior quote.
pub open spec fn torus_liquidity_ok(rs: Seq<u128>, iin: usize, iout: usize) -> bool {
    rs[iin as int] >= 1 && rs[iout as int] >= 2
}

/// All gates passed and there is an invariant to solve against.
pub open spec fn torus_solving(
    c: ConsolidatedInvariantData,
    rs: Seq<u128>,
    iin: usize,
    iout: usize,
    amt: u128,
) -> bool {
    &&& torus_valid_shape(rs, iin, iout)
    &&& amt >= 1
    &&& torus_magnitudes_ok(c, rs, amt)
    &&& torus_liquidity_ok(rs, iin, iout)
    &&& invariant_spec(c, rs) > 0
}

/// The residual of a candidate output amount `y`: the invariant of the
/// post-trade state (input slot increased by the amount, output slot
/// decreased by `y`) minus the pre-trade invariant.
pub open spec fn swap_residual_spec(
    c: ConsolidatedInvariantData,
    rs: Seq<u128>,
    iin: usize,
    iout: usize,
    amt: u128,
    y: u128,
) -> int {
    let up = rs.update(iin as int, (rs[iin as int] + amt) as u128);
    invariant_spec(c, up.update(iout as int, (rs[iout as int] - y) as u128)) - invariant_spec(
        c,
        rs,
    )
}

/// The loosest tolerance the iteration ever accepts, proportional to the
/// initial invariant.
pub open spec fn loose_tolerance_spec(initial: int) -> int {
    initial / 65536 + 1
}

/// The constant-product approximation `amt * r_out / (r_in + amt)`.
pub open spec fn cp_quote_spec(amt: u128, r_in: u128, r_out: u128) -> int {
    let m = (amt * r_out) / (SCALE as int);
    (m * SCALE) / ((r_in + amt) as int)
}

/// The iteration's starting point: the constant-product approximation
/// clamped into the open interval `(0, r_out)`.
pub open spec fn seed_spec(amt: u128, r_in: u128, r_out: u128) -> u128 {
    let cp = cp_quote_spec(amt, r_in, r_out);
    if cp < 1 {
        1u128
    } else if cp > r_out - 1 {
        (r_out - 1) as u128
    } else {
        cp as u128
    }
}

/// The exhaustion fallback: the constant-product approximation discounted by
/// a 1/32 (about three percent) safety haircut, erring toward under-paying.
pub open spec fn fallback_spec(amt: u128, r_in: u128, r_out: u128) -> u128 {
    let cp = cp_quote_spec(amt, r_in, r_out);
    (cp - cp / 32) as u128
}

/// The constant-product approximation stays strictly below the output
/// reserve.
proof fn lemma_cp_bound(amt: u128, r_in: u128, r_out: u128)
    requires
        r_in >= 1,
        r_out >= 1,
        amt >= 1,
        r_in + amt <= u128::MAX,
    ensures
        0 <= cp_quote_spec(amt, r_in, r_out) <= r_out - 1,
{
    let s = SCALE as int;
    let den = r_in as int + amt;
    let m = (amt * r_out) / s;
    vstd::arithmetic::div_mod::lemma_div_pos_is_pos(amt as int * r_out as int, s);
    vstd::arithmetic::div_mod::lemma_div_pos_is_pos(m * s, den);
    // m * s <= amt * r_out
    vstd::arithmetic::div_mod::lemma_fundamental_div_mod(amt as int * r_out as int, s);
    vstd::arithmetic::mul::lemma_mul_is_commutative(s, m);
    // amt * r_out <= (den - 1) * r_out
    vstd::arithmetic::mul::lemma_mul_inequality(amt as int, den - 1, r_out as int);
    // (den - 1) * r_out == den * r_out - r_out
    vstd::arithmetic::mul::lemma_mul_is_distributive_sub_other_way(r_out as int, den, 1);
    // (den * r_out - r_out) / den == r_out + (-r_out) / den
    assert((den * r_out - r_out) / den == (-(r_out as int)) / den + r_out) by {
        vstd::arithmetic::div_mod::lemma_hoist_over_denominator(
            -(r_out as int),
            r_out as int,
            (r_in + amt) as nat,
        );
        vstd::arithmetic::mul::lemma_mul_is_commutative(r_out as int, den);
    }
    let q = (-(r_out as int)) / den;
    let rr = (-(r_out as int)) % den;
    vstd::arithmetic::div_mod::lemma_fundamental_div_mod(-(r_out as int), den);
    assert(q <= -1) by (nonlinear_arith)
        requires
            den >= 1,
            r_out >= 1,
            -(r_out as int) == den * q + rr,
            0 <= rr < den,
    ;
    vstd::arithmetic::div_mod::lemma_div_is_ordered(m * s, den * r_out - r_out, den);
}

/// Evaluates the residual of the candidate whose post-trade output reserve
/// is `new_out`: the invariant error against the pre-trade value, signed.
fn calculate_invariant_error(
    cons: &ConsolidatedInvariantData,
    updated: &Vec<u128>,
    iout: usize,
    new_out: u128,
    initial: u128,
) -> (f: SignedFixed)
    requires
        updated@.len() == TOKEN_COUNT,
        iout < TOKEN_COUNT,
        new_out <= RESERVE_CAP,
        reserves_bounded(updated@, RESERVE_CAP),
        consolidated_bounded(*cons),
        initial <= INVARIANT_BOUND,
    ensures
        signed_val(f) == invariant_spec(*cons, updated@.update(iout as int, new_out)) - initial,
        f.magnitude <= INVARIANT_BOUND,
        f.is_negative ==> f.magnitude > 0,
{
    let v = invariant_with(cons, updated, iout, new_out);
    signed_sub_fixed(v, initial)
}

/// Computes the output amount of a swap that preserves the combined
/// sphere-plus-plane invariant.
///
/// Structural validation comes first: the reserve vector must hold exactly
/// one entry per token, the indices must be distinct and in range, every
/// magnitude must be inside the safe bound, and the traded pair must have
/// reserves to quote against.  A zero input amount is a complete trade with
/// zero output.  A zero initial invariant means there is nothing to solve
/// against: the output is zero.  Otherwise the solver seeds the candidate
/// with the clamped constant-product approximation and iterates a bounded
/// Newton-Raphson refinement; if the candidate converges the returned amount
/// leaves the invariant within the stated tolerance of its pre-trade value,
/// and if the budget runs out the discounted constant-product quote is
/// returned instead — or `ConvergenceError` if even that quote is
/// degenerate.  Every successful quote is strictly inside `(0, r_out)`.
#[allow(non_snake_case)]
pub fn solveTorusInvariant(
    consolidated: &ConsolidatedInvariantData,
    reserves: Vec<u128>,
    token_in_index: usize,
    token_out_index: usize,
    amount_in_after_fee: u128,
) -> (res: Result<u128, OrbitalError>)
    ensures
        (res == Err::<u128, OrbitalError>(OrbitalError::InvalidArrayLength) <==> reserves@.len()
            != TOKEN_COUNT),
        (res == Err::<u128, OrbitalError>(OrbitalError::InvalidTokenIndex) <==> (reserves@.len()
            == TOKEN_COUNT && (token_in_index >= TOKEN_COUNT || token_out_index >= TOKEN_COUNT
            || token_in_index == token_out_index))),
        torus_valid_shape(reserves@, token_in_index, token_out_index) && amount_in_after_fee == 0
            ==> res == Ok::<u128, OrbitalError>(0u128),
        (res == Err::<u128, OrbitalError>(OrbitalError::Overflow) <==> (torus_valid_shape(
            reserves@,
            token_in_index,
            token_out_index,
        ) && amount_in_after_fee >= 1 && !torus_magnitudes_ok(
            *consolidated,
            reserves@,
            amount_in_after_fee,
        ))),
        (res == Err::<u128, OrbitalError>(OrbitalError::InsufficientLiquidity) <==> (
        torus_valid_shape(reserves@, token_in_index, token_out_index) && amount_in_after_fee >= 1
            && torus_magnitudes_ok(*consolidated, reserves@, amount_in_after_fee)
            && !torus_liquidity_ok(reserves@, token_in_index, token_out_index))),
        torus_valid_shape(reserves@, token_in_index, token_out_index) && amount_in_after_fee >= 1
            && torus_magnitudes_ok(*consolidated, reserves@, amount_in_after_fee)
            && torus_liquidity_ok(reserves@, token_in_index, token_out_index) && invariant_spec(
            *consolidated,
            reserves@,
        ) == 0 ==> res == Ok::<u128, OrbitalError>(0u128),
        torus_solving(
            *consolidated,
            reserves@,
            token_in_index,
            token_out_index,
            amount_in_after_fee,
        ) ==> (res matches Ok(out) ==> 1 <= out < reserves@[token_out_index as int] && (
        vstd::math::abs(
            swap_residual_spec(
                *consolidated,
                reserves@,
                token_in_index,
                token_out_index,
                amount_in_after_fee,
                out,
            ),
        ) <= loose_tolerance_spec(invariant_spec(*consolidated, reserves@)) || out
            == fallback_spec(
            amount_in_after_fee,
            reserves@[token_in_index as int],
            reserves@[token_out_index as int],
        ))),
        torus_solving(
            *consolidated,
            reserves@,
            token_in_index,
            token_out_index,
            amount_in_after_fee,
        ) ==> (res matches Err(e) ==> e == OrbitalError::ConvergenceError && fallback_spec(
            amount_in_after_fee,
            reserves@[token_in_index as int],
            reserves@[token_out_index as int],
        ) == 0),
        torus_solving(
            *consolidated,
            reserves@,
            token_in_index,
            token_out_index,
            amount_in_after_fee,
        ) && vstd::math::abs(
            swap_residual_spec(
                *consolidated,
                reserves@,
                token_in_index,
                token_out_index,
                amount_in_after_fee,
                seed_spec(
                    amount_in_after_fee,
                    reserves@[token_in_index as int],
                    reserves@[token_out_index as int],
                ),
            ),
        ) <= loose_tolerance_spec(invariant_spec(*consolidated, reserves@)) ==> res == Ok::<
            u128,
            OrbitalError,
        >(
            seed_spec(
                amount_in_after_fee,
                reserves@[token_in_index as int],
                reserves@[token_out_index as int],
            ),
        ),
{
    // structural validation
    if reserves.len() != TOKEN_COUNT {
        return Err(OrbitalError::InvalidArrayLength);
    }
    if token_in_index >= TOKEN_COUNT || token_out_index >= TOKEN_COUNT || token_in_index
        == token_out_index {
        return Err(OrbitalError::InvalidTokenIndex);
    }
    // a zero input is a complete trade with zero output
    if amount_in_after_fee == 0 {
        return Ok(0);
    }
    // magnitude gate: beyond it the evaluation could overflow
    let mut gi: usize = 0;
    let mut within: bool = true;
    while gi < TOKEN_COUNT
        invariant
            reserves@.len() == TOKEN_COUNT,
            gi <= TOKEN_COUNT,
            within <==> (forall|j: int| 0 <= j < gi ==> reserves@[j] <= MAX_SAFE_VALUE),
        decreases TOKEN_COUNT - gi,
    {
        if reserves[gi] > MAX_SAFE_VALUE {
            within = false;
        }
        gi = gi + 1;
    }
    if !within || amount_in_after_fee > MAX_SAFE_VALUE || consolidated.sum_interior_reserves
        > MAX_SAFE_VALUE || consolidated.interior_consolidated_radius > MAX_SAFE_VALUE
        || consolidated.boundary_consolidated_radius > MAX_SAFE_VALUE
        || consolidated.boundary_total_k_bound > MAX_SAFE_VALUE {
        return Err(OrbitalError::Overflow);
    }
    // liquidity gate
    let r_in = reserves[token_in_index];
    let r_out = reserves[token_out_index];
    if r_in == 0 || r_out <= 1 {
        return Err(OrbitalError::InsufficientLiquidity);
    }
    // nothing to solve against
    let initial = compute_invariant(consolidated, &reserves);
    if initial == 0 {
        return Ok(0);
    }

    // the post-trade input slot, applied once
    let new_in = r_in + amount_in_after_fee;
    let mut updated: Vec<u128> = Vec::new();
    let mut bi: usize = 0;
    while bi < TOKEN_COUNT
        invariant
            reserves@.len() == TOKEN_COUNT,
            token_in_index < TOKEN_COUNT,
            bi <= TOKEN_COUNT,
            updated@.len() == bi,
            new_in == reserves@[token_in_index as int] + amount_in_after_fee,
            forall|j: int|
                0 <= j < bi ==> updated@[j] == (if j == token_in_index as int {
                    new_in
                } else {
                    reserves@[j]
                }),
        decreases TOKEN_COUNT - bi,
    {
        if bi == token_in_index {
            updated.push(new_in);
        } else {
            updated.push(reserves[bi]);
        }
        bi = bi + 1;
    }
    proof {
        assert(updated@ =~= reserves@.update(token_in_index as int, new_in));
    }

    // seed: the constant-product approximation clamped into (0, r_out)
    proof {
        lemma_cp_bound(amount_in_after_fee, r_in, r_out);
        crate::fixed::lemma_mul_fixed_bound(
            amount_in_after_fee,
            r_out,
            MAX_SAFE_VALUE,
            MAX_SAFE_VALUE,
        );
    }
    let m0 = mul_fixed_in_range(amount_in_after_fee, r_out);
    let cp = div_fixed_in_range(m0, r_in + amount_in_after_fee);
    let seed = if cp < 1 {
        1u128
    } else if cp > r_out - 1 {
        r_out - 1
    } else {
        cp
    };

    let f0 = calculate_invariant_error(consolidated, &updated, token_out_index, r_out - seed, initial);
    let loose = initial / 65536 + 1;
    if f0.magnitude <= loose {
        return Ok(seed);
    }

    let mut y = seed;
    let mut f = f0;
    let mut bound = r_out / 4 + 1;
    let mut it: u64 = 1;
    while it < MAX_NEWTON_ITERATIONS
        invariant
            reserves@.len() == TOKEN_COUNT,
            token_in_index < TOKEN_COUNT,
            token_out_index < TOKEN_COUNT,
            token_in_index != token_out_index,
            consolidated_bounded(*consolidated),
            reserves_bounded(reserves@, MAX_SAFE_VALUE),
            1 <= amount_in_after_fee <= MAX_SAFE_VALUE,
            r_in == reserves@[token_in_index as int],
            r_out == reserves@[token_out_index as int],
            1 <= r_in,
            2 <= r_out,
            new_in == r_in + amount_in_after_fee,
            updated@ == reserves@.update(token_in_index as int, new_in),
            reserves_bounded(updated@, RESERVE_CAP),
            updated@[token_out_index as int] == r_out,
            initial == invariant_spec(*consolidated, reserves@),
            0 < initial <= INVARIANT_BOUND,
            loose == loose_tolerance_spec(initial as int),
            seed == seed_spec(amount_in_after_fee, r_in, r_out),
            vstd::math::abs(
                swap_residual_spec(
                    *consolidated,
                    reserves@,
                    token_in_index,
                    token_out_index,
                    amount_in_after_fee,
                    seed,
                ),
            ) > loose,
            1 <= y <= r_out - 1,
            1 <= bound <= r_out,
            1 <= it <= MAX_NEWTON_ITERATIONS,
            signed_val(f) == swap_residual_spec(
                *consolidated,
                reserves@,
                token_in_index,
                token_out_index,
                amount_in_after_fee,
                y,
            ),
            f.magnitude <= INVARIANT_BOUND,
            f.is_negative ==> f.magnitude > 0,
        decreases MAX_NEWTON_ITERATIONS - it,
    {
        // numerical derivative: central difference when both probes are
        // feasible, else one-sided, with an adaptively scaled step
        let eps = y / 65536 + SCALE;
        let can_hi = eps <= r_out - 1 - y;
        let can_lo = eps + 1 <= y;
        let (num, den): (SignedFixed, u128) = if can_hi && can_lo {
            let f_hi = calculate_invariant_error(
                consolidated,
                &updated,
                token_out_index,
                r_out - (y + eps),
                initial,
            );
            let f_lo = calculate_invariant_error(
                consolidated,
                &updated,
                token_out_index,
                r_out - (y - eps),
                initial,
            );
            (signed_diff(f_hi, f_lo), eps + eps)
        } else if can_hi {
            let f_hi = calculate_invariant_error(
                consolidated,
                &updated,
                token_out_index,
                r_out - (y + eps),
                initial,
            );
            (signed_diff(f_hi, f), eps)
        } else if can_lo {
            let f_lo = calculate_invariant_error(
                consolidated,
                &updated,
                token_out_index,
                r_out - (y - eps),
                initial,
            );
            (signed_diff(f, f_lo), eps)
        } else {
            (SignedFixed { is_negative: false, magnitude: 0 }, SCALE)
        };
        proof {
            lemma_div_by_at_least_one(num.magnitude, den);
        }
        let dmag = div_fixed_in_range(num.magnitude, den);

        if dmag == 0 {
            // derivative below the floor: bounded descent probe both ways
            let y_lo = if bound + 1 <= y {
                y - bound
            } else {
                1
            };
            let y_hi = if bound <= r_out - 1 - y {
                y + bound
            } else {
                r_out - 1
            };
            let f_lo = calculate_invariant_error(consolidated, &updated, token_out_index, r_out - y_lo, initial);
            let f_hi = calculate_invariant_error(consolidated, &updated, token_out_index, r_out - y_hi, initial);
            if f_lo.magnitude < f.magnitude && f_lo.magnitude <= f_hi.magnitude {
                y = y_lo;
                f = f_lo;
            } else if f_hi.magnitude < f.magnitude {
                y = y_hi;
                f = f_hi;
            }
            // a failed probe leaves the candidate; the bound shrinks below
            bound = bound / 2 + 1;
        } else {
            // Newton step f / f', clamped by the trust region
            let step_raw = match div_fixed(f.magnitude, dmag) {
                Ok(v) => v,
                Err(_) => bound,
            };
            let step = min_fixed(step_raw, bound);
            let decrease = f.is_negative == num.is_negative;
            y = if decrease {
                if step + 1 <= y {
                    y - step
                } else {
                    1
                }
            } else {
                if step <= r_out - 1 - y {
                    y + step
                } else {
                    r_out - 1
                }
            };
            let f_new = calculate_invariant_error(consolidated, &updated, token_out_index, r_out - y, initial);
            // trust region: grow on improvement, shrink otherwise
            if f_new.magnitude < f.magnitude {
                bound = if bound <= r_out / 2 {
                    bound + bound
                } else {
                    r_out
                };
            } else {
                bound = bound / 2 + 1;
            }
            f = f_new;
        }

        let tol = if it < 8 {
            loose
        } else {
            initial / 1048576 + 1
        };
        if f.magnitude <= tol {
            proof {
                vstd::arithmetic::div_mod::lemma_div_is_ordered_by_denominator(
                    initial as int,
                    65536,
                    1048576,
                );
            }
            return Ok(y);
        }
        it = it + 1;
    }

    // budget exhausted: the discounted constant-product quote
    proof {
        lemma_cp_bound(amount_in_after_fee, r_in, r_out);
    }
    let fb = cp - cp / 32;
    if fb == 0 {
        Err(OrbitalError::ConvergenceError)
    } else {
        Ok(fb)
    }
}

} // verus!
