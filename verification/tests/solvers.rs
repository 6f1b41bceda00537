//! Tests of the tick derivations, the boundary-crossing solver and the
//! torus-invariant solver.

use orbital_core::config::{MAX_SAFE_VALUE, SQRT5_FIXED};
use orbital_core::errors::OrbitalError;
use orbital_core::evaluator::{calculate_variance_term, compute_invariant, ConsolidatedInvariantData};
use orbital_core::fixed::SCALE;
use orbital_core::quadratic::solveQuadraticInvariant;
use orbital_core::tick::{calculateBoundaryTickS, calculateK, calculate_radius, getTickParameters};
use orbital_core::torus::solveTorusInvariant;

fn cons(si: u128, ri: u128, rb: u128, kb: u128) -> ConsolidatedInvariantData {
    ConsolidatedInvariantData {
        sum_interior_reserves: si,
        interior_consolidated_radius: ri,
        boundary_consolidated_radius: rb,
        boundary_total_k_bound: kb,
    }
}

#[test]
fn radius_closed_form() {
    // radius = reserve / (1 - 1/sqrt(5)); for 1000.0 that is about 1809.017
    assert_eq!(calculate_radius(1000 * SCALE), Ok(509193016360867953));
    assert_eq!(calculate_radius(0), Ok(0));
}

#[test]
fn radius_overflow_is_reported() {
    assert_eq!(calculate_radius(u128::MAX), Err(OrbitalError::Overflow));
}

#[test]
fn plane_constant_closed_form() {
    // k(p = 1.0, r = 1000.0) = 1000*sqrt(5) - 1000*5/sqrt(5*5) ~ 1236.068
    assert_eq!(calculateK(SCALE, 1000 * SCALE), Ok(347922205179540000));
}

#[test]
fn tick_parameters_compose_radius_and_k() {
    let (k, r) = getTickParameters(SCALE, 1000 * SCALE).unwrap();
    assert_eq!(r, 509193016360867953);
    assert_eq!(k, 629397181890193621);
    assert_eq!(calculateK(SCALE, r), Ok(k));
}

#[test]
fn boundary_tick_s_value() {
    // with k = 0 the offset is r/sqrt(5), well inside the sphere
    // s = sqrt(r^2 - (r/sqrt(5))^2) for r = 1000.0
    assert_eq!(calculateBoundaryTickS(1000 * SCALE, 0), Ok(251758872756078691));
}

#[test]
fn boundary_tick_s_no_intersection_is_zero() {
    // the plane sits one radius or more away from the center: s == 0, not an error
    let r = 1000 * SCALE;
    let center = 125879436378039587u128;  // r / sqrt(5)
    assert_eq!(calculateBoundaryTickS(r, center + r), Ok(0));
    assert_eq!(calculateBoundaryTickS(r, center + r + 12345), Ok(0));
    // one unit inside the rim the intersection is tiny but real
    let just_inside = calculateBoundaryTickS(r, center + r - 1).unwrap();
    assert!(0 < just_inside && just_inside < SCALE);
}

#[test]
fn quadratic_positive_root() {
    // geometry with a real crossing: the smaller positive root - P, here 2.0
    let reserves = vec![0, 5 * SCALE, 3 * SCALE, 2 * SCALE, 5 * SCALE];
    let res = solveQuadraticInvariant(777, reserves, 0, 1, 3 * SCALE, 6 * SCALE);
    assert_eq!(res, Ok(2 * SCALE));
}

#[test]
fn quadratic_negative_discriminant_returns_fallback() {
    // balanced unit reserves with a distant crossing plane: no real root,
    // the caller's linear delta comes back exactly
    let reserves = vec![SCALE; 5];
    let res = solveQuadraticInvariant(123456, reserves, 0, 1, SCALE, 7 * SCALE);
    assert_eq!(res, Ok(123456));
}

#[test]
fn quadratic_wrong_length_is_rejected() {
    let four = vec![SCALE; 4];
    let six = vec![SCALE; 6];
    assert_eq!(
        solveQuadraticInvariant(1, four, 0, 1, SCALE, 7 * SCALE),
        Err(OrbitalError::InvalidArrayLength)
    );
    assert_eq!(
        solveQuadraticInvariant(1, six, 0, 1, SCALE, 7 * SCALE),
        Err(OrbitalError::InvalidArrayLength)
    );
}

#[test]
fn quadratic_bad_indices_are_rejected() {
    let reserves = vec![SCALE; 5];
    assert_eq!(
        solveQuadraticInvariant(1, reserves.clone(), 5, 1, SCALE, 7 * SCALE),
        Err(OrbitalError::InvalidTokenIndex)
    );
    assert_eq!(
        solveQuadraticInvariant(1, reserves.clone(), 0, 9, SCALE, 7 * SCALE),
        Err(OrbitalError::InvalidTokenIndex)
    );
    assert_eq!(
        solveQuadraticInvariant(1, reserves, 2, 2, SCALE, 7 * SCALE),
        Err(OrbitalError::InvalidTokenIndex)
    );
}

#[test]
fn quadratic_plane_offset_underflow_is_hard() {
    // k_cross * r below the reserve sum: P would be negative
    let reserves = vec![1000 * SCALE; 5];
    assert_eq!(
        solveQuadraticInvariant(1, reserves, 0, 1, SCALE, SCALE),
        Err(OrbitalError::Underflow)
    );
}

#[test]
fn evaluator_exact_value() {
    // interior sum 5000, everything else zero except a boundary radius that
    // swallows the (zero) variance of a balanced pool
    let c = cons(5000 * SCALE, 0, 15 * SCALE, 0);
    let reserves = vec![1000 * SCALE; 5];
    assert_eq!(compute_invariant(&c, &reserves), 1407374883553284331621);
}

#[test]
fn variance_term_values() {
    // a balanced pool has no variance
    assert_eq!(calculate_variance_term(&vec![1000 * SCALE; 5]), 0);
    // deviations of +10 and -10: sqrt(200) ~ 14.1421
    let reserves = vec![1010 * SCALE, 990 * SCALE, 1000 * SCALE, 1000 * SCALE, 1000 * SCALE];
    assert_eq!(calculate_variance_term(&reserves), 3980657295328607);
}

#[test]
fn evaluator_balanced_pool_without_interior_is_zero() {
    let c = cons(0, 0, 0, 0);
    let reserves = vec![1000 * SCALE; 5];
    assert_eq!(compute_invariant(&c, &reserves), 0);
}

#[test]
fn torus_balanced_pool_near_one_to_one() {
    // five balanced reserves of 1000.0, swap 10.0 in: the quote is the
    // constant-product seed, about 9.901, and the invariant is preserved
    let c = cons(5000 * SCALE, 0, 15 * SCALE, 0);
    let reserves = vec![1000 * SCALE; 5];
    let amount = 10 * SCALE;
    let out = solveTorusInvariant(&c, reserves.clone(), 0, 1, amount).unwrap();
    assert_eq!(out, 2786880957531247);
    // close to 10.0: within 0.2
    assert!(out > 9 * SCALE + 4 * SCALE / 5 && out < 10 * SCALE);
    // the invariant of the post-trade state equals the pre-trade invariant
    let before = compute_invariant(&c, &reserves);
    let mut post = reserves;
    post[0] += amount;
    post[1] -= out;
    let after = compute_invariant(&c, &post);
    assert_eq!(after, before);
}

#[test]
fn torus_newton_iteration_converges() {
    // a tighter boundary radius leaves the seed outside tolerance: the
    // quote comes from a Newton step, and still preserves the invariant
    // within the iteration's loosest tolerance
    let c = cons(5000 * SCALE, 0, 5 * SCALE, 0);
    let reserves = vec![1000 * SCALE; 5];
    let amount = 10 * SCALE;
    let out = solveTorusInvariant(&c, reserves.clone(), 0, 1, amount).unwrap();
    assert_eq!(out, 976554017596939);
    let before = compute_invariant(&c, &reserves);
    let mut post = reserves;
    post[0] += amount;
    post[1] -= out;
    let after = compute_invariant(&c, &post);
    let residual = if after >= before { after - before } else { before - after };
    assert!(residual <= before / 65536 + 1);
}

#[test]
fn torus_zero_amount_returns_zero() {
    let c = cons(5000 * SCALE, 0, 15 * SCALE, 0);
    let reserves = vec![1000 * SCALE; 5];
    for (i, o) in [(0usize, 1usize), (1, 0), (2, 4), (4, 3)] {
        assert_eq!(solveTorusInvariant(&c, reserves.clone(), i, o, 0), Ok(0));
    }
}

#[test]
fn torus_wrong_length_is_rejected() {
    let c = cons(0, 0, 0, 0);
    let four = vec![1000 * SCALE; 4];
    let six = vec![1000 * SCALE; 6];
    assert_eq!(
        solveTorusInvariant(&c, four, 0, 1, SCALE),
        Err(OrbitalError::InvalidArrayLength)
    );
    assert_eq!(
        solveTorusInvariant(&c, six, 0, 1, SCALE),
        Err(OrbitalError::InvalidArrayLength)
    );
}

#[test]
fn torus_bad_indices_are_rejected() {
    let c = cons(0, 0, 0, 0);
    let reserves = vec![1000 * SCALE; 5];
    assert_eq!(
        solveTorusInvariant(&c, reserves.clone(), 5, 1, SCALE),
        Err(OrbitalError::InvalidTokenIndex)
    );
    assert_eq!(
        solveTorusInvariant(&c, reserves.clone(), 1, 7, SCALE),
        Err(OrbitalError::InvalidTokenIndex)
    );
    assert_eq!(
        solveTorusInvariant(&c, reserves, 3, 3, SCALE),
        Err(OrbitalError::InvalidTokenIndex)
    );
}

#[test]
fn torus_magnitude_gate_rejects_oversized_values() {
    let c = cons(0, 0, 0, 0);
    let mut reserves = vec![1000 * SCALE; 5];
    reserves[2] = MAX_SAFE_VALUE + 1;
    assert_eq!(
        solveTorusInvariant(&c, reserves, 0, 1, SCALE),
        Err(OrbitalError::Overflow)
    );
    let reserves = vec![1000 * SCALE; 5];
    assert_eq!(
        solveTorusInvariant(&c, reserves.clone(), 0, 1, MAX_SAFE_VALUE + 1),
        Err(OrbitalError::Overflow)
    );
    let big = cons(0, MAX_SAFE_VALUE + 1, 0, 0);
    assert_eq!(
        solveTorusInvariant(&big, reserves, 0, 1, SCALE),
        Err(OrbitalError::Overflow)
    );
}

#[test]
fn torus_empty_pair_is_insufficient_liquidity() {
    let c = cons(0, 0, 0, 0);
    let mut reserves = vec![1000 * SCALE; 5];
    reserves[0] = 0;
    assert_eq!(
        solveTorusInvariant(&c, reserves, 0, 1, SCALE),
        Err(OrbitalError::InsufficientLiquidity)
    );
    let mut reserves = vec![1000 * SCALE; 5];
    reserves[1] = 1;
    assert_eq!(
        solveTorusInvariant(&c, reserves, 0, 1, SCALE),
        Err(OrbitalError::InsufficientLiquidity)
    );
}

#[test]
fn torus_zero_invariant_returns_zero() {
    // a balanced pool with no interior contribution has nothing to solve against
    let c = cons(0, 0, 0, 0);
    let reserves = vec![1000 * SCALE; 5];
    assert_eq!(solveTorusInvariant(&c, reserves, 0, 1, 10 * SCALE), Ok(0));
}

#[test]
fn torus_degenerate_derivative_falls_back_inside_range() {
    // the output reserve is three raw units, far below the derivative's
    // probing step: the numerical derivative is unavailable at every
    // iteration, and the discounted constant-product fallback still yields a
    // quote strictly inside (0, r_out)
    let c = cons(0, 0, 0, 0);
    let reserves = vec![1000 * SCALE, 3, 1000 * SCALE, 1000 * SCALE, 1000 * SCALE];
    let r_out = reserves[1];
    let res = solveTorusInvariant(&c, reserves, 0, 1, 1000 * SCALE);
    let out = res.unwrap();
    assert!(out > 0 && out < r_out, "quote {out} outside (0, {r_out})");
}

#[test]
fn torus_degenerate_fallback_quote_is_convergence_error() {
    // the same degenerate shape with a constant-product quote that truncates
    // to zero: no safe quote exists
    let c = cons(0, 0, 0, 0);
    let reserves = vec![2001 * SCALE, 2, 1000 * SCALE, 1000 * SCALE, 1000 * SCALE];
    assert_eq!(
        solveTorusInvariant(&c, reserves, 0, 1, 1000 * SCALE),
        Err(OrbitalError::ConvergenceError)
    );
}

#[test]
fn sqrt5_constant_matches_runtime_sqrt() {
    assert_eq!(orbital_core::fixed::sqrt_fixed(5 * SCALE), SQRT5_FIXED);
}
