//! Closed-form derivation of a tick's parameters: its radius from its
//! reserve, and its plane constant `k` from a depeg limit and the radius.

use vstd::prelude::*;

use crate::config::{FIVE_FIXED, ONE_FIXED, RADIUS_DENOM, SQRT5_FIXED};
use crate::errors::OrbitalError;
use crate::fixed::{
    add_fixed, add_fixed_spec, div_fixed, div_fixed_spec, mul_fixed, mul_fixed_spec, sqrt_fixed,
    sqrt_fixed_spec, sub_fixed, sub_fixed_spec, SCALE,
};

verus! {

/// What `calculate_radius` returns: `reserve / (1 - 1/sqrt(5))`, where the
/// denominator is the precomputed constant `RADIUS_DENOM`.
pub open spec fn radius_spec(reserve: u128) -> Result<u128, OrbitalError> {
    div_fixed_spec(reserve, RADIUS_DENOM)
}

/// Derives a tick's radius from its reserve: `radius = reserve / (1 - 1/sqrt(5))`.
/// `Overflow` exactly when the radius exceeds the representable width.
pub fn calculate_radius(reserve: u128) -> (res: Result<u128, OrbitalError>)
    ensures
        res == radius_spec(reserve),
{
    proof {
        crate::config::lemma_radius_denom_value();
    }
    div_fixed(reserve, RADIUS_DENOM)
}

/// What `calculateK` returns: the plane constant
/// `k = r*sqrt(5) - r*(p + 4) / sqrt(5 * (p^2 + 4))`, evaluated by the fixed
/// sequence of nine fixed-point primitives, each failure propagated.
pub open spec fn calc_k_spec(depeg_limit: u128, radius: u128) -> Result<u128, OrbitalError> {
    match mul_fixed_spec(radius, SQRT5_FIXED) {
        Err(e) => Err(e),
        Ok(first_term) => match mul_fixed_spec(depeg_limit, depeg_limit) {
            Err(e) => Err(e),
            Ok(p_squared) => match add_fixed_spec(depeg_limit, FIVE_FIXED) {
                Err(e) => Err(e),
                Ok(p_plus_n) => match sub_fixed_spec(p_plus_n, ONE_FIXED) {
                    Err(e) => Err(e),
                    Ok(p_plus_n_minus_1) => match add_fixed_spec(p_squared, FIVE_FIXED) {
                        Err(e) => Err(e),
                        Ok(p2_plus_n) => match sub_fixed_spec(p2_plus_n, ONE_FIXED) {
                            Err(e) => Err(e),
                            Ok(p2_plus_n_minus_1) => match mul_fixed_spec(
                                FIVE_FIXED,
                                p2_plus_n_minus_1,
                            ) {
                                Err(e) => Err(e),
                                Ok(n_times_expr) => match mul_fixed_spec(
                                    radius,
                                    p_plus_n_minus_1,
                                ) {
                                    Err(e) => Err(e),
                                    Ok(numerator) => match div_fixed_spec(
                                        numerator,
                                        sqrt_fixed_spec(n_times_expr),
                                    ) {
                                        Err(e) => Err(e),
                                        Ok(second_term) => sub_fixed_spec(
                                            first_term,
                                            second_term,
                                        ),
                                    },
                                },
                            },
                        },
                    },
                },
            },
        },
    }
}

/// Derives a tick's plane constant from a depeg limit `p` and a radius `r`
/// by the closed form `k = r*sqrt(5) - r*(p + 4)/sqrt(5 * (p^2 + 4))`,
/// computed as a fixed sequence of nine fixed-point primitive operations.
#[allow(non_snake_case)]
pub fn calculateK(depeg_limit: u128, radius: u128) -> (res: Result<u128, OrbitalError>)
    ensures
        res == calc_k_spec(depeg_limit, radius),
{
    let first_term = match mul_fixed(radius, SQRT5_FIXED) {
        Ok(v) => v,
        Err(e) => {
            return Err(e);
        },
    };
    let p_squared = match mul_fixed(depeg_limit, depeg_limit) {
        Ok(v) => v,
        Err(e) => {
            return Err(e);
        },
    };
    let p_plus_n = match add_fixed(depeg_limit, FIVE_FIXED) {
        Ok(v) => v,
        Err(e) => {
            return Err(e);
        },
    };
    let p_plus_n_minus_1 = match sub_fixed(p_plus_n, ONE_FIXED) {
        Ok(v) => v,
        Err(e) => {
            return Err(e);
        },
    };
    let p2_plus_n = match add_fixed(p_squared, FIVE_FIXED) {
        Ok(v) => v,
        Err(e) => {
            return Err(e);
        },
    };
    let p2_plus_n_minus_1 = match sub_fixed(p2_plus_n, ONE_FIXED) {
        Ok(v) => v,
        Err(e) => {
            return Err(e);
        },
    };
    let n_times_expr = match mul_fixed(FIVE_FIXED, p2_plus_n_minus_1) {
        Ok(v) => v,
        Err(e) => {
            return Err(e);
        },
    };
    let sqrt_denominator = sqrt_fixed(n_times_expr);
    let numerator = match mul_fixed(radius, p_plus_n_minus_1) {
        Ok(v) => v,
        Err(e) => {
            return Err(e);
        },
    };
    let second_term = match div_fixed(numerator, sqrt_denominator) {
        Ok(v) => v,
        Err(e) => {
            return Err(e);
        },
    };
    sub_fixed(first_term, second_term)
}

/// What `getTickParameters` returns: the plane constant paired with the
/// radius, each step's failure propagated.
pub open spec fn tick_parameters_spec(depeg_limit: u128, reserve: u128) -> Result<
    (u128, u128),
    OrbitalError,
> {
    match radius_spec(reserve) {
        Err(e) => Err(e),
        Ok(radius) => match calc_k_spec(depeg_limit, radius) {
            Err(e) => Err(e),
            Ok(k) => Ok((k, radius)),
        },
    }
}

/// Derives a tick's plane constant and radius together.
#[allow(non_snake_case)]
pub fn getTickParameters(depeg_limit: u128, reserve: u128) -> (res: Result<
    (u128, u128),
    OrbitalError,
>)
    ensures
        res == tick_parameters_spec(depeg_limit, reserve),
{
    let radius = match calculate_radius(reserve) {
        Ok(v) => v,
        Err(e) => {
            return Err(e);
        },
    };
    let k = match calculateK(depeg_limit, radius) {
        Ok(v) => v,
        Err(e) => {
            return Err(e);
        },
    };
    Ok((k, radius))
}

/// What `calculateBoundaryTickS` returns: with `center = radius / sqrt(5)`
/// and `d = |k - center|`, zero whenever `d >= radius` (the plane misses the
/// sphere: a valid domain state, not a fault), and otherwise
/// `sqrt(radius^2 - d^2)`.
pub open spec fn boundary_s_spec(radius: u128, k: u128) -> Result<u128, OrbitalError> {
    match div_fixed_spec(radius, SQRT5_FIXED) {
        Err(e) => Err(e),
        Ok(center) => {
            let d = if k >= center {
                (k - center) as u128
            } else {
                (center - k) as u128
            };
            if d >= radius {
                Ok(0u128)
            } else {
                match mul_fixed_spec(radius, radius) {
                    Err(e) => Err(e),
                    Ok(r2) => match mul_fixed_spec(d, d) {
                        Err(e) => Err(e),
                        Ok(d2) => match sub_fixed_spec(r2, d2) {
                            Err(e) => Err(e),
                            Ok(radicand) => Ok(sqrt_fixed_spec(radicand)),
                        },
                    },
                }
            }
        },
    }
}

/// Boundary intersection half-width `s = sqrt(radius^2 - (k - radius/sqrt(5))^2)`;
/// returns zero, not an error, when the radicand would be negative.
#[allow(non_snake_case)]
pub fn calculateBoundaryTickS(radius: u128, k: u128) -> (res: Result<u128, OrbitalError>)
    ensures
        res == boundary_s_spec(radius, k),
{
    let center = match div_fixed(radius, SQRT5_FIXED) {
        Ok(v) => v,
        Err(e) => {
            return Err(e);
        },
    };
    let d = if k >= center {
        k - center
    } else {
        center - k
    };
    if d >= radius {
        return Ok(0);
    }
    let r2 = match mul_fixed(radius, radius) {
        Ok(v) => v,
        Err(e) => {
            return Err(e);
        },
    };
    let d2 = match mul_fixed(d, d) {
        Ok(v) => v,
        Err(e) => {
            return Err(e);
        },
    };
    let radicand = match sub_fixed(r2, d2) {
        Ok(v) => v,
        Err(e) => {
            return Err(e);
        },
    };
    Ok(sqrt_fixed(radicand))
}

/// Dividing by `sqrt(5)` never overflows, since `sqrt(5)` exceeds one: the
/// tick center `radius / sqrt(5)` is always defined.
pub proof fn lemma_center_defined(radius: u128)
    ensures
        div_fixed_spec(radius, SQRT5_FIXED) matches Ok(center) && center <= radius,
{
    crate::fixed::lemma_div_by_at_least_one(radius, SQRT5_FIXED);
}

/// A tick whose plane constant sits at least one radius away from the
/// sphere's center has no boundary intersection: `calculateBoundaryTickS`
/// returns zero there, not an error.
pub proof fn lemma_boundary_no_intersection(radius: u128, k: u128, center: u128)
    requires
        div_fixed_spec(radius, SQRT5_FIXED) == Ok::<u128, OrbitalError>(center),
        (if k >= center {
            k - center
        } else {
            center - k
        }) >= radius,
    ensures
        boundary_s_spec(radius, k) == Ok::<u128, OrbitalError>(0u128),
{
}

} // verus!
