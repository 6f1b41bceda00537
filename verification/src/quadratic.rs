//! Solver for the amount needed to cross a tick boundary.
//!
//! From a consolidated multi-tick reserve state it derives the coefficients
//! of a quadratic equation and solves it in unsigned arithmetic with explicit
//! sign bookkeeping for the linear coefficient.  Numeric degeneracy (negative
//! discriminant, no strictly positive root) is not a fault: the caller's
//! linear fallback delta is returned instead.

use vstd::prelude::*;

use crate::config::{FOUR_FIXED, TOKEN_COUNT, TWO_FIXED};
use crate::errors::OrbitalError;
use crate::fixed::{
    add_fixed, add_fixed_spec, div_fixed, div_fixed_spec, mul_fixed, mul_fixed_spec, sqrt_fixed,
    sqrt_fixed_spec, sub_fixed, sub_fixed_spec,
};

verus! {

/// Left fold of `add_fixed` over the first `n` reserves.
pub open spec fn sum_reserves_spec(rs: Seq<u128>, n: int) -> Result<u128, OrbitalError>
    decreases n,
{
    if n <= 0 {
        Ok(0u128)
    } else {
        match sum_reserves_spec(rs, n - 1) {
            Err(e) => Err(e),
            Ok(acc) => add_fixed_spec(acc, rs[n - 1]),
        }
    }
}

/// Once a prefix sum has failed, every longer prefix fails the same way.
proof fn lemma_sum_reserves_err_stable(rs: Seq<u128>, i: int, n: int)
    requires
        0 <= i <= n,
        sum_reserves_spec(rs, i) is Err,
    ensures
        sum_reserves_spec(rs, n) == sum_reserves_spec(rs, i),
    decreases n - i,
{
    if i < n {
        lemma_sum_reserves_err_stable(rs, i, n - 1);
    }
}

/// Left fold of the squared distances `(r - x_j)^2` over the first `n`
/// reserves, skipping the input and output token slots.  The distances enter
/// only squared, so each is taken as an absolute difference.
pub open spec fn sum_sq_excl_spec(
    rs: Seq<u128>,
    r: u128,
    iin: usize,
    iout: usize,
    n: int,
) -> Result<u128, OrbitalError>
    decreases n,
{
    if n <= 0 {
        Ok(0u128)
    } else {
        match sum_sq_excl_spec(rs, r, iin, iout, n - 1) {
            Err(e) => Err(e),
            Ok(acc) => {
                if n - 1 == iin || n - 1 == iout {
                    Ok(acc)
                } else {
                    let d = if r >= rs[n - 1] {
                        (r - rs[n - 1]) as u128
                    } else {
                        (rs[n - 1] - r) as u128
                    };
                    match mul_fixed_spec(d, d) {
                        Err(e) => Err(e),
                        Ok(sq) => add_fixed_spec(acc, sq),
                    }
                }
            },
        }
    }
}

/// Once a partial squared sum has failed, every longer prefix fails the same
/// way.
proof fn lemma_sum_sq_excl_err_stable(rs: Seq<u128>, r: u128, iin: usize, iout: usize, i: int, n: int)
    requires
        0 <= i <= n,
        sum_sq_excl_spec(rs, r, iin, iout, i) is Err,
    ensures
        sum_sq_excl_spec(rs, r, iin, iout, n) == sum_sq_excl_spec(rs, r, iin, iout, i),
    decreases n - i,
{
    if i < n {
        lemma_sum_sq_excl_err_stable(rs, r, iin, iout, i, n - 1);
    }
}

/// The quadratic's data, derived from the geometry:
/// `P = k_cross*r - sum(reserves)`, `C = r^2 - sum((r - x_j)^2)` over the
/// other tokens, `A = r - x_out - P`, `B = x_in - r`,
/// `b = A + B = x_in - x_out - P` with its sign tracked explicitly, and
/// `c = (A^2 + B^2 - C) / 2`.  Returns `(p, b_magnitude, b_is_positive, c)`.
pub open spec fn quad_coeffs_spec(rs: Seq<u128>, iin: usize, iout: usize, r: u128, k_cross: u128) -> Result<
    (u128, u128, bool, u128),
    OrbitalError,
> {
    match sum_reserves_spec(rs, TOKEN_COUNT as int) {
        Err(e) => Err(e),
        Ok(sum_reserves) => match mul_fixed_spec(k_cross, r) {
            Err(e) => Err(e),
            Ok(kr) => match sub_fixed_spec(kr, sum_reserves) {
                Err(e) => Err(e),
                Ok(p) => match mul_fixed_spec(r, r) {
                    Err(e) => Err(e),
                    Ok(r2) => match sum_sq_excl_spec(rs, r, iin, iout, TOKEN_COUNT as int) {
                        Err(e) => Err(e),
                        Ok(ssq) => match sub_fixed_spec(r2, ssq) {
                            Err(e) => Err(e),
                            Ok(c_term) => {
                                let x_in = rs[iin as int];
                                let x_out = rs[iout as int];
                                // |A| with A = r - x_out - P, entering only squared
                                let a_abs_r: Result<u128, OrbitalError> = if r >= x_out {
                                    if r - x_out >= p {
                                        Ok(((r - x_out) - p) as u128)
                                    } else {
                                        Ok((p - (r - x_out)) as u128)
                                    }
                                } else {
                                    add_fixed_spec(p, (x_out - r) as u128)
                                };
                                // |B| with B = x_in - r, entering only squared
                                let b_abs = if x_in >= r {
                                    (x_in - r) as u128
                                } else {
                                    (r - x_in) as u128
                                };
                                match a_abs_r {
                                    Err(e) => Err(e),
                                    Ok(a_abs) => match quad_b_spec(x_in, x_out, p) {
                                        Err(e) => Err(e),
                                        Ok((b_mag, b_pos)) => match mul_fixed_spec(a_abs, a_abs) {
                                            Err(e) => Err(e),
                                            Ok(a_sq) => match mul_fixed_spec(b_abs, b_abs) {
                                                Err(e) => Err(e),
                                                Ok(b_sq) => match add_fixed_spec(a_sq, b_sq) {
                                                    Err(e) => Err(e),
                                                    Ok(ab_sq) => match sub_fixed_spec(
                                                        ab_sq,
                                                        c_term,
                                                    ) {
                                                        Err(e) => Err(e),
                                                        Ok(numerator) => match div_fixed_spec(
                                                            numerator,
                                                            TWO_FIXED,
                                                        ) {
                                                            Err(e) => Err(e),
                                                            Ok(c) => Ok((p, b_mag, b_pos, c)),
                                                        },
                                                    },
                                                },
                                            },
                                        },
                                    },
                                }
                            },
                        },
                    },
                },
            },
        },
    }
}

/// The linear coefficient `b = x_in - x_out - P` in sign-and-magnitude form.
pub open spec fn quad_b_spec(x_in: u128, x_out: u128, p: u128) -> Result<
    (u128, bool),
    OrbitalError,
> {
    if x_in >= x_out {
        let diff = (x_in - x_out) as u128;
        if diff >= p {
            Ok(((diff - p) as u128, true))
        } else {
            Ok(((p - diff) as u128, false))
        }
    } else {
        let diff = (x_out - x_in) as u128;
        match add_fixed_spec(diff, p) {
            Err(e) => Err(e),
            Ok(v) => Ok((v, false)),
        }
    }
}

/// Root selection for `x^2 + b*x + c == 0` (sign of `b` tracked beside its
/// magnitude): when the discriminant is negative, the caller's linear
/// fallback; otherwise the smaller strictly positive `root - P`, any negative
/// candidate clamped to zero; the fallback again when no candidate is
/// positive.
pub open spec fn quad_roots_spec(delta_linear: u128, p: u128, b_mag: u128, b_pos: bool, c: u128) -> Result<
    u128,
    OrbitalError,
> {
    match mul_fixed_spec(b_mag, b_mag) {
        Err(e) => Err(e),
        Ok(b2) => match mul_fixed_spec(FOUR_FIXED, c) {
            Err(e) => Err(e),
            Ok(four_ac) => {
                if b2 < four_ac {
                    Ok(delta_linear)
                } else {
                    let disc = (b2 - four_ac) as u128;
                    let sq = sqrt_fixed_spec(disc);
                    match quad_two_roots_spec(b_mag, b_pos, sq) {
                        Err(e) => Err(e),
                        Ok((x1, x2)) => {
                            let x1_minus_p = if x1 >= p {
                                (x1 - p) as u128
                            } else {
                                0u128
                            };
                            let x2_minus_p = if x2 >= p {
                                (x2 - p) as u128
                            } else {
                                0u128
                            };
                            if x1_minus_p > 0 && x2_minus_p > 0 {
                                if x1_minus_p <= x2_minus_p {
                                    Ok(x1_minus_p)
                                } else {
                                    Ok(x2_minus_p)
                                }
                            } else if x1_minus_p > 0 {
                                Ok(x1_minus_p)
                            } else if x2_minus_p > 0 {
                                Ok(x2_minus_p)
                            } else {
                                Ok(delta_linear)
                            }
                        },
                    }
                }
            },
        },
    }
}

/// The two roots `(-b +- sqrt(disc)) / 2`, each clamped to zero where it
/// would be negative.
pub open spec fn quad_two_roots_spec(b_mag: u128, b_pos: bool, sq: u128) -> Result<
    (u128, u128),
    OrbitalError,
> {
    if b_pos {
        if sq >= b_mag {
            match div_fixed_spec((sq - b_mag) as u128, TWO_FIXED) {
                Err(e) => Err(e),
                Ok(x1) => Ok((x1, 0u128)),
            }
        } else {
            Ok((0u128, 0u128))
        }
    } else {
        match add_fixed_spec(b_mag, sq) {
            Err(e) => Err(e),
            Ok(s) => match div_fixed_spec(s, TWO_FIXED) {
                Err(e) => Err(e),
                Ok(x1) => {
                    if b_mag >= sq {
                        match div_fixed_spec((b_mag - sq) as u128, TWO_FIXED) {
                            Err(e) => Err(e),
                            Ok(x2) => Ok((x1, x2)),
                        }
                    } else {
                        Ok((x1, 0u128))
                    }
                },
            },
        }
    }
}

/// What `solveQuadraticInvariant` returns, for every input.
pub open spec fn quad_spec(
    delta_linear: u128,
    rs: Seq<u128>,
    iin: usize,
    iout: usize,
    r: u128,
    k_cross: u128,
) -> Result<u128, OrbitalError> {
    if rs.len() != TOKEN_COUNT {
        Err(OrbitalError::InvalidArrayLength)
    } else if iin >= TOKEN_COUNT || iout >= TOKEN_COUNT || iin == iout {
        Err(OrbitalError::InvalidTokenIndex)
    } else {
        match quad_coeffs_spec(rs, iin, iout, r, k_cross) {
            Err(e) => Err(e),
            Ok((p, b_mag, b_pos, c)) => quad_roots_spec(delta_linear, p, b_mag, b_pos, c),
        }
    }
}

/// A reserve vector of the wrong length is rejected outright, never turned
/// into a numeric guess.
pub proof fn lemma_quad_wrong_length_rejected(
    delta_linear: u128,
    rs: Seq<u128>,
    iin: usize,
    iout: usize,
    r: u128,
    k_cross: u128,
)
    requires
        rs.len() != TOKEN_COUNT,
    ensures
        quad_spec(delta_linear, rs, iin, iout, r, k_cross) == Err::<u128, OrbitalError>(
            OrbitalError::InvalidArrayLength,
        ),
{
}

/// A negative discriminant means no real crossing point: the solver returns
/// exactly the caller-supplied linear fallback, not an error.
pub proof fn lemma_negative_discriminant_falls_back(
    delta_linear: u128,
    p: u128,
    b_mag: u128,
    b_pos: bool,
    c: u128,
    b2: u128,
    four_ac: u128,
)
    requires
        mul_fixed_spec(b_mag, b_mag) == Ok::<u128, OrbitalError>(b2),
        mul_fixed_spec(FOUR_FIXED, c) == Ok::<u128, OrbitalError>(four_ac),
        b2 < four_ac,
    ensures
        quad_roots_spec(delta_linear, p, b_mag, b_pos, c) == Ok::<u128, OrbitalError>(delta_linear),
{
}

/// Derives the quadratic's data from the consolidated geometry.
#[verifier::rlimit(50)]
fn quad_coeffs(
    reserves: &Vec<u128>,
    token_in_index: usize,
    token_out_index: usize,
    r: u128,
    k_cross: u128,
) -> (res: Result<(u128, u128, bool, u128), OrbitalError>)
    requires
        reserves@.len() == TOKEN_COUNT,
        token_in_index < TOKEN_COUNT,
        token_out_index < TOKEN_COUNT,
    ensures
        res == quad_coeffs_spec(reserves@, token_in_index, token_out_index, r, k_cross),
{
    // P = k_cross * r - sum(reserves)
    let mut sum_reserves: u128 = 0;
    let mut i: usize = 0;
    while i < TOKEN_COUNT
        invariant
            reserves@.len() == TOKEN_COUNT,
            i <= TOKEN_COUNT,
            sum_reserves_spec(reserves@, i as int) == Ok::<u128, OrbitalError>(sum_reserves),
        decreases TOKEN_COUNT - i,
    {
        sum_reserves = match add_fixed(sum_reserves, reserves[i]) {
            Ok(v) => v,
            Err(e) => {
                proof {
                    lemma_sum_reserves_err_stable(reserves@, i as int + 1, TOKEN_COUNT as int);
                }
                return Err(e);
            },
        };
        i = i + 1;
    }
    let kr = match mul_fixed(k_cross, r) {
        Ok(v) => v,
        Err(e) => {
            return Err(e);
        },
    };
    let p = match sub_fixed(kr, sum_reserves) {
        Ok(v) => v,
        Err(e) => {
            return Err(e);
        },
    };

    // C = r^2 - sum((r - x_j)^2) over tokens other than in and out
    let r2 = match mul_fixed(r, r) {
        Ok(v) => v,
        Err(e) => {
            return Err(e);
        },
    };
    let mut ssq: u128 = 0;
    let mut j: usize = 0;
    while j < TOKEN_COUNT
        invariant
            reserves@.len() == TOKEN_COUNT,
            j <= TOKEN_COUNT,
            sum_sq_excl_spec(reserves@, r, token_in_index, token_out_index, j as int) == Ok::<
                u128,
                OrbitalError,
            >(ssq),
            sum_reserves_spec(reserves@, TOKEN_COUNT as int) == Ok::<u128, OrbitalError>(
                sum_reserves,
            ),
            crate::fixed::mul_fixed_spec(k_cross, r) == Ok::<u128, OrbitalError>(kr),
            crate::fixed::sub_fixed_spec(kr, sum_reserves) == Ok::<u128, OrbitalError>(p),
            crate::fixed::mul_fixed_spec(r, r) == Ok::<u128, OrbitalError>(r2),
        decreases TOKEN_COUNT - j,
    {
        if j != token_in_index && j != token_out_index {
            let xj = reserves[j];
            let d = if r >= xj {
                r - xj
            } else {
                xj - r
            };
            let sq = match mul_fixed(d, d) {
                Ok(v) => v,
                Err(e) => {
                    proof {
                        lemma_sum_sq_excl_err_stable(
                            reserves@,
                            r,
                            token_in_index,
                            token_out_index,
                            j as int + 1,
                            TOKEN_COUNT as int,
                        );
                    }
                    return Err(e);
                },
            };
            ssq = match add_fixed(ssq, sq) {
                Ok(v) => v,
                Err(e) => {
                    proof {
                        lemma_sum_sq_excl_err_stable(
                            reserves@,
                            r,
                            token_in_index,
                            token_out_index,
                            j as int + 1,
                            TOKEN_COUNT as int,
                        );
                    }
                    return Err(e);
                },
            };
        }
        j = j + 1;
    }
    let c_term = match sub_fixed(r2, ssq) {
        Ok(v) => v,
        Err(e) => {
            return Err(e);
        },
    };

    let x_in = reserves[token_in_index];
    let x_out = reserves[token_out_index];

    // |A| with A = r - x_out - P; it enters the equation only squared
    let a_abs = if r >= x_out {
        let rxo = r - x_out;
        if rxo >= p {
            rxo - p
        } else {
            p - rxo
        }
    } else {
        match add_fixed(p, x_out - r) {
            Ok(v) => v,
            Err(e) => {
                return Err(e);
            },
        }
    };
    // |B| with B = x_in - r; it enters the equation only squared
    let b_abs = if x_in >= r {
        x_in - r
    } else {
        r - x_in
    };

    // b = A + B = x_in - x_out - P, with its sign tracked explicitly
    let (b_mag, b_pos) = if x_in >= x_out {
        let diff = x_in - x_out;
        if diff >= p {
            (diff - p, true)
        } else {
            (p - diff, false)
        }
    } else {
        let diff = x_out - x_in;
        match add_fixed(diff, p) {
            Ok(v) => (v, false),
            Err(e) => {
                return Err(e);
            },
        }
    };

    // c = (A^2 + B^2 - C) / 2
    let a_sq = match mul_fixed(a_abs, a_abs) {
        Ok(v) => v,
        Err(e) => {
            return Err(e);
        },
    };
    let b_sq = match mul_fixed(b_abs, b_abs) {
        Ok(v) => v,
        Err(e) => {
            return Err(e);
        },
    };
    let ab_sq = match add_fixed(a_sq, b_sq) {
        Ok(v) => v,
        Err(e) => {
            return Err(e);
        },
    };
    let numerator = match sub_fixed(ab_sq, c_term) {
        Ok(v) => v,
        Err(e) => {
            return Err(e);
        },
    };
    let c = match div_fixed(numerator, TWO_FIXED) {
        Ok(v) => v,
        Err(e) => {
            return Err(e);
        },
    };
    Ok((p, b_mag, b_pos, c))
}

/// Solves `x^2 + b*x + c == 0` and picks the crossing amount.
fn quad_roots(delta_linear: u128, p: u128, b_mag: u128, b_pos: bool, c: u128) -> (res: Result<
    u128,
    OrbitalError,
>)
    ensures
        res == quad_roots_spec(delta_linear, p, b_mag, b_pos, c),
{
    // discriminant b^2 - 4*a*c with a == 1
    let b2 = match mul_fixed(b_mag, b_mag) {
        Ok(v) => v,
        Err(e) => {
            return Err(e);
        },
    };
    let four_ac = match mul_fixed(FOUR_FIXED, c) {
        Ok(v) => v,
        Err(e) => {
            return Err(e);
        },
    };
    if b2 < four_ac {
        // no real crossing point: the linear fallback, not an error
        return Ok(delta_linear);
    }
    let disc = b2 - four_ac;
    let sq = sqrt_fixed(disc);

    // roots (-b +- sqrt(disc)) / 2, negative candidates clamped to zero
    let (x1, x2) = if b_pos {
        if sq >= b_mag {
            let x1 = match div_fixed(sq - b_mag, TWO_FIXED) {
                Ok(v) => v,
                Err(e) => {
                    return Err(e);
                },
            };
            (x1, 0u128)
        } else {
            (0u128, 0u128)
        }
    } else {
        let s = match add_fixed(b_mag, sq) {
            Ok(v) => v,
            Err(e) => {
                return Err(e);
            },
        };
        let x1 = match div_fixed(s, TWO_FIXED) {
            Ok(v) => v,
            Err(e) => {
                return Err(e);
            },
        };
        if b_mag >= sq {
            let x2 = match div_fixed(b_mag - sq, TWO_FIXED) {
                Ok(v) => v,
                Err(e) => {
                    return Err(e);
                },
            };
            (x1, x2)
        } else {
            (x1, 0u128)
        }
    };

    // return the smaller strictly positive root - P, else the fallback
    let x1_minus_p = if x1 >= p {
        x1 - p
    } else {
        0
    };
    let x2_minus_p = if x2 >= p {
        x2 - p
    } else {
        0
    };
    if x1_minus_p > 0 && x2_minus_p > 0 {
        if x1_minus_p <= x2_minus_p {
            Ok(x1_minus_p)
        } else {
            Ok(x2_minus_p)
        }
    } else if x1_minus_p > 0 {
        Ok(x1_minus_p)
    } else if x2_minus_p > 0 {
        Ok(x2_minus_p)
    } else {
        Ok(delta_linear)
    }
}

/// Solves the quadratic boundary-crossing equation
/// `x^2 + b*x + c == 0` derived from the consolidated geometry, and returns
/// the smaller strictly positive crossing amount `root - P`; the supplied
/// `delta_linear` when the discriminant is negative or no candidate is
/// positive.  Rejects a reserve vector of the wrong length and invalid or
/// duplicate token indices; arithmetic that cannot represent its true result
/// is a hard failure.
#[allow(non_snake_case)]
pub fn solveQuadraticInvariant(
    delta_linear: u128,
    reserves: Vec<u128>,
    token_in_index: usize,
    token_out_index: usize,
    consolidated_radius: u128,
    k_cross: u128,
) -> (res: Result<u128, OrbitalError>)
    ensures
        res == quad_spec(
            delta_linear,
            reserves@,
            token_in_index,
            token_out_index,
            consolidated_radius,
            k_cross,
        ),
{
    if reserves.len() != TOKEN_COUNT {
        return Err(OrbitalError::InvalidArrayLength);
    }
    if token_in_index >= TOKEN_COUNT || token_out_index >= TOKEN_COUNT || token_in_index
        == token_out_index {
        return Err(OrbitalError::InvalidTokenIndex);
    }
    let (p, b_mag, b_pos, c) = match quad_coeffs(
        &reserves,
        token_in_index,
        token_out_index,
        consolidated_radius,
        k_cross,
    ) {
        Ok(v) => v,
        Err(e) => {
            return Err(e);
        },
    };
    quad_roots(delta_linear, p, b_mag, b_pos, c)
}

} // verus!
