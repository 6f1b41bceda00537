//! The immutable configuration of the core: token count, precomputed
//! constants in fixed-point form, and iteration bounds.  Everything here is a
//! compile-time constant, never data-dependent, so that each computation's
//! step budget is fixed.

use vstd::prelude::*;

use crate::fixed::{isqrt, lemma_isqrt_unique, sqrt_fixed_spec, SCALE};

verus! {

/// The fixed number of tokens a pool trades: the reserve vector always has
/// exactly this many entries.
pub const TOKEN_COUNT: usize = 5;

/// One, in fixed-point form.
pub const ONE_FIXED: u128 = 0x1_0000_0000_0000;

/// Two, in fixed-point form.
pub const TWO_FIXED: u128 = 562949953421312;

/// Four, in fixed-point form.
pub const FOUR_FIXED: u128 = 1125899906842624;

/// The token count, in fixed-point form.
pub const FIVE_FIXED: u128 = 1407374883553280;

/// `sqrt(5)` in fixed-point form: the integer square root of `5 * 2^96`.
pub const SQRT5_FIXED: u128 = 629397181890196;

/// `1 - 1/sqrt(5)` in fixed-point form: `SCALE - SCALE * SCALE / SQRT5_FIXED`.
pub const RADIUS_DENOM: u128 = 155595540332617;

/// Iteration bound of the Newton-Raphson loop in the torus solver.
pub const MAX_NEWTON_ITERATIONS: u64 = 24;

/// Magnitude bound (`2^83`) on every reserve, amount and consolidated scalar
/// a solver accepts; inside it, no intermediate of the invariant evaluation
/// can overflow.
pub const MAX_SAFE_VALUE: u128 = 0x8_0000_0000_0000_0000_0000;

/// Bound (`2^84`) on each entry of a reserve vector handed to the invariant
/// evaluator: an accepted reserve plus an accepted amount-in.
pub const RESERVE_CAP: u128 = 0x10_0000_0000_0000_0000_0000;

/// Bound (`2^120`) on one squared reserve term: `RESERVE_CAP^2 / SCALE`.
pub const SQ_TERM_BOUND: u128 = 0x100_0000_0000_0000_0000_0000_0000_0000;

/// Bound (`2^125`) on every invariant value the evaluator can produce.
pub const INVARIANT_BOUND: u128 = 0x2000_0000_0000_0000_0000_0000_0000_0000;

/// `SQRT5_FIXED` is exactly the fixed-point square root of five.
pub proof fn lemma_sqrt5_value()
    ensures
        SQRT5_FIXED == sqrt_fixed_spec(FIVE_FIXED),
{
    assert(629397181890196u128 * 629397181890196u128 <= FIVE_FIXED * SCALE);
    assert(FIVE_FIXED * SCALE < 629397181890197u128 * 629397181890197u128);
    lemma_isqrt_unique((FIVE_FIXED * SCALE) as nat, SQRT5_FIXED as nat);
    assert(isqrt((FIVE_FIXED * SCALE) as nat) == SQRT5_FIXED as nat);
}

/// `RADIUS_DENOM` is exactly `1 - 1/sqrt(5)` as the arithmetic layer
/// computes it.
pub proof fn lemma_radius_denom_value()
    ensures
        crate::fixed::sub_fixed_spec(ONE_FIXED, 125879436378039u128) == Ok::<
            u128,
            crate::errors::OrbitalError,
        >(RADIUS_DENOM),
        crate::fixed::div_fixed_spec(ONE_FIXED, SQRT5_FIXED) == Ok::<
            u128,
            crate::errors::OrbitalError,
        >(125879436378039u128),
{
    assert((ONE_FIXED * SCALE) / (SQRT5_FIXED as int) == 125879436378039) by {
        vstd::arithmetic::div_mod::lemma_fundamental_div_mod_converse(
            ONE_FIXED as int * SCALE as int,
            SQRT5_FIXED as int,
            125879436378039,
            SCALE as int * SCALE as int - 125879436378039 * SQRT5_FIXED as int,
        );
    }
}

} // verus!
