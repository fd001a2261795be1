//! Arithmetic on a single trading pair: proportional quotes and
//! fee-adjusted swap amounts over the pair's two reserves.
//!
//! All amounts and reserves are `i128` token quantities in their smallest
//! denomination.  An amount or reserve is meaningful only when strictly
//! positive; every function rejects other values with an explicit error
//! rather than computing with them.

use vstd::arithmetic::div_mod::{
    lemma_div_is_ordered, lemma_div_is_ordered_by_denominator, lemma_div_nonincreasing,
    lemma_div_pos_is_pos,
};
use vstd::arithmetic::mul::lemma_mul_strictly_positive;
use vstd::prelude::*;

use crate::error::QuoteError;

verus! {

/// The proportional equivalent of `a` units of asset A in asset B, for
/// reserves `ra` of A and `rb` of B: the floor of `a * rb / ra`.
pub open spec fn quote_spec(a: int, ra: int, rb: int) -> int {
    a * rb / ra
}

/// Whether computing `quote_spec(a, ra, rb)` on `i128` values would
/// overflow: the only intermediate is the product `a * rb`.
pub open spec fn quote_overflows(a: int, rb: int) -> bool {
    a * rb > i128::MAX
}

/// The exact outcome of `quote` on the given `i128` arguments: the error
/// for each rejected input, and the floored proportional amount otherwise.
pub open spec fn quote_result(amount_a: i128, reserve_a: i128, reserve_b: i128) -> Result<
    i128,
    QuoteError,
> {
    if amount_a <= 0 {
        Err(QuoteError::InsufficientAmount)
    } else if reserve_a <= 0 || reserve_b <= 0 {
        Err(QuoteError::InsufficientLiquidity)
    } else if quote_overflows(amount_a as int, reserve_b as int) {
        Err(QuoteError::ArithmeticFault)
    } else {
        Ok(quote_spec(amount_a as int, reserve_a as int, reserve_b as int) as i128)
    }
}

/// Given an amount of asset A and a pair's reserves, returns the
/// equivalent amount of asset B at the current ratio, rounded down:
/// `floor(amount_a * reserve_b / reserve_a)`.
///
/// Fails with `InsufficientAmount` when `amount_a <= 0`, with
/// `InsufficientLiquidity` when either reserve is not strictly positive,
/// and with `ArithmeticFault` when the product `amount_a * reserve_b`
/// does not fit in an `i128`.
pub fn quote(amount_a: i128, reserve_a: i128, reserve_b: i128) -> (r: Result<i128, QuoteError>)
    ensures
        r == quote_result(amount_a, reserve_a, reserve_b),
{
    if amount_a <= 0 {
        return Err(QuoteError::InsufficientAmount);
    }
    if reserve_a <= 0 || reserve_b <= 0 {
        return Err(QuoteError::InsufficientLiquidity);
    }
    proof {
        lemma_mul_strictly_positive(amount_a as int, reserve_b as int);
    }
    match amount_a.checked_mul(reserve_b) {
        None => Err(QuoteError::ArithmeticFault),
        Some(numerator) => {
            proof {
                lemma_div_pos_is_pos(numerator as int, reserve_a as int);
                lemma_div_nonincreasing(numerator as int, reserve_a as int);
            }
            match numerator.checked_div(reserve_a) {
                None => Err(QuoteError::ArithmeticFault),
                Some(q) => Ok(q),
            }
        },
    }
}

/// The output of a constant-product swap with a 0.3% fee taken from the
/// input: the floor of `a * 997 * rout / (rin * 1000 + a * 997)`.
///
/// Rounding down keeps the pool from paying out more than the
/// constant-product invariant allows.
pub open spec fn amount_out_spec(a: int, rin: int, rout: int) -> int {
    (a * 997 * rout) / (rin * 1000 + a * 997)
}

/// Whether computing `amount_out_spec(a, rin, rout)` on `i128` values
/// would overflow, one clause per intermediate product or sum.
pub open spec fn amount_out_overflows(a: int, rin: int, rout: int) -> bool {
    a * 997 > i128::MAX || a * 997 * rout > i128::MAX || rin * 1000 > i128::MAX || rin * 1000 + a
        * 997 > i128::MAX
}

/// The exact outcome of `get_amount_out` on the given `i128` arguments.
pub open spec fn amount_out_result(amount_in: i128, reserve_in: i128, reserve_out: i128) -> Result<
    i128,
    QuoteError,
> {
    if amount_in <= 0 {
        Err(QuoteError::InsufficientAmount)
    } else if reserve_in <= 0 || reserve_out <= 0 {
        Err(QuoteError::InsufficientLiquidity)
    } else if amount_out_overflows(amount_in as int, reserve_in as int, reserve_out as int) {
        Err(QuoteError::ArithmeticFault)
    } else {
        Ok(amount_out_spec(amount_in as int, reserve_in as int, reserve_out as int) as i128)
    }
}

/// Given an input amount and a pair's reserves, returns the maximum
/// output the pool can pay for it under the constant-product rule with a
/// 0.3% input fee:
/// `floor(amount_in * 997 * reserve_out / (reserve_in * 1000 + amount_in * 997))`.
///
/// Fails with `InsufficientAmount` when `amount_in <= 0`, with
/// `InsufficientLiquidity` when either reserve is not strictly positive,
/// and with `ArithmeticFault` when any intermediate product or sum does
/// not fit in an `i128`.
pub fn get_amount_out(amount_in: i128, reserve_in: i128, reserve_out: i128) -> (r: Result<
    i128,
    QuoteError,
>)
    ensures
        r == amount_out_result(amount_in, reserve_in, reserve_out),
{
    if amount_in <= 0 {
        return Err(QuoteError::InsufficientAmount);
    }
    if reserve_in <= 0 || reserve_out <= 0 {
        return Err(QuoteError::InsufficientLiquidity);
    }
    let fee_adjusted = match amount_in.checked_mul(997) {
        None => {
            return Err(QuoteError::ArithmeticFault);
        },
        Some(v) => v,
    };
    proof {
        lemma_mul_strictly_positive(fee_adjusted as int, reserve_out as int);
    }
    let numerator = match fee_adjusted.checked_mul(reserve_out) {
        None => {
            return Err(QuoteError::ArithmeticFault);
        },
        Some(v) => v,
    };
    let scaled_in = match reserve_in.checked_mul(1000) {
        None => {
            return Err(QuoteError::ArithmeticFault);
        },
        Some(v) => v,
    };
    let denominator = match scaled_in.checked_add(fee_adjusted) {
        None => {
            return Err(QuoteError::ArithmeticFault);
        },
        Some(v) => v,
    };
    proof {
        lemma_div_pos_is_pos(numerator as int, denominator as int);
        lemma_div_nonincreasing(numerator as int, denominator as int);
    }
    match numerator.checked_div(denominator) {
        None => Err(QuoteError::ArithmeticFault),
        Some(q) => Ok(q),
    }
}

/// The minimum input that extracts `aout` from a pool under the
/// constant-product rule with a 0.3% input fee: the floor of
/// `rin * aout * 1000 / ((rout - aout) * 997)`, plus one.
///
/// The added one rounds the required input up, so the trader is never
/// under-charged relative to the exact quotient.
pub open spec fn amount_in_spec(aout: int, rin: int, rout: int) -> int {
    rin * aout * 1000 / ((rout - aout) * 997) + 1
}

/// Whether computing `amount_in_spec(aout, rin, rout)` on `i128` values
/// would overflow, one clause per intermediate product.  The final `+ 1`
/// cannot overflow: the quotient is at most `i128::MAX / 997`.
pub open spec fn amount_in_overflows(aout: int, rin: int, rout: int) -> bool {
    rin * aout > i128::MAX || rin * aout * 1000 > i128::MAX || (rout - aout) * 997 > i128::MAX
}

/// The exact outcome of `get_amount_in` on the given `i128` arguments.
pub open spec fn amount_in_result(amount_out: i128, reserve_in: i128, reserve_out: i128) -> Result<
    i128,
    QuoteError,
> {
    if amount_out <= 0 {
        Err(QuoteError::InsufficientAmount)
    } else if reserve_in <= 0 || reserve_out <= 0 || amount_out >= reserve_out {
        Err(QuoteError::InsufficientLiquidity)
    } else if amount_in_overflows(amount_out as int, reserve_in as int, reserve_out as int) {
        Err(QuoteError::ArithmeticFault)
    } else {
        Ok(amount_in_spec(amount_out as int, reserve_in as int, reserve_out as int) as i128)
    }
}

/// Given a desired output amount and a pair's reserves, returns the
/// minimum input required to extract it, rounded up in the pool's favor:
/// `floor(reserve_in * amount_out * 1000 / ((reserve_out - amount_out) * 997)) + 1`.
///
/// Fails with `InsufficientAmount` when `amount_out <= 0`, with
/// `InsufficientLiquidity` when either reserve is not strictly positive
/// or when `amount_out >= reserve_out` (the pool cannot pay out a whole
/// reserve), and with `ArithmeticFault` when an intermediate product does
/// not fit in an `i128`.
pub fn get_amount_in(amount_out: i128, reserve_in: i128, reserve_out: i128) -> (r: Result<
    i128,
    QuoteError,
>)
    ensures
        r == amount_in_result(amount_out, reserve_in, reserve_out),
{
    if amount_out <= 0 {
        return Err(QuoteError::InsufficientAmount);
    }
    if reserve_in <= 0 || reserve_out <= 0 || amount_out >= reserve_out {
        return Err(QuoteError::InsufficientLiquidity);
    }
    proof {
        lemma_mul_strictly_positive(reserve_in as int, amount_out as int);
    }
    let scaled = match reserve_in.checked_mul(amount_out) {
        None => {
            return Err(QuoteError::ArithmeticFault);
        },
        Some(v) => v,
    };
    let numerator = match scaled.checked_mul(1000) {
        None => {
            return Err(QuoteError::ArithmeticFault);
        },
        Some(v) => v,
    };
    let remaining = reserve_out - amount_out;
    let denominator = match remaining.checked_mul(997) {
        None => {
            return Err(QuoteError::ArithmeticFault);
        },
        Some(v) => v,
    };
    proof {
        lemma_div_pos_is_pos(numerator as int, denominator as int);
        lemma_div_is_ordered_by_denominator(numerator as int, 997, denominator as int);
        lemma_div_is_ordered(numerator as int, i128::MAX as int, 997);
    }
    match numerator.checked_div(denominator) {
        None => Err(QuoteError::ArithmeticFault),
        Some(q) => Ok(q + 1),
    }
}

} // verus!
