//! Pricing kernel for a constant-product automated market maker.
//!
//! The library computes exchange-rate math over the reserve balances of
//! trading pairs: proportional equivalents (`quote`), fee-adjusted swap
//! outputs (`get_amount_out`), minimum swap inputs (`get_amount_in`), and
//! the composition of those primitives along a multi-hop trading path
//! (`get_amounts_out`, `get_amounts_in`).  Every function is total: invalid
//! amounts, exhausted liquidity, short paths, and arithmetic overflow are
//! reported through `QuoteError`, never by panicking or wrapping.

mod error;
mod laws;
mod pair;
mod path;

pub use error::QuoteError;
pub use laws::{
    lemma_amount_in_monotone, lemma_amount_out_monotone, lemma_fee_below_quote,
    lemma_quote_round_trip, lemma_swap_round_trip,
};
pub use pair::{
    amount_in_overflows, amount_in_result, amount_in_spec, amount_out_overflows,
    amount_out_result, amount_out_spec, get_amount_in, get_amount_out, quote, quote_overflows,
    quote_result, quote_spec,
};
pub use path::{
    amounts_in_result, amounts_out_result, backward_amounts, forward_amounts, get_amounts_in,
    get_amounts_out,
};
