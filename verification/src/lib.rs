//! Cribbage hand scoring and discard analysis.
//!
//! The crate scores a five-card cribbage hand under the standard rules
//! (fifteens, pairs, runs, the crib-only flush rule, and nobs) and, for a
//! six-card starting hand, evaluates every two-card discard against every
//! possible draw, accumulating the resulting score distributions.

pub mod analyze;
pub mod cards;
pub mod combos;
pub mod deck;
pub mod score;
pub mod tally;

pub use cards::Card;
pub use cards::Hand;
pub use cards::Rank;
pub use cards::Suit;
