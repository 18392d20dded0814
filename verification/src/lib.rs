//! A greedy averaged-perceptron part-of-speech tagger.
//!
//! The tagger assigns one tag and one fixed-point confidence score to each
//! whitespace-delimited token of a sentence.  A token found in the exception
//! table gets its forced tag with full confidence; every other token is scored
//! by a linear model over features drawn from the token, its neighbours, and
//! the two most recently assigned tags.

use vstd::prelude::*;

pub mod fixed;
pub mod model;
pub mod strutil;
pub mod tagger;

verus! {

/// Weights and confidences are fixed-point numbers scaled by this factor:
/// a stored value `v` stands for the real number `v / 1_000_000`.
pub const SCALE: u64 = 1_000_000;

} // verus!
