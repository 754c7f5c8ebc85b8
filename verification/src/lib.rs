//! Fuzzy subsequence matching and ranking for package-search results.
//!
//! The crate locates a query as an ordered, possibly non-contiguous
//! subsequence of a candidate name, scores each match with a fixed-point
//! feature sum, and ranks a candidate list by descending score with a
//! stable tie-break.

use vstd::prelude::*;

pub mod cache;
pub mod detail;
pub mod input;
pub mod locate;
pub mod normalize;
pub mod parse;
pub mod rank;
pub mod score;
pub mod select;

verus! {

} // verus!
