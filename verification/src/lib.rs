//! Pairwise-comparison ranking: enumerate every unordered pair of options,
//! collect one decision per pair, tally wins, and rank the options.

pub mod bignum;
pub mod choice;
pub mod pairs;
pub mod report;
pub mod session;
pub mod tally;
