//! A two-sided population matching simulation: two populations (males
//! proposing, females responding) with randomized weight/rating attribute
//! vectors are paired round by round through a greedy acceptance scheme with
//! persistent per-individual rejection blacklists.

pub mod entropy;
pub mod errors;
pub mod individual;
pub mod laws;
pub mod sample;
pub mod stats;

pub use errors::MatchError;
pub use individual::Gender;
pub use individual::Individual;
pub use sample::Sample;
