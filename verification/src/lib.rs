//! Search for locally optimal symbol layouts under a pairwise-weighted
//! positional cost, with deduplicated persistence of the discovered optima.

pub mod climb;
pub mod cost;
pub mod freq;
pub mod layout;
pub mod random;
pub mod search;
pub mod store;
