//! Secure-sum aggregation by pairwise additive masking.
//!
//! Every client holds a private value. Before the aggregator reads anything,
//! the clients exchange random masks in pairs: the sender subtracts the mask
//! from its accumulator and the receiver adds it. All arithmetic is modulo
//! 2^32, so every exchange leaves the sum of the accumulators unchanged while
//! each single accumulator is perturbed.

pub mod client;
pub mod decimal;
mod entropy;
pub mod error;
pub mod local;
pub mod ring;
pub mod roster;
pub mod round;
pub mod server;
