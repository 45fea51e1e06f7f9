//! A precision-oriented Bloom filter: a probabilistic set-membership
//! structure with zero false negatives and a tunable false-positive rate.
//!
//! The filter packs its state into a bit array, derives `k` bit positions
//! per item by Kirsch-Mitzenmacher double hashing over two independent
//! hash functions (ahash and seahash), and sizes itself from a target
//! false-positive rate by the closed-form Bloom formulas.
//!
//! Rates and ratios are fixed-point fractions of `2^32` (`ONE_Q32`),
//! so a rate of one percent is `ONE_Q32 / 100`.

mod accuracy;
mod bit_array;
mod filter;
mod fixed;
mod hash;
mod params;
mod text;

pub use accuracy::AccuracyTracker;
pub use bit_array::BitArray;
pub use filter::PrecisionBloom;
pub use fixed::ONE_Q32;
pub use hash::HashStrategy;
pub use params::BloomParameters;
