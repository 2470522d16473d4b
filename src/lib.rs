//! A fixed-size Bloom filter of 2048 bits, the enhanced double hashing that
//! places an element in it, and a saturation procedure that turns the filter
//! into a work stamp.
pub mod bits;
pub mod filter;
pub mod hashing;
pub mod saturation;

pub use bits::BitVector;
pub use filter::BloomFilter;
pub use hashing::{hashes, indices_for};
pub use saturation::{Saturation, THRESHOLD, batch_for, saturate_step, solves};
