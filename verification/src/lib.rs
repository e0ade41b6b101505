//! Building blocks for systems code.
//!
//! - [`lamlock`]: a flat-combining lock with an MCS-style queue
//! - [`punyenc`]: a Punycode encoder
//! - [`vdso_rng`]: the way to the random number generator in the Linux vDSO

pub mod lamlock;
pub mod punyenc;
pub mod vdso_rng;
