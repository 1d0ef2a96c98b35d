//! Balloon hashing: a memory-hard password-hashing construction.
//!
//! The algorithm derives a fixed-size digest from a password and a salt
//! while forcing the caller to materialize and repeatedly mix a large
//! working buffer of hash blocks.

mod balloon;
mod blake2b256;
mod error;
mod prelude;

pub use crate::balloon::Balloon;
pub use crate::balloon::BalloonBuilder;
pub use crate::blake2b256::Blake2b256;
pub use crate::blake2b256::Blake2b256Balloon;
pub use crate::blake2b256::Blake2b256BalloonBuilder;
pub use crate::blake2b256::H256;
pub use crate::blake2b256::U256;
pub use crate::error::Error;
pub use crate::prelude::FixedHash;
pub use crate::prelude::FixedUint;
pub use crate::prelude::HashAlgo;
