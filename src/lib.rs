//! BLS12-381 point codec, subgroup logic and pairing orchestration.
pub mod engine;
pub mod error;
pub mod field;
pub mod flags;
pub mod g1;
pub mod g2;
pub mod pairing;
