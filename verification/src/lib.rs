//! Verification of proposal cells and the counting of their votes.
pub mod byte_map;
pub mod bytes;
pub mod chain;
pub mod encoding;
pub mod error;
pub mod hash;
pub mod proposal;
pub mod types;
