//! Total and circulating supply of a token, computed from on-chain reads and
//! an off-chain description of vesting-locked allocations.

pub mod batch;
pub mod config;
pub mod supply;
pub mod utils;
pub mod vesting;
