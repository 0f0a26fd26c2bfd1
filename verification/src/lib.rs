//! Verified core of a transmuter pool: a contract that swaps coins of
//! different denominations at fixed ratios, keeps share accounting for
//! liquidity providers, and mints or burns an alloyed asset that stands for
//! every pool asset at once.
//!
//! All state here is plain data; reading and writing chain storage, querying
//! balances and serialising messages happen around this crate.

pub mod alloyed_asset;
pub mod asset;
pub mod asset_pool;
pub mod coin;
pub mod contract;
pub mod decimal;
pub mod error;
pub mod math;
pub mod response;
pub mod shares;
pub mod swap;
pub mod transmuter_pool;
