//! Verified state machines and fixed-point arithmetic for a suite of
//! ledger contracts: an AMM pool, an options protocol, an algorithmic
//! stablecoin, parametric insurance and more.
//!
//! Each contract is a plain value type whose methods take the caller, the
//! ledger time and any externally obtained data as arguments and return the
//! outcome; a failed call leaves the state exactly as it was.
use vstd::prelude::*;

pub mod amm_pool;
pub mod bytes;
pub mod charity_tracker;
pub mod fixed;
pub mod identity_registry;
pub mod insurance_oracle;
pub mod ledger;
pub mod nft_fractional;
pub mod options_protocol;
pub mod perpetuals;
pub mod price_feed_adapter;
pub mod parametric_insurance;
pub mod reputation_system;
pub mod royalty;
pub mod sports_betting;
pub mod stablecoin;
pub mod staking_derivatives;
pub mod subscription;
pub mod upgradeable;
pub mod yield_farming;

verus! {
} // verus!
