//! Values stored and returned by the AMM pool.
use vstd::prelude::*;

verus! {

/// NFT collection analytics.
#[derive(Copy, Clone, Debug, PartialEq, Eq, Structural)]
pub struct CollectionStats {
    pub floor_price: i128,
    pub ceiling_price: i128,
    pub total_volume: i128,
    pub trade_count: u32,
    pub unique_holders: u32,
    pub last_update: u64,
}

/// Risk controls for the opt-in dynamic fee model.
#[derive(Copy, Clone, Debug, PartialEq, Eq, Structural)]
pub struct DynamicFeeConfig {
    /// Lower bound for the effective swap fee.
    pub min_fee_bps: i128,
    /// Upper bound for the effective swap fee.
    pub max_fee_bps: i128,
    /// Portion of recent volatility added to the fee (10_000 = 1x).
    pub volatility_multiplier_bps: i128,
    /// Portion of per-swap reserve utilization added to the fee.
    pub utilization_multiplier_bps: i128,
    /// Weight assigned to the latest absolute price return.
    pub ema_alpha_bps: i128,
    /// Seconds after which inactive historical volatility fully decays.
    pub volatility_window: u64,
    /// Maximum fee-inclusive execution price impact accepted by the pool.
    pub max_price_impact_bps: i128,
}

/// Current volatility observation, expressed in basis points.
#[derive(Copy, Clone, Debug, PartialEq, Eq, Structural)]
pub struct VolatilityState {
    pub ema_volatility_bps: i128,
    pub last_price: i128,
    pub last_timestamp: u64,
}

/// Deterministic swap preview including each dynamic fee input.
#[derive(Copy, Clone, Debug, PartialEq, Eq, Structural)]
pub struct SwapQuote {
    pub amount_out: i128,
    pub fee_bps: i128,
    pub price_impact_bps: i128,
    pub volatility_bps: i128,
    pub utilization_bps: i128,
}

#[derive(Copy, Clone, Debug, PartialEq, Eq, Structural)]
pub enum Error {
    AlreadyInitialized,
    NotInitialized,
    Unauthorized,
    ZeroAmount,
    InsufficientLiquidity,
    SlippageExceeded,
    InsufficientLpBalance,
    InvalidToken,
    Overflow,
    ZeroOutput,
    InvalidFee,
    InvalidDynamicFeeConfig,
    PriceImpactExceeded,
    FeeLimitExceeded,
    DeadlineExpired,
}

} // verus!
