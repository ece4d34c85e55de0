//! Values stored and returned by the options protocol.
use vstd::prelude::*;

verus! {

/// Whether the option gives the right to buy or sell.
#[derive(Copy, Clone, Debug, PartialEq, Eq, Structural)]
pub enum OptionKind {
    Call,
    Put,
}

/// Lifecycle state of an option contract.
#[derive(Copy, Clone, Debug, PartialEq, Eq, Structural)]
pub enum OptionStatus {
    /// Written and available for exercise.
    Active,
    /// Exercised by the holder.
    Exercised,
    /// Expired without exercise.
    Expired,
    /// Cancelled by the writer before expiry.
    Cancelled,
    /// The writer must add collateral before the position can be restored.
    MarginCalled,
}

/// Inputs to the deterministic Black-Scholes calculator.
///
/// Prices, volatility, and the continuously compounded rate use seven decimal
/// fixed-point precision. For example, 20% volatility is `2_000_000`.
#[derive(Copy, Clone, Debug, PartialEq, Eq, Structural)]
pub struct GreeksInput {
    pub spot_price: i128,
    pub strike_price: i128,
    pub volatility: i128,
    pub risk_free_rate: i128,
    pub time_to_expiry: u64,
    pub kind: OptionKind,
}

/// Black-Scholes price and Greeks, all represented with seven decimals.
/// Theta is annualized and vega/rho measure a full `1.0` input change.
#[derive(Copy, Clone, Debug, PartialEq, Eq, Structural)]
pub struct Greeks {
    pub price: i128,
    pub delta: i128,
    pub gamma: i128,
    pub vega: i128,
    pub theta: i128,
    pub rho: i128,
}

/// Immutable token and risk controls for the margin pool.
#[derive(Copy, Clone, Debug, PartialEq, Eq, Structural)]
pub struct MarginConfig {
    pub settlement_token: u64,
    pub oracle: u64,
    pub maintenance_margin_bps: u32,
    pub max_price_age: u64,
}

/// A writer's token balance and the portion reserved by open positions.
#[derive(Copy, Clone, Debug, PartialEq, Eq, Structural)]
pub struct MarginAccount {
    pub balance: i128,
    pub locked: i128,
}

/// Collateral attached to an expiry-only, cash-settled option.
#[derive(Copy, Clone, Debug, PartialEq, Eq, Structural)]
pub struct MarginPosition {
    pub locked: i128,
    pub max_payout: i128,
}

/// An oracle observation used by risk checks and settlement.
#[derive(Copy, Clone, Debug, PartialEq, Eq, Structural)]
pub struct PriceData {
    pub price: i128,
    pub updated_at: u64,
}

/// A single option contract. Accounts and underlying symbols are identified
/// by numbers.
#[derive(Copy, Clone, Debug, PartialEq, Eq, Structural)]
pub struct OptionContract {
    /// Auto-incremented ID.
    pub id: u32,
    /// Account that wrote (sold) the option.
    pub writer: u64,
    /// Account that holds (bought) the option.
    pub holder: u64,
    /// Underlying asset symbol.
    pub underlying: u64,
    /// Strike price in stroops.
    pub strike_price: i128,
    /// Premium paid by holder to writer (in stroops).
    pub premium: i128,
    /// Notional amount of underlying (in stroops).
    pub amount: i128,
    /// Ledger timestamp after which the option expires.
    pub expiry: u64,
    /// Call or Put.
    pub kind: OptionKind,
    /// Current status.
    pub status: OptionStatus,
}

#[derive(Copy, Clone, Debug, PartialEq, Eq, Structural)]
pub enum Error {
    AlreadyInitialized,
    NotInitialized,
    Unauthorized,
    OptionNotFound,
    OptionNotActive,
    OptionExpired,
    OptionNotExpired,
    InvalidStrike,
    InvalidPremium,
    InvalidAmount,
    InvalidExpiry,
    ContractPaused,
    WriterCannotBeHolder,
    PoolAlreadyConfigured,
    PoolNotConfigured,
    InvalidMarginConfig,
    InvalidPrice,
    StalePrice,
    InsufficientMargin,
    PositionNotCollateralized,
    EuropeanOnly,
    InvalidMaxPayout,
    InvalidVolatility,
    InvalidRate,
    InvalidTimeToExpiry,
    MathOverflow,
    MarginCallNotActive,
}

} // verus!
