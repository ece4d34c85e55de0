//! Values stored and returned by the parametric insurance contract.
//!
//! Text (product names, parameter keys, regions) is held as UTF-8 bytes.
use vstd::prelude::*;

verus! {

#[derive(Copy, Clone, Debug, PartialEq, Eq, Structural)]
pub enum Error {
    AlreadyInitialized,
    NotInitialized,
    Unauthorized,
    UnknownOracle,
    EmptyName,
    ZeroPremium,
    ZeroCoverage,
    InvalidTrigger,
    ProductNotFound,
    ProductInactive,
    PolicyNotFound,
    PolicyNotActive,
    PolicyAlreadyClaimed,
    PolicyExpired,
    OracleDataStale,
    TriggerNotMet,
    Overflow,
    InvalidConfig,
    ReserveAlreadyConfigured,
    ReserveNotConfigured,
    InsufficientReserve,
    SatelliteDataRequired,
    PolicyNotFunded,
    InvalidOracleData,
    WrongRegion,
    InvalidObservation,
}

/// Which side of the threshold pays out.
#[derive(Copy, Clone, Debug, PartialEq, Eq, Structural)]
pub enum TriggerDirection {
    AtOrAbove,
    AtOrBelow,
}

#[derive(Copy, Clone, Debug, PartialEq, Eq, Structural)]
pub enum PolicyStatus {
    Active,
    Claimed,
    Expired,
}

/// Review state of a weather observation held by the weather oracle.
#[derive(Copy, Clone, Debug, PartialEq, Eq, Structural)]
pub enum WeatherDataStatus {
    Pending,
    Verified,
    Finalized,
}

/// Where a weather observation came from.
#[derive(Copy, Clone, Debug, PartialEq, Eq, Structural)]
pub enum DataSourceType {
    Satellite,
    GroundStation,
}

/// An insurance product: premium, coverage and the parametric trigger.
#[derive(Debug)]
pub struct Product {
    pub name: Vec<u8>,
    pub premium: i128,
    pub coverage_amount: i128,
    pub oracle: u64,
    pub parameter_key: Vec<u8>,
    pub trigger_threshold: i128,
    pub trigger_direction: TriggerDirection,
    pub term_secs: u64,
    pub is_active: bool,
}

#[derive(Copy, Clone, Debug, PartialEq, Eq, Structural)]
pub struct Policy {
    pub product_id: u32,
    pub holder: u64,
    pub premium_paid: i128,
    pub coverage_amount: i128,
    pub purchased_at: u64,
    pub expires_at: u64,
    pub status: PolicyStatus,
    pub trigger_value: Option<i128>,
    pub payout_amount: Option<i128>,
}

/// The latest value an oracle pushed for a parameter.
#[derive(Debug)]
pub struct OracleReading {
    pub parameter_key: Vec<u8>,
    pub value: i128,
    pub timestamp: u64,
}

/// Extra terms of a crop product settled from satellite rainfall.
#[derive(Debug)]
pub struct CropTerms {
    pub region: Vec<u8>,
    pub max_observation_age: u64,
}

#[derive(Copy, Clone, Debug, PartialEq, Eq, Structural)]
pub struct ReserveConfig {
    pub settlement_token: u64,
}

/// A weather observation as published by the weather oracle.
#[derive(Debug)]
pub struct SatelliteWeatherData {
    pub id: u32,
    pub location: Vec<u8>,
    pub latitude: i64,
    pub longitude: i64,
    pub temperature: i64,
    pub humidity: u32,
    pub pressure: u32,
    pub wind_speed: u32,
    pub wind_direction: u32,
    /// Rainfall in millimetres × 10.
    pub precipitation: u32,
    pub timestamp: u64,
    pub status: WeatherDataStatus,
    pub submitter: u64,
    pub confirmations: u32,
    pub source_type: DataSourceType,
}

} // verus!
