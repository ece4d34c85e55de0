use stellar_contracts::parametric_insurance::{
    DataSourceType, Error, ParametricInsurance, PolicyStatus, SatelliteWeatherData,
    TriggerDirection, WeatherDataStatus,
};

const PREMIUM: i128 = 10_000_000;
const COVERAGE: i128 = 1_000_000_000;
const TERM: u64 = 2_592_000; // 30 days
const THRESHOLD: i128 = 50_0000000; // 50.0 scaled ×10^7

const ADMIN: u64 = 1;
const ORACLE: u64 = 2;
const HOLDER: u64 = 3;
const STRANGER: u64 = 4;
const FUNDER: u64 = 5;
const TOKEN: u64 = 60;
const SAT_ORACLE: u64 = 61;

fn text(s: &str) -> Vec<u8> {
    s.as_bytes().to_vec()
}

fn setup() -> (ParametricInsurance, u32) {
    let mut c = ParametricInsurance::new();
    c.initialize(ADMIN).unwrap();
    c.set_oracle(ADMIN, ORACLE, true).unwrap();
    let product_id = c
        .create_product(
            ADMIN,
            text("Drought Cover"),
            PREMIUM,
            COVERAGE,
            ORACLE,
            text("RAINFALL_MM"),
            THRESHOLD,
            TriggerDirection::AtOrBelow,
            TERM,
        )
        .unwrap();
    (c, product_id)
}

#[test]
fn insurance_initialize_sets_admin() {
    let (c, _) = setup();
    assert_eq!(c.get_admin(), Ok(ADMIN));
    assert!(c.is_initialized());
}

#[test]
fn insurance_initialize_twice_fails() {
    let (mut c, _) = setup();
    assert_eq!(c.initialize(ADMIN), Err(Error::AlreadyInitialized));
}

#[test]
fn test_create_product_increments_count() {
    let (mut c, _) = setup();
    let id2 = c
        .create_product(
            ADMIN,
            text("Flood Cover"),
            PREMIUM,
            COVERAGE,
            ORACLE,
            text("WATER_LEVEL_CM"),
            100_0000000i128,
            TriggerDirection::AtOrAbove,
            TERM,
        )
        .unwrap();
    assert_eq!(id2, 2);
    assert_eq!(c.product_count(), 2);
}

#[test]
fn test_create_product_empty_name_fails() {
    let (mut c, _) = setup();
    let result = c.create_product(
        ADMIN,
        text(""),
        PREMIUM,
        COVERAGE,
        ORACLE,
        text("X"),
        THRESHOLD,
        TriggerDirection::AtOrBelow,
        TERM,
    );
    assert_eq!(result, Err(Error::EmptyName));
}

#[test]
fn test_create_product_non_admin_fails() {
    let (mut c, _) = setup();
    let result = c.create_product(
        STRANGER,
        text("X"),
        PREMIUM,
        COVERAGE,
        ORACLE,
        text("X"),
        THRESHOLD,
        TriggerDirection::AtOrBelow,
        TERM,
    );
    assert_eq!(result, Err(Error::Unauthorized));
}

#[test]
fn create_product_validation_errors() {
    let (mut c, _) = setup();
    let mk = |c: &mut ParametricInsurance, premium: i128, coverage: i128, term: u64| {
        c.create_product(
            ADMIN,
            text("P"),
            premium,
            coverage,
            ORACLE,
            text("K"),
            THRESHOLD,
            TriggerDirection::AtOrBelow,
            term,
        )
    };
    assert_eq!(mk(&mut c, 0, COVERAGE, TERM), Err(Error::ZeroPremium));
    assert_eq!(mk(&mut c, PREMIUM, 0, TERM), Err(Error::ZeroCoverage));
    assert_eq!(mk(&mut c, PREMIUM, COVERAGE, 0), Err(Error::InvalidTrigger));
    assert_eq!(c.product_count(), 1);
}

#[test]
fn test_buy_policy_creates_active_policy() {
    let (mut c, product_id) = setup();
    let policy_id = c.buy_policy(HOLDER, product_id, 0).unwrap();
    assert_eq!(policy_id, 1);
    let policy = c.get_policy(policy_id).unwrap();
    assert_eq!(policy.holder, HOLDER);
    assert_eq!(policy.status, PolicyStatus::Active);
    assert_eq!(policy.coverage_amount, COVERAGE);
    assert_eq!(policy.expires_at, TERM);
}

#[test]
fn test_buy_policy_inactive_product_fails() {
    let (mut c, product_id) = setup();
    c.deactivate_product(ADMIN, product_id).unwrap();
    assert_eq!(c.buy_policy(HOLDER, product_id, 0), Err(Error::ProductInactive));
    assert!(!c.get_product(product_id).unwrap().is_active);
}

#[test]
fn buy_policy_unknown_product_fails() {
    let (mut c, _) = setup();
    assert_eq!(c.buy_policy(HOLDER, 9, 0), Err(Error::ProductNotFound));
    assert_eq!(c.buy_policy(HOLDER, 1, u64::MAX), Err(Error::Overflow));
}

#[test]
fn test_submit_reading_unknown_oracle_fails() {
    let (mut c, _) = setup();
    let result = c.submit_reading(STRANGER, text("RAINFALL_MM"), 30_0000000i128, 0);
    assert_eq!(result, Err(Error::UnknownOracle));
}

#[test]
fn test_submit_reading_stored_correctly() {
    let (mut c, _) = setup();
    c.submit_reading(ORACLE, text("RAINFALL_MM"), 30_0000000i128, 0).unwrap();
    let reading = c.get_reading(ORACLE, &text("RAINFALL_MM")).unwrap();
    assert_eq!(reading.value, 30_0000000);
}

#[test]
fn later_reading_replaces_earlier() {
    let (mut c, _) = setup();
    c.submit_reading(ORACLE, text("RAINFALL_MM"), 1, 5).unwrap();
    c.submit_reading(ORACLE, text("OTHER"), 2, 6).unwrap();
    c.submit_reading(ORACLE, text("RAINFALL_MM"), 3, 7).unwrap();
    let reading = c.get_reading(ORACLE, &text("RAINFALL_MM")).unwrap();
    assert_eq!(reading.value, 3);
    assert_eq!(reading.timestamp, 7);
    assert_eq!(c.get_reading(ORACLE, &text("OTHER")).unwrap().value, 2);
    assert!(c.get_reading(STRANGER, &text("OTHER")).is_none());
}

#[test]
fn test_process_claim_trigger_met_pays_out() {
    let (mut c, product_id) = setup();
    let policy_id = c.buy_policy(HOLDER, product_id, 0).unwrap();
    // Rainfall = 20mm, threshold = 50mm, direction = AtOrBelow → triggered
    c.submit_reading(ORACLE, text("RAINFALL_MM"), 20_0000000i128, 0).unwrap();
    let payout = c.process_claim(policy_id, 0).unwrap();
    assert_eq!(payout, COVERAGE);
    let policy = c.get_policy(policy_id).unwrap();
    assert_eq!(policy.status, PolicyStatus::Claimed);
    assert_eq!(policy.payout_amount, Some(COVERAGE));
    assert_eq!(policy.trigger_value, Some(20_0000000i128));
}

#[test]
fn test_process_claim_trigger_not_met_fails() {
    let (mut c, product_id) = setup();
    let policy_id = c.buy_policy(HOLDER, product_id, 0).unwrap();
    c.submit_reading(ORACLE, text("RAINFALL_MM"), 80_0000000i128, 0).unwrap();
    assert_eq!(c.process_claim(policy_id, 0), Err(Error::TriggerNotMet));
}

#[test]
fn test_process_claim_no_oracle_data_fails() {
    let (mut c, product_id) = setup();
    let policy_id = c.buy_policy(HOLDER, product_id, 0).unwrap();
    assert_eq!(c.process_claim(policy_id, 0), Err(Error::OracleDataStale));
}

#[test]
fn test_process_claim_stale_oracle_data_fails() {
    let (mut c, product_id) = setup();
    let policy_id = c.buy_policy(HOLDER, product_id, 0).unwrap();
    c.submit_reading(ORACLE, text("RAINFALL_MM"), 20_0000000i128, 0).unwrap();
    // Advance past the 24h staleness window
    assert_eq!(c.process_claim(policy_id, 86_401), Err(Error::OracleDataStale));
    assert_eq!(c.process_claim(policy_id, 86_400), Ok(COVERAGE));
}

#[test]
fn test_process_claim_double_claim_fails() {
    let (mut c, product_id) = setup();
    let policy_id = c.buy_policy(HOLDER, product_id, 0).unwrap();
    c.submit_reading(ORACLE, text("RAINFALL_MM"), 10_0000000i128, 0).unwrap();
    c.process_claim(policy_id, 0).unwrap();
    assert_eq!(c.process_claim(policy_id, 0), Err(Error::PolicyAlreadyClaimed));
}

#[test]
fn test_process_claim_expired_policy_fails() {
    let (mut c, product_id) = setup();
    let policy_id = c.buy_policy(HOLDER, product_id, 0).unwrap();
    c.submit_reading(ORACLE, text("RAINFALL_MM"), 10_0000000i128, 0).unwrap();
    assert_eq!(c.process_claim(policy_id, TERM + 1), Err(Error::PolicyExpired));
    // A failed call leaves the policy as it was.
    assert_eq!(c.get_policy(policy_id).unwrap().status, PolicyStatus::Active);
}

#[test]
fn test_at_or_above_trigger_fires_correctly() {
    let (mut c, _) = setup();
    let flood_product = c
        .create_product(
            ADMIN,
            text("Flood Cover"),
            PREMIUM,
            COVERAGE,
            ORACLE,
            text("WATER_LEVEL_CM"),
            100_0000000i128,
            TriggerDirection::AtOrAbove,
            TERM,
        )
        .unwrap();
    let policy_id = c.buy_policy(HOLDER, flood_product, 0).unwrap();
    c.submit_reading(ORACLE, text("WATER_LEVEL_CM"), 150_0000000i128, 0).unwrap();
    assert_eq!(c.process_claim(policy_id, 0), Ok(COVERAGE));
}

#[test]
fn test_expire_policy_after_term() {
    let (mut c, product_id) = setup();
    let policy_id = c.buy_policy(HOLDER, product_id, 0).unwrap();
    assert_eq!(c.expire_policy(policy_id, TERM), Err(Error::PolicyExpired));
    c.expire_policy(policy_id, TERM + 1).unwrap();
    let policy = c.get_policy(policy_id).unwrap();
    assert_eq!(policy.status, PolicyStatus::Expired);
    assert_eq!(c.expire_policy(policy_id, TERM + 1), Err(Error::PolicyNotActive));
}

/// The crop setup with the host's token ledger kept alongside.
struct CropSetup {
    c: ParametricInsurance,
    now: u64,
    product_id: u32,
    holder_balance: i128,
    contract_balance: i128,
}

impl CropSetup {
    fn buy(&mut self) -> Result<u32, Error> {
        let premium = self.c.get_product(self.product_id).unwrap().premium;
        let id = self.c.buy_crop_policy(
            HOLDER,
            self.product_id,
            self.now,
            self.contract_balance + premium,
        )?;
        self.holder_balance -= premium;
        self.contract_balance += premium;
        Ok(id)
    }

    fn claim(&mut self, policy_id: u32, reading: &SatelliteWeatherData) -> Result<i128, Error> {
        let paid = self.c.process_satellite_claim(policy_id, reading, self.now)?;
        self.contract_balance -= paid;
        self.holder_balance += paid;
        Ok(paid)
    }
}

fn setup_crop(reserve_amount: i128) -> CropSetup {
    let mut c = ParametricInsurance::new();
    c.initialize(ADMIN).unwrap();
    c.configure_reserve(ADMIN, TOKEN).unwrap();
    let mut contract_balance = 0;
    if reserve_amount > 0 {
        c.fund_reserve(FUNDER, reserve_amount).unwrap();
        contract_balance += reserve_amount;
    }
    let product_id = c
        .create_crop_product(
            ADMIN,
            text("Satellite Drought Cover"),
            10,
            1_000,
            SAT_ORACLE,
            text("KE-Nakuru-001"),
            500,
            TriggerDirection::AtOrBelow,
            86_400,
            3_600,
        )
        .unwrap();
    CropSetup { c, now: 1_000, product_id, holder_balance: 100, contract_balance }
}

fn weather(setup: &CropSetup, id: u32, precipitation: u32) -> SatelliteWeatherData {
    SatelliteWeatherData {
        id,
        location: text("KE-Nakuru-001"),
        latitude: -3_0364,
        longitude: 363_068,
        temperature: 2_500,
        humidity: 4_000,
        pressure: 10_132,
        wind_speed: 120,
        wind_direction: 180,
        precipitation,
        timestamp: setup.now,
        status: WeatherDataStatus::Verified,
        submitter: 99,
        confirmations: 2,
        source_type: DataSourceType::Satellite,
    }
}

#[test]
fn test_crop_product_and_funded_policy_reserve_full_liability() {
    let mut s = setup_crop(1_000);
    let terms = s.c.get_crop_terms(s.product_id).unwrap();
    assert_eq!(terms.region, text("KE-Nakuru-001"));
    let product = s.c.get_product(s.product_id).unwrap();
    assert_eq!(product.parameter_key, text("SAT_RAIN"));
    let policy_id = s.buy().unwrap();
    assert!(s.c.is_policy_funded(policy_id));
    assert_eq!(s.c.get_total_reserved(), 1_000);
    assert_eq!(s.holder_balance, 90);
    assert_eq!(s.contract_balance, 1_010);
}

#[test]
fn test_verified_satellite_drought_triggers_automatic_token_payout() {
    let mut s = setup_crop(1_000);
    let policy_id = s.buy().unwrap();
    let reading = weather(&s, 7, 200);
    let payout = s.claim(policy_id, &reading).unwrap();
    assert_eq!(payout, 1_000);
    assert_eq!(s.holder_balance, 1_090);
    assert_eq!(s.contract_balance, 10);
    assert_eq!(s.c.get_total_reserved(), 0);
    assert!(!s.c.is_policy_funded(policy_id));
    let policy = s.c.get_policy(policy_id).unwrap();
    assert_eq!(policy.status, PolicyStatus::Claimed);
    assert_eq!(policy.trigger_value, Some(200));
}

#[test]
fn test_non_triggering_rainfall_preserves_policy_and_reserve() {
    let mut s = setup_crop(1_000);
    let policy_id = s.buy().unwrap();
    let reading = weather(&s, 8, 800);
    assert_eq!(s.claim(policy_id, &reading), Err(Error::TriggerNotMet));
    assert_eq!(s.c.get_policy(policy_id).unwrap().status, PolicyStatus::Active);
    assert_eq!(s.c.get_total_reserved(), 1_000);
}

#[test]
fn test_unverified_or_non_satellite_observation_is_rejected() {
    let mut s = setup_crop(1_000);
    let policy_id = s.buy().unwrap();
    let mut pending = weather(&s, 9, 200);
    pending.status = WeatherDataStatus::Pending;
    assert_eq!(s.claim(policy_id, &pending), Err(Error::InvalidOracleData));

    let mut station = weather(&s, 10, 200);
    station.source_type = DataSourceType::GroundStation;
    assert_eq!(s.claim(policy_id, &station), Err(Error::InvalidOracleData));

    let mut unconfirmed = weather(&s, 11, 200);
    unconfirmed.confirmations = 0;
    assert_eq!(s.claim(policy_id, &unconfirmed), Err(Error::InvalidOracleData));

    let mut finalized = weather(&s, 12, 200);
    finalized.status = WeatherDataStatus::Finalized;
    assert_eq!(s.claim(policy_id, &finalized), Ok(1_000));
}

#[test]
fn test_wrong_region_and_stale_observation_are_rejected() {
    let mut s = setup_crop(1_000);
    let policy_id = s.buy().unwrap();
    let mut wrong_region = weather(&s, 11, 200);
    wrong_region.location = text("KE-Kisumu-001");
    assert_eq!(s.claim(policy_id, &wrong_region), Err(Error::WrongRegion));

    let stale = weather(&s, 12, 200);
    s.now += 3_601;
    assert_eq!(s.claim(policy_id, &stale), Err(Error::InvalidObservation));
}

#[test]
fn test_pre_policy_and_future_observations_are_rejected() {
    let mut s = setup_crop(1_000);
    let policy_id = s.buy().unwrap();
    let mut old = weather(&s, 13, 200);
    old.timestamp -= 1;
    assert_eq!(s.claim(policy_id, &old), Err(Error::InvalidObservation));

    let mut future = weather(&s, 14, 200);
    future.timestamp += 1;
    assert_eq!(s.claim(policy_id, &future), Err(Error::InvalidObservation));
}

#[test]
fn test_insufficient_reserve_rolls_back_premium_and_policy() {
    let mut s = setup_crop(500);
    assert_eq!(s.buy(), Err(Error::InsufficientReserve));
    assert_eq!(s.holder_balance, 100);
    assert_eq!(s.c.policy_count(), 0);
    assert_eq!(s.c.get_total_reserved(), 0);
}

#[test]
fn test_admin_cannot_withdraw_reserved_claim_funds() {
    let mut s = setup_crop(1_000);
    let policy_id = s.buy().unwrap();
    assert_eq!(
        s.c.withdraw_excess_reserve(ADMIN, 11, s.contract_balance),
        Err(Error::InsufficientReserve)
    );
    s.c.withdraw_excess_reserve(ADMIN, 10, s.contract_balance).unwrap();
    s.contract_balance -= 10;
    assert_eq!(s.c.get_total_reserved(), 1_000);
    assert_eq!(s.c.get_policy(policy_id).unwrap().status, PolicyStatus::Active);
    assert_eq!(s.c.withdraw_excess_reserve(STRANGER, 1, s.contract_balance), Err(Error::Unauthorized));
    assert_eq!(s.c.withdraw_excess_reserve(ADMIN, 0, s.contract_balance), Err(Error::InvalidConfig));
}

#[test]
fn test_expiring_crop_policy_releases_reserved_liability() {
    let mut s = setup_crop(1_000);
    let policy_id = s.buy().unwrap();
    s.now += 86_401;
    s.c.expire_policy(policy_id, s.now).unwrap();
    assert_eq!(s.c.get_total_reserved(), 0);
    assert!(!s.c.is_policy_funded(policy_id));
}

#[test]
fn test_crop_policy_rejects_legacy_reading_claim_path_and_double_claim() {
    let mut s = setup_crop(1_000);
    assert_eq!(s.c.buy_policy(HOLDER, s.product_id, s.now), Err(Error::SatelliteDataRequired));
    let policy_id = s.buy().unwrap();
    assert_eq!(s.c.process_claim(policy_id, s.now), Err(Error::SatelliteDataRequired));
    let reading = weather(&s, 15, 200);
    s.claim(policy_id, &reading).unwrap();
    assert_eq!(s.claim(policy_id, &reading), Err(Error::PolicyAlreadyClaimed));
}

#[test]
fn test_crop_configuration_validation_and_single_reserve_asset() {
    let mut s = setup_crop(1_000);
    assert_eq!(s.c.configure_reserve(ADMIN, TOKEN), Err(Error::ReserveAlreadyConfigured));
    assert_eq!(
        s.c.create_crop_product(
            ADMIN,
            text("Invalid"),
            10,
            1_000,
            SAT_ORACLE,
            text("KE-Nakuru-001"),
            500,
            TriggerDirection::AtOrBelow,
            86_400,
            7 * 86_400 + 1,
        ),
        Err(Error::InvalidConfig)
    );
    assert_eq!(
        s.c.create_crop_product(
            ADMIN,
            text("Name"),
            10,
            1_000,
            SAT_ORACLE,
            text(""),
            500,
            TriggerDirection::AtOrBelow,
            86_400,
            60,
        ),
        Err(Error::EmptyName)
    );
}

#[test]
fn crop_policy_requires_reserve_and_funding() {
    let mut c = ParametricInsurance::new();
    c.initialize(ADMIN).unwrap();
    assert_eq!(c.fund_reserve(FUNDER, 10), Err(Error::ReserveNotConfigured));
    let pid = c
        .create_crop_product(
            ADMIN,
            text("Crop"),
            10,
            1_000,
            SAT_ORACLE,
            text("R"),
            500,
            TriggerDirection::AtOrBelow,
            86_400,
            60,
        )
        .unwrap();
    assert_eq!(c.buy_crop_policy(HOLDER, pid, 0, 5_000), Err(Error::ReserveNotConfigured));
    assert_eq!(c.buy_crop_policy(HOLDER, 1, 0, 5_000).err(), Some(Error::ReserveNotConfigured));
    assert_eq!(c.buy_crop_policy(HOLDER, 9, 0, 5_000), Err(Error::SatelliteDataRequired));
    assert_eq!(c.fund_reserve(FUNDER, 0), Err(Error::InvalidConfig));
}
