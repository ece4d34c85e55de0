use stellar_contracts::insurance_oracle::{
    median, Error, InsuranceOracle, InsuranceOracleAggregator, OracleError, RiskData,
};

const ADMIN: u64 = 1;
const SOURCE: u64 = 2;

fn risk(source: u64, value: i128, timestamp: u64) -> RiskData {
    RiskData {
        source,
        risk_type: b"flood".to_vec(),
        value,
        confidence: 90,
        timestamp,
        metadata: b"gauge 7".to_vec(),
    }
}

#[test]
fn approved_sources_submit_risk_data() {
    let mut o = InsuranceOracle::new();
    assert_eq!(o.submit_risk_data(risk(SOURCE, 1, 1)), Err(Error::NotFound));
    o.initialize(ADMIN).unwrap();
    assert_eq!(o.initialize(ADMIN), Err(Error::CapExceeded));
    assert_eq!(o.submit_risk_data(risk(SOURCE, 1, 1)), Err(Error::Unauthorized));
    o.add_data_source(ADMIN, SOURCE).unwrap();
    o.add_data_source(ADMIN, SOURCE).unwrap();
    assert_eq!(o.get_sources_fn().unwrap(), vec![SOURCE]);
    o.submit_risk_data(risk(SOURCE, 10, 100)).unwrap();
    o.submit_risk_data(risk(SOURCE, 20, 200)).unwrap();
    o.submit_risk_data(risk(SOURCE, 30, 300)).unwrap();
    let all = o.get_risk_data(&b"flood".to_vec()).unwrap();
    assert_eq!(all.len(), 3);
    let window = o.get_historical_claims(&b"flood".to_vec(), 150, 300).unwrap();
    assert_eq!(window.iter().map(|d| d.value).collect::<Vec<_>>(), vec![20, 30]);
}

#[test]
fn submissions_are_validated_and_breaker_stops_them() {
    let mut o = InsuranceOracle::new();
    o.initialize(ADMIN).unwrap();
    o.add_data_source(ADMIN, SOURCE).unwrap();
    let mut bad = risk(SOURCE, 1, 1);
    bad.confidence = 101;
    assert_eq!(o.submit_risk_data(bad), Err(Error::InvalidInput));
    let mut bad = risk(SOURCE, 1, 1);
    bad.metadata = vec![b'm'; 257];
    assert_eq!(o.submit_risk_data(bad), Err(Error::InvalidInput));
    assert_eq!(o.activate_circuit_breaker(SOURCE), Err(Error::Unauthorized));
    o.activate_circuit_breaker(ADMIN).unwrap();
    assert_eq!(o.submit_risk_data(risk(SOURCE, 1, 1)), Err(Error::CircuitOpen));
    o.deactivate_circuit_breaker(ADMIN).unwrap();
    o.submit_risk_data(risk(SOURCE, 1, 1)).unwrap();
    o.remove_data_source(ADMIN, SOURCE).unwrap();
    assert_eq!(o.submit_risk_data(risk(SOURCE, 1, 1)), Err(Error::Unauthorized));
    assert_eq!(o.set_verification_threshold(ADMIN, 0), Err(Error::InvalidInput));
    o.set_verification_threshold(ADMIN, 5).unwrap();
    assert_eq!(o.get_threshold_fn(), Ok(5));
}

#[test]
fn source_cap_is_twenty() {
    let mut o = InsuranceOracle::new();
    o.initialize(ADMIN).unwrap();
    for s in 0..20 {
        o.add_data_source(ADMIN, 100 + s).unwrap();
    }
    assert_eq!(o.add_data_source(ADMIN, 200), Err(Error::CapExceeded));
}

#[test]
fn median_of_fresh_reports() {
    let mut a = InsuranceOracleAggregator::new();
    assert_eq!(a.get_median_price(0), Err(OracleError::InsufficientReporters));
    a.aggregator_initialize(ADMIN, 300).unwrap();
    assert_eq!(a.aggregator_initialize(ADMIN, 300), Err(OracleError::AlreadyInitialized));
    for r in 10..14 {
        a.set_reporter_status(r, true).unwrap();
    }
    assert_eq!(a.get_median_price(1_000), Err(OracleError::NoValidPriceFeeds));
    a.submit_price(10, 500, 1_000).unwrap();
    a.submit_price(11, 100, 1_000).unwrap();
    a.submit_price(12, 300, 1_000).unwrap();
    assert_eq!(a.get_median_price(1_000), Ok(300));
    a.submit_price(13, 200, 1_000).unwrap();
    assert_eq!(a.get_median_price(1_000), Ok(250));
    // Reports older than 300 seconds no longer count.
    a.submit_price(13, 1_000, 1_200).unwrap();
    assert_eq!(a.get_median_price(1_301), Ok(1_000));
    a.set_reporter_status(13, false).unwrap();
    assert_eq!(a.submit_price(13, 5, 1_300), Err(OracleError::NotAuthorized));
    assert_eq!(a.submit_price(10, 0, 1_300), Err(OracleError::InvalidPrice));
}

#[test]
fn median_rounds_toward_zero() {
    assert_eq!(median(vec![3, 1, 2]), 2);
    assert_eq!(median(vec![4, 1, 2, 3]), 2);
    assert_eq!(median(vec![-1, -2]), -1);
    assert_eq!(median(vec![7]), 7);
    assert_eq!(median(vec![5, 5, 1, 9, 5, 0]), 5);
}
