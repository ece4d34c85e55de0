use stellar_contracts::price_feed_adapter::{PriceFeedAdapter, PriceFeedError};

#[test]
fn test_get_price_supported_symbols() {
    let client = PriceFeedAdapter;
    for sym in ["XLM", "USDC", "BTC"] {
        let symbol = sym.as_bytes().to_vec();
        assert_eq!(client.get_price(&symbol), Ok(1_000_000));
    }
}

#[test]
fn test_get_price_empty_symbol_fails() {
    let client = PriceFeedAdapter;
    let symbol: Vec<u8> = Vec::new();
    assert_eq!(client.get_price(&symbol), Err(PriceFeedError::EmptySymbol));
}

#[test]
fn test_get_price_unsupported_symbol_fails() {
    let client = PriceFeedAdapter;
    let symbol = b"DOGE".to_vec();
    assert_eq!(client.get_price(&symbol), Err(PriceFeedError::UnsupportedSymbol));
}

#[test]
fn test_is_supported_matches_get_price() {
    let client = PriceFeedAdapter;
    let supported = b"XLM".to_vec();
    let unsupported = b"DOGE".to_vec();
    assert!(client.is_supported(&supported));
    assert!(!client.is_supported(&unsupported));
}

#[test]
fn price_feed_symbols_are_case_and_length_exact() {
    let client = PriceFeedAdapter;
    assert!(!client.is_supported(&b"xlm".to_vec()));
    assert!(!client.is_supported(&b"XLMX".to_vec()));
    assert!(!client.is_supported(&b"USD".to_vec()));
    assert!(client.is_supported(&b"USDC".to_vec()));
}
