//! A price feed adapter with a fixed list of symbols it can price.
use vstd::prelude::*;

use crate::bytes::bytes_equal;

verus! {

/// The price it quotes for every supported symbol, scaled to 6 decimals.
pub const FIXED_PRICE: i128 = 1_000_000;

#[derive(Copy, Clone, Debug, PartialEq, Eq, Structural)]
pub enum PriceFeedError {
    /// The symbol was empty.
    EmptySymbol,
    /// The symbol is not one this adapter has a price for.
    UnsupportedSymbol,
}

/// Whether `symbol` is `XLM`, `USDC` or `BTC`, in ASCII.
pub open spec fn supported_symbol(symbol: Seq<u8>) -> bool {
    symbol == seq![88u8, 76u8, 77u8]
        || symbol == seq![85u8, 83u8, 68u8, 67u8]
        || symbol == seq![66u8, 84u8, 67u8]
}

/// What `get_price` returns for `symbol`.
pub open spec fn price_outcome(symbol: Seq<u8>) -> Result<i128, PriceFeedError> {
    if symbol.len() == 0 {
        Err(PriceFeedError::EmptySymbol)
    } else if !supported_symbol(symbol) {
        Err(PriceFeedError::UnsupportedSymbol)
    } else {
        Ok(FIXED_PRICE)
    }
}

/// A symbol has a price exactly when the adapter supports it.
pub proof fn lemma_priced_iff_supported(symbol: Seq<u8>)
    ensures
        price_outcome(symbol) is Ok <==> supported_symbol(symbol),
{
}

pub struct PriceFeedAdapter;

impl PriceFeedAdapter {
    /// The price of `symbol`, scaled to 6 decimals.
    pub fn get_price(&self, symbol: &Vec<u8>) -> (r: Result<i128, PriceFeedError>)
        ensures
            r == price_outcome(symbol@),
    {
        if symbol.len() == 0 {
            return Err(PriceFeedError::EmptySymbol);
        }
        if !self.is_supported(symbol) {
            return Err(PriceFeedError::UnsupportedSymbol);
        }
        Ok(FIXED_PRICE)
    }

    /// Whether this adapter can price `symbol`.
    pub fn is_supported(&self, symbol: &Vec<u8>) -> (r: bool)
        ensures
            r == supported_symbol(symbol@),
    {
        let xlm: Vec<u8> = vec![88u8, 76u8, 77u8];
        let usdc: Vec<u8> = vec![85u8, 83u8, 68u8, 67u8];
        let btc: Vec<u8> = vec![66u8, 84u8, 67u8];
        assert(xlm@ =~= seq![88u8, 76u8, 77u8]);
        assert(usdc@ =~= seq![85u8, 83u8, 68u8, 67u8]);
        assert(btc@ =~= seq![66u8, 84u8, 67u8]);
        bytes_equal(symbol, &xlm) || bytes_equal(symbol, &usdc) || bytes_equal(symbol, &btc)
    }
}

} // verus!
