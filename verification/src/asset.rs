//! What can be held: cash in some currency, or a listed stock with its
//! current unit price.

use vstd::prelude::*;

verus! {

/// The identifier under which a portfolio keeps its single cash holding.
pub const CASH_ID: u64 = 0;

/// A unit price together with the time at which it was observed.
pub struct StockPrice {
    /// Price of one share, in minor units of the portfolio's currency.
    pub price: u32,
    /// Seconds since the epoch at which the price was last updated.
    pub date: u64,
}

impl StockPrice {
    /// A price of `price` per share, observed at `date`.
    pub fn new(price: u32, date: u64) -> (quote: StockPrice)
        ensures
            quote == (StockPrice { price, date }),
    {
        StockPrice { price, date }
    }
}

/// A listed stock.
pub struct Stock {
    /// The identifier under which a portfolio keeps its holding of the stock.
    pub id: u64,
    pub isin: String,
    pub market_name: String,
    pub display_name: String,
    pub ticker: String,
    pub current_price: StockPrice,
}

impl Stock {
    /// A stock with the given identifier, listing data and current price.
    pub fn new(
        id: u64,
        isin: String,
        market_name: String,
        display_name: String,
        ticker: String,
        price: StockPrice,
    ) -> (stock: Stock)
        ensures
            stock == (Stock { id, isin, market_name, display_name, ticker, current_price: price }),
    {
        Stock { id, isin, market_name, display_name, ticker, current_price: price }
    }

    /// What `amount` shares cost at the current price.
    pub open spec fn cost(self, amount: u32) -> nat {
        (amount * self.current_price.price) as nat
    }

    /// Computes the cost of `amount` shares in 64 bits, so that the product
    /// of two 32-bit factors cannot overflow.
    pub fn cost_of(&self, amount: u32) -> (cost: u64)
        ensures
            cost == self.cost(amount),
    {
        let unit: u64 = self.current_price.price as u64;
        let count: u64 = amount as u64;
        assert(count * unit <= 0xFFFF_FFFF * 0xFFFF_FFFF) by (nonlinear_arith)
            requires
                count <= 0xFFFF_FFFF,
                unit <= 0xFFFF_FFFF,
        ;
        count * unit
    }
}

/// Liquid money, labelled with its currency.
pub struct Cash {
    pub currency: String,
}

/// The closed set of asset kinds.
pub enum AssetType {
    Stock(Stock),
    Cash(Cash),
}

} // verus!
