//! A holding: an asset together with the quantity of it that is owned.

use vstd::prelude::*;
use crate::asset::AssetType;

verus! {

/// The largest value a single holding can have: the product of the largest
/// quantity and the largest unit price.
pub open spec fn max_holding_value() -> nat {
    0xFFFF_FFFE_0000_0001
}

/// An owned quantity of one asset. For cash the quantity is an amount in
/// minor units of the currency; for a stock it is a number of shares.
pub struct AssetHolding {
    pub asset: AssetType,
    pub owned: u32,
}

impl AssetHolding {
    /// The monetary value of the holding: the quantity itself for cash, the
    /// quantity times the unit price for a stock.
    pub open spec fn value(self) -> nat {
        match self.asset {
            AssetType::Cash(_) => self.owned as nat,
            AssetType::Stock(stock) => (self.owned * stock.current_price.price) as nat,
        }
    }

    /// No holding is worth more than `max_holding_value()`.
    pub proof fn lemma_value_bounded(self)
        ensures
            self.value() <= max_holding_value(),
    {
        match self.asset {
            AssetType::Cash(_) => {},
            AssetType::Stock(stock) => {
                let unit: u32 = stock.current_price.price;
                let count: u32 = self.owned;
                assert(count * unit <= 0xFFFF_FFFF * 0xFFFF_FFFF) by (nonlinear_arith)
                    requires
                        count <= 0xFFFF_FFFF,
                        unit <= 0xFFFF_FFFF,
                ;
            },
        }
    }

    /// Computes the value of the holding. Both factors are widened to 64 bits
    /// before they are multiplied, so the product is exact.
    pub fn get_value(&self) -> (v: u64)
        ensures
            v == self.value(),
    {
        match &self.asset {
            AssetType::Cash(_) => self.owned as u64,
            AssetType::Stock(stock) => {
                proof {
                    self.lemma_value_bounded();
                }
                (self.owned as u64) * (stock.current_price.price as u64)
            },
        }
    }
}

} // verus!
