//! The portfolio: a store of holdings keyed by asset identifier, seeded with
//! one cash holding, that grows by purchases.

use std::collections::hash_map::Entry;
use std::collections::HashMap;
use vstd::prelude::*;
use vstd::std_specs::iter::IteratorSpec;
use crate::asset::{AssetType, Cash, Stock, CASH_ID};
use crate::holding::{max_holding_value, AssetHolding};
use crate::valuation::{
    lemma_total_value_any_order, lemma_total_value_insert, lemma_total_value_remove,
    lemma_total_value_single, total_value, value_in_order,
};

verus! {

broadcast use vstd::std_specs::hash::group_hash_axioms;

/// What every portfolio's holdings satisfy: they are finitely many, the cash
/// holding exists, it is the only holding of cash, and every stock is kept
/// under its own identifier.
pub open spec fn holdings_wf(m: Map<u64, AssetHolding>) -> bool {
    &&& m.dom().finite()
    &&& m.contains_key(CASH_ID)
    &&& forall|id: u64| #[trigger] m.contains_key(id) ==> (m[id].asset is Cash <==> id == CASH_ID)
    &&& forall|id: u64| #[trigger]
        m.contains_key(id) ==> (m[id].asset matches AssetType::Stock(stock) ==> stock.id == id)
}

/// The message that a refused purchase carries.
pub open spec fn insufficient_funds_message() -> Seq<char> {
    "Not enough cash"@
}

/// A store of holdings, at most one for each asset identifier. It is viewed
/// as the map from identifiers to holdings.
pub struct Portfolio {
    holdings: HashMap<u64, AssetHolding>,
}

impl View for Portfolio {
    type V = Map<u64, AssetHolding>;

    closed spec fn view(&self) -> Map<u64, AssetHolding> {
        self.holdings@
    }
}

impl Portfolio {
    /// Well-formedness: the holdings satisfy `holdings_wf`.
    pub open spec fn wf(&self) -> bool {
        holdings_wf(self@)
    }

    /// The value of the cash holding.
    pub open spec fn cash(&self) -> nat {
        self@[CASH_ID].value()
    }

    /// Creates a portfolio that holds nothing but cash: `starting_cash` minor
    /// units of it, or none where no amount is given.
    pub fn new(starting_cash: Option<u32>) -> (portfolio: Portfolio)
        ensures
            portfolio.wf(),
            portfolio@.dom() == set![CASH_ID],
            portfolio@[CASH_ID].owned == (match starting_cash {
                Some(amount) => amount,
                None => 0,
            }),
            portfolio@[CASH_ID].asset matches AssetType::Cash(cash) && cash.currency@ == "GBP"@,
            total_value(portfolio@) == portfolio@[CASH_ID].owned,
    {
        let owned: u32 = match starting_cash {
            Some(amount) => amount,
            None => 0,
        };
        let cash = AssetHolding { asset: AssetType::Cash(Cash { currency: "GBP".to_owned() }), owned };
        let mut holdings: HashMap<u64, AssetHolding> = HashMap::new();
        holdings.insert(CASH_ID, cash);
        proof {
            assert(holdings@.dom() =~= set![CASH_ID]);
            lemma_total_value_single(CASH_ID, cash);
        }
        Portfolio { holdings }
    }

    /// The number of holdings, the cash holding included.
    pub fn holding_count(&self) -> (count: usize)
        ensures
            count == self@.len(),
    {
        self.holdings.len()
    }

    /// The quantity owned of the asset `id`, if the portfolio holds it.
    pub fn quantity_of(&self, id: u64) -> (quantity: Option<u32>)
        ensures
            quantity == (if self@.contains_key(id) {
                Some(self@[id].owned)
            } else {
                None
            }),
    {
        match self.holdings.get(&id) {
            Some(holding) => Some(holding.owned),
            None => None,
        }
    }

    /// The cash that is available for purchases.
    pub fn cash_value(&self) -> (cash: u64)
        requires
            self.wf(),
        ensures
            cash == self.cash(),
            cash == self@[CASH_ID].owned,
    {
        self.holdings.get(&CASH_ID).unwrap().get_value()
    }

    /// Records the acquisition of `amount` shares of `stock`.
    ///
    /// The purchase is refused, and nothing changes, where its cost exceeds
    /// the cash that the portfolio holds; a cost equal to the cash is
    /// accepted. An accepted purchase adds `amount` to the quantity held
    /// under the stock's identifier, keeping the asset already recorded
    /// there, or records a new holding of `amount` shares where the
    /// identifier was not held. The cash holding is consulted, never debited.
    ///
    /// A quantity is a 32-bit number: the caller sees to it that an accepted
    /// purchase does not push the quantity held past that range.
    pub fn purchase(&mut self, stock: Stock, amount: u32) -> (res: Result<(), String>)
        requires
            old(self).wf(),
            stock.cost(amount) <= old(self).cash() && old(self)@.contains_key(stock.id)
                ==> old(self)@[stock.id].owned + amount <= u32::MAX,
        ensures
            final(self).wf(),
            res is Ok <==> stock.cost(amount) <= old(self).cash(),
            res matches Err(message) ==> message@ == insufficient_funds_message() && final(self)@
                == old(self)@,
            res is Ok && !old(self)@.contains_key(stock.id) ==> final(self)@ == old(self)@.insert(
                stock.id,
                AssetHolding { asset: AssetType::Stock(stock), owned: amount },
            ) && final(self)@.len() == old(self)@.len() + 1,
            res is Ok && old(self)@.contains_key(stock.id) ==> final(self)@ == old(self)@.insert(
                stock.id,
                AssetHolding {
                    asset: old(self)@[stock.id].asset,
                    owned: (old(self)@[stock.id].owned + amount) as u32,
                },
            ) && final(self)@.len() == old(self)@.len(),
            stock.id != CASH_ID ==> final(self)@[CASH_ID] == old(self)@[CASH_ID],
            res is Ok && !old(self)@.contains_key(stock.id) ==> total_value(final(self)@)
                == total_value(old(self)@) + stock.cost(amount),
            res is Ok && old(self)@.contains_key(stock.id) ==> total_value(final(self)@)
                == total_value(old(self)@) + (AssetHolding {
                asset: old(self)@[stock.id].asset,
                owned: amount,
            }).value(),
    {
        if stock.cost_of(amount) > self.cash_value() {
            return Err("Not enough cash".to_owned());
        }
        let id: u64 = stock.id;
        proof {
            if self@.contains_key(id) {
                lemma_repeat_purchase_adds_value(self@, id, amount);
            } else {
                lemma_first_purchase_adds_cost(self@, stock, amount);
            }
        }
        match self.holdings.entry(id) {
            Entry::Occupied(mut held) => {
                let holding = held.get_mut();
                holding.owned = holding.owned + amount;
            },
            Entry::Vacant(slot) => {
                slot.insert(AssetHolding { asset: AssetType::Stock(stock), owned: amount });
            },
        }
        Ok(())
    }

    /// The worth of the portfolio: the sum of the values of all its
    /// holdings, the cash holding included.
    ///
    /// The sum is accumulated in 128 bits, which holds the total of any
    /// number of holdings that a map can have.
    pub fn portfolio_value(&self) -> (total: u128)
        ensures
            total == total_value(self@),
    {
        let count: usize = self.holdings.len();
        let mut value: u128 = 0;
        let ghost entries = self.holdings.iter().remaining();
        let ghost mut visited: Seq<u64> = Seq::empty();
        for entry in iter: self.holdings.iter()
            invariant
                count == self.holdings@.len(),
                iter.seq() == entries,
                entries.no_duplicates(),
                visited.len() == iter.index(),
                forall|i: int| 0 <= i < visited.len() ==> visited[i] == *entries[i].0,
                value == value_in_order(self.holdings@, visited),
                value <= visited.len() * max_holding_value(),
        {
            let (id, holding) = entry;
            let worth: u64 = holding.get_value();
            proof {
                holding.lemma_value_bounded();
                let ghost seen: int = visited.len() as int;
                assert(seen < count);
                assert((seen + 1) * max_holding_value() <= 0xFFFF_FFFF_FFFF_FFFF
                    * max_holding_value()) by (nonlinear_arith)
                    requires
                        0 <= seen < 0xFFFF_FFFF_FFFF_FFFF,
                ;
                assert((seen + 1) * max_holding_value() == seen * max_holding_value()
                    + max_holding_value()) by (nonlinear_arith);
                assert(visited.push(*id).drop_last() =~= visited);
                visited = visited.push(*id);
            }
            value = value + worth as u128;
        }
        proof {
            let m = self.holdings@;
            assert(visited.len() == entries.len());
            assert forall|i: int, j: int|
                0 <= i < visited.len() && 0 <= j < visited.len() && i != j implies visited[i]
                != visited[j] by {
                assert(m[*entries[i].0] == *entries[i].1);
                assert(m[*entries[j].0] == *entries[j].1);
                if visited[i] == visited[j] {
                    assert(entries[i] == entries[j]);
                }
            }
            assert forall|id: u64| visited.to_set().contains(id) <==> m.dom().contains(id) by {
                if visited.contains(id) {
                    let i = choose|i: int| 0 <= i < visited.len() && visited[i] == id;
                    assert(m.contains_key(*entries[i].0));
                }
                if m.contains_key(id) {
                    assert(entries.contains((&id, &m[id])));
                    let i = choose|i: int| 0 <= i < entries.len() && entries[i] == (&id, &m[id]);
                    assert(visited[i] == id);
                }
            }
            assert(visited.to_set() =~= m.dom());
            lemma_total_value_any_order(m, visited);
        }
        value
    }
}

/// A first purchase of a stock raises the worth of the holdings by exactly
/// the cost of the purchase: nothing is taken from the cash holding.
pub proof fn lemma_first_purchase_adds_cost(m: Map<u64, AssetHolding>, stock: Stock, amount: u32)
    requires
        m.dom().finite(),
        !m.contains_key(stock.id),
    ensures
        total_value(m.insert(stock.id, AssetHolding { asset: AssetType::Stock(stock), owned: amount }))
            == total_value(m) + stock.cost(amount),
{
    let holding = AssetHolding { asset: AssetType::Stock(stock), owned: amount };
    lemma_total_value_insert(m, stock.id, holding);
    assert(m.remove(stock.id) =~= m);
}

/// Adding `amount` to the quantity held under `id` raises the worth of the
/// holdings by the value of `amount` units of the asset recorded there.
pub proof fn lemma_repeat_purchase_adds_value(m: Map<u64, AssetHolding>, id: u64, amount: u32)
    requires
        m.dom().finite(),
        m.contains_key(id),
        m[id].owned + amount <= u32::MAX,
    ensures
        total_value(
            m.insert(id, AssetHolding { asset: m[id].asset, owned: (m[id].owned + amount) as u32 }),
        ) == total_value(m) + (AssetHolding { asset: m[id].asset, owned: amount }).value(),
{
    let grown = AssetHolding { asset: m[id].asset, owned: (m[id].owned + amount) as u32 };
    lemma_total_value_insert(m, id, grown);
    lemma_total_value_remove(m, id);
    match m[id].asset {
        AssetType::Cash(_) => {},
        AssetType::Stock(stock) => {
            let unit: u32 = stock.current_price.price;
            let held: u32 = m[id].owned;
            assert((held + amount) * unit == held * unit + amount * unit) by (nonlinear_arith);
        },
    }
}

} // verus!
