//! The worth of a set of holdings: the sum of the values of a finite map's
//! entries, and the facts about that sum that the portfolio relies on.

use vstd::prelude::*;
use crate::holding::AssetHolding;

verus! {

/// The sum of the values of all holdings in `m`.
///
/// The sum is taken entry by entry, in an order that the definition does not
/// fix; `lemma_total_value_any_order` shows that the order does not matter.
pub open spec fn total_value(m: Map<u64, AssetHolding>) -> nat
    decreases m.dom().len(),
    when m.dom().finite()
{
    if m.dom().len() == 0 {
        0
    } else {
        let id = m.dom().choose();
        m[id].value() + total_value(m.remove(id))
    }
}

/// The sum of the values of the holdings that `ids` names, taken in the
/// order in which `ids` lists them.
pub open spec fn value_in_order(m: Map<u64, AssetHolding>, ids: Seq<u64>) -> nat
    decreases ids.len(),
{
    if ids.len() == 0 {
        0
    } else {
        value_in_order(m, ids.drop_last()) + m[ids.last()].value()
    }
}

/// An empty store is worth nothing.
pub proof fn lemma_total_value_empty()
    ensures
        total_value(Map::<u64, AssetHolding>::empty()) == 0,
{
    assert(Map::<u64, AssetHolding>::empty().dom() =~= Set::<u64>::empty());
}

/// Any one holding can be split off the sum: the total is the value of the
/// holding under `id` plus the total of the rest.
pub proof fn lemma_total_value_remove(m: Map<u64, AssetHolding>, id: u64)
    requires
        m.dom().finite(),
        m.contains_key(id),
    ensures
        total_value(m) == m[id].value() + total_value(m.remove(id)),
    decreases m.dom().len(),
{
    let picked = m.dom().choose();
    assert(m.dom().len() != 0) by {
        if m.dom().len() == 0 {
            m.dom().lemma_len0_is_empty();
        }
    }
    if picked != id {
        let rest = m.remove(picked);
        assert(rest.contains_key(id));
        lemma_total_value_remove(rest, id);
        let without_id = m.remove(id);
        assert(without_id.contains_key(picked));
        lemma_total_value_remove(without_id, picked);
        assert(rest.remove(id) =~= without_id.remove(picked));
    }
}

/// Putting a holding under `id` replaces whatever was there: the total is
/// the total of the other holdings plus the value of the new one.
pub proof fn lemma_total_value_insert(m: Map<u64, AssetHolding>, id: u64, h: AssetHolding)
    requires
        m.dom().finite(),
    ensures
        total_value(m.insert(id, h)) == total_value(m.remove(id)) + h.value(),
{
    let grown = m.insert(id, h);
    lemma_total_value_remove(grown, id);
    assert(grown.remove(id) =~= m.remove(id));
}

/// The total does not depend on the order in which the holdings are visited:
/// summing along any list that names every identifier of `m` exactly once
/// gives `total_value(m)`.
pub proof fn lemma_total_value_any_order(m: Map<u64, AssetHolding>, ids: Seq<u64>)
    requires
        m.dom().finite(),
        ids.no_duplicates(),
        ids.to_set() == m.dom(),
    ensures
        value_in_order(m, ids) == total_value(m),
    decreases ids.len(),
{
    if ids.len() == 0 {
        assert(m.dom() =~= Set::<u64>::empty());
    } else {
        let id = ids.last();
        let front = ids.drop_last();
        let rest = m.remove(id);
        assert(ids.contains(id)) by {
            assert(ids[ids.len() - 1] == id);
        }
        assert(m.contains_key(id));
        assert(front.no_duplicates());
        assert(front.to_set() =~= rest.dom()) by {
            assert forall|k: u64| front.to_set().contains(k) <==> rest.dom().contains(k) by {
                if front.contains(k) {
                    let i = choose|i: int| 0 <= i < front.len() && front[i] == k;
                    assert(ids[i] == k);
                    assert(ids.contains(k));
                    assert(k != id);
                }
                if rest.dom().contains(k) {
                    assert(ids.to_set().contains(k));
                    assert(ids.contains(k));
                    let i = choose|i: int| 0 <= i < ids.len() && ids[i] == k;
                    assert(i < ids.len() - 1);
                    assert(front[i] == k);
                }
            }
        }
        lemma_total_value_any_order(rest, front);
        lemma_value_in_order_agrees(m, rest, front);
        lemma_total_value_remove(m, id);
    }
}

/// Summing along `ids` looks only at the holdings that `ids` names: two maps
/// that agree on them give the same sum.
pub proof fn lemma_value_in_order_agrees(
    a: Map<u64, AssetHolding>,
    b: Map<u64, AssetHolding>,
    ids: Seq<u64>,
)
    requires
        forall|i: int| 0 <= i < ids.len() ==> a[#[trigger] ids[i]] == b[ids[i]],
    ensures
        value_in_order(a, ids) == value_in_order(b, ids),
    decreases ids.len(),
{
    if ids.len() > 0 {
        let front = ids.drop_last();
        assert forall|i: int| 0 <= i < front.len() implies a[#[trigger] front[i]] == b[front[i]] by {
            assert(front[i] == ids[i]);
        }
        lemma_value_in_order_agrees(a, b, front);
        assert(ids.last() == ids[ids.len() - 1]);
    }
}

/// A store with a single holding is worth what that holding is worth.
pub proof fn lemma_total_value_single(id: u64, h: AssetHolding)
    ensures
        total_value(Map::<u64, AssetHolding>::empty().insert(id, h)) == h.value(),
{
    let none = Map::<u64, AssetHolding>::empty();
    lemma_total_value_insert(none, id, h);
    assert(none.remove(id) =~= none);
    lemma_total_value_empty();
}

} // verus!
