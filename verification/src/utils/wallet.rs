//! Choosing which wallet outputs fund a transaction, from their amounts.
use vstd::prelude::*;
use crate::techniques::p2wsh_fake_multisig::encode::{spec_sum, lemma_sum_prefix_le};

verus! {

/// Whether `i` is the last position of a largest amount.
pub open spec fn spec_is_last_largest(amounts: Seq<u64>, i: int) -> bool {
    &&& 0 <= i < amounts.len()
    &&& forall|k: int| 0 <= k < amounts.len() ==> #[trigger] amounts[k] <= amounts[i]
    &&& forall|k: int| i < k < amounts.len() ==> #[trigger] amounts[k] < amounts[i]
}

/// Selects the largest wallet output: the position of the largest amount, the
/// last one among equals; none for an empty wallet.
pub fn select_largest_utxo(amounts: &[u64]) -> (r: Option<usize>)
    ensures
        amounts@.len() == 0 ==> r is None,
        amounts@.len() > 0 ==> (r matches Some(i) && spec_is_last_largest(amounts@, i as int)),
{
    if amounts.len() == 0 {
        return None;
    }
    let mut best: usize = 0;
    let mut i: usize = 1;
    while i < amounts.len()
        invariant
            1 <= i <= amounts@.len(),
            best < i,
            forall|k: int| 0 <= k < i ==> #[trigger] amounts@[k] <= amounts@[best as int],
            forall|k: int| best < k < i ==> #[trigger] amounts@[k] < amounts@[best as int],
        decreases amounts@.len() - i,
    {
        if amounts[i] >= amounts[best] {
            best = i;
        }
        i = i + 1;
    }
    Some(best)
}

/// The outputs chosen to reach `target`: the first `count` in wallet order,
/// the fewest whose amounts sum to at least `target`.
pub open spec fn spec_covering_prefix(amounts: Seq<u64>, target: int, count: int) -> bool {
    &&& 0 <= count <= amounts.len()
    &&& spec_sum(amounts.take(count)) >= target
    &&& forall|k: int| 0 <= k < count ==> #[trigger] spec_sum(amounts.take(k)) < target
}

/// Selects wallet outputs in wallet order until their amounts reach `target`;
/// returns how many were taken and their total, or none when all of them fall short.
pub fn select_utxos_by_amount(amounts: &[u64], target: u64) -> (r: Option<(usize, u64)>)
    requires
        spec_sum(amounts@) <= u64::MAX,
    ensures
        spec_sum(amounts@) < target ==> r is None,
        spec_sum(amounts@) >= target ==> (r matches Some((count, total)) && spec_covering_prefix(
            amounts@,
            target as int,
            count as int,
        ) && total == spec_sum(amounts@.take(count as int))),
{
    let mut total: u64 = 0;
    let mut i: usize = 0;
    assert(amounts@.take(0) =~= Seq::<u64>::empty());
    while i < amounts.len()
        invariant
            i <= amounts@.len(),
            total == spec_sum(amounts@.take(i as int)),
            spec_sum(amounts@) <= u64::MAX,
            forall|k: int| 0 <= k < i ==> #[trigger] spec_sum(amounts@.take(k)) < target,
        decreases amounts@.len() - i,
    {
        if total >= target {
            proof {
                lemma_sum_prefix_le(amounts@, i as int);
            }
            return Some((i, total));
        }
        proof {
            lemma_sum_prefix_le(amounts@, i as int + 1);
            assert(amounts@.take(i + 1).drop_last() =~= amounts@.take(i as int));
        }
        total = total + amounts[i];
        i = i + 1;
    }
    assert(amounts@.take(i as int) =~= amounts@);
    if total >= target {
        return Some((i, total));
    }
    None
}

} // verus!
