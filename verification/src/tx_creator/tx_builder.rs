//! The amounts of the transaction creator's chain of image transactions.
use vstd::prelude::*;

verus! {

/// Standard transaction fee in satoshis.
pub const TX_FEE_SATS: u64 = 1000;

/// Amount for continuation outputs (in satoshis): the first transaction's.
pub const CONTINUATION_AMOUNT: u64 = 10_000;

/// Position of continuation output in transaction outputs.
pub const CONTINUATION_OUTPUT_INDEX: u32 = 1;

/// Errors of planning the chain.
#[derive(Debug, Clone, Copy, PartialEq, Eq, Structural)]
pub enum ImageChainError {
    /// The wallet output cannot pay the OP_RETURN amount, the fee and the first continuation.
    InsufficientFunds,
    /// A continuation output cannot pay the fee and OP_RETURN amount of the
    /// transaction that spends it and still pass a continuation on.
    InsufficientContinuation,
}

/// The amounts of the chain: the first transaction's continuation output (when
/// there is a second) and change, and for each later transaction the amount of
/// its continuation output, absent for the last.
#[derive(Debug)]
pub struct ImageChainPlan {
    pub first_continuation: Option<u64>,
    pub first_change: u64,
    pub next_continuations: Vec<Option<u64>>,
}

/// The continuation output of later transaction `k`: the 10000 satoshis of the
/// first continuation less `step` (a fee and an OP_RETURN amount) for each of
/// the `k` transactions that passed it on.
pub open spec fn spec_image_continuation(k: int, step: int) -> int {
    CONTINUATION_AMOUNT - k * step
}

/// Plans the amounts of a chain of `num_chunks` transactions that put
/// `op_return_amount` into each OP_RETURN output and start from a wallet
/// output of `input_amount` satoshis. The first pays a continuation output of
/// 10000 satoshis when more follow; each later one spends the previous
/// continuation output and, unless it is the last, passes it on less its fee
/// and OP_RETURN amount.
#[verifier::loop_isolation(false)]
pub fn plan_image_chain(num_chunks: usize, op_return_amount: u64, input_amount: u64) -> (r: Result<
    ImageChainPlan,
    ImageChainError,
>)
    requires
        num_chunks >= 1,
        op_return_amount + TX_FEE_SATS + CONTINUATION_AMOUNT <= u64::MAX,
    ensures
        ({
            let step = op_return_amount + TX_FEE_SATS;
            let needed = step + if num_chunks > 1 { CONTINUATION_AMOUNT } else { 0 };
            if input_amount < needed {
                r == Err::<ImageChainPlan, ImageChainError>(ImageChainError::InsufficientFunds)
            } else if num_chunks >= 3 && (num_chunks - 2) * step > CONTINUATION_AMOUNT {
                r == Err::<ImageChainPlan, ImageChainError>(ImageChainError::InsufficientContinuation)
            } else {
                &&& r matches Ok(plan)
                &&& plan.first_continuation == if num_chunks > 1 { Some(CONTINUATION_AMOUNT) } else { None::<u64> }
                &&& plan.first_change == input_amount - needed
                &&& plan.next_continuations@.len() == num_chunks - 1
                &&& forall|k: int|
                    1 <= k < num_chunks ==> #[trigger] plan.next_continuations@[k - 1] == if k < num_chunks - 1 {
                        Some(spec_image_continuation(k, step) as u64)
                    } else {
                        None::<u64>
                    }
            }
        }),
{
    let step = op_return_amount + TX_FEE_SATS;
    let has_continuation = num_chunks > 1;
    let needed = if has_continuation {
        step + CONTINUATION_AMOUNT
    } else {
        step
    };
    if input_amount < needed {
        return Err(ImageChainError::InsufficientFunds);
    }
    let first_change = input_amount - needed;
    let mut amount: u64 = CONTINUATION_AMOUNT;
    let mut next_continuations: Vec<Option<u64>> = Vec::new();
    let mut k: usize = 1;
    assert(CONTINUATION_AMOUNT - (1 - 1) * step == CONTINUATION_AMOUNT) by (nonlinear_arith);
    while k < num_chunks
        invariant
            1 <= k <= num_chunks,
            k < num_chunks ==> amount == CONTINUATION_AMOUNT - (k - 1) * step,
            (k == num_chunks && num_chunks >= 3) ==> (num_chunks - 2) * step <= CONTINUATION_AMOUNT,
            next_continuations@.len() == k - 1,
            forall|j: int|
                1 <= j < k ==> #[trigger] next_continuations@[j - 1] == if j < num_chunks - 1 {
                    Some(spec_image_continuation(j, step as int) as u64)
                } else {
                    None::<u64>
                },
        decreases num_chunks - k,
    {
        if k < num_chunks - 1 {
            if amount < step {
                proof {
                    assert(k * step > CONTINUATION_AMOUNT) by (nonlinear_arith)
                        requires
                            amount == CONTINUATION_AMOUNT - (k - 1) * step,
                            amount < step,
                    ;
                    assert((num_chunks - 2) * step >= k * step) by (nonlinear_arith)
                        requires
                            num_chunks - 2 >= k,
                            step >= 0,
                    ;
                }
                return Err(ImageChainError::InsufficientContinuation);
            }
            amount = amount - step;
            assert(amount == CONTINUATION_AMOUNT - k * step) by (nonlinear_arith)
                requires
                    amount == CONTINUATION_AMOUNT - (k - 1) * step - step,
            ;
            next_continuations.push(Some(amount));
            proof {
                if k + 1 == num_chunks - 1 && num_chunks >= 3 {
                    assert((num_chunks - 2) * step <= CONTINUATION_AMOUNT) by (nonlinear_arith)
                        requires
                            k == num_chunks - 2,
                            amount == CONTINUATION_AMOUNT - k * step,
                            amount >= 0,
                    ;
                }
            }
        } else {
            proof {
                if num_chunks >= 3 {
                    assert((num_chunks - 2) * step <= CONTINUATION_AMOUNT) by (nonlinear_arith)
                        requires
                            k == num_chunks - 1,
                            amount == CONTINUATION_AMOUNT - (k - 1) * step,
                            amount >= 0,
                    ;
                }
            }
            next_continuations.push(None);
        }
        k = k + 1;
    }
    Ok(
        ImageChainPlan {
            first_continuation: if has_continuation {
                Some(CONTINUATION_AMOUNT)
            } else {
                None
            },
            first_change,
            next_continuations,
        },
    )
}

/// The change of a single OP_RETURN message transaction that puts
/// `op_return_amount` into its OP_RETURN output and spends a wallet output of
/// `input_amount` satoshis; none when the output cannot pay that and the fee.
pub fn message_change(op_return_amount: u64, input_amount: u64) -> (r: Option<u64>)
    requires
        op_return_amount + TX_FEE_SATS <= u64::MAX,
    ensures
        r == if input_amount >= op_return_amount + TX_FEE_SATS {
            Some((input_amount - op_return_amount - TX_FEE_SATS) as u64)
        } else {
            None::<u64>
        },
{
    input_amount.checked_sub(op_return_amount + TX_FEE_SATS)
}

/// Whether `i` is the first position of a largest amount.
pub open spec fn spec_is_first_largest(amounts: Seq<u64>, i: int) -> bool {
    &&& 0 <= i < amounts.len()
    &&& forall|k: int| 0 <= k < amounts.len() ==> #[trigger] amounts[k] <= amounts[i]
    &&& forall|k: int| 0 <= k < i ==> #[trigger] amounts[k] < amounts[i]
}

/// Selects the largest wallet output: the position of the largest amount, the
/// first one among equals; none for an empty wallet.
pub fn select_largest_utxo(amounts: &[u64]) -> (r: Option<usize>)
    ensures
        amounts@.len() == 0 ==> r is None,
        amounts@.len() > 0 ==> (r matches Some(i) && spec_is_first_largest(amounts@, i as int)),
{
    if amounts.len() == 0 {
        return None;
    }
    let mut best: usize = 0;
    let mut i: usize = 1;
    while i < amounts.len()
        invariant
            1 <= i <= amounts@.len(),
            best < i,
            forall|k: int| 0 <= k < i ==> #[trigger] amounts@[k] <= amounts@[best as int],
            forall|k: int| 0 <= k < best ==> #[trigger] amounts@[k] < amounts@[best as int],
        decreases amounts@.len() - i,
    {
        if amounts[i] > amounts[best] {
            best = i;
        }
        i = i + 1;
    }
    Some(best)
}

} // verus!
