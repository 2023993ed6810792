//! Recognizing a transaction whose first input reveals a marked witness script.
use vstd::prelude::*;
use crate::techniques::{ORDIKNOT_PREFIX, spec_ordiknot_prefix};
use crate::utils::transaction::TxData;

verus! {

/// Whether "444" occurs somewhere in `script`.
pub open spec fn spec_contains_marker(script: Seq<u8>) -> bool {
    exists|i: int| 0 <= i && i + 3 <= script.len() && #[trigger] script.subrange(i, i + 3) == spec_ordiknot_prefix()
}

/// Whether the first input's witness has at least three elements and its last
/// element, the witness script, holds "444".
pub open spec fn spec_detect(witnesses: Seq<Seq<Seq<u8>>>) -> bool {
    &&& witnesses.len() > 0
    &&& witnesses[0].len() >= 3
    &&& spec_contains_marker(witnesses[0].last())
}

/// Detects if a transaction contains P2WSH fake multisig data.
#[verifier::loop_isolation(false)]
pub fn detect(tx: &TxData) -> (r: bool)
    ensures
        r == spec_detect(tx.witnesses()),
{
    if tx.input_witnesses.len() == 0 {
        return false;
    }
    let witness = &tx.input_witnesses[0];
    assert(tx.witnesses()[0].len() == witness@.len());
    if witness.len() < 3 {
        return false;
    }
    let script = witness[witness.len() - 1].as_slice();
    assert(tx.witnesses()[0].last() == script@);
    if script.len() < ORDIKNOT_PREFIX.len() {
        return false;
    }
    let mut i: usize = 0;
    while i <= script.len() - 3
        invariant
            forall|k: int| 0 <= k < i ==> #[trigger] script@.subrange(k, k + 3) != spec_ordiknot_prefix(),
            i <= script@.len(),
        decreases script@.len() - i,
    {
        if script[i] == ORDIKNOT_PREFIX[0] && script[i + 1] == ORDIKNOT_PREFIX[1] && script[i + 2]
            == ORDIKNOT_PREFIX[2] {
            assert(script@.subrange(i as int, i + 3) =~= spec_ordiknot_prefix());
            return true;
        }
        assert(script@.subrange(i as int, i + 3) != spec_ordiknot_prefix()) by {
            if script@.subrange(i as int, i + 3) == spec_ordiknot_prefix() {
                assert(script@.subrange(i as int, i + 3)[0] == script@[i as int]);
                assert(script@.subrange(i as int, i + 3)[1] == script@[i + 1]);
                assert(script@.subrange(i as int, i + 3)[2] == script@[i + 2]);
            }
        }
        i = i + 1;
    }
    false
}

} // verus!
