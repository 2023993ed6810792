//! Recognizing a transaction that carries a chained OP_RETURN chunk.
use vstd::prelude::*;
use crate::script::{is_op_return, spec_is_op_return};
use crate::techniques::{ORDIKNOT_PREFIX, spec_ordiknot_prefix};
use crate::utils::transaction::TxData;
use super::decode::{extract_op_return_data, spec_op_return_data};
use super::encode::{CHUNK_TAG, spec_chunk_tag};

verus! {

/// Whether an output script is an OP_RETURN whose data starts with the "444"
/// marker or with the "IMG" tag of a chunk.
pub open spec fn spec_marked_op_return(script: Seq<u8>) -> bool {
    &&& spec_is_op_return(script)
    &&& spec_op_return_data(script) matches Some(d)
    &&& d.len() >= 3
    &&& (d.take(3) == spec_ordiknot_prefix() || d.take(3) == spec_chunk_tag())
}

/// Whether some output of the transaction is an OP_RETURN whose data starts
/// with the marker or the chunk tag.
pub open spec fn spec_detect(scripts: Seq<Seq<u8>>) -> bool {
    exists|k: int| 0 <= k < scripts.len() && spec_marked_op_return(#[trigger] scripts[k])
}

/// Detects if a transaction contains chained OP_RETURN data.
pub fn detect(tx: &TxData) -> (r: bool)
    ensures
        r == spec_detect(tx.scripts()),
{
    let ghost scripts = tx.scripts();
    let mut i: usize = 0;
    while i < tx.output_scripts.len()
        invariant
            i <= tx.output_scripts@.len(),
            scripts == tx.scripts(),
            forall|k: int| 0 <= k < i ==> !spec_marked_op_return(#[trigger] scripts[k]),
        decreases tx.output_scripts@.len() - i,
    {
        let script = tx.output_scripts[i].as_slice();
        assert(scripts[i as int] == script@);
        if is_op_return(script) {
            match extract_op_return_data(script) {
                Some(data) => {
                    if data.len() >= 3 && ((data[0] == ORDIKNOT_PREFIX[0] && data[1] == ORDIKNOT_PREFIX[1]
                        && data[2] == ORDIKNOT_PREFIX[2]) || (data[0] == CHUNK_TAG[0] && data[1] == CHUNK_TAG[1]
                        && data[2] == CHUNK_TAG[2])) {
                        assert(ORDIKNOT_PREFIX@ == spec_ordiknot_prefix());
                        assert(CHUNK_TAG@ == spec_chunk_tag());
                        assert(data@.take(3) =~= spec_ordiknot_prefix() || data@.take(3) =~= spec_chunk_tag());
                        assert(spec_marked_op_return(scripts[i as int]));
                        return true;
                    }
                    assert(!spec_marked_op_return(scripts[i as int])) by {
                        if data@.len() >= 3 {
                            assert(data@.take(3)[0] == data@[0]);
                            assert(data@.take(3)[1] == data@[1]);
                            assert(data@.take(3)[2] == data@[2]);
                        }
                    }
                },
                None => {},
            }
        }
        i = i + 1;
    }
    false
}

} // verus!
