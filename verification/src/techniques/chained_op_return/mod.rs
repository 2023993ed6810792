pub mod decode;
pub mod detect;
pub mod encode;
pub mod laws;

pub use encode::Chunk;

use vstd::prelude::*;

verus! {

/// The chained OP_RETURN technique.
pub struct ChainedOpReturn;

} // verus!
