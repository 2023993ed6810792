pub mod decode;
pub mod detect;
pub mod encode;
pub mod laws;

use vstd::prelude::*;

verus! {

/// The P2WSH fake-multisig technique.
pub struct P2wshFakeMultisig;

} // verus!
