//! Embedding arbitrary data in Bitcoin transactions: the byte formats of the
//! chained OP_RETURN and P2WSH fake-multisig techniques, their parsers, and the
//! planning arithmetic around them.

pub mod script;
pub mod server;
pub mod techniques;
pub mod tx_creator;
pub mod utils;
