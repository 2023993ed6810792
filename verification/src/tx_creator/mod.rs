//! The standalone transaction creator: its image chunk format, its P2WSH
//! decoder, and the amounts of its chained transactions.
pub mod image_decoder;
pub mod image_encoder;
pub mod laws;
pub mod p2wsh_decoder;
pub mod p2wsh_multisig;
pub mod techniques;
pub mod tx_builder;
