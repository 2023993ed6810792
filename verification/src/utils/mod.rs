pub mod transaction;
pub mod bytes;
pub mod network;
pub mod wallet;
