pub mod common;
pub mod dht;
pub mod peer_binary_protocol;
pub mod shutdown;
pub mod storage;
