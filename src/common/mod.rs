pub mod id;
pub mod peer_id;
pub mod ipv4_addr_src;
