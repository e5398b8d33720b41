//! Verified core of a peer-to-peer messaging node: a fixed-capacity slot pool
//! with a per-connection RSA handshake, a per-peer FIFO of decrypted inbound
//! messages, and the security gates (blacklist, connection-attempt debounce).

pub mod crypto;
pub mod keyed;
pub mod log;
pub mod server;
