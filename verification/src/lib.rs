pub mod announce;
pub mod crypto;
pub mod endpoint;
pub mod hex;
pub mod message;
pub mod ntfy;
pub mod num;
pub mod rng;
pub mod stun;
pub mod text;
pub mod udp;
