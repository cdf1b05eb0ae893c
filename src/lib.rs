//! A DHCP server's verified core: the message codec, the address pool and the
//! decisions of the protocol engine.

pub mod network;
pub mod packet;
pub mod pool;
pub mod server;
pub mod wire;
