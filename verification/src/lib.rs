//! A verified core of a small TCP/IP stack: the UDP wire format, the routing table, the set of
//! sockets and the handling of TCP connections in TIME-WAIT.
pub mod config;
pub mod iface;
pub mod laws;
pub mod phy;
pub mod socket;
pub mod text;
pub mod time;
pub mod wire;
