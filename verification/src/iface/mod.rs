//! The network interface: routes, sockets and the protection of closed TCP connections.
pub mod interface;
pub mod route;
pub mod socket_set;
pub mod tcp_connect;
pub mod tcp_segments;
pub mod tcp_time_wait;
pub mod time_wait_table;
