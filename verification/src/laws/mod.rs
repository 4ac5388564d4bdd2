//! What the operations of the library are for, stated over their inputs and their results.
pub mod accepted;
pub mod checksum;
pub mod connect;
pub mod expiry;
pub mod ingress;
pub mod ip;
pub mod numbers;
pub mod route;
pub mod segments;
pub mod sets;
pub mod socket;
pub mod socket_set;
pub mod table;
pub mod time_wait;
pub mod udp;
pub mod values;
