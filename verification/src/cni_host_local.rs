//! The host-local plugin: addresses out of a range of the host, with leases on
//! disk.

pub mod allocator;
pub mod store;
pub mod command;
