//! The flannel plugin: it hands the work to another plugin, with the subnet
//! that the daemon wrote down.

pub mod subnetenv;
pub mod delegate;
pub mod command;
