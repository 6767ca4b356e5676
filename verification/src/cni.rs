//! What every CNI plugin shares: configuration, invocation, results, errors,
//! the running of other plugins and the nat table.

pub mod config;
pub mod dns;
pub mod error;
pub mod result;
pub mod env;
pub mod version;
pub mod iptables;
pub mod plugin;
pub mod delegate;
