//! The portmap plugin: published host ports of a container, through
//! destination NAT.

pub mod config;
pub mod rules;
pub mod command;
pub mod table;
pub mod packets;
