//! The bridge plugin: it connects a container to a bridge of the host.

pub mod config;
pub mod plan;
pub mod hostns;
pub mod contns;
pub mod command;
pub mod wiring;
pub mod unwiring;
