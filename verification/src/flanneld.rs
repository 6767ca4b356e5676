//! The daemon: it gives each node its subnet and connects the nodes' subnets.

pub mod annotation;
pub mod config;
pub mod subnet;
pub mod peer;
pub mod netlink;
pub mod kube_mgr;
pub mod ipmasq;
pub mod daemon;
pub mod round;
pub mod datapath;
pub mod start;
