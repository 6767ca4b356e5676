//! A flannel network for Kubernetes, with its logic verified.
//!
//! A daemon on each node gives the node's containers their subnet and connects
//! it with those of the other nodes, over a VXLAN overlay or by direct routes.
//! Plugins that the container runtime calls through the Container Network
//! Interface (CNI) connect each container: `flannel` hands over to `bridge`,
//! which has the address from `host-local`; `portmap` publishes host ports.
//!
//! The library decides; it does no input or output itself. Work that needs the
//! kernel, the disk, another program or the cluster is written as a function
//! of the answers so far, which says what to ask next or that it is done; see
//! [`progress`]. Contracts state the outcome over mathematical models, and
//! functions named `law_` state what holds across functions.

pub mod text;
pub mod number;
pub mod ipv4;
pub mod json;
pub mod json_write;
pub mod decode;
pub mod text_map;
pub mod progress;
pub mod netlink;
pub mod cni;
pub mod cni_flannel;
pub mod cni_bridge;
pub mod cni_host_local;
pub mod cni_portmap;
pub mod flanneld;
pub mod members;
pub mod chain;
