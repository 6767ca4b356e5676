[package]
name = "flannel_rs"
version = "0.1.0"
edition = "2021"
publish = false

[dependencies]
anyhow = "1"
fs2 = "0.4"
futures = "0.3"
ipnetwork = "0.20"
k8s-openapi = { version = "0.24", features = ["latest"] }
kube = { version = "0.99", features = ["runtime", "client"] }
netlink-packet-route = "0.19"
nix = { version = "0.29", features = ["sched", "fs"] }
rtnetlink = "0.14"
serde_json = "1"
tokio = { version = "1", features = ["macros", "rt", "rt-multi-thread", "signal", "time", "fs"] }
tracing = "0.1"
tracing-subscriber = { version = "0.3", features = ["env-filter"] }
