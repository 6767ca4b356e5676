//! The portmap plugin, against a nat table in memory.

use std::collections::BTreeMap;

use flannel_rs::cni::env::CniArgs;
use flannel_rs::cni::error::CniError;
use flannel_rs::cni::iptables::Iptables;
use flannel_rs::cni_portmap::command::{cmd_add, cmd_del, run};
use flannel_rs::cni_portmap::config::{pod_ipv4, PortMapping, PortmapConf, RuntimeConfig};
use flannel_rs::cni_portmap::rules::{apply, dn_chain, dnat_args, hairpin_args, hm_chain, remove};
use flannel_rs::ipv4::parse_address;
use flannel_rs::progress::{Invocation, Progress, Reply};

fn ip(s: &str) -> u32 {
    parse_address(s).unwrap()
}

fn args(command: &str) -> CniArgs {
    CniArgs {
        command: command.into(),
        container_id: "cid1".into(),
        netns: String::new(),
        ifname: "eth0".into(),
        args: String::new(),
        path: String::new(),
    }
}

fn mapping() -> PortMapping {
    PortMapping { host_port: 31180, container_port: 80, protocol: "tcp".into(), host_ip: None }
}

/// A nat table that answers commands.
#[derive(Clone, PartialEq, Debug)]
struct Table {
    chains: BTreeMap<String, Vec<Vec<String>>>,
}

impl Table {
    fn new() -> Table {
        let mut chains = BTreeMap::new();
        for c in ["PREROUTING", "INPUT", "OUTPUT", "POSTROUTING"] {
            chains.insert(c.to_string(), Vec::new());
        }
        Table { chains }
    }

    fn answer(&mut self, i: &Invocation) -> Reply {
        assert_eq!(i.args[..3].join(" "), "--wait -t nat");
        let (op, chain, rule) = (i.args[3].as_str(), i.args[4].clone(), i.args[5..].to_vec());
        let used = self.chains.values().flatten().any(|r| r.last() == Some(&chain));
        let exists = self.chains.contains_key(&chain);
        let ok = match op {
            "-N" if exists => {
                return Reply::Exited {
                    success: false,
                    stdout: String::new(),
                    stderr: "iptables: Chain already exists.".into(),
                };
            }
            "-N" => {
                self.chains.insert(chain, Vec::new());
                true
            }
            "-C" => exists && self.chains[&chain].contains(&rule),
            "-A" if exists => {
                self.chains.get_mut(&chain).unwrap().push(rule);
                true
            }
            "-D" if exists => match self.chains[&chain].iter().position(|r| *r == rule) {
                Some(at) => {
                    self.chains.get_mut(&chain).unwrap().remove(at);
                    true
                }
                None => false,
            },
            "-F" if exists => {
                self.chains.get_mut(&chain).unwrap().clear();
                true
            }
            "-X" if exists && !used && self.chains[&chain].is_empty() => {
                self.chains.remove(&chain);
                true
            }
            _ => false,
        };
        Reply::Exited { success: ok, stdout: String::new(), stderr: String::new() }
    }

    fn perform<T, F>(&mut self, f: F) -> T
    where
        F: Fn(&Vec<Reply>) -> Progress<Invocation, T>,
    {
        let mut replies: Vec<Reply> = Vec::new();
        loop {
            match f(&replies) {
                Progress::Done(t, used) => {
                    assert_eq!(used, replies.len());
                    return t;
                }
                Progress::Ask(i) if i.args == ["-t", "nat", "-S"] => {
                    replies.push(Reply::Exited {
                        success: true,
                        stdout: "-N KUBE-SERVICES\n".into(),
                        stderr: String::new(),
                    });
                }
                Progress::Ask(i) => {
                    let r = self.answer(&i);
                    replies.push(r);
                }
            }
        }
    }

    fn apply(&mut self, id: &str, addr: &str, mappings: &Vec<PortMapping>) {
        let ipt = Iptables::with_backend("iptables");
        let r: Result<(), CniError> =
            self.perform(|r| apply(&ipt, id, ip(addr), mappings, r, 0));
        r.unwrap();
    }

    fn remove(&mut self, id: &str) {
        let ipt = Iptables::with_backend("iptables");
        let r: Result<(), CniError> = self.perform(|r| remove(&ipt, id, r, 0));
        r.unwrap();
    }
}

#[test]
fn parses_portmap_conf_with_mappings() {
    let raw = r#"{
          "cniVersion":"0.3.1","name":"cbr0","type":"portmap",
          "runtimeConfig":{"portMappings":[{"hostPort":31180,"containerPort":80,"protocol":"tcp"}]},
          "prevResult":{"cniVersion":"0.3.1","ips":[{"version":"4","address":"10.244.1.5/24","gateway":"10.244.1.1"}]}
        }"#;
    let c = PortmapConf::parse(raw).unwrap();
    assert_eq!(c.runtime_config.port_mappings.len(), 1);
    let m = &c.runtime_config.port_mappings[0];
    assert_eq!(m.host_port, 31180);
    assert_eq!(m.container_port, 80);
    assert_eq!(m.protocol, "tcp");
    assert_eq!(m.host_ip_some(), None);
    let pip = pod_ipv4(c.prev_result.as_ref().unwrap()).unwrap();
    assert_eq!(pip, ip("10.244.1.5"));
}

#[test]
fn parses_containerd_pascalcase_runtime_config() {
    let raw = r#"{"capabilities":{"portMappings":true},"cniVersion":"0.3.1","name":"cbr0","prevResult":{"cniVersion":"0.3.1","dns":{},"ips":[{"address":"10.244.2.4/24","gateway":"10.244.2.1","version":"4"}],"routes":[{"dst":"10.244.0.0/16"}]},"runtimeConfig":{"portMappings":[{"HostPort":31180,"ContainerPort":80,"Protocol":"tcp","HostIP":""}]},"type":"portmap"}"#;
    let c = PortmapConf::parse(raw).unwrap();
    assert_eq!(c.runtime_config.port_mappings.len(), 1);
    let m = &c.runtime_config.port_mappings[0];
    assert_eq!(m.host_port, 31180);
    assert_eq!(m.container_port, 80);
    assert_eq!(m.protocol, "tcp");
    // Empty HostIP must be treated as "no specific host IP".
    assert_eq!(m.host_ip, Some(String::new()));
    assert_eq!(m.host_ip_some(), None);
    let pip = pod_ipv4(c.prev_result.as_ref().unwrap()).unwrap();
    assert_eq!(pip, ip("10.244.2.4"));
}

#[test]
fn parses_mapping_with_host_ip_and_udp() {
    let raw = r#"{"cniVersion":"0.3.1","name":"cbr0","type":"portmap",
          "runtimeConfig":{"portMappings":[{"HostPort":54321,"ContainerPort":53,"Protocol":"udp","HostIP":"127.0.0.2"}]},
          "prevResult":{"cniVersion":"0.3.1","ips":[{"version":"4","address":"10.244.1.5/24"}]}}"#;
    let c = PortmapConf::parse(raw).unwrap();
    let m = &c.runtime_config.port_mappings[0];
    assert_eq!(m.host_port, 54321);
    assert_eq!(m.container_port, 53);
    assert_eq!(m.protocol, "udp");
    assert_eq!(m.host_ip_some(), Some("127.0.0.2"));
}

#[test]
fn empty_runtime_config_yields_no_mappings() {
    let raw = r#"{"cniVersion":"0.3.1","prevResult":{"cniVersion":"0.3.1","ips":[]}}"#;
    let c = PortmapConf::parse(raw).unwrap();
    assert!(c.runtime_config.port_mappings.is_empty());
}

#[test]
fn ports_have_to_fit() {
    let raw = |p: &str| {
        format!(
            r#"{{"cniVersion":"0.3.1","runtimeConfig":{{"portMappings":[{{"hostPort":{p},"containerPort":80,"protocol":"tcp"}}]}}}}"#
        )
    };
    assert!(PortmapConf::parse(&raw("65535")).is_ok());
    assert!(PortmapConf::parse(&raw("65536")).is_err());
    assert!(PortmapConf::parse(&raw("-1")).is_err());
    assert!(PortmapConf::parse(&raw("\"80\"")).is_err());
    assert!(RuntimeConfig::default().port_mappings.is_empty());
}

#[test]
fn add_noop_relays_prevresult_not_config() {
    let stdin = r#"{"cniVersion":"0.3.1","name":"cbr0","type":"portmap","runtimeConfig":{"portMappings":[]},"prevResult":{"cniVersion":"0.3.1","ips":[{"version":"4","address":"10.244.1.5/24","gateway":"10.244.1.1"}]}}"#;
    let out = match cmd_add(&args("ADD"), stdin, &Vec::new()) {
        Progress::Done(r, 0) => r.unwrap(),
        other => panic!("{other:?}"),
    };
    let v: serde_json::Value = serde_json::from_str(&out).unwrap();
    assert!(v.get("runtimeConfig").is_none(), "must not emit the netconf");
    assert!(v.get("prevResult").is_none(), "must emit the result itself, not wrap it");
    assert_eq!(v["ips"][0]["address"], "10.244.1.5/24");
}

#[test]
fn dn_chain_within_iptables_limit() {
    let c = dn_chain("ec5a938858dce08f4179b48658de7bbd");
    assert!(c.len() <= 28, "len {}", c.len());
    assert!(c.starts_with("CNI-DN-"));
}

#[test]
fn chain_names_are_exact() {
    assert_eq!(dn_chain("ec5a-9388_58dce08f4179b48658de7bbd"), "CNI-DN-ec5a938858dce08f");
    assert_eq!(hm_chain("abc"), "CNI-HM-abc");
}

#[test]
fn dnat_args_target_pod_ip_and_port() {
    let a = dnat_args(&mapping(), ip("10.244.1.5"));
    assert_eq!(
        a,
        vec!["-p", "tcp", "--dport", "31180", "-j", "DNAT", "--to-destination", "10.244.1.5:80"]
    );
}

#[test]
fn hairpin_args_masquerade_self_traffic() {
    let a = hairpin_args(&mapping(), ip("10.244.1.5"));
    assert_eq!(
        a,
        vec![
            "-p",
            "tcp",
            "-s",
            "10.244.1.5/32",
            "-d",
            "10.244.1.5/32",
            "--dport",
            "80",
            "-j",
            "MASQUERADE"
        ]
    );
}

#[test]
fn installing_puts_each_rule_in_place() {
    let mut t = Table::new();
    t.apply("cid1", "10.244.1.5", &vec![mapping()]);
    assert_eq!(t.chains["CNI-DN-cid1"], vec![dnat_args(&mapping(), ip("10.244.1.5"))]);
    assert_eq!(t.chains["CNI-HM-cid1"], vec![hairpin_args(&mapping(), ip("10.244.1.5"))]);
    assert_eq!(t.chains["CNI-HOSTPORT-DNAT"], vec![vec!["-j", "CNI-DN-cid1"]]);
    assert_eq!(t.chains["POSTROUTING"], vec![vec!["-j", "CNI-HM-cid1"]]);
    let local = vec!["-m", "addrtype", "--dst-type", "LOCAL", "-j", "CNI-HOSTPORT-DNAT"];
    assert_eq!(t.chains["PREROUTING"], vec![local.clone()]);
    assert_eq!(t.chains["OUTPUT"], vec![local]);
}

#[test]
fn installing_twice_is_installing_once() {
    let mut t = Table::new();
    t.apply("cid1", "10.244.1.5", &vec![mapping(), mapping()]);
    let once = t.clone();
    t.apply("cid1", "10.244.1.5", &vec![mapping(), mapping()]);
    assert_eq!(t, once);
}

#[test]
fn removing_undoes_installing() {
    let mut t = Table::new();
    t.apply("cid1", "10.244.1.5", &vec![mapping()]);
    let before = t.clone();
    t.apply("cid2", "10.244.1.6", &vec![mapping()]);
    assert_ne!(t, before);
    t.remove("cid2");
    assert_eq!(t, before);
    t.remove("cid2");
    assert_eq!(t, before);
}

#[test]
fn containers_do_not_disturb_each_other() {
    let mut t = Table::new();
    t.apply("cid1", "10.244.1.5", &vec![mapping()]);
    let dn = t.chains["CNI-DN-cid1"].clone();
    t.apply("cid2", "10.244.1.6", &vec![mapping()]);
    t.remove("cid2");
    assert_eq!(t.chains["CNI-DN-cid1"], dn);
}

const MAPPED: &str = r#"{"cniVersion":"0.3.1","runtimeConfig":{"portMappings":[{"hostPort":31180,"containerPort":80,"protocol":"tcp"}]},"prevResult":{"cniVersion":"0.3.1","ips":[{"version":"4","address":"10.244.1.5/24"}]}}"#;

#[test]
fn commands_install_and_remove() {
    let mut t = Table::new();
    let out: Result<String, CniError> = t.perform(|r| cmd_add(&args("ADD"), MAPPED, r));
    assert!(out.unwrap().contains("10.244.1.5/24"));
    assert!(t.chains.contains_key("CNI-DN-cid1"));
    let out: Result<String, CniError> = t.perform(|r| cmd_del(&args("DEL"), MAPPED, r));
    out.unwrap();
    assert!(!t.chains.contains_key("CNI-DN-cid1") && !t.chains.contains_key("CNI-HM-cid1"));
}

#[test]
fn the_previous_result_is_relayed_with_all_of_its_members() {
    let prev = r#"{"cniVersion":"0.3.1","dns":{"nameservers":["1.1.1.1"]},"interfaces":[{"name":"eth0"}],"ips":[{"address":"10.244.1.5/24","interface":0,"version":"4"}]}"#;
    let mapped = r#""runtimeConfig":{"portMappings":[{"hostPort":1,"containerPort":2}]},"#;
    let mut t = Table::new();
    for mappings in ["", mapped] {
        let raw = format!(r#"{{{mappings}"prevResult":{prev}}}"#);
        let out: Result<String, CniError> = t.perform(|r| cmd_add(&args("ADD"), &raw, r));
        let out: serde_json::Value = serde_json::from_str(&out.unwrap()).unwrap();
        let expected: serde_json::Value = serde_json::from_str(prev).unwrap();
        assert_eq!(out, expected);
    }
    let out: Result<String, CniError> =
        t.perform(|r| cmd_add(&args("ADD"), r#"{"prevResult":null}"#, r));
    assert_eq!(out.unwrap_err().msg, "portmap requires prevResult");
}

#[test]
fn what_others_put_into_the_table_stays() {
    let foreign: Vec<String> = vec!["-j".into(), "KUBE-POSTROUTING".into()];
    let mut t = Table::new();
    t.chains.insert("KUBE-POSTROUTING".into(), Vec::new());
    t.chains.get_mut("POSTROUTING").unwrap().push(foreign.clone());
    t.apply("cid1", "10.244.1.5", &vec![mapping()]);
    assert_eq!(t.chains["POSTROUTING"][0], foreign);
    t.remove("cid1");
    assert_eq!(t.chains["POSTROUTING"], vec![foreign]);
    assert!(t.chains.contains_key("KUBE-POSTROUTING"));
    assert!(t.chains["CNI-HOSTPORT-DNAT"].is_empty());
    assert_eq!(t.chains["PREROUTING"].len(), 1);
}

#[test]
fn a_mapping_needs_an_address() {
    let mut t = Table::new();
    let raw = MAPPED.replace(r#"{"version":"4","address":"10.244.1.5/24"}"#, "");
    let out: Result<String, CniError> = t.perform(|r| cmd_add(&args("ADD"), &raw, r));
    assert_eq!(out.unwrap_err().code, 7);
    let out: Result<String, CniError> = t.perform(|r| cmd_add(&args("ADD"), "{", r));
    assert_eq!(out.unwrap_err().code, 6);
}

#[test]
fn portmap_runs_dispatch_on_the_command() {
    let mut t = Table::new();
    let out: Result<String, CniError> = t.perform(|r| run(&args("VERSION"), "", r));
    assert!(out.unwrap().contains("0.3.1"));
    let out: Result<String, CniError> = t.perform(|r| run(&args("ADD"), MAPPED, r));
    assert!(out.is_ok());
    let out: Result<String, CniError> = t.perform(|r| run(&args("CHECK"), "", r));
    assert!(out.is_ok());
    let out: Result<String, CniError> = t.perform(|r| run(&args("GC"), MAPPED, r));
    assert_eq!(out.unwrap_err().code, 4);
    assert_eq!(mapping().clone().protocol, "tcp");
}
