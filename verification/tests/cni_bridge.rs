//! The bridge plugin, against a kernel in memory.

use flannel_rs::cni::delegate;
use flannel_rs::cni::env::CniArgs;
use flannel_rs::cni::error::CniError;
use flannel_rs::cni::result::CniResult;
use flannel_rs::cni_bridge::command::{cmd_add, cmd_del, run, Question};
use flannel_rs::cni_bridge::config::BridgeConf;
use flannel_rs::cni_bridge::plan::{host_veth_name, ip_plan, temp_cont_name};
use flannel_rs::ipv4::parse_address;
use flannel_rs::netlink::{Reply, Request};
use flannel_rs::progress::Progress;

fn ip(s: &str) -> u32 {
    parse_address(s).unwrap()
}

const RESULT: &str = r#"{"cniVersion":"0.3.1","ips":[{"version":"4","address":"10.244.1.2/24","gateway":"10.244.1.1"}],"routes":[{"dst":"10.244.0.0/16"}]}"#;

const CONF: &str = r#"{"cniVersion":"0.3.1","type":"bridge","bridge":"cni0","mtu":1450,"isGateway":true,"isDefaultGateway":true,"ipam":{"type":"host-local"}}"#;

fn args(command: &str, netns: &str) -> CniArgs {
    CniArgs {
        command: command.into(),
        container_id: "ec5a938858dce08f4179b48658de7bbd".into(),
        netns: netns.into(),
        ifname: "eth0".into(),
        args: String::new(),
        path: "/opt/cni/bin".into(),
    }
}

/// Links by name, what was asked, and which request fails.
struct Kernel {
    links: Vec<(String, u32)>,
    asked: Vec<String>,
    fails: &'static str,
    output: &'static str,
    success: bool,
}

impl Kernel {
    fn new(fails: &'static str) -> Kernel {
        Kernel { links: Vec::new(), asked: Vec::new(), fails, output: RESULT, success: true }
    }

    fn add(&mut self, name: String) {
        let idx = 10 + self.asked.len() as u32;
        self.links.push((name, idx));
    }

    fn answer(&mut self, q: Request) -> Reply {
        let text = format!("{q:?}");
        let fails = !self.fails.is_empty() && text.starts_with(self.fails);
        self.asked.push(text);
        if fails {
            return Reply::Failed("no".into());
        }
        match q {
            Request::FindLink(n) => {
                Reply::Link(self.links.iter().find(|l| l.0 == n).map(|l| l.1))
            }
            Request::AddBridge(n) => {
                self.add(n);
                Reply::Done
            }
            Request::AddVeth(a, b) => {
                self.add(a);
                let idx = 100 + self.asked.len() as u32;
                self.links.push((b, idx));
                Reply::Done
            }
            Request::DeleteLink(i) => {
                let gone: Vec<String> =
                    self.links.iter().filter(|l| l.1 == i).map(|l| l.0.clone()).collect();
                if !gone.is_empty() {
                    self.links.retain(|l| !l.0.starts_with("veth"));
                }
                Reply::Done
            }
            _ => Reply::Done,
        }
    }

    fn perform<F>(&mut self, f: F) -> Result<String, CniError>
    where
        F: Fn(&Vec<Reply>, &Vec<delegate::Answer>) -> Progress<Question, Result<String, CniError>>,
    {
        let mut replies: Vec<Reply> = Vec::new();
        let mut answers: Vec<delegate::Answer> = Vec::new();
        loop {
            match f(&replies, &answers) {
                Progress::Done(r, used) => {
                    assert_eq!(used, replies.len());
                    return r;
                }
                Progress::Ask(Question::Net(q)) => {
                    let r = self.answer(q);
                    replies.push(r);
                }
                Progress::Ask(Question::Plugin(delegate::Question::IsExecutable(_))) => {
                    answers.push(delegate::Answer::Executable(true));
                }
                Progress::Ask(Question::Plugin(delegate::Question::Run { program, .. })) => {
                    self.asked.push(program);
                    answers.push(delegate::Answer::Ended {
                        stdout: self.output.into(),
                        success: self.success,
                    });
                }
            }
        }
    }

    fn add_container(&mut self) -> Result<String, CniError> {
        let conf = BridgeConf::parse(CONF).unwrap();
        let a = args("ADD", "/var/run/netns/x");
        self.perform(|r, s| cmd_add(&a, &conf, CONF, r, s))
    }
}

#[test]
fn parses_flannel_bridge_delegate() {
    let raw = r#"{"name":"cbr0","cniVersion":"0.3.1","type":"bridge","mtu":1450,"isGateway":true,"isDefaultGateway":true,"hairpinMode":true,"ipMasq":false,"ipam":{"type":"host-local","ranges":[[{"subnet":"10.244.1.0/24"}]]}}"#;
    let c = BridgeConf::parse(raw).unwrap();
    assert_eq!(c.bridge, "cbr0");
    assert_eq!(c.mtu, Some(1450));
    assert!(c.is_gateway && c.is_default_gateway && c.hairpin_mode);
    assert_eq!(c.ipam.kind, "host-local");
}

#[test]
fn bridge_name_defaults_to_cni0() {
    let raw = r#"{"cniVersion":"0.3.1","ipam":{"type":"host-local"}}"#;
    assert_eq!(BridgeConf::parse(raw).unwrap().bridge, "cni0");
}

#[test]
fn host_veth_name_is_bounded_and_deterministic() {
    let n = host_veth_name("ec5a938858dce08f4179b48658de7bbd");
    assert!(n.len() <= 15, "len {}", n.len());
    assert_eq!(n, host_veth_name("ec5a938858dce08f4179b48658de7bbd"));
    assert!(n.starts_with("veth"));
}

#[test]
fn the_two_ends_have_different_names() {
    let id = "ec5a938858dce08f4179b48658de7bbd";
    assert_eq!(temp_cont_name(id), "vethcec5a938858");
    assert!(temp_cont_name(id).len() <= 15);
    assert_ne!(temp_cont_name(id), host_veth_name(id));
}

#[test]
fn ip_plan_extracts_from_result() {
    let r = CniResult::parse(RESULT).unwrap();
    let p = ip_plan(&r).unwrap();
    assert_eq!(p.addr, ip("10.244.1.2"));
    assert_eq!(p.prefix, 24);
    assert_eq!(p.gateway, Some(ip("10.244.1.1")));
    assert_eq!(p.routes[0].cidr_text(), "10.244.0.0/16");
}

#[test]
fn a_plan_needs_an_address() {
    let none = CniResult::parse(r#"{"cniVersion":"0.3.1","ips":[]}"#).unwrap();
    assert!(ip_plan(&none).is_err());
    let bad = r#"{"cniVersion":"0.3.1","ips":[{"version":"4","address":"x"}]}"#;
    assert!(ip_plan(&CniResult::parse(bad).unwrap()).is_err());
}

#[test]
fn adding_connects_the_container() {
    let mut k = Kernel::new("");
    assert_eq!(k.add_container().unwrap(), RESULT);
    let id = "ec5a938858dce08f4179b48658de7bbd";
    let order = [
        "Connect".to_string(),
        "FindLink(\"cni0\")".to_string(),
        "AddBridge(\"cni0\")".to_string(),
        "/opt/cni/bin/host-local".to_string(),
        format!("AddVeth({:?}, {:?})", host_veth_name(id), temp_cont_name(id)),
        "OpenNetns(\"/var/run/netns/x\")".to_string(),
        "Rename(".to_string(),
        "AddAddress(".to_string(),
        "EnableForwarding".to_string(),
    ];
    let mut at = 0;
    for want in &order {
        let found = k.asked[at..].iter().position(|a| a.starts_with(want.as_str()));
        at += found.unwrap_or_else(|| panic!("{want} in {:?}", k.asked)) + 1;
    }
    assert!(k.asked.iter().any(|a| a.contains(&format!("{}, 24)", ip("10.244.1.2")))));
    assert!(k.links.iter().any(|l| l.0 == host_veth_name(id)));
}

#[test]
fn a_failed_add_leaves_no_link_behind() {
    for fails in ["OpenNetns", "MoveToNetns", "Rename", "SetController", "AddAddress"] {
        let mut k = Kernel::new(fails);
        let r = k.add_container();
        assert!(r.is_err(), "{fails}");
        assert!(!k.links.iter().any(|l| l.0.starts_with("veth")), "{fails}: {:?}", k.asked);
        assert!(k.asked.last().unwrap().starts_with("DeleteLink"), "{fails}");
    }
}

#[test]
fn a_failing_address_plugin_is_an_error() {
    let mut k = Kernel::new("");
    k.output = "{\"code\":7}";
    k.success = false;
    let e = k.add_container().unwrap_err();
    assert_eq!((e.code, e.msg.as_str()), (7, "ipam add failed"));
    assert_eq!(e.details.as_deref(), Some("{\"code\":7}"));
    let mut k = Kernel::new("");
    k.output = "nonsense";
    assert_eq!(k.add_container().unwrap_err().code, 6);
}

#[test]
fn early_failures_have_their_codes() {
    assert_eq!(Kernel::new("Connect").add_container().unwrap_err().code, 5);
    let e = Kernel::new("AddBridge").add_container().unwrap_err();
    assert_eq!((e.code, e.details.as_deref()), (7, Some("create bridge: no")));
    let e = Kernel::new("AddVeth").add_container().unwrap_err();
    assert_eq!((e.code, e.details.as_deref()), (5, Some("create veth pair: no")));
}

#[test]
fn deleting_succeeds_whatever_happens() {
    let conf = BridgeConf::parse(CONF).unwrap();
    for netns in ["", "/var/run/netns/x"] {
        for fails in ["", "OpenNetns", "Connect", "FindLink", "EnterNs"] {
            let a = args("DEL", netns);
            let mut k = Kernel::new(fails);
            k.success = false;
            let r = k.perform(|r, s| cmd_del(&a, &conf, CONF, r, s));
            assert_eq!(r.unwrap(), "");
        }
    }
}

#[test]
fn bridge_runs_dispatch_on_the_command() {
    let mut k = Kernel::new("");
    let out = k.perform(|r, s| run(&args("VERSION", ""), "", r, s)).unwrap();
    assert!(out.contains("supportedVersions"));
    let out = k.perform(|r, s| run(&args("ADD", "/n"), CONF, r, s)).unwrap();
    assert_eq!(out, RESULT);
    assert_eq!(k.perform(|r, s| run(&args("CHECK", "/n"), "", r, s)).unwrap(), "");
    assert_eq!(k.perform(|r, s| run(&args("ADD", "/n"), "{", r, s)).unwrap_err().code, 6);
    assert_eq!(k.perform(|r, s| run(&args("GC", "/n"), CONF, r, s)).unwrap_err().code, 4);
}
