//! The host-local plugin, against directories in memory.

use std::collections::{BTreeMap, HashSet};

use flannel_rs::cni::env::CniArgs;
use flannel_rs::cni::error::CniError;
use flannel_rs::cni::result::CniResult;
use flannel_rs::cni_host_local::allocator::Allocator;
use flannel_rs::cni_host_local::command::{cmd_add, cmd_check, cmd_del, run, Answer, Question};
use flannel_rs::cni_host_local::store::{Change, Store};
use flannel_rs::ipv4::{parse_address, Ipv4Net};
use flannel_rs::progress::Progress;
use flannel_rs::text_map::TextMap;

fn net(s: &str) -> Ipv4Net {
    Ipv4Net::parse(s).unwrap()
}

fn ip(s: &str) -> u32 {
    parse_address(s).unwrap()
}

/// Directories by path, each with its files.
#[derive(Default)]
struct Disk {
    dirs: BTreeMap<String, BTreeMap<String, String>>,
    locks: Vec<String>,
    full: bool,
}

type Command = fn(&CniArgs, &str, &Vec<Answer>) -> Progress<Question, Result<String, CniError>>;

impl Disk {
    fn files(&self, dir: &str) -> TextMap<String> {
        let mut m = TextMap::new();
        for (k, v) in self.dirs.get(dir).into_iter().flatten() {
            m.insert(k.clone(), v.clone());
        }
        m
    }

    fn answer(&mut self, q: Question) -> Answer {
        match q {
            Question::Open(d) => {
                self.dirs.entry(d).or_default();
                Answer::Done
            }
            Question::Lock(d) => {
                self.locks.push(d);
                Answer::Done
            }
            Question::Load(d) => Answer::Loaded(self.files(&d)),
            Question::Save(d, changes) => {
                if self.full {
                    return Answer::Failed("disk full".into());
                }
                let files = self.dirs.get_mut(&d).unwrap();
                for c in changes {
                    match c {
                        Change::Write(n, s) => {
                            files.insert(n, s);
                        }
                        Change::Remove(n) => {
                            files.remove(&n);
                        }
                    }
                }
                Answer::Done
            }
        }
    }

    fn perform(&mut self, f: Command, a: &CniArgs, stdin: &str) -> Result<String, CniError> {
        let mut answers: Vec<Answer> = Vec::new();
        loop {
            match f(a, stdin, &answers) {
                Progress::Done(r, _) => return r,
                Progress::Ask(q) => {
                    let answer = self.answer(q);
                    answers.push(answer);
                }
            }
        }
    }
}

fn args(cmd: &str, cid: &str) -> CniArgs {
    let mut m = TextMap::new();
    for (k, v) in [("CNI_COMMAND", cmd), ("CNI_CONTAINERID", cid), ("CNI_IFNAME", "eth0")] {
        m.insert(k.to_string(), v.to_string());
    }
    CniArgs::from_map(&m).unwrap()
}

fn conf(data_dir: &str) -> String {
    format!(
        r#"{{"cniVersion":"0.3.1","name":"cbr0","ipam":{{"type":"host-local","ranges":[[{{"subnet":"10.244.1.0/24"}}]],"routes":[{{"dst":"0.0.0.0/0"}}],"dataDir":"{data_dir}"}}}}"#
    )
}

fn conf_of(subnet: &str, gateway: &str) -> String {
    format!(
        r#"{{"cniVersion":"0.3.1","name":"n","ipam":{{"type":"host-local","ranges":[[{{"subnet":"{subnet}"{gateway}}}]],"dataDir":"/d"}}}}"#
    )
}

#[test]
fn default_gateway_is_first_usable() {
    let a = Allocator::new(net("10.244.1.0/24"), None);
    assert_eq!(a.gateway(), ip("10.244.1.1"));
}

#[test]
fn first_allocation_skips_network_and_gateway() {
    let a = Allocator::new(net("10.244.1.0/24"), None);
    assert_eq!(a.next_ip(&HashSet::new(), None), Some(ip("10.244.1.2")));
}

#[test]
fn sequential_after_last_reserved() {
    let a = Allocator::new(net("10.244.1.0/24"), None);
    let leased: HashSet<_> = [ip("10.244.1.2")].into_iter().collect();
    assert_eq!(a.next_ip(&leased, Some(ip("10.244.1.2"))), Some(ip("10.244.1.3")));
}

#[test]
fn wraps_around_to_find_free() {
    let a = Allocator::new(net("10.244.1.0/24"), None);
    let mut leased: HashSet<u32> = HashSet::new();
    for o in 3..=254 {
        leased.insert(ip(&format!("10.244.1.{o}")));
    }
    assert_eq!(a.next_ip(&leased, Some(ip("10.244.1.254"))), Some(ip("10.244.1.2")));
}

#[test]
fn exhausted_range_returns_none() {
    let a = Allocator::new(net("10.244.1.0/24"), None);
    let mut leased: HashSet<u32> = HashSet::new();
    for o in 2..=254 {
        leased.insert(ip(&format!("10.244.1.{o}")));
    }
    assert_eq!(a.next_ip(&leased, None), None);
}

#[test]
fn explicit_gateway_is_excluded() {
    let a = Allocator::new(net("10.244.1.0/24"), Some(ip("10.244.1.5")));
    let chosen = a.next_ip(&HashSet::new(), None).unwrap();
    assert_ne!(chosen, ip("10.244.1.5"));
    // With an explicit gateway of .5, only network/broadcast/.5 are excluded,
    // so the first usable host is .1 (not .2: that skip only happens with the
    // default gateway, which is itself .1).
    assert_eq!(chosen, ip("10.244.1.1"));
}

#[test]
fn tiny_subnets_have_no_address() {
    for s in ["10.0.0.0/32", "10.0.0.0/31", "10.0.0.0/30"] {
        let a = Allocator::new(net(s), None);
        let leased: HashSet<u32> = HashSet::new();
        let got = a.next_ip(&leased, None);
        assert_eq!(got, if s.ends_with("30") { Some(ip("10.0.0.2")) } else { None }, "{s}");
    }
}

#[test]
fn an_unusable_last_address_starts_over() {
    let a = Allocator::new(net("10.244.1.0/24"), None);
    assert_eq!(a.prefix(), 24);
    assert!(!a.is_usable(ip("10.244.1.0")) && !a.is_usable(ip("10.244.1.255")));
    assert!(!a.is_usable(ip("10.244.1.1")) && a.is_usable(ip("10.244.1.2")));
    assert_eq!(a.next_ip(&HashSet::new(), Some(ip("10.9.9.9"))), Some(ip("10.244.1.2")));
}

#[test]
fn addresses_differ_until_the_range_is_exhausted() {
    let a = Allocator::new(net("10.0.0.0/28"), None);
    let mut leased: HashSet<u32> = HashSet::new();
    let mut last = None;
    while let Some(got) = a.next_ip(&leased, last) {
        assert!(a.is_usable(got));
        assert!(leased.insert(got));
        last = Some(got);
    }
    assert_eq!(leased.len(), 13);
}

#[test]
fn add_allocates_first_host_and_persists() {
    let mut disk = Disk::default();
    let c = conf("/tmp/x");
    let out = disk.perform(cmd_add, &args("ADD", "cid1"), &c).unwrap();
    let v: serde_json::Value = serde_json::from_str(&out).unwrap();
    assert_eq!(v["ips"][0]["address"], "10.244.1.2/24");
    assert_eq!(v["ips"][0]["gateway"], "10.244.1.1");
    assert_eq!(v["routes"][0]["dst"], "0.0.0.0/0");
    let files = &disk.dirs["/tmp/x/cbr0"];
    assert_eq!(files["10.244.1.2"], "cid1\neth0");
    assert_eq!(files["last_reserved_ip.0"], "10.244.1.2");
    assert_eq!(disk.locks, vec!["/tmp/x/cbr0"]);
}

#[test]
fn second_add_gets_next_ip() {
    let mut disk = Disk::default();
    let c = conf("/tmp/x");
    disk.perform(cmd_add, &args("ADD", "cid1"), &c).unwrap();
    let out = disk.perform(cmd_add, &args("ADD", "cid2"), &c).unwrap();
    let v: serde_json::Value = serde_json::from_str(&out).unwrap();
    assert_eq!(v["ips"][0]["address"], "10.244.1.3/24");
}

#[test]
fn del_frees_ip_for_reuse() {
    let mut disk = Disk::default();
    let c = conf("/tmp/x");
    disk.perform(cmd_add, &args("ADD", "cid1"), &c).unwrap();
    disk.perform(cmd_del, &args("DEL", "cid1"), &c).unwrap();
    let out = disk.perform(cmd_add, &args("ADD", "cid3"), &c).unwrap();
    let v: serde_json::Value = serde_json::from_str(&out).unwrap();
    // The freed .2 is now available again, but DEL does not rewind
    // last_reserved_ip (round-robin semantics), so the next allocation
    // continues from after .2 and hands out .3.
    assert_eq!(v["ips"][0]["address"], "10.244.1.3/24");
    // Confirm .2 was actually freed and is allocatable on a subsequent wrap.
    assert!(!Store::new(disk.files("/tmp/x/cbr0")).leased().contains(&ip("10.244.1.2")));
}

#[test]
fn check_reflects_allocation() {
    let mut disk = Disk::default();
    let c = conf("/tmp/x");
    assert!(disk.perform(cmd_check, &args("CHECK", "cid1"), &c).is_err());
    disk.perform(cmd_add, &args("ADD", "cid1"), &c).unwrap();
    assert!(disk.perform(cmd_check, &args("CHECK", "cid1"), &c).is_ok());
}

#[test]
fn rejects_oversized_subnet() {
    let mut disk = Disk::default();
    let c = r#"{"cniVersion":"0.3.1","name":"cbr0","ipam":{"type":"host-local","ranges":[[{"subnet":"10.0.0.0/8"}]],"dataDir":"/tmp/x"}}"#;
    let err = disk.perform(cmd_add, &args("ADD", "cid1"), c).unwrap_err();
    assert_eq!(err.code, 7);
}

#[test]
fn a_deleted_container_is_gone() {
    let mut disk = Disk::default();
    let c = conf("/tmp/x");
    disk.perform(cmd_add, &args("ADD", "cid1"), &c).unwrap();
    disk.perform(cmd_add, &args("ADD", "cid2"), &c).unwrap();
    disk.perform(cmd_del, &args("DEL", "cid1"), &c).unwrap();
    disk.perform(cmd_del, &args("DEL", "cid1"), &c).unwrap();
    assert!(disk.perform(cmd_check, &args("CHECK", "cid1"), &c).is_err());
    assert!(disk.perform(cmd_check, &args("CHECK", "cid2"), &c).is_ok());
}

#[test]
fn an_exhausted_range_is_an_error() {
    let mut disk = Disk::default();
    let c = conf_of("10.0.0.0/30", "");
    let out = disk.perform(cmd_add, &args("ADD", "cid1"), &c).unwrap();
    assert!(out.contains("10.0.0.2/30"));
    let err = disk.perform(cmd_add, &args("ADD", "cid2"), &c).unwrap_err();
    assert_eq!(err.code, 7);
    assert_eq!(disk.dirs["/d/n"].len(), 2);
}

#[test]
fn malformed_configurations_are_errors() {
    let mut disk = Disk::default();
    let a = args("ADD", "cid1");
    assert_eq!(disk.perform(cmd_add, &a, "{").unwrap_err().code, 6);
    let empty = r#"{"cniVersion":"0.3.1","name":"n","ipam":{"type":"host-local"}}"#;
    assert!(disk.perform(cmd_add, &a, empty).is_err());
    assert!(disk.perform(cmd_add, &a, &conf_of("nonsense", "")).is_err());
    let gw = conf_of("10.0.0.0/24", r#","gateway":"nonsense""#);
    assert!(disk.perform(cmd_add, &a, &gw).is_err());
}

#[test]
fn a_gateway_of_the_configuration_is_used() {
    let mut disk = Disk::default();
    let c = conf_of("10.0.0.0/24", r#","gateway":"10.0.0.9""#);
    let out = disk.perform(cmd_add, &args("ADD", "cid1"), &c).unwrap();
    let v: serde_json::Value = serde_json::from_str(&out).unwrap();
    assert_eq!(v["ips"][0]["address"], "10.0.0.1/24");
    assert_eq!(v["ips"][0]["gateway"], "10.0.0.9");
}

#[test]
fn a_failing_disk_is_an_error() {
    let mut disk = Disk { full: true, ..Disk::default() };
    let err = disk.perform(cmd_add, &args("ADD", "cid1"), &conf("/tmp/x")).unwrap_err();
    assert_eq!(err.code, 5);
    assert_eq!(err.details.as_deref(), Some("disk full"));
}

#[test]
fn runs_dispatch_on_the_command() {
    let mut disk = Disk::default();
    let c = conf("/tmp/x");
    assert!(disk.perform(run, &args("VERSION", ""), "").unwrap().contains("0.3.1"));
    assert!(disk.perform(run, &args("ADD", "cid1"), &c).unwrap().contains("10.244.1.2/24"));
    assert!(disk.perform(run, &args("CHECK", "cid1"), &c).is_ok());
    assert!(disk.perform(run, &args("DEL", "cid1"), &c).is_ok());
    assert_eq!(disk.perform(run, &args("GC", "cid1"), &c).unwrap_err().code, 4);
}

#[test]
fn reserve_then_leased_and_last() {
    let mut s = Store::new(TextMap::new());
    s.reserve(ip("10.244.1.2"), "cid1", "eth0");
    assert!(s.leased().contains(&ip("10.244.1.2")));
    assert_eq!(s.last_reserved(), Some(ip("10.244.1.2")));
    assert!(s.has("cid1", "eth0"));
}

#[test]
fn release_is_idempotent_and_targeted() {
    let mut s = Store::new(TextMap::new());
    s.reserve(ip("10.244.1.2"), "cid1", "eth0");
    s.reserve(ip("10.244.1.3"), "cid2", "eth0");
    s.release("cid1", "eth0");
    assert!(!s.leased().contains(&ip("10.244.1.2")));
    assert!(s.leased().contains(&ip("10.244.1.3")));
    s.release("cid1", "eth0");
    assert!(!s.has("cid1", "eth0"));
}

#[test]
fn changes_are_what_the_disk_has_to_do() {
    let mut s = Store::new(TextMap::new());
    let changes = s.reserve(ip("10.244.1.2"), "cid1", "eth0");
    assert_eq!(
        changes,
        vec![
            Change::Write("10.244.1.2".into(), "cid1\neth0".into()),
            Change::Write("last_reserved_ip.0".into(), "10.244.1.2".into()),
        ]
    );
    let changes = s.release("cid1", "eth0");
    assert_eq!(changes, vec![Change::Remove("10.244.1.2".into())]);
    assert!(s.release("cid1", "eth0").is_empty());
}

#[test]
fn foreign_files_are_no_leases() {
    let mut files = TextMap::new();
    files.insert("lock".to_string(), String::new());
    files.insert("last_reserved_ip.0".to_string(), " 10.0.0.7\n".to_string());
    files.insert("10.0.0.8".to_string(), "cid\neth0\n".to_string());
    let s = Store::new(files);
    assert_eq!(s.leased().len(), 1);
    assert_eq!(s.last_reserved(), Some(ip("10.0.0.7")));
    assert!(s.has("cid", "eth0"));
    assert!(!s.has("cid", "eth1"));
}

#[test]
fn a_lease_without_interface_is_found_and_released() {
    let mut s = Store::new(TextMap::new());
    s.reserve(ip("10.244.1.2"), "cid1", "");
    assert!(s.has("cid1", ""));
    assert!(!s.has("cid1", "eth0"));
    assert_eq!(s.release("cid1", ""), vec![Change::Remove("10.244.1.2".into())]);
    assert!(!s.has("cid1", ""));
}

#[test]
fn the_configured_name_resolution_is_handed_on() {
    let mut disk = Disk::default();
    let with = |dns: &str| {
        format!(
            r#"{{"name":"n","ipam":{{"ranges":[[{{"subnet":"10.0.0.0/24"}}]],"dataDir":"/d"}},"dns":{dns}}}"#
        )
    };
    let full = r#"{"nameservers":["10.96.0.10","1.1.1.1"],"domain":"a.b","search":["s"],"options":["ndots:5"]}"#;
    let out = disk.perform(cmd_add, &args("ADD", "c1"), &with(full)).unwrap();
    assert_eq!(
        out,
        format!(
            r#"{{"cniVersion":"0.3.1","ips":[{{"version":"4","address":"10.0.0.2/24","gateway":"10.0.0.1"}}],"dns":{full}}}"#
        )
    );
    assert_eq!(CniResult::parse(&out).unwrap().ips[0].address, "10.0.0.2/24");

    let out = disk.perform(cmd_add, &args("ADD", "c2"), &with(r#"{"search":null}"#)).unwrap();
    assert!(out.ends_with(r#"],"dns":{}}"#), "{out}");
    let out = disk.perform(cmd_add, &args("ADD", "c3"), &with("null")).unwrap();
    assert!(!out.contains("dns"));
    for bad in ["5", r#"{"nameservers":"x"}"#, r#"{"search":[1]}"#, r#"{"domain":[]}"#] {
        let e = disk.perform(cmd_add, &args("ADD", "c4"), &with(bad)).unwrap_err();
        assert_eq!(e.code, 6, "{bad}");
    }
}

#[test]
fn a_check_tells_what_the_calls_before_did() {
    let mut disk = Disk::default();
    let conf = conf("/d");
    let found = |disk: &mut Disk, cid: &str| {
        disk.perform(cmd_check, &args("CHECK", cid), &conf).is_ok()
    };
    for (command, cid, first, second) in [
        ("DEL", "a", false, false),
        ("ADD", "a", true, false),
        ("ADD", "b", true, true),
        ("ADD", "a", true, true),
        ("DEL", "a", false, true),
        ("DEL", "a", false, true),
        ("ADD", "a", true, true),
        ("DEL", "b", true, false),
    ] {
        let f: Command = if command == "ADD" { cmd_add } else { cmd_del };
        disk.perform(f, &args(command, cid), &conf).unwrap();
        let before = disk.dirs.clone();
        assert_eq!(found(&mut disk, "a"), first, "{command} {cid}");
        assert_eq!(found(&mut disk, "b"), second, "{command} {cid}");
        assert_eq!(disk.dirs, before);
    }
}
