//! The daemon.

use flannel_rs::cni_flannel::subnetenv;
use flannel_rs::flanneld::annotation::{key, BackendData};
use flannel_rs::flanneld::config::{BackendType, NetConf};
use flannel_rs::flanneld::daemon::{
    bootstrap, classify_net_conf, react, try_bootstrap, wants_version, Attempt, BootstrapState,
    Event, Failure, Fatal, Learned, Next, Question, Reaction, FIRST_DELAY,
};
use flannel_rs::flanneld::ipmasq::{backend_signal, masq_rules, IpMasq};
use flannel_rs::flanneld::kube_mgr::{
    build_publish_patch, desired_from_nodes, extract_own_node, lease_patch, node_to_peer,
    NodeAddress, NodeInfo,
};
use flannel_rs::flanneld::netlink::{format_mac, parse_mac, Netlink};
use flannel_rs::flanneld::peer::{reconcile, Action, Peer};
use flannel_rs::flanneld::round::{reconcile_from_store, Round};
use flannel_rs::flanneld::subnet::{host_gw_mtu, subnet_in_network, vxlan_mtu, SubnetEnv};
use flannel_rs::ipv4::{parse_address, Ipv4Net};
use flannel_rs::netlink::{
    NeighbourEntry, Reply as Kernel, Request, RouteEntry, RouteSpec, EEXIST,
};
use flannel_rs::progress::{Invocation, Progress, Reply};
use flannel_rs::text_map::TextMap;

fn ip(s: &str) -> u32 {
    parse_address(s).unwrap()
}

fn peer(node: &str, mac: &str) -> Peer {
    Peer {
        node: node.into(),
        pod_cidr: "10.244.2.0/24".into(),
        public_ip: "172.18.0.3".into(),
        vtep_mac: mac.into(),
    }
}

fn peers(list: &[Peer]) -> TextMap<Peer> {
    let mut m = TextMap::new();
    for p in list {
        m.insert(p.node.clone(), p.clone());
    }
    m
}

fn exited(success: bool, stdout: &str, stderr: &str) -> Reply {
    Reply::Exited { success, stdout: stdout.into(), stderr: stderr.into() }
}

/// A node that has published a lease of the overlay.
fn node(name: &str, cidr: &str, addr: &str, mac: &str) -> NodeInfo {
    let patch = build_publish_patch(addr, mac);
    let mut annotations = TextMap::new();
    for (k, v) in patch["metadata"]["annotations"].as_object().unwrap() {
        annotations.insert(k.clone(), v.as_str().unwrap().to_string());
    }
    NodeInfo {
        name: Some(name.into()),
        annotations: Some(annotations),
        pod_cidr: Some(cidr.into()),
        addresses: vec![
            NodeAddress { kind: "Hostname".into(), address: name.into() },
            NodeAddress { kind: "InternalIP".into(), address: addr.into() },
        ],
    }
}

// Annotations and configuration

#[test]
fn builds_prefixed_key() {
    assert_eq!(key("public-ip"), "flannel.alpha.coreos.com/public-ip");
}

#[test]
fn roundtrips_backend_data() {
    let b = BackendData { vtep_mac: "ae:11:22:33:44:55".into() };
    let j = b.to_json();
    assert_eq!(j, r#"{"VtepMAC":"ae:11:22:33:44:55"}"#);
    assert_eq!(BackendData::from_json(&j).unwrap(), b);
}

#[test]
fn parses_vxlan_net_conf() {
    let nc = NetConf::parse(r#"{"Network":"10.244.0.0/16","Backend":{"Type":"vxlan"}}"#).unwrap();
    assert_eq!(nc.network, "10.244.0.0/16");
    assert_eq!(nc.backend.kind, "vxlan");
}

#[test]
fn rejects_invalid_network_cidr() {
    assert!(NetConf::parse(r#"{"Network":"not-a-cidr","Backend":{"Type":"vxlan"}}"#).is_err());
    assert!(NetConf::parse(r#"{"Network":"10.244.0.0/33","Backend":{"Type":"vxlan"}}"#).is_err());
}

#[test]
fn rejects_missing_backend_or_type() {
    assert!(NetConf::parse(r#"{"Network":"10.244.0.0/16"}"#).is_err());
    assert!(NetConf::parse(r#"{"Network":"10.244.0.0/16","Backend":{}}"#).is_err());
}

#[test]
fn ignores_subnet_allocator_fields() {
    let nc = NetConf::parse(
        r#"{"Network":"10.244.0.0/16","Backend":{"Type":"vxlan"},"SubnetLen":28,"SubnetMin":"10.244.5.0","SubnetMax":"10.244.8.0"}"#,
    )
    .unwrap();
    assert_eq!(nc.network, "10.244.0.0/16");
    assert_eq!(nc.backend.kind, "vxlan");
}

#[test]
fn an_invalid_network_is_named() {
    let e = NetConf::parse(r#"{"Network":"x","Backend":{"Type":"vxlan"}}"#).unwrap_err();
    assert!(e.starts_with("invalid Network CIDR 'x': "), "{e}");
}

#[test]
fn backend_names_read_back() {
    for b in [BackendType::Vxlan, BackendType::HostGw] {
        assert_eq!(BackendType::parse(&b.name()), Some(b));
    }
    assert_eq!(BackendType::parse("udp"), None);
}

#[test]
fn classify_rejects_malformed_json() {
    let err = classify_net_conf("{not json").unwrap_err();
    assert!(matches!(err, Fatal::NetConf(_)), "got {err:?}");
}

#[test]
fn classify_rejects_unknown_backend() {
    let raw = r#"{"Network":"10.244.0.0/16","Backend":{"Type":"udp"}}"#;
    let err = classify_net_conf(raw).unwrap_err();
    match err {
        Fatal::Backend(kind) => assert_eq!(kind, "udp"),
        other => panic!("expected Backend, got {other:?}"),
    }
}

#[test]
fn version_flag_detected() {
    assert!(wants_version(&vec!["flanneld".to_string(), "--version".to_string()]));
    assert!(wants_version(&vec!["-V".to_string()]));
    assert!(!wants_version(&vec!["flanneld".to_string()]));
    assert!(!wants_version(&Vec::<String>::new()));
}

#[test]
fn classify_accepts_vxlan() {
    let raw = r#"{"Network":"10.244.0.0/16","Backend":{"Type":"vxlan"}}"#;
    let (nc, backend) = classify_net_conf(raw).unwrap();
    assert_eq!(nc.network, "10.244.0.0/16");
    assert_eq!(backend, BackendType::Vxlan);
}

#[test]
fn classify_accepts_host_gw() {
    let raw = r#"{"Network":"10.244.0.0/16","Backend":{"Type":"host-gw"}}"#;
    let (nc, backend) = classify_net_conf(raw).unwrap();
    assert_eq!(nc.network, "10.244.0.0/16");
    assert_eq!(backend, BackendType::HostGw);
}

#[test]
fn fatal_errors_have_a_wording() {
    assert_eq!(Fatal::NetConf("x".into()).message(), "malformed net-conf.json: x");
    assert_eq!(
        Fatal::Backend("u\"dp".into()).message(),
        "unsupported backend \"u\\\"dp\"; only vxlan and host-gw are supported"
    );
}

// Subnets

#[test]
fn renders_subnet_env() {
    let e = SubnetEnv {
        network: "10.244.0.0/16".into(),
        subnet: "10.244.1.0/24".into(),
        mtu: 1450,
        ipmasq: true,
    };
    assert_eq!(
        e.render(),
        "FLANNEL_NETWORK=10.244.0.0/16\nFLANNEL_SUBNET=10.244.1.0/24\nFLANNEL_MTU=1450\nFLANNEL_IPMASQ=true\n"
    );
}

#[test]
fn the_plugin_reads_what_the_daemon_writes() {
    let e = SubnetEnv {
        network: "10.0.0.0/8".into(),
        subnet: "10.1.0.0/16".into(),
        mtu: 9000,
        ipmasq: false,
    };
    let back = subnetenv::SubnetEnv::parse(&e.render()).unwrap();
    assert_eq!(
        (back.network.as_str(), back.subnet.as_str(), back.mtu, back.ipmasq),
        ("10.0.0.0/8", "10.1.0.0/16", 9000, false)
    );
}

#[test]
fn vxlan_mtu_subtracts_overhead() {
    assert_eq!(vxlan_mtu(1500), 1450);
}

#[test]
fn vxlan_mtu_saturates_without_underflow() {
    assert_eq!(vxlan_mtu(40), 0);
}

#[test]
fn direct_routes_keep_the_mtu() {
    assert_eq!(host_gw_mtu(1500), 1500);
}

#[test]
fn subnets_lie_in_their_network() {
    let n = |s: &str| Ipv4Net::parse(s).unwrap();
    assert!(subnet_in_network(&n("10.244.1.0/24"), &n("10.244.0.0/16")));
    assert!(!subnet_in_network(&n("10.245.1.0/24"), &n("10.244.0.0/16")));
    assert!(!subnet_in_network(&n("10.0.0.0/8"), &n("10.244.0.0/16")));
}

// Masquerading

#[test]
fn builds_four_rules_in_order() {
    let n = "10.244.0.0/16";
    let sn = "10.244.1.0/24";
    let rules = masq_rules(n, sn);
    assert_eq!(rules.len(), 4);

    assert_eq!(rules[0], vec!["-s", n, "-d", n, "-j", "RETURN"]);
    assert_eq!(
        rules[1],
        vec!["-s", n, "!", "-d", "224.0.0.0/4", "-j", "MASQUERADE", "--random-fully"]
    );
    assert_eq!(rules[2], vec!["!", "-s", n, "-d", sn, "-j", "RETURN"]);
    assert_eq!(rules[3], vec!["!", "-s", n, "-d", n, "-j", "MASQUERADE", "--random-fully"]);
}

#[test]
fn return_rules_precede_broad_masquerade() {
    // First-match-wins relies on RETURNs being appended before the catch-all
    // MASQUERADE. Assert the pod->pod RETURN comes before pod->external masq,
    // and the inbound RETURN comes before the remote-pod masq.
    let rules = masq_rules("10.244.0.0/16", "10.244.1.0/24");
    let is_return = |r: &Vec<String>| r.iter().any(|a| a == "RETURN");
    let is_masq = |r: &Vec<String>| r.iter().any(|a| a == "MASQUERADE");
    assert!(is_return(&rules[0]) && is_masq(&rules[1]));
    assert!(is_return(&rules[2]) && is_masq(&rules[3]));
}

#[test]
fn signals_count_rules_and_look_for_kube_proxy() {
    let listing = "-P INPUT ACCEPT\n-N KUBE-SERVICES\n-A INPUT -j X\n-A OUTPUT -j Y\n";
    assert_eq!(backend_signal(&exited(true, listing, "")), (true, 2));
    assert_eq!(backend_signal(&exited(false, listing, "")), (false, 0));
    assert_eq!(backend_signal(&Reply::Failed("x".into())), (false, 0));
}

#[test]
fn the_masquerading_backend_follows_kube_proxy() {
    let kube = || exited(true, "-N KUBE-X\n", "");
    let busy = |n: usize| exited(true, &"-A INPUT\n".repeat(n), "");
    let pick = |a: Reply, b: Reply| match IpMasq::detect(&vec![a, b]) {
        Progress::Done(m, 2) => m.backend().to_string(),
        other => panic!("{other:?}"),
    };
    assert!(matches!(IpMasq::detect(&vec![]), Progress::Ask(i) if i.program == "iptables-nft"));
    assert!(matches!(
        IpMasq::detect(&vec![kube()]),
        Progress::Ask(i) if i.program == "iptables-legacy"
    ));
    assert_eq!(pick(kube(), busy(9)), "iptables-nft");
    assert_eq!(pick(busy(9), kube()), "iptables-legacy");
    assert_eq!(pick(busy(2), busy(2)), "iptables-nft");
    assert_eq!(pick(busy(1), busy(2)), "iptables-legacy");
    assert_eq!(pick(kube(), kube()), "iptables-nft");
    assert_eq!(pick(busy(0), Reply::Failed("x".into())), "iptables");
}

/// Makes sure of the rules against a table; `old` backends do not know the
/// option for random ports.
fn masquerade(table: &mut Vec<String>, old: bool) -> (Result<(), String>, Vec<String>) {
    let m = IpMasq::new("ipt");
    let mut replies: Vec<Reply> = Vec::new();
    let mut asked: Vec<String> = Vec::new();
    loop {
        match m.ensure("10.244.0.0/16", "10.244.1.0/24", &replies) {
            Progress::Done(r, _) => return (r, asked),
            Progress::Ask(Invocation { program, args }) => {
                assert_eq!(program, "ipt");
                assert_eq!(args[..3].join(" "), "--wait -t nat");
                assert_eq!(args[4], "POSTROUTING");
                let rule = args[5..].join(" ");
                let unknown = old && rule.contains("--random-fully");
                let ok = match args[3].as_str() {
                    "-C" => table.contains(&rule),
                    "-A" if !unknown => {
                        table.push(rule);
                        true
                    }
                    _ => false,
                };
                asked.push(args[3].clone());
                replies.push(exited(ok, "", " unknown option \n"));
            }
        }
    }
}

#[test]
fn rules_are_installed_once() {
    let mut table = Vec::new();
    let (r, asked) = masquerade(&mut table, false);
    assert!(r.is_ok());
    assert_eq!(asked.len(), 8);
    let expected: Vec<String> =
        masq_rules("10.244.0.0/16", "10.244.1.0/24").iter().map(|r| r.join(" ")).collect();
    assert_eq!(table, expected);
    let (r, asked) = masquerade(&mut table, false);
    assert!(r.is_ok());
    assert_eq!(asked, vec!["-C"; 4]);
    assert_eq!(table, expected);
}

#[test]
fn old_backends_get_plain_rules() {
    let mut table = Vec::new();
    assert!(masquerade(&mut table, true).0.is_ok());
    assert_eq!(table.len(), 4);
    assert!(!table.iter().any(|r| r.contains("--random-fully")));
    assert_eq!(table[3], "! -s 10.244.0.0/16 -d 10.244.0.0/16 -j MASQUERADE");
}

#[test]
fn what_is_in_the_chain_stays() {
    let rules: Vec<String> =
        masq_rules("10.244.0.0/16", "10.244.1.0/24").iter().map(|r| r.join(" ")).collect();
    let mut table = vec!["-j KUBE-POSTROUTING".to_string(), rules[2].clone()];
    assert!(masquerade(&mut table, false).0.is_ok());
    let expected = vec!["-j KUBE-POSTROUTING", &rules[2], &rules[0], &rules[1], &rules[3]];
    assert_eq!(table, expected);
    let mut plain = vec!["! -s 10.244.0.0/16 -d 10.244.0.0/16 -j MASQUERADE".to_string()];
    assert!(masquerade(&mut plain, true).0.is_ok());
    assert_eq!(plain.len(), 4);
    let again = plain.clone();
    let (r, asked) = masquerade(&mut plain, true);
    assert!(r.is_ok());
    assert_eq!(asked.iter().filter(|a| *a == "-C").count(), 6);
    assert_eq!(plain, again);
}

#[test]
fn masquerading_failures_are_worded() {
    let m = IpMasq::new("ipt");
    let rule = vec!["-j".to_string(), "RETURN".to_string()];
    match m.ensure_rule(&rule, &vec![Reply::Failed("gone".into())], 0) {
        Progress::Done(Err(e), 1) => assert_eq!(e, "spawn ipt -C: gone"),
        other => panic!("{other:?}"),
    }
    match m.ensure_rule(&rule, &vec![exited(false, "", ""), exited(false, "", " bad\n")], 0) {
        Progress::Done(Err(e), 2) => assert_eq!(e, "ipt -A POSTROUTING -j RETURN failed: bad"),
        other => panic!("{other:?}"),
    }
}

/// What becomes of a packet, by the first rule that it meets.
fn verdict(src: &str, dst: &str) -> Option<String> {
    let inside = |net: &str, a: &str| Ipv4Net::parse(net).unwrap().contains(ip(a));
    for rule in masq_rules("10.244.0.0/16", "10.244.1.0/24") {
        let mut at = 0;
        let mut ok = true;
        while rule[at] != "-j" {
            let not = rule[at] == "!";
            if not {
                at += 1;
            }
            let addr = if rule[at] == "-s" { src } else { dst };
            ok = ok && (inside(&rule[at + 1], addr) != not);
            at += 2;
        }
        if ok {
            return Some(rule[at + 1].clone());
        }
    }
    None
}

#[test]
fn packets_are_masqueraded_only_on_the_way_out() {
    let returns = Some("RETURN".to_string());
    let masquerades = Some("MASQUERADE".to_string());
    assert_eq!(verdict("10.244.1.2", "10.244.2.3"), returns);
    assert_eq!(verdict("10.244.1.2", "8.8.8.8"), masquerades);
    assert_eq!(verdict("10.244.1.2", "224.0.0.251"), None);
    assert_eq!(verdict("172.18.0.2", "10.244.1.2"), returns);
    assert_eq!(verdict("172.18.0.2", "10.244.2.3"), masquerades);
    assert_eq!(verdict("172.18.0.2", "8.8.8.8"), None);
}

// Nodes and peers

#[test]
fn publish_patch_sets_four_annotations_and_ssa_shape() {
    let p = build_publish_patch("172.18.0.2", "ae:11:22:33:44:55");
    assert_eq!(p["apiVersion"].as_str(), Some("v1"));
    assert_eq!(p["kind"].as_str(), Some("Node"));
    let ann = &p["metadata"]["annotations"];
    assert_eq!(ann.get(key("backend-type").as_str()).and_then(|v| v.as_str()), Some("vxlan"));
    assert_eq!(
        ann.get(key("backend-data").as_str()).and_then(|v| v.as_str()),
        Some(r#"{"VtepMAC":"ae:11:22:33:44:55"}"#)
    );
    assert_eq!(ann.get(key("public-ip").as_str()).and_then(|v| v.as_str()), Some("172.18.0.2"));
    assert_eq!(
        ann.get(key("kube-subnet-manager-managed").as_str()).and_then(|v| v.as_str()),
        Some("true")
    );
    assert_eq!(ann.as_object().map(|m| m.len()), Some(4));
}

#[test]
fn a_direct_lease_has_no_backend_data() {
    let p = lease_patch(BackendType::HostGw, "172.18.0.2", None);
    let ann = p["metadata"]["annotations"].as_object().unwrap();
    assert_eq!(ann.len(), 3);
    assert_eq!(ann[&key("backend-type")], "host-gw");
}

#[test]
fn what_a_node_publishes_is_read_of_it() {
    let n = node("n2", "10.244.2.0/24", "172.18.0.3", "ae:11:22:33:44:55");
    let p = node_to_peer(&n, BackendType::Vxlan).unwrap();
    assert_eq!(p, peer("n2", "ae:11:22:33:44:55"));
    assert_eq!(node_to_peer(&n, BackendType::HostGw).unwrap().vtep_mac, "");
}

#[test]
fn incomplete_nodes_are_no_peers() {
    let full = || node("n2", "10.244.2.0/24", "172.18.0.3", "ae:11:22:33:44:55");
    for cut in 0..4 {
        let mut n = full();
        match cut {
            0 => n.name = None,
            1 => n.pod_cidr = None,
            2 => n.annotations = None,
            _ => n.annotations.as_mut().unwrap().remove(&key("public-ip")),
        }
        assert_eq!(node_to_peer(&n, BackendType::Vxlan), None);
    }
    let mut n = full();
    n.annotations.as_mut().unwrap().insert(key("backend-data"), "{".into());
    assert_eq!(node_to_peer(&n, BackendType::Vxlan), None);
    assert!(node_to_peer(&n, BackendType::HostGw).is_some());
}

#[test]
fn the_own_node_is_no_peer() {
    let nodes = vec![
        node("n1", "10.244.1.0/24", "172.18.0.2", "aa"),
        node("n2", "10.244.2.0/24", "172.18.0.3", "bb"),
    ];
    let d = desired_from_nodes(&nodes, "n1", BackendType::Vxlan);
    assert_eq!(d.len(), 1);
    assert_eq!(d.get("n2").unwrap().vtep_mac, "bb");
}

#[test]
fn the_own_node_has_a_subnet_and_an_address() {
    let own = extract_own_node(&node("n1", "10.244.1.0/24", "172.18.0.2", "aa")).unwrap();
    assert_eq!((own.pod_cidr.as_str(), own.public_ip.as_str()), ("10.244.1.0/24", "172.18.0.2"));
    let mut n = node("n1", "10.244.1.0/24", "172.18.0.2", "aa");
    n.addresses.clear();
    assert_eq!(extract_own_node(&n).unwrap_err(), "node has no InternalIP");
    n.pod_cidr = None;
    assert_eq!(extract_own_node(&n).unwrap_err(), "node has no PodCIDR");
}

#[test]
fn adds_new_peer() {
    let installed = TextMap::new();
    let desired = peers(&[peer("n2", "aa:bb")]);
    assert_eq!(reconcile(&installed, &desired), vec![Action::Add(peer("n2", "aa:bb"))]);
}

#[test]
fn removes_gone_peer() {
    let installed = peers(&[peer("n2", "aa:bb")]);
    let desired = TextMap::new();
    assert_eq!(reconcile(&installed, &desired), vec![Action::Remove(peer("n2", "aa:bb"))]);
}

#[test]
fn replaces_changed_peer() {
    let installed = peers(&[peer("n2", "aa:bb")]);
    let desired = peers(&[peer("n2", "cc:dd")]);
    assert_eq!(
        reconcile(&installed, &desired),
        vec![Action::Remove(peer("n2", "aa:bb")), Action::Add(peer("n2", "cc:dd"))]
    );
}

#[test]
fn unchanged_peer_no_action() {
    let installed = peers(&[peer("n2", "aa:bb")]);
    let desired = peers(&[peer("n2", "aa:bb")]);
    assert!(reconcile(&installed, &desired).is_empty());
}

#[test]
fn carrying_out_the_difference_reaches_what_is_desired() {
    let mut installed = peers(&[peer("a", "1"), peer("b", "2"), peer("c", "3")]);
    let desired = peers(&[peer("b", "2"), peer("c", "4"), peer("d", "5")]);
    for action in reconcile(&installed, &desired) {
        match action {
            Action::Add(p) => installed.insert(p.node.clone(), p),
            Action::Remove(p) => installed.remove(&p.node),
        }
    }
    assert_eq!(installed.len(), desired.len());
    for i in 0..desired.len() {
        assert_eq!(installed.get(desired.key(i)), Some(desired.value(i)));
    }
    assert!(reconcile(&installed, &desired).is_empty());
}

// The kernel

#[test]
fn hardware_addresses_read_back() {
    let bytes = vec![0xae, 0x11, 0x02, 0x33, 0x44, 0xff];
    assert_eq!(format_mac(&bytes), "ae:11:02:33:44:ff");
    assert_eq!(parse_mac("ae:11:02:33:44:ff").unwrap().to_vec(), bytes);
    assert_eq!(parse_mac("AE:11:2:33:44:FF").unwrap().to_vec(), bytes);
}

#[test]
fn malformed_hardware_addresses_are_refused() {
    assert_eq!(parse_mac("ae:11").unwrap_err(), "mac not 6 bytes");
    assert_eq!(parse_mac("ae:xx").unwrap_err(), "parse mac: invalid digit found in string");
    assert_eq!(
        parse_mac("ae:100:1:2:3:4").unwrap_err(),
        "parse mac: number too large to fit in target type"
    );
    assert_eq!(
        parse_mac("").unwrap_err(),
        "parse mac: cannot parse integer from empty string"
    );
}

fn vxlan(replies: &Vec<Kernel>) -> Progress<Request, Result<(String, u32), String>> {
    Netlink::ensure_vxlan(
        "flannel.1",
        1,
        8472,
        ip("172.18.0.2"),
        ip("10.244.1.0"),
        1450,
        replies,
        0,
    )
}

#[test]
fn the_overlay_is_created_where_it_is_absent() {
    let mac = || Kernel::Addresses(Some(vec![vec![1, 2, 3, 4, 5, 6]]));
    let mut replies: Vec<Kernel> = Vec::new();
    let wanted = [
        (Request::FindLink("flannel.1".into()), Kernel::Link(None)),
        (
            Request::AddVxlan("flannel.1".into(), 1, 8472, ip("172.18.0.2")),
            Kernel::Done,
        ),
        (Request::FindLink("flannel.1".into()), Kernel::Link(Some(7))),
        (Request::SetMtu(7, 1450), Kernel::Failed("ignored".into())),
        (Request::AddAddress(7, ip("10.244.1.0"), 32), Kernel::Failed("ignored".into())),
        (Request::SetUp(7), Kernel::Done),
        (Request::LinkAddresses(7), mac()),
    ];
    for (q, r) in wanted {
        match vxlan(&replies) {
            Progress::Ask(asked) => assert_eq!(asked, q),
            other => panic!("{other:?}"),
        }
        replies.push(r);
    }
    match vxlan(&replies) {
        Progress::Done(Ok(got), 7) => assert_eq!(got, ("01:02:03:04:05:06".to_string(), 7)),
        other => panic!("{other:?}"),
    }
}

#[test]
fn the_overlay_is_reused_where_it_exists() {
    let replies = vec![
        Kernel::Link(Some(4)),
        Kernel::Addresses(Some(vec![vec![0xaa; 6]])),
        Kernel::Done,
    ];
    match vxlan(&replies) {
        Progress::Done(Ok(got), 3) => assert_eq!(got, ("aa:aa:aa:aa:aa:aa".to_string(), 4)),
        other => panic!("{other:?}"),
    }
}

#[test]
fn a_link_without_hardware_address_is_an_error() {
    let replies = vec![Kernel::Link(Some(4)), Kernel::Addresses(Some(vec![]))];
    assert!(matches!(vxlan(&replies), Progress::Done(Err(e), 2) if e == "no MAC on link 4"));
    let replies = vec![Kernel::Link(Some(4)), Kernel::Addresses(None)];
    assert!(matches!(vxlan(&replies), Progress::Done(Err(e), 2) if e == "link disappeared"));
}

#[test]
fn the_route_to_a_peer_goes_through_its_end_of_the_overlay() {
    let p = peer("n2", "ae:11:22:33:44:55");
    match Netlink::add_route(7, &p, &Vec::new(), 0) {
        Progress::Ask(Request::AddRoute(r)) => assert_eq!(
            r,
            RouteSpec {
                dst: ip("10.244.2.0"),
                prefix: 24,
                gateway: Some(ip("10.244.2.0")),
                oif: 7,
                onlink: true,
            }
        ),
        other => panic!("{other:?}"),
    }
    let exists = vec![Kernel::Refused(EEXIST, "exists".into())];
    assert!(matches!(Netlink::add_route(7, &p, &exists, 0), Progress::Done(Ok(()), 1)));
    let denied = vec![Kernel::Refused(-1, "denied".into())];
    assert!(matches!(
        Netlink::add_route(7, &p, &denied, 0),
        Progress::Done(Err(e), 1) if e == "add route: denied"
    ));
    let lost = vec![Kernel::Failed("lost".into())];
    assert!(matches!(
        Netlink::add_route(7, &p, &lost, 0),
        Progress::Done(Err(e), 1) if e == "add route: lost"
    ));
}

#[test]
fn a_peer_is_resolved_by_neighbour_and_forwarding() {
    let p = peer("n2", "ae:11:22:33:44:55");
    let mac = [0xae, 0x11, 0x22, 0x33, 0x44, 0x55];
    let asked = |n: usize| {
        let exists = || Kernel::Refused(EEXIST, "exists".into());
        let replies: Vec<Kernel> = (0..n).map(|_| exists()).collect();
        Netlink::add_peer_l2(7, &p, &replies, 0)
    };
    match asked(0) {
        Progress::Ask(q) => assert_eq!(q, Request::AddNeighbour(7, ip("10.244.2.0"), mac)),
        other => panic!("{other:?}"),
    }
    match asked(1) {
        Progress::Ask(q) => assert_eq!(q, Request::AddForwarding(7, mac, ip("172.18.0.3"))),
        other => panic!("{other:?}"),
    }
    assert!(matches!(asked(2), Progress::Done(Ok(()), 2)));
    let first = vec![Kernel::Refused(-1, "no".into()), Kernel::Done];
    assert!(matches!(
        Netlink::add_peer_l2(7, &p, &first, 0),
        Progress::Done(Err(e), 2) if e == "add neighbour: no"
    ));
    let second = vec![Kernel::Done, Kernel::Failed("lost".into())];
    assert!(matches!(
        Netlink::add_peer_l2(7, &p, &second, 0),
        Progress::Done(Err(e), 2) if e == "add fdb entry: lost"
    ));
    let bad = peer("n2", "nonsense");
    assert!(matches!(Netlink::add_peer_l2(7, &bad, &Vec::new(), 0), Progress::Done(Err(_), 0)));
}

#[test]
fn removing_a_peer_deletes_its_routes_neighbour_and_forwarding() {
    let mac = [0xae, 0x11, 0x22, 0x33, 0x44, 0x55];
    let p = peer("n2", "ae:11:22:33:44:55");
    let to = || vec![ip("10.244.2.0")];
    let routes = || {
        Kernel::Routes(
            vec![
                RouteEntry { prefix: 16, destinations: to(), oif: Some(7) },
                RouteEntry { prefix: 24, destinations: to(), oif: Some(3) },
                RouteEntry { prefix: 24, destinations: to(), oif: Some(7) },
                RouteEntry { prefix: 24, destinations: to(), oif: None },
                RouteEntry { prefix: 24, destinations: vec![ip("10.244.3.0")], oif: Some(7) },
                RouteEntry { prefix: 24, destinations: to(), oif: Some(7) },
            ],
            None,
        )
    };
    let neighbours = || {
        Kernel::Neighbours(vec![
            NeighbourEntry { ifindex: 3, destinations: to() },
            NeighbourEntry { ifindex: 7, destinations: to() },
        ])
    };
    let remove = |first: Kernel| {
        let mut replies: Vec<Kernel> = Vec::new();
        let steps = [
            (Request::ListRoutes, routes()),
            (Request::DeleteRoute(2), first),
            (Request::DeleteRoute(5), Kernel::Done),
            (Request::ListNeighbours, neighbours()),
            (Request::DeleteNeighbour(1), Kernel::Failed("ignored".into())),
            (
                Request::DeleteForwarding(7, mac, ip("172.18.0.3")),
                Kernel::Refused(-2, "ignored".into()),
            ),
        ];
        for (q, r) in steps {
            match Netlink::del_peer(7, &p, &replies, 0) {
                Progress::Ask(asked) => assert_eq!(asked, q),
                other => panic!("{other:?}"),
            }
            replies.push(r);
        }
        Netlink::del_peer(7, &p, &replies, 0)
    };
    assert!(matches!(remove(Kernel::Done), Progress::Done(Ok(()), 6)));
    assert!(matches!(
        remove(Kernel::Refused(-1, "no".into())),
        Progress::Done(Err(e), 6) if e == "delete route: no"
    ));
    let refused = vec![Kernel::Refused(-1, "no".into())];
    assert!(matches!(
        Netlink::del_peer(7, &p, &refused, 0),
        Progress::Done(Err(e), 1) if e == "no"
    ));
    let broken =
        vec![Kernel::Routes(vec![], Some("broken".into())), Kernel::Neighbours(vec![]), Kernel::Done];
    assert!(matches!(
        Netlink::del_peer(7, &p, &broken, 0),
        Progress::Done(Err(e), 3) if e == "broken"
    ));
    let unknown = peer("n2", "nonsense");
    assert!(matches!(
        Netlink::del_peer(7, &unknown, &broken, 0),
        Progress::Done(Err(e), 2) if e == "broken"
    ));
}

#[test]
fn direct_routes_go_through_the_peer_itself() {
    let p = peer("n2", "");
    match Netlink::add_host_gw_route(2, &p, &Vec::new(), 0) {
        Progress::Ask(Request::AddRoute(r)) => {
            assert_eq!((r.gateway, r.onlink, r.oif), (Some(ip("172.18.0.3")), false, 2))
        }
        other => panic!("{other:?}"),
    }
    let mut bad = peer("n2", "");
    bad.public_ip = "x".into();
    assert!(matches!(
        Netlink::add_host_gw_route(2, &bad, &Vec::new(), 0),
        Progress::Done(Err(e), 0) if e == "invalid IPv4 address syntax"
    ));
    let none = vec![Kernel::Routes(vec![], None)];
    assert!(matches!(Netlink::del_host_gw_route(2, &p, &none, 0), Progress::Done(Ok(()), 1)));
    let listed = vec![Kernel::Routes(
        vec![RouteEntry { prefix: 24, destinations: vec![ip("10.244.2.0")], oif: Some(2) }],
        None,
    )];
    assert!(matches!(
        Netlink::del_host_gw_route(2, &p, &listed, 0),
        Progress::Ask(Request::DeleteRoute(0))
    ));
}

// Rounds

/// Performs a round; requests that start with `fails` are refused.
fn round(nodes: &Vec<NodeInfo>, installed: &TextMap<Peer>, fails: &str) -> Round {
    let mut replies: Vec<Kernel> = Vec::new();
    loop {
        match reconcile_from_store(nodes, "n1", 7, BackendType::Vxlan, installed, &replies) {
            Progress::Done(r, used) => {
                assert_eq!(used, replies.len());
                return r;
            }
            Progress::Ask(q) => {
                let text = format!("{q:?}");
                replies.push(if !fails.is_empty() && text.starts_with(fails) {
                    Kernel::Refused(-1, "no".into())
                } else {
                    match q {
                        Request::ListRoutes => Kernel::Routes(vec![], None),
                        Request::ListNeighbours => Kernel::Neighbours(vec![]),
                        _ => Kernel::Done,
                    }
                });
            }
        }
    }
}

#[test]
fn a_complete_round_reaches_what_the_nodes_describe() {
    let mac = "ae:11:22:33:44:55";
    let nodes = vec![
        node("n1", "10.244.1.0/24", "172.18.0.2", mac),
        node("n2", "10.244.2.0/24", "172.18.0.3", mac),
        node("n3", "10.244.3.0/24", "172.18.0.4", mac),
    ];
    let r = round(&nodes, &peers(&[peer("gone", mac)]), "");
    assert!(r.complete);
    assert_eq!(r.installed.len(), 2);
    assert!(r.installed.contains_key("n2") && r.installed.contains_key("n3"));
}

#[test]
fn a_failed_addition_comes_up_again() {
    let mac = "ae:11:22:33:44:55";
    let nodes = vec![node("n2", "10.244.2.0/24", "172.18.0.3", mac)];
    for fails in ["AddNeighbour", "AddForwarding"] {
        let r = round(&nodes, &TextMap::new(), fails);
        assert!(!r.complete);
        assert_eq!(r.installed.len(), 0);
    }
    let r = round(&nodes, &TextMap::new(), "AddRoute");
    assert!(!r.complete);
    assert_eq!(r.installed.len(), 0);
    let desired = desired_from_nodes(&nodes, "n1", BackendType::Vxlan);
    assert_eq!(reconcile(&r.installed, &desired), vec![Action::Add(peer("n2", mac))]);
    let again = round(&nodes, &r.installed, "");
    assert!(again.complete && again.installed.contains_key("n2"));
}

#[test]
fn peers_are_ordered_as_the_nodes_describe_them_first() {
    let mac = "ae:11:22:33:44:55";
    let nodes = vec![
        node("n9", "10.244.9.0/24", "172.18.0.9", mac),
        node("n1", "10.244.1.0/24", "172.18.0.2", mac),
        node("n2", "10.244.2.0/24", "172.18.0.3", mac),
        node("n9", "10.244.8.0/24", "172.18.0.9", mac),
    ];
    let desired = desired_from_nodes(&nodes, "n1", BackendType::Vxlan);
    assert_eq!((desired.len(), desired.key(0), desired.key(1)), (2, "n9", "n2"));
    assert_eq!(desired.get("n9").unwrap().pod_cidr, "10.244.8.0/24");
}

#[test]
fn the_calls_of_a_round_belong_together() {
    let mac = "ae:11:22:33:44:55";
    let nodes = vec![
        node("n4", "10.244.4.0/24", "172.18.0.5", mac),
        node("n2", "10.244.2.0/24", "172.18.0.3", mac),
        node("n3", "10.244.3.0/24", "172.18.0.4", mac),
    ];
    // One stays, one is gone, one changed; the removals fail, as does the route
    // of the peer that is new.
    let mut changed = peer("n3", mac);
    changed.pod_cidr = "10.244.7.0/24".into();
    let installed = peers(&[peer("n2", mac), peer("gone", mac), changed]);
    let mut replies: Vec<Kernel> = Vec::new();
    let mut asked: Vec<String> = Vec::new();
    let r = loop {
        match reconcile_from_store(&nodes, "n1", 7, BackendType::Vxlan, &installed, &replies) {
            Progress::Done(r, used) => {
                assert_eq!(used, replies.len());
                break r;
            }
            Progress::Ask(q) => {
                replies.push(match &q {
                    Request::ListRoutes => Kernel::Failed("no list".into()),
                    Request::AddRoute(s) if s.dst == ip("10.244.4.0") => {
                        Kernel::Refused(-1, "no".into())
                    }
                    _ => Kernel::Done,
                });
                let text = format!("{q:?}");
                asked.push(text.split(['(', ' ']).next().unwrap().to_string());
            }
        }
    };
    let add = ["AddRoute", "AddNeighbour", "AddForwarding"];
    let expected: Vec<&str> =
        ["ListRoutes", "ListRoutes"].into_iter().chain(add).chain(add).collect();
    assert_eq!(asked, expected);
    assert!(!r.complete);
    assert_eq!(r.installed.len(), 2);
    assert_eq!(r.installed.get("n2").unwrap(), &peer("n2", mac));
    assert_eq!(r.installed.get("n3").unwrap().pod_cidr, "10.244.3.0/24");
    assert!(!r.installed.contains_key("n4") && !r.installed.contains_key("gone"));
}

#[test]
fn a_failed_removal_counts_all_the_same() {
    let r = round(&Vec::new(), &peers(&[peer("gone", "x")]), "ListRoutes");
    assert!(r.complete);
    assert_eq!(r.installed.len(), 0);
}

// The start

fn learned(raw: &str) -> Learned {
    Learned {
        net_conf: Some(Ok(raw.into())),
        own_node: Some(Ok(node("n1", "10.244.1.0/24", "172.18.0.2", "aa"))),
        link_mtu: Some(Ok(1500)),
        replies: vec![
            Kernel::Link(Some(4)),
            Kernel::Addresses(Some(vec![vec![1, 2, 3, 4, 5, 6]])),
            Kernel::Done,
        ],
        link_index: Some(Ok(2)),
        published: Some(Ok(())),
        written: Some(Ok(())),
    }
}

const VXLAN: &str = r#"{"Network":"10.244.0.0/16","Backend":{"Type":"vxlan"}}"#;
const HOST_GW: &str = r#"{"Network":"10.244.0.0/16","Backend":{"Type":"host-gw"}}"#;

#[test]
fn a_start_succeeds_after_all_answers() {
    match try_bootstrap(&learned(VXLAN)) {
        Attempt::Ready(s) => {
            assert_eq!((s.dev_idx, s.backend), (4, BackendType::Vxlan));
            assert_eq!((s.network.as_str(), s.subnet.as_str()), ("10.244.0.0/16", "10.244.1.0/24"));
            assert!(!s.outside);
        }
        other => panic!("{other:?}"),
    }
    match try_bootstrap(&learned(HOST_GW)) {
        Attempt::Ready(s) => assert_eq!((s.dev_idx, s.backend), (2, BackendType::HostGw)),
        other => panic!("{other:?}"),
    }
}

#[test]
fn a_start_asks_in_order() {
    let ask = |l: &Learned| match try_bootstrap(l) {
        Attempt::Ask(q) => q,
        other => panic!("{other:?}"),
    };
    let mut l = learned(VXLAN);
    l.written = None;
    match ask(&l) {
        Question::WriteSubnetEnv(s) => assert_eq!(
            s,
            "FLANNEL_NETWORK=10.244.0.0/16\nFLANNEL_SUBNET=10.244.1.0/24\nFLANNEL_MTU=1450\nFLANNEL_IPMASQ=true\n"
        ),
        other => panic!("{other:?}"),
    }
    l.published = None;
    match ask(&l) {
        Question::Publish(v) => {
            assert_eq!(v, build_publish_patch("172.18.0.2", "01:02:03:04:05:06"))
        }
        other => panic!("{other:?}"),
    }
    l.replies.clear();
    assert!(matches!(ask(&l), Question::Net(Request::FindLink(n)) if n == "flannel.1"));
    l.link_mtu = None;
    assert!(matches!(ask(&l), Question::LinkMtu(a) if a == ip("172.18.0.2")));
    l.own_node = None;
    assert!(matches!(ask(&l), Question::OwnNode));
    l.net_conf = None;
    assert!(matches!(ask(&l), Question::ReadNetConf));
    let mut l = learned(HOST_GW);
    l.link_index = None;
    assert!(matches!(ask(&l), Question::LinkIndex(a) if a == ip("172.18.0.2")));
}

#[test]
fn an_unknown_mtu_is_taken_as_1500() {
    let mut l = learned(HOST_GW);
    l.link_mtu = Some(Err("x".into()));
    l.written = None;
    match try_bootstrap(&l) {
        Attempt::Ask(Question::WriteSubnetEnv(s)) => assert!(s.contains("FLANNEL_MTU=1500\n")),
        other => panic!("{other:?}"),
    }
}

#[test]
fn a_misconfiguration_is_fatal() {
    for raw in ["{", r#"{"Network":"10.244.0.0/16","Backend":{"Type":"udp"}}"#] {
        assert!(matches!(
            try_bootstrap(&learned(raw)),
            Attempt::Failed(Failure::Fatal(_))
        ));
    }
    let mut l = learned(VXLAN);
    let mut n = node("n1", "10.244.1.0/24", "172.18.0.2", "aa");
    n.pod_cidr = None;
    l.own_node = Some(Ok(n));
    match try_bootstrap(&l) {
        Attempt::Failed(Failure::Fatal(f)) => assert_eq!(f.message(), "node has no PodCIDR"),
        other => panic!("{other:?}"),
    }
}

#[test]
fn other_failures_of_a_start_are_transient() {
    let why = |f: &dyn Fn(&mut Learned)| {
        let mut l = learned(VXLAN);
        f(&mut l);
        match try_bootstrap(&l) {
            Attempt::Failed(Failure::Transient(e)) => e,
            other => panic!("{other:?}"),
        }
    };
    assert_eq!(
        why(&|l| l.net_conf = Some(Err("gone".into()))),
        "read /etc/kube-flannel/net-conf.json: gone"
    );
    assert_eq!(why(&|l| l.own_node = Some(Err("x".into()))), "get own node: x");
    assert_eq!(
        why(&|l| l.own_node = Some(Ok(node("n1", "10.244.1.0/24", "nonsense", "aa")))),
        "parse node IP: invalid IPv4 address syntax"
    );
    assert!(why(&|l| l.own_node = Some(Ok(node("n1", "nonsense", "172.18.0.2", "aa"))))
        .starts_with("parse own PodCIDR: "));
    assert_eq!(why(&|l| l.replies = vec![Kernel::Failed("k".into())]), "k");
    assert_eq!(why(&|l| l.published = Some(Err("p".into()))), "patch own annotations: p");
    assert_eq!(why(&|l| l.written = Some(Err("w".into()))), "write subnet.env: w");
}

#[test]
fn a_subnet_outside_the_network_is_noted() {
    let mut l = learned(VXLAN);
    l.own_node = Some(Ok(node("n1", "10.99.1.0/24", "172.18.0.2", "aa")));
    assert!(matches!(try_bootstrap(&l), Attempt::Ready(s) if s.outside));
}

#[test]
fn delays_double_up_to_half_a_minute() {
    let mut delay = FIRST_DELAY;
    let mut waits = Vec::new();
    for _ in 0..7 {
        match bootstrap(Err(Failure::Transient("x".into())), delay) {
            Next::Retry(wait, next) => {
                waits.push(wait);
                delay = next;
            }
            other => panic!("{other:?}"),
        }
    }
    assert_eq!(waits, vec![1, 2, 4, 8, 16, 30, 30]);
    assert!(matches!(
        bootstrap(Err(Failure::Fatal(Fatal::Backend("udp".into()))), 1),
        Next::Stop(Fatal::Backend(k)) if k == "udp"
    ));
    let up = BootstrapState {
        dev_idx: 1,
        backend: BackendType::Vxlan,
        network: "n".into(),
        subnet: "s".into(),
        outside: false,
    };
    assert!(matches!(bootstrap(Ok(up), 1), Next::Run(s) if s.dev_idx == 1));
}

#[test]
fn the_main_loop_reacts_to_events() {
    assert_eq!(react(&Event::NodesChanged), Reaction::Reconcile);
    assert_eq!(react(&Event::PeerTick), Reaction::Reconcile);
    assert_eq!(react(&Event::MasqTick), Reaction::Masquerade);
    assert_eq!(react(&Event::WatchFailed), Reaction::Wait);
    assert_eq!(react(&Event::WatchEnded), Reaction::Stop);
}
