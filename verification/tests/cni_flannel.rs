//! The flannel plugin.

use flannel_rs::cni::config::NetConf;
use flannel_rs::cni::delegate::{Answer, Question};
use flannel_rs::cni::env::CniArgs;
use flannel_rs::cni_flannel::command::{delegate_json, resolve_delegate, run};
use flannel_rs::cni_flannel::delegate::{build_delegate, FlannelConf};
use flannel_rs::cni_flannel::subnetenv::SubnetEnv;
use flannel_rs::progress::Progress;

fn env() -> SubnetEnv {
    SubnetEnv {
        network: "10.244.0.0/16".into(),
        subnet: "10.244.1.0/24".into(),
        mtu: 1450,
        ipmasq: true,
    }
}

const CONF: &str = r#"{"name":"cbr0","cniVersion":"0.3.1","type":"flannel","delegate":{}}"#;

fn args(command: &str) -> CniArgs {
    CniArgs {
        command: command.into(),
        container_id: "cid1".into(),
        netns: "/var/run/netns/x".into(),
        ifname: "eth0".into(),
        args: String::new(),
        path: "/opt/cni/bin".into(),
    }
}

#[test]
fn builds_bridge_delegate_from_flannel_conf() {
    let conf = FlannelConf::parse(r#"{"name":"cbr0","cniVersion":"0.3.1","type":"flannel","delegate":{"hairpinMode":true,"isDefaultGateway":true}}"#).unwrap();
    let d = build_delegate(&conf, &env());
    assert_eq!(d["name"], "cbr0");
    assert_eq!(d["cniVersion"], "0.3.1");
    assert_eq!(d["type"], "bridge");
    assert_eq!(d["mtu"], 1450);
    assert_eq!(d["ipMasq"], false);
    assert_eq!(d["isGateway"], true);
    assert_eq!(d["hairpinMode"], true);
    assert_eq!(d["isDefaultGateway"], true);
    assert_eq!(d["ipam"]["type"], "host-local");
    assert_eq!(d["ipam"]["ranges"][0][0]["subnet"], "10.244.1.0/24");
    assert_eq!(d["ipam"]["routes"][0]["dst"], "10.244.0.0/16");
}

#[test]
fn does_not_overwrite_user_fields() {
    let conf = FlannelConf::parse(r#"{"name":"cbr0","cniVersion":"0.3.1","delegate":{"type":"ptp","mtu":9000,"ipMasq":true}}"#).unwrap();
    let d = build_delegate(&conf, &env());
    assert_eq!(d["type"], "ptp");
    assert_eq!(d["mtu"], 9000);
    assert_eq!(d["ipMasq"], true);
    assert!(d.get("isGateway").is_none());
}

#[test]
fn a_name_and_version_of_the_user_stay() {
    let conf = FlannelConf::parse(r#"{"name":"cbr0","cniVersion":"0.3.1","delegate":{"name":"mybr","cniVersion":"0.3.0"}}"#).unwrap();
    let d = build_delegate(&conf, &env());
    assert_eq!(d["name"], "mybr");
    assert_eq!(d["cniVersion"], "0.3.0");
    assert_eq!(d["type"], "bridge");
}

#[test]
fn absent_fields_of_the_conf_have_defaults() {
    for raw in ["{}", "[]", r#"{"name":7,"cniVersion":null,"delegate":[]}"#] {
        let c = FlannelConf::parse(raw).unwrap();
        assert_eq!((c.name.as_str(), c.cni_version.as_str()), ("", "0.3.1"));
        assert!(c.delegate.is_empty());
    }
    assert!(FlannelConf::parse("{").is_err());
}

#[test]
fn the_address_plugin_reads_the_subnet() {
    let conf = FlannelConf::parse(CONF).unwrap();
    let d = build_delegate(&conf, &env());
    let nc = NetConf::parse(&d.to_string()).unwrap();
    assert_eq!(nc.ipam.ranges[0][0].subnet, "10.244.1.0/24");
    assert_eq!(nc.ipam.routes[0].dst, "10.244.0.0/16");
    assert_eq!(nc.ipam.kind, "host-local");
}

#[test]
fn add_requires_subnet_env() {
    let err = resolve_delegate(CONF, None, "ADD").unwrap_err();
    assert_eq!(err.code, 11);
}

#[test]
fn del_tolerates_missing_subnet_env() {
    let (dtype, json) = resolve_delegate(CONF, None, "DEL").unwrap();
    assert_eq!(dtype, "bridge");
    // builds a valid delegate even without subnet.env, so bridge DEL can run
    assert!(json.contains("\"ipam\""));
}

#[test]
fn add_with_subnet_env_builds_ipam() {
    let (_dtype, json) = resolve_delegate(CONF, Some(env()), "ADD").unwrap();
    assert!(json.contains("10.244.1.0/24"));
}

#[test]
fn a_malformed_conf_is_an_error() {
    assert_eq!(resolve_delegate("{", Some(env()), "ADD").unwrap_err().code, 6);
}

#[test]
fn parses_well_formed_subnet_env() {
    let raw = "FLANNEL_NETWORK=10.244.0.0/16\nFLANNEL_SUBNET=10.244.1.0/24\nFLANNEL_MTU=1450\nFLANNEL_IPMASQ=true\n";
    let e = SubnetEnv::parse(raw).unwrap();
    assert_eq!(
        e,
        SubnetEnv {
            network: "10.244.0.0/16".into(),
            subnet: "10.244.1.0/24".into(),
            mtu: 1450,
            ipmasq: true
        }
    );
}

#[test]
fn missing_required_key_errors() {
    let raw = "FLANNEL_NETWORK=10.244.0.0/16\nFLANNEL_MTU=1450\n";
    assert!(SubnetEnv::parse(raw).is_err());
}

#[test]
fn malformed_values_of_the_file_are_errors() {
    let lines = |mtu: &str| {
        format!("FLANNEL_NETWORK=n\nFLANNEL_SUBNET=s\nFLANNEL_MTU={mtu}\nFLANNEL_IPMASQ=false\n")
    };
    assert_eq!(SubnetEnv::parse(&lines("0")).unwrap().mtu, 0);
    assert!(SubnetEnv::parse(&lines("x")).is_err());
    assert!(SubnetEnv::parse(&lines("4294967296")).is_err());
}

#[test]
fn a_run_asks_for_the_delegate_and_relays_it() {
    let file = Some(
        "FLANNEL_NETWORK=10.244.0.0/16\nFLANNEL_SUBNET=10.244.1.0/24\nFLANNEL_MTU=1450\nFLANNEL_IPMASQ=true\n"
            .to_string(),
    );
    let mut answers: Vec<Answer> = Vec::new();
    match run(&args("ADD"), CONF, &file, &answers) {
        Progress::Ask(Question::IsExecutable(p)) => assert_eq!(p, "/opt/cni/bin/bridge"),
        other => panic!("{other:?}"),
    }
    answers.push(Answer::Executable(true));
    match run(&args("ADD"), CONF, &file, &answers) {
        Progress::Ask(Question::Run { program, stdin, .. }) => {
            assert_eq!(program, "/opt/cni/bin/bridge");
            assert_eq!(stdin, delegate_json(CONF, &file, "ADD").unwrap().1);
        }
        other => panic!("{other:?}"),
    }
    answers.push(Answer::Ended { stdout: "out".into(), success: false });
    match run(&args("ADD"), CONF, &file, &answers) {
        Progress::Done(Ok((out, ok)), 2) => assert_eq!((out.as_str(), ok), ("out", false)),
        other => panic!("{other:?}"),
    }
}

#[test]
fn a_run_answers_versions_and_refuses_the_unknown() {
    match run(&args("VERSION"), "", &None, &Vec::new()) {
        Progress::Done(Ok((out, true)), _) => assert!(out.contains("supportedVersions")),
        other => panic!("{other:?}"),
    }
    match run(&args("GC"), CONF, &None, &Vec::new()) {
        Progress::Done(Err(e), _) => assert_eq!(e.code, 4),
        other => panic!("{other:?}"),
    }
}
