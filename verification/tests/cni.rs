//! What the plugins share.

use flannel_rs::cni::config::{NetConf, Route};
use flannel_rs::cni::delegate::{join_path, run_delegate, Answer, DelegateOutput, Question};
use flannel_rs::cni::env::CniArgs;
use flannel_rs::cni::error::CniError;
use flannel_rs::cni::iptables::Iptables;
use flannel_rs::cni::plugin::{report, unknown_command, verb, Verb};
use flannel_rs::cni::result::{CniResult, IpResult};
use flannel_rs::cni::version::VersionResult;
use flannel_rs::progress::{Progress, Reply};
use flannel_rs::text_map::TextMap;

fn map(pairs: &[(&str, &str)]) -> TextMap<String> {
    let mut m = TextMap::new();
    for (k, v) in pairs {
        m.insert(k.to_string(), v.to_string());
    }
    m
}

fn args(path: &str) -> CniArgs {
    CniArgs::from_map(&map(&[
        ("CNI_COMMAND", "ADD"),
        ("CNI_CONTAINERID", "cid1"),
        ("CNI_IFNAME", "eth0"),
        ("CNI_PATH", path),
    ]))
    .unwrap()
}

fn words(v: &[&str]) -> Vec<String> {
    v.iter().map(|s| s.to_string()).collect()
}

fn exited(success: bool, stdout: &str, stderr: &str) -> Reply {
    Reply::Exited { success, stdout: stdout.into(), stderr: stderr.into() }
}

/// Runs a delegate against a set of scripts: each has a path, an output and
/// whether it succeeds. Gives back what was run, with its input.
fn drive(
    name: &str,
    a: &CniArgs,
    stdin: &str,
    scripts: &[(&str, &str, bool)],
) -> (Result<DelegateOutput, CniError>, Vec<(String, String, Vec<(String, String)>)>) {
    let mut answers: Vec<Answer> = Vec::new();
    let mut runs = Vec::new();
    loop {
        match run_delegate(name, a, stdin, &answers, 0) {
            Progress::Done(r, used) => {
                assert_eq!(used, answers.len());
                return (r, runs);
            }
            Progress::Ask(Question::IsExecutable(p)) => {
                answers.push(Answer::Executable(scripts.iter().any(|s| s.0 == p)));
            }
            Progress::Ask(Question::Run { program, env, stdin }) => {
                let s = scripts.iter().find(|s| s.0 == program).unwrap();
                answers.push(Answer::Ended { stdout: s.1.into(), success: s.2 });
                runs.push((program, stdin, env));
            }
        }
    }
}

#[test]
fn parses_flannel_delegate_ipam() {
    let raw = r#"{
          "cniVersion": "0.3.1",
          "name": "cbr0",
          "ipam": {
            "type": "host-local",
            "ranges": [[{"subnet": "10.244.1.0/24"}]],
            "routes": [{"dst": "0.0.0.0/0"}],
            "dataDir": "/var/lib/cni/networks"
          }
        }"#;
    let nc = NetConf::parse(raw).unwrap();
    assert_eq!(nc.cni_version, "0.3.1");
    assert_eq!(nc.name, "cbr0");
    assert_eq!(nc.ipam.kind, "host-local");
    assert_eq!(nc.ipam.ranges[0][0].subnet, "10.244.1.0/24");
    assert_eq!(nc.ipam.routes[0].dst, "0.0.0.0/0");
    assert_eq!(nc.ipam.data_dir.as_deref(), Some("/var/lib/cni/networks"));
}

#[test]
fn absent_ranges_and_routes_are_empty() {
    let nc = NetConf::parse(r#"{"cniVersion":"0.3.1","name":"n","ipam":{"type":"t"}}"#).unwrap();
    assert!(nc.ipam.ranges.is_empty() && nc.ipam.routes.is_empty());
    assert_eq!(nc.ipam.data_dir, None);
}

#[test]
fn execs_delegate_and_relays_stdout() {
    let (out, runs) = drive(
        "bridge",
        &args("/opt/cni/bin"),
        r#"{"type":"bridge","x":1}"#,
        &[("/opt/cni/bin/bridge", "{\"cniVersion\":\"0.3.1\",\"ips\":[]}\n", true)],
    );
    let out = out.unwrap();
    assert!(out.success);
    let v: serde_json::Value = serde_json::from_str(out.stdout.trim()).unwrap();
    assert_eq!(v["cniVersion"], "0.3.1");
    assert_eq!(runs.len(), 1);
    let received = &runs[0].1;
    assert!(received.contains("\"type\":\"bridge\""));
    assert!(runs[0].2.contains(&("CNI_COMMAND".into(), "ADD".into())));
    assert!(runs[0].2.contains(&("CNI_PATH".into(), "/opt/cni/bin".into())));
}

#[test]
fn failing_delegate_reports_unsuccessful() {
    let (out, _) = drive(
        "bridge",
        &args("/opt/cni/bin"),
        "{}",
        &[("/opt/cni/bin/bridge", "{\"code\":7,\"msg\":\"boom\"}\n", false)],
    );
    let out = out.unwrap();
    assert!(!out.success);
    assert!(out.stdout.contains("boom"));
}

#[test]
fn missing_delegate_is_error() {
    let (out, runs) = drive("nonexistent", &args("/opt/cni/bin"), "{}", &[]);
    let err = out.unwrap_err();
    assert_eq!(err.code, 5);
    assert_eq!(err.msg, "delegate plugin \"nonexistent\" not found in CNI_PATH");
    assert!(runs.is_empty());
}

#[test]
fn quotes_in_a_missing_delegate_are_escaped() {
    let (out, _) = drive("a\"b", &args(""), "{}", &[]);
    assert_eq!(out.unwrap_err().msg, "delegate plugin \"a\\\"b\" not found in CNI_PATH");
}

#[test]
fn the_first_directory_with_the_plugin_wins() {
    let (out, runs) = drive(
        "bridge",
        &args("/a:/b/:/c"),
        "{}",
        &[("/b/bridge", "b", true), ("/c/bridge", "c", true)],
    );
    assert_eq!(out.unwrap().stdout, "b");
    assert_eq!(runs[0].0, "/b/bridge");
    assert_eq!(join_path("/b", "bridge"), "/b/bridge");
    assert_eq!(join_path("/b/", "bridge"), "/b/bridge");
    for (dir, name) in [("", "n"), ("/b", "/n"), ("/b", ""), ("b", "n/m"), ("", "")] {
        let path = std::path::Path::new(dir).join(name);
        assert_eq!(join_path(dir, name), path.to_str().unwrap());
    }
}

#[test]
fn what_is_not_executable_is_passed_over() {
    let a = args("/a:/b");
    let mut answers = vec![Answer::Executable(false)];
    match run_delegate("p", &a, "{}", &answers, 0) {
        Progress::Ask(Question::IsExecutable(p)) => assert_eq!(p, "/b/p"),
        other => panic!("{other:?}"),
    }
    answers.push(Answer::Executable(true));
    match run_delegate("p", &a, "{}", &answers, 0) {
        Progress::Ask(Question::Run { program, .. }) => assert_eq!(program, "/b/p"),
        other => panic!("{other:?}"),
    }
    let none = vec![Answer::Executable(false), Answer::Executable(false)];
    assert!(matches!(run_delegate("p", &a, "{}", &none, 0), Progress::Done(Err(_), 2)));
}

#[test]
fn a_delegate_that_does_not_run_is_an_error() {
    let a = args("/a");
    let lost = vec![Answer::Executable(true), Answer::Lost("gone".into())];
    match run_delegate("p", &a, "{}", &lost, 0) {
        Progress::Done(Err(e), 2) => assert_eq!(e.details.as_deref(), Some("gone")),
        other => panic!("{other:?}"),
    }
    let never = vec![Answer::Executable(true), Answer::NotStarted("no".into())];
    match run_delegate("p", &a, "{}", &never, 0) {
        Progress::Done(Err(e), 2) => assert_eq!(e.details.as_deref(), Some("no")),
        other => panic!("{other:?}"),
    }
}

#[test]
fn parses_add_invocation() {
    let a = CniArgs::from_map(&map(&[
        ("CNI_COMMAND", "ADD"),
        ("CNI_CONTAINERID", "abc123"),
        ("CNI_IFNAME", "eth0"),
        ("CNI_NETNS", "/var/run/netns/x"),
    ]))
    .unwrap();
    assert_eq!(a.command, "ADD");
    assert_eq!(a.container_id, "abc123");
    assert_eq!(a.ifname, "eth0");
}

#[test]
fn missing_command_is_error_code_4() {
    let err = CniArgs::from_map(&map(&[("CNI_CONTAINERID", "abc")])).unwrap_err();
    assert_eq!(err.code, 4);
}

#[test]
fn unset_variables_are_empty() {
    let a = CniArgs::from_map(&map(&[("CNI_COMMAND", "VERSION")])).unwrap();
    assert_eq!((a.netns.as_str(), a.args.as_str(), a.path.as_str()), ("", "", ""));
    let b = a.clone();
    assert_eq!(b.command, "VERSION");
}

#[test]
fn serializes_error() {
    let e = CniError::new(7, "no IP addresses available in range").with_details("range full");
    let v: serde_json::Value = serde_json::from_str(&e.to_json()).unwrap();
    assert_eq!(v["code"], 7);
    assert_eq!(v["msg"], "no IP addresses available in range");
    assert_eq!(v["details"], "range full");
    assert_eq!(v["cniVersion"], "0.3.1");
}

#[test]
fn an_error_is_written_with_escapes_and_without_absent_details() {
    let e = CniError::new(5, "a \"quoted\"\nline");
    assert_eq!(
        e.to_json(),
        r#"{"cniVersion":"0.3.1","code":5,"msg":"a \"quoted\"\nline"}"#
    );
    assert_eq!(e.message(), "CNI error 5: a \"quoted\"\nline");
}

#[test]
fn ensure_rule_checks_then_appends() {
    let ipt = Iptables::with_backend("fake-iptables");
    let rule = words(&["-j", "CNI-DN-abc"]);
    let mut replies: Vec<Reply> = Vec::new();
    let mut recorded: Vec<String> = Vec::new();
    loop {
        match ipt.ensure_rule("CNI-HOSTPORT-DNAT", &rule, &replies, 0) {
            Progress::Ask(i) => {
                assert_eq!(i.program, "fake-iptables");
                let check = i.args.contains(&"-C".to_string());
                recorded.push(i.args.join(" "));
                replies.push(exited(!check, "", ""));
            }
            Progress::Done(r, _) => {
                r.unwrap();
                break;
            }
        }
    }
    let recorded = recorded.join("\n");
    assert!(recorded.contains("-C CNI-HOSTPORT-DNAT -j CNI-DN-abc"), "{recorded}");
    assert!(recorded.contains("-A CNI-HOSTPORT-DNAT -j CNI-DN-abc"), "{recorded}");
    assert!(recorded.starts_with("--wait -t nat -C"), "{recorded}");
}

#[test]
fn a_rule_that_is_there_is_not_appended() {
    let ipt = Iptables::with_backend("ipt");
    let rule = words(&["-j", "X"]);
    assert!(matches!(
        ipt.ensure_rule("C", &rule, &vec![exited(true, "", "")], 0),
        Progress::Done(Ok(()), 1)
    ));
    match ipt.ensure_rule("C", &rule, &vec![exited(false, "", ""), exited(false, "", "bad")], 0) {
        Progress::Done(Err(e), 2) => {
            assert_eq!(e.code, 7);
            assert_eq!(e.msg, "append rule to C");
            assert_eq!(e.details.as_deref(), Some("bad"));
        }
        other => panic!("{other:?}"),
    }
}

#[test]
fn a_chain_that_exists_is_fine() {
    let ipt = Iptables::with_backend("ipt");
    let there = vec![exited(false, "", "iptables: Chain already exists.")];
    assert!(matches!(ipt.ensure_chain("C", &there, 0), Progress::Done(Ok(()), 1)));
    match ipt.ensure_chain("C", &vec![exited(false, "", "denied")], 0) {
        Progress::Done(Err(e), 1) => assert_eq!(e.msg, "create chain C"),
        other => panic!("{other:?}"),
    }
    match ipt.ensure_chain("C", &vec![Reply::Failed("not found".into())], 0) {
        Progress::Done(Err(e), 1) => {
            assert_eq!(e.msg, "exec ipt");
            assert_eq!(e.details.as_deref(), Some("not found"));
        }
        other => panic!("{other:?}"),
    }
}

#[test]
fn deleting_never_fails() {
    let ipt = Iptables::with_backend("ipt");
    let bad = || exited(false, "", "no such rule");
    assert!(matches!(
        ipt.delete_rule("C", &words(&["-j", "X"]), &vec![bad()], 0),
        Progress::Done(Ok(()), 1)
    ));
    assert!(matches!(
        ipt.flush_delete_chain("C", &vec![bad(), Reply::Failed("x".into())], 0),
        Progress::Done(Ok(()), 2)
    ));
    match ipt.flush_delete_chain("C", &vec![bad()], 0) {
        Progress::Ask(i) => assert_eq!(i.args, words(&["--wait", "-t", "nat", "-X", "C"])),
        other => panic!("{other:?}"),
    }
}

#[test]
fn the_backend_of_kube_proxy_is_detected() {
    let kube = || exited(true, "-N KUBE-SERVICES\n", "");
    let none = || exited(true, "-P INPUT ACCEPT\n", "");
    let probe = |replies: Vec<Reply>| match Iptables::detect(&replies) {
        Progress::Done(ipt, _) => match ipt.ensure_chain("C", &Vec::new(), 0) {
            Progress::Ask(i) => i.program,
            other => panic!("{other:?}"),
        },
        Progress::Ask(i) => format!("ask {}", i.program),
    };
    assert_eq!(probe(vec![]), "ask iptables-nft");
    assert_eq!(probe(vec![kube()]), "iptables-nft");
    assert_eq!(probe(vec![none()]), "ask iptables-legacy");
    assert_eq!(probe(vec![none(), kube()]), "iptables-legacy");
    assert_eq!(probe(vec![Reply::Failed("x".into()), none()]), "iptables");
    assert_eq!(probe(vec![exited(false, "KUBE-", ""), none()]), "iptables");
}

#[test]
fn serializes_0_3_1_result() {
    let r = CniResult {
        cni_version: "0.3.1".into(),
        ips: vec![IpResult {
            version: "4".into(),
            address: "10.244.1.2/24".into(),
            gateway: Some("10.244.1.1".into()),
        }],
        routes: vec![Route { dst: "0.0.0.0/0".into(), gw: None }],
    };
    let v: serde_json::Value = serde_json::from_str(&r.to_json()).unwrap();
    assert_eq!(v["cniVersion"], "0.3.1");
    assert_eq!(v["ips"][0]["version"], "4");
    assert_eq!(v["ips"][0]["address"], "10.244.1.2/24");
    assert_eq!(v["ips"][0]["gateway"], "10.244.1.1");
    assert_eq!(v["routes"][0]["dst"], "0.0.0.0/0");
}

#[test]
fn a_result_reads_back() {
    let r = CniResult {
        cni_version: "0.3.1".into(),
        ips: vec![
            IpResult { version: "4".into(), address: "10.0.0.2/8".into(), gateway: None },
            IpResult { version: "4".into(), address: "\"\\".into(), gateway: Some("g".into()) },
        ],
        routes: vec![Route { dst: "d".into(), gw: Some("w".into()) }],
    };
    let s = r.to_json();
    let back = CniResult::parse(&s).unwrap();
    assert_eq!(back.to_json(), s);
    assert_eq!(back.ips[1].address, "\"\\");
    assert_eq!(back.ips[0].gateway, None);
    assert_eq!(back.routes[0].gw.as_deref(), Some("w"));
}

#[test]
fn advertises_supported_versions() {
    let v: serde_json::Value = serde_json::from_str(&VersionResult::supported().to_json()).unwrap();
    assert_eq!(v["supportedVersions"][0], "0.3.0");
    assert_eq!(v["supportedVersions"][1], "0.3.1");
}

#[test]
fn commands_have_their_verbs() {
    assert_eq!(verb("ADD"), Verb::Add);
    assert_eq!(verb("DEL"), Verb::Del);
    assert_eq!(verb("CHECK"), Verb::Check);
    assert_eq!(verb("VERSION"), Verb::Version);
    assert_eq!(verb("add"), Verb::Unknown);
    assert_eq!(unknown_command("GC").code, 4);
}

#[test]
fn a_report_is_the_output_or_the_error() {
    let ok = report(Ok(("{}".into(), true)));
    assert_eq!((ok.stdout.as_str(), ok.success), ("{}", true));
    let relayed = report(Ok(("{\"code\":1}".into(), false)));
    assert!(!relayed.success);
    let failed = report(Err(CniError::new(7, "x")));
    assert!(!failed.success);
    assert!(failed.stdout.contains("\"code\":7"));
}
