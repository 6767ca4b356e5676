//! From the subnet of a node to the address of a container.

use flannel_rs::cni::env::CniArgs;
use flannel_rs::cni::result::CniResult;
use flannel_rs::cni_bridge::plan::ip_plan;
use flannel_rs::cni_flannel::delegate::{build_delegate, FlannelConf};
use flannel_rs::cni_flannel::subnetenv::SubnetEnv;
use flannel_rs::cni_host_local::command::{cmd_add, Answer, Question};
use flannel_rs::cni_portmap::config::pod_ipv4;
use flannel_rs::flanneld::subnet;
use flannel_rs::ipv4::parse_address;
use flannel_rs::progress::Progress;
use flannel_rs::text_map::TextMap;

#[test]
fn a_container_gets_an_address_of_its_node() {
    let file = subnet::SubnetEnv {
        network: "10.244.0.0/16".into(),
        subnet: "10.244.7.0/24".into(),
        mtu: 1450,
        ipmasq: true,
    }
    .render();
    let env = SubnetEnv::parse(&file).unwrap();
    assert_eq!((env.network.as_str(), env.subnet.as_str()), ("10.244.0.0/16", "10.244.7.0/24"));
    assert_eq!((env.mtu, env.ipmasq), (1450, true));

    let conf = r#"{"name":"cbr0","cniVersion":"0.3.1","delegate":{"isDefaultGateway":true}}"#;
    let delegate = build_delegate(&FlannelConf::parse(conf).unwrap(), &env).to_string();

    let args = CniArgs {
        command: "ADD".into(),
        container_id: "cid1".into(),
        netns: "/var/run/netns/x".into(),
        ifname: "eth0".into(),
        args: String::new(),
        path: "/opt/cni/bin".into(),
    };
    let mut taken = TextMap::new();
    taken.insert("10.244.7.2".to_string(), "other\neth0".to_string());
    let mut taken = Some(taken);
    let mut answers: Vec<Answer> = Vec::new();
    let out = loop {
        match cmd_add(&args, &delegate, &answers) {
            Progress::Done(r, _) => break r.unwrap(),
            Progress::Ask(Question::Load(_)) => {
                answers.push(Answer::Loaded(taken.take().unwrap()));
            }
            Progress::Ask(_) => answers.push(Answer::Done),
        }
    };

    let result = CniResult::parse(&out).unwrap();
    let plan = ip_plan(&result).unwrap();
    let address = parse_address("10.244.7.3").unwrap();
    assert_eq!((plan.addr, plan.prefix), (address, 24));
    assert_eq!(plan.gateway, parse_address("10.244.7.1"));
    assert_eq!(plan.routes.len(), 1);
    assert_eq!(plan.routes[0].cidr_text(), "10.244.0.0/16");
    assert_eq!(pod_ipv4(&result), Some(address));
}
