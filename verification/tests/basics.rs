//! Text, numbers, addresses, maps and decoding.

use flannel_rs::cni::config::{NetConf, Route};
use flannel_rs::decode::DecodeError;
use flannel_rs::ipv4::{address_text, parse_address, Ipv4Net};
use flannel_rs::netlink;
use flannel_rs::netlink::Reply;
use flannel_rs::number::{decimal_text, hex_text, read_number, NumberFault};
use flannel_rs::text;
use flannel_rs::text_map::TextMap;

fn net(s: &str) -> Ipv4Net {
    Ipv4Net::parse(s).unwrap()
}

#[test]
fn splitting_undoes_joining() {
    let parts = vec!["a".to_string(), "".to_string(), "bc".to_string()];
    let joined = text::join(&parts, ":");
    assert_eq!(joined, "a::bc");
    assert_eq!(text::split_text(&joined, ':'), parts);
    assert_eq!(text::split_text("", ':'), vec![""]);
}

#[test]
fn lines_end_with_feeds_or_returns() {
    assert_eq!(text::lines_of("a\r\nb\n\nc"), vec!["a", "b", "", "c"]);
    assert!(text::lines_of("").is_empty());
    assert_eq!(text::lines_of("\n"), vec![""]);
}

#[test]
fn text_is_trimmed_and_searched() {
    assert_eq!(text::trim(" \t a b\u{2003}\n"), "a b");
    assert_eq!(text::trim("  "), "");
    assert!(text::contains_text("-N KUBE-SERVICES", "KUBE-"));
    assert!(!text::contains_text("-N KUBE", "KUBE-"));
    assert!(text::contains_text("abc", ""));
    assert!(text::starts_with("-A INPUT", "-A"));
    assert!(!text::starts_with("-", "-A"));
    assert_eq!(text::alnum("a-b_c9Z!x", 4), "abc9");
}

#[test]
fn decimal_numbers_read_back() {
    for n in [0u32, 7, 10, 65535, 4294967295] {
        let s = decimal_text(n as u64);
        assert_eq!(s, format!("{n}"));
        assert_eq!(read_number(&s, 10, u32::MAX), Ok(n));
    }
    assert_eq!(decimal_text(u64::MAX), "18446744073709551615");
}

#[test]
fn hexadecimal_bytes_read_back() {
    for b in 0..=255u8 {
        let s = hex_text(b);
        assert_eq!(s, format!("{b:02x}"));
        assert_eq!(read_number(&s, 16, 255), Ok(b as u32));
    }
}

#[test]
fn numbers_are_refused_like_the_standard_library_does() {
    for s in ["", "+", "-1", "+12", "12x", "256", "999x", "9x9", "0255", " 1"] {
        let expected = s.parse::<u8>();
        match read_number(s, 10, 255) {
            Ok(n) => assert_eq!(expected, Ok(n as u8)),
            Err(f) => assert_eq!(expected.unwrap_err().to_string(), f.message()),
        }
    }
    assert_eq!(read_number("", 10, 255), Err(NumberFault::Empty));
    assert_eq!(read_number("x", 10, 255), Err(NumberFault::InvalidDigit));
    assert_eq!(read_number("256", 10, 255), Err(NumberFault::TooLarge));
}

#[test]
fn addresses_read_back() {
    for a in [0u32, 1, 0x0af4_0102, 0xffff_ffff] {
        assert_eq!(parse_address(&address_text(a)), Some(a));
    }
    assert_eq!(address_text(0x0af4_0102), "10.244.1.2");
}

#[test]
fn an_address_has_one_form() {
    for s in [
        "", "1.2.3", "1.2.3.4.5", "01.2.3.4", "256.1.1.1", "1.2.3.4 ", "1..2.3", "a.b.c.d",
        "1.2.3.-4", "+1.2.3.4",
    ] {
        assert_eq!(parse_address(s), None, "{s}");
    }
    assert_eq!(parse_address("1.2.3.4"), Some(0x0102_0304));
}

#[test]
fn networks_have_their_bounds() {
    let n = net("10.244.1.77/24");
    assert_eq!(n.prefix(), 24);
    assert_eq!(n.ip(), parse_address("10.244.1.77").unwrap());
    assert_eq!(address_text(n.network()), "10.244.1.0");
    assert_eq!(address_text(n.broadcast()), "10.244.1.255");
    assert_eq!(n.size(), 256);
    assert_eq!(n.cidr_text(), "10.244.1.77/24");
    assert_eq!(net("0.0.0.0/0").size(), 1u64 << 32);
    assert_eq!(net("10.0.0.1").prefix(), 32);
    assert_eq!(net("10.0.0.0/255.255.0.0").prefix(), 16);
}

#[test]
fn networks_are_refused_when_malformed() {
    for s in ["not-a-cidr", "10.244.0.0/33", "10.244.0.0/", "10.244.0/16", ""] {
        assert!(Ipv4Net::parse(s).is_err(), "{s}");
    }
    assert!(Ipv4Net::new(0, 33).is_none());
    assert_eq!(Ipv4Net::new(0x0af4_0000, 16), Some(net("10.244.0.0/16")));
}

#[test]
fn networks_are_written_as_they_read() {
    for s in ["10.244.0.0/16", "0.0.0.0/0", "255.255.255.255/32"] {
        assert_eq!(net(s).cidr_text(), s);
    }
}

#[test]
fn a_network_holds_every_address_of_its_subnets() {
    let outer = net("10.244.0.0/16");
    let inner = net("10.244.255.0/24");
    for ip in inner.network()..=inner.broadcast() {
        assert!(outer.contains(ip));
    }
    assert!(!outer.contains(parse_address("10.245.0.0").unwrap()));
}

#[test]
fn a_map_keeps_each_key_once() {
    let mut m: TextMap<u32> = TextMap::new();
    m.insert("b".into(), 1);
    m.insert("a".into(), 2);
    m.insert("b".into(), 3);
    assert_eq!(m.len(), 2);
    assert_eq!((m.key(0), *m.value(0)), ("b", 3));
    assert_eq!((m.key(1), *m.value(1)), ("a", 2));
    assert_eq!(m.get("a"), Some(&2));
    assert_eq!(m.get("c"), None);
    m.remove("b");
    m.remove("c");
    assert!(!m.contains_key("b"));
    assert_eq!(m.len(), 1);
}

#[test]
fn a_copied_map_is_the_same() {
    let mut m: TextMap<String> = TextMap::new();
    m.insert("k".into(), "v".into());
    m.insert("l".into(), "w".into());
    let c = m.copy();
    assert_eq!(c.len(), 2);
    assert_eq!(c.get("k").unwrap(), "v");
    assert_eq!(c.key(1), "l");
}

#[test]
fn decoding_tells_its_faults_apart() {
    let ok = r#"{"cniVersion":"0.3.1","name":"n","ipam":{"type":"host-local"}}"#;
    assert!(NetConf::parse(ok).is_ok());
    assert!(matches!(NetConf::parse("{"), Err(DecodeError::Syntax(_))));
    assert_eq!(
        NetConf::parse(r#"{"cniVersion":"0.3.1","name":"n"}"#).unwrap_err(),
        DecodeError::Missing("ipam".into())
    );
    assert!(matches!(
        NetConf::parse(r#"{"cniVersion":1,"name":"n","ipam":{"type":"x"}}"#),
        Err(DecodeError::Invalid(_))
    ));
    assert!(matches!(NetConf::parse("7"), Err(DecodeError::Invalid(_))));
}

#[test]
fn an_alias_beside_its_field_is_a_repetition() {
    let raw = r#"{"cniVersion":"0.3.1","runtimeConfig":{"portMappings":[
        {"hostPort":1,"HostPort":2,"containerPort":3,"protocol":"tcp"}]}}"#;
    let e = flannel_rs::cni_portmap::config::PortmapConf::parse(raw).unwrap_err();
    assert!(matches!(e, DecodeError::Repeated(_)), "{e:?}");
}

#[test]
fn faults_have_a_wording() {
    assert_eq!(DecodeError::Missing("Type".into()).message(), "missing field `Type`");
    assert_eq!(DecodeError::Repeated("Type".into()).message(), "duplicate field `Type`");
    let syntax = serde_json::from_str::<serde_json::Value>("{not json").unwrap_err().to_string();
    assert_eq!(NetConf::parse("{not json").unwrap_err().message(), syntax);
}

#[test]
fn routes_are_cloned_whole() {
    let r = Route { dst: "0.0.0.0/0".into(), gw: Some("10.0.0.1".into()) };
    let c = r.clone();
    assert_eq!((c.dst, c.gw), (r.dst, r.gw));
}

#[test]
fn answers_of_the_kernel_are_judged() {
    assert_eq!(netlink::failure(&Reply::Done), None);
    assert_eq!(netlink::failure(&Reply::Failed("x".into())), Some("x".into()));
    assert_eq!(netlink::link_index(&Reply::Link(Some(4))), Ok(Some(4)));
    assert_eq!(netlink::link_index(&Reply::Refused(netlink::ENODEV, "no".into())), Ok(None));
    assert_eq!(netlink::link_index(&Reply::Refused(-1, "no".into())), Err("no".into()));
    assert_eq!(netlink::refusal(&Reply::Refused(netlink::EEXIST, "is".into())), None);
    assert_eq!(netlink::refusal(&Reply::Refused(-1, "no".into())), Some("no".into()));
    assert_eq!(netlink::in_context("a", "b"), "a: b");
}

#[test]
fn networks_are_read_as_written() {
    assert_eq!(Ipv4Net::parse("10.1.2.3").unwrap().cidr_text(), "10.1.2.3/32");
    assert_eq!(Ipv4Net::parse("10.1.2.3/255.255.240.0").unwrap().cidr_text(), "10.1.2.3/20");
    assert_eq!(Ipv4Net::parse("10.1.2.3/0.0.0.0").unwrap().cidr_text(), "10.1.2.3/0");
    assert_eq!(Ipv4Net::parse("10.1.2.3/+8").unwrap().cidr_text(), "10.1.2.3/8");
    assert_eq!(Ipv4Net::parse("10.1.2.3/08").unwrap().cidr_text(), "10.1.2.3/8");
    assert_eq!(Ipv4Net::parse("10.1.2/8").unwrap_err(), "invalid address: 10.1.2");
    assert_eq!(Ipv4Net::parse("").unwrap_err(), "invalid address: ");
    for bad in ["10.1.2.3/33", "10.1.2.3/", "10.1.2.3/256", "10.1.2.3/255.0.255.0"] {
        assert_eq!(Ipv4Net::parse(bad).unwrap_err(), "invalid prefix", "{bad}");
    }
    assert_eq!(
        Ipv4Net::parse("10.1.2.3/8/").unwrap_err(),
        "invalid cidr format: CIDR must contain a single '/': 10.1.2.3/8/"
    );
}
