//! The configuration of the portmap plugin.

use serde_json::Value;
use vstd::prelude::*;
use vstd::string::*;

use crate::cni::result;
use crate::cni::result::CniResult;
use crate::decode;
use crate::decode::DecodeError;
use crate::ipv4;
use crate::ipv4::Ipv4Net;
use crate::json;
use crate::text;

verus! {

/// The configuration on standard input. The version is part of the format but
/// not used.
#[derive(Debug)]
pub struct PortmapConf {
    pub cni_version: String,
    pub prev_result: Option<CniResult>,
    pub runtime_config: RuntimeConfig,
}

/// What the runtime adds to the configuration.
#[derive(Debug)]
pub struct RuntimeConfig {
    pub port_mappings: Vec<PortMapping>,
}

/// One published mapping of a host port to a container port.
///
/// The go-cni library of containerd writes the field names with a capital
/// first letter, and always gives a host address, empty where none was asked
/// for. The CNI documentation has them with a small one. Both are read.
#[derive(Debug)]
pub struct PortMapping {
    pub host_port: u16,
    pub container_port: u16,
    pub protocol: String,
    /// The host address that was asked for. An empty one means none. The rules
    /// of a mapping hold for every address of the host all the same.
    pub host_ip: Option<String>,
}

/// The model of `PortmapConf`.
pub struct ConfView {
    pub cni_version: Seq<char>,
    pub prev_result: Option<result::ResultView>,
    pub mappings: Seq<MappingView>,
}

/// The model of `PortMapping`.
pub struct MappingView {
    pub host_port: u16,
    pub container_port: u16,
    pub protocol: Seq<char>,
    pub host_ip: Option<Seq<char>>,
}

impl View for PortMapping {
    type V = MappingView;

    open spec fn view(&self) -> MappingView {
        MappingView {
            host_port: self.host_port,
            container_port: self.container_port,
            protocol: self.protocol@,
            host_ip: text::opt_text(self.host_ip),
        }
    }
}

impl Clone for PortMapping {
    fn clone(&self) -> (m: PortMapping)
        ensures
            m@ == self@,
    {
        PortMapping {
            host_port: self.host_port,
            container_port: self.container_port,
            protocol: self.protocol.clone(),
            host_ip: text::copy_opt(&self.host_ip),
        }
    }
}

/// The models of mappings.
pub open spec fn mapping_views(v: Seq<PortMapping>) -> Seq<MappingView> {
    v.map_values(|m: PortMapping| m@)
}

impl View for RuntimeConfig {
    type V = Seq<MappingView>;

    open spec fn view(&self) -> Seq<MappingView> {
        mapping_views(self.port_mappings@)
    }
}

impl Default for RuntimeConfig {
    fn default() -> (c: RuntimeConfig)
        ensures
            c@ == Seq::<MappingView>::empty(),
    {
        let c = RuntimeConfig { port_mappings: Vec::new() };
        assert(c@ =~= Seq::<MappingView>::empty());
        c
    }
}

/// The model of an optional result.
pub open spec fn opt_result(r: Option<CniResult>) -> Option<result::ResultView> {
    match r {
        Some(r) => Some(r@),
        None => None,
    }
}

impl View for PortmapConf {
    type V = ConfView;

    open spec fn view(&self) -> ConfView {
        ConfView {
            cni_version: self.cni_version@,
            prev_result: opt_result(self.prev_result),
            mappings: self.runtime_config@,
        }
    }
}

// ---------------------------------------------------------------------------
// Decoding
// ---------------------------------------------------------------------------

/// The mapping that a value stands for.
pub open spec fn mapping_of(j: json::Json) -> Result<MappingView, decode::Fault> {
    if !decode::is_record(j, 0, 4) {
        Err(decode::Fault::Invalid("PortMapping"@))
    } else {
        match decode::field(j, seq!["hostPort"@, "HostPort"@], 0) {
            Err(f) => Err(f),
            Ok(port) => match decode::required_u16(port, "hostPort"@) {
                Err(f) => Err(f),
                Ok(host_port) => match decode::field(
                    j,
                    seq!["containerPort"@, "ContainerPort"@],
                    1,
                ) {
                    Err(f) => Err(f),
                    Ok(port) => match decode::required_u16(port, "containerPort"@) {
                        Err(f) => Err(f),
                        Ok(container_port) => match decode::field(
                            j,
                            seq!["protocol"@, "Protocol"@],
                            2,
                        ) {
                            Err(f) => Err(f),
                            Ok(protocol) => match decode::text_or(protocol, "protocol"@, "tcp"@) {
                                Err(f) => Err(f),
                                Ok(protocol) => match decode::field(
                                    j,
                                    seq!["hostIP"@, "HostIP"@, "hostIp"@],
                                    3,
                                ) {
                                    Err(f) => Err(f),
                                    Ok(ip) => match decode::optional_text(ip, "hostIP"@) {
                                        Err(f) => Err(f),
                                        Ok(host_ip) => Ok(
                                            MappingView {
                                                host_port,
                                                container_port,
                                                protocol,
                                                host_ip,
                                            },
                                        ),
                                    },
                                },
                            },
                        },
                    },
                },
            },
        }
    }
}

/// The decoder of mappings.
pub open spec fn mapping_decoder() -> spec_fn(json::Json) -> Result<MappingView, decode::Fault> {
    |j: json::Json| mapping_of(j)
}

/// The mappings that the runtime's part of the configuration stands for: none
/// where it is absent, or where it has none.
pub open spec fn runtime_of(o: Option<json::Json>) -> Result<Seq<MappingView>, decode::Fault> {
    match o {
        None => Ok(Seq::empty()),
        Some(j) => if !decode::is_record(j, 0, 1) {
            Err(decode::Fault::Invalid("RuntimeConfig"@))
        } else {
            match decode::field(j, seq!["portMappings"@], 0) {
                Err(f) => Err(f),
                Ok(list) => match decode::list_or_empty(list, "portMappings"@) {
                    Err(f) => Err(f),
                    Ok(items) => decode::decode_all(items, mapping_decoder()),
                },
            }
        },
    }
}

/// The previous result that a field stands for: none where it is absent or
/// `null`.
pub open spec fn previous_of(o: Option<json::Json>) -> Result<
    Option<result::ResultView>,
    decode::Fault,
> {
    match o {
        None | Some(json::Json::Null) => Ok(None),
        Some(j) => match result::result_of(j) {
            Err(f) => Err(f),
            Ok(r) => Ok(Some(r)),
        },
    }
}

/// The previous result as it stands in a configuration.
pub open spec fn previous_in(j: json::Json) -> json::Json {
    match decode::field(j, seq!["prevResult"@], 1) {
        Ok(Some(p)) => p,
        _ => json::Json::Null,
    }
}

/// The previous result as it stands in a configuration's text.
pub open spec fn previous(s: Seq<char>) -> json::Json {
    match decode::document(s) {
        Ok(j) => previous_in(j),
        Err(_) => json::Json::Null,
    }
}

/// The configuration that a value stands for.
pub open spec fn conf_of(j: json::Json) -> Result<ConfView, decode::Fault> {
    if !decode::is_record(j, 0, 3) {
        Err(decode::Fault::Invalid("PortmapConf"@))
    } else {
        match decode::field(j, seq!["cniVersion"@], 0) {
            Err(f) => Err(f),
            Ok(version) => match decode::text_or(version, "cniVersion"@, ""@) {
                Err(f) => Err(f),
                Ok(cni_version) => match decode::field(j, seq!["prevResult"@], 1) {
                    Err(f) => Err(f),
                    Ok(prev) => match previous_of(prev) {
                        Err(f) => Err(f),
                        Ok(prev_result) => match decode::field(j, seq!["runtimeConfig"@], 2) {
                            Err(f) => Err(f),
                            Ok(runtime) => match runtime_of(runtime) {
                                Err(f) => Err(f),
                                Ok(mappings) => Ok(
                                    ConfView { cni_version, prev_result, mappings },
                                ),
                            },
                        },
                    },
                },
            },
        }
    }
}

/// The configuration that a JSON text stands for.
pub open spec fn conf(s: Seq<char>) -> Result<ConfView, decode::Fault> {
    match decode::document(s) {
        Err(f) => Err(f),
        Ok(j) => conf_of(j),
    }
}

/// The host address that a mapping asks for: none where it is empty.
pub open spec fn wanted_host_ip(m: MappingView) -> Option<Seq<char>> {
    match m.host_ip {
        Some(ip) => if ip.len() > 0 {
            Some(ip)
        } else {
            None
        },
        None => None,
    }
}

/// The view of an optional text.
pub open spec fn opt_str(o: Option<&str>) -> Option<Seq<char>> {
    match o {
        Some(s) => Some(s@),
        None => None,
    }
}

impl PortMapping {
    /// The host address that was asked for, if it is a specific one.
    pub fn host_ip_some(&self) -> (r: Option<&str>)
        ensures
            opt_str(r) == wanted_host_ip(self@),
    {
        match &self.host_ip {
            Some(ip) => if ip.as_str().is_empty() {
                None
            } else {
                Some(ip.as_str())
            },
            None => None,
        }
    }

    /// Decodes a mapping.
    pub fn decode(v: &Value) -> (r: Result<PortMapping, DecodeError>)
        ensures
            decode::outcome(r, |x: PortMapping| x@) == mapping_of(json::json_view(*v)),
    {
        if !decode::record(v, 0, 4) {
            return Err(DecodeError::Invalid("PortMapping".to_owned()));
        }
        let host_port: u16 = decode::take_u16(
            decode::field2(v, "hostPort", "HostPort", 0)?,
            "hostPort",
        )?;
        let container_port: u16 = decode::take_u16(
            decode::field2(v, "containerPort", "ContainerPort", 1)?,
            "containerPort",
        )?;
        let protocol = decode::take_text_or(
            decode::field2(v, "protocol", "Protocol", 2)?,
            "protocol",
            "tcp",
        )?;
        let host_ip = decode::take_optional_text(
            decode::field3(v, "hostIP", "HostIP", "hostIp", 3)?,
            "hostIP",
        )?;
        Ok(PortMapping { host_port, container_port, protocol, host_ip })
    }
}

impl RuntimeConfig {
    fn decode(o: Option<&Value>) -> (r: Result<RuntimeConfig, DecodeError>)
        ensures
            decode::outcome(r, |x: RuntimeConfig| x@) == runtime_of(decode::opt_view(o)),
    {
        let mut out: Vec<PortMapping> = Vec::new();
        assert(mapping_views(out@) =~= Seq::<MappingView>::empty());
        let v = match o {
            None => {
                return Ok(RuntimeConfig { port_mappings: out });
            },
            Some(v) => v,
        };
        if !decode::record(v, 0, 1) {
            return Err(DecodeError::Invalid("RuntimeConfig".to_owned()));
        }
        let list = decode::field1(v, "portMappings", 0)?;
        if list.is_none() {
            return Ok(RuntimeConfig { port_mappings: out });
        }
        let items = decode::take_list(list, "portMappings")?;
        let mut i: usize = 0;
        let ghost all = json::views(items@);
        assert(all.take(0) =~= Seq::<json::Json>::empty());
        while i < items.len()
            invariant
                i <= items@.len(),
                all == json::views(items@),
                runtime_of(decode::opt_view(o)) == decode::decode_all(all, mapping_decoder()),
                decode::decode_all(all.take(i as int), mapping_decoder()) == Ok::<
                    Seq<MappingView>,
                    decode::Fault,
                >(mapping_views(out@)),
            decreases items@.len() - i,
        {
            proof {
                decode::lemma_decode_next(all, mapping_decoder(), i as int);
            }
            match PortMapping::decode(&items[i]) {
                Ok(x) => {
                    let ghost before = mapping_views(out@);
                    out.push(x);
                    assert(mapping_views(out@) =~= before.push(x@));
                },
                Err(e) => {
                    proof {
                        decode::lemma_decode_fault(all, mapping_decoder(), i + 1);
                    }
                    return Err(e);
                },
            }
            i = i + 1;
        }
        assert(all.take(items@.len() as int) =~= all);
        Ok(RuntimeConfig { port_mappings: out })
    }
}

fn take_previous(o: Option<&Value>) -> (r: Result<Option<CniResult>, DecodeError>)
    ensures
        decode::outcome(r, |x: Option<CniResult>| opt_result(x)) == previous_of(
            decode::opt_view(o),
        ),
{
    match o {
        None => Ok(None),
        Some(v) => if v.is_null() {
            Ok(None)
        } else {
            let r = CniResult::decode(v)?;
            Ok(Some(r))
        },
    }
}

impl PortmapConf {
    /// Decodes a configuration.
    pub fn decode(v: &Value) -> (r: Result<PortmapConf, DecodeError>)
        ensures
            decode::outcome(r, |x: PortmapConf| x@) == conf_of(json::json_view(*v)),
    {
        if !decode::record(v, 0, 3) {
            return Err(DecodeError::Invalid("PortmapConf".to_owned()));
        }
        let cni_version = decode::take_text_or(
            decode::field1(v, "cniVersion", 0)?,
            "cniVersion",
            "",
        )?;
        let prev_result = take_previous(decode::field1(v, "prevResult", 1)?)?;
        let runtime_config = RuntimeConfig::decode(decode::field1(v, "runtimeConfig", 2)?)?;
        Ok(PortmapConf { cni_version, prev_result, runtime_config })
    }

    /// Reads a configuration from JSON text.
    pub fn parse(s: &str) -> (r: Result<PortmapConf, DecodeError>)
        ensures
            decode::outcome(r, |x: PortmapConf| x@) == conf(s@),
    {
        let v = decode::read_document(s)?;
        PortmapConf::decode(&v)
    }
}

/// The first of the addresses that is an IPv4 one.
pub open spec fn first_ipv4(ips: Seq<result::IpView>) -> Option<u32>
    decreases ips.len(),
{
    if ips.len() == 0 {
        None
    } else {
        match ipv4::cidr_read(ips[0].address) {
            Ok(n) => Some(n.0),
            Err(_) => first_ipv4(ips.skip(1)),
        }
    }
}

/// The first IPv4 address of a result.
pub fn pod_ipv4(result: &CniResult) -> (r: Option<u32>)
    ensures
        r == first_ipv4(result@.ips),
{
    let ghost ips = result@.ips;
    let mut i: usize = 0;
    assert(ips.skip(0) =~= ips);
    while i < result.ips.len()
        invariant
            i <= result.ips@.len(),
            ips == result@.ips,
            first_ipv4(ips) == first_ipv4(ips.skip(i as int)),
        decreases result.ips@.len() - i,
    {
        assert(ips.skip(i as int)[0] == result.ips@[i as int]@);
        assert(ips.skip(i as int).skip(1) =~= ips.skip(i + 1));
        if let Ok(net) = Ipv4Net::parse(result.ips[i].address.as_str()) {
            return Some(net.ip());
        }
        i = i + 1;
    }
    None
}

} // verus!
