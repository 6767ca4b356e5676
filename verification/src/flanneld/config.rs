//! The configuration of the network.

use serde_json::Value;
use vstd::prelude::*;
use vstd::string::*;

use crate::decode;
use crate::decode::DecodeError;
use crate::ipv4;
use crate::ipv4::Ipv4Net;
use crate::json;
use crate::netlink;
use crate::text;

verus! {

/// The configuration of the network: its addresses and its backend.
#[derive(Debug, PartialEq)]
pub struct NetConf {
    pub network: String,
    pub backend: Backend,
}

/// The backend by its name.
#[derive(Debug, PartialEq)]
pub struct Backend {
    pub kind: String,
}

/// The backends that are supported.
#[derive(Debug, Clone, Copy, PartialEq, Eq, Structural)]
pub enum BackendType {
    /// Nodes exchange packets through an overlay.
    Vxlan,
    /// Nodes route to each other directly.
    HostGw,
}

/// The model of `NetConf`.
pub struct ConfView {
    pub network: Seq<char>,
    pub kind: Seq<char>,
}

impl View for NetConf {
    type V = ConfView;

    open spec fn view(&self) -> ConfView {
        ConfView { network: self.network@, kind: self.backend.kind@ }
    }
}

/// The backend that a value stands for.
pub open spec fn backend_of(j: json::Json) -> Result<Seq<char>, decode::Fault> {
    if !decode::is_record(j, 0, 1) {
        Err(decode::Fault::Invalid("Backend"@))
    } else {
        match decode::field(j, seq!["Type"@], 0) {
            Err(f) => Err(f),
            Ok(kind) => decode::required_text(kind, "Type"@),
        }
    }
}

/// The configuration that a value stands for. Other fields are ignored.
pub open spec fn conf_of(j: json::Json) -> Result<ConfView, decode::Fault> {
    if !decode::is_record(j, 0, 2) {
        Err(decode::Fault::Invalid("NetConf"@))
    } else {
        match decode::field(j, seq!["Network"@], 0) {
            Err(f) => Err(f),
            Ok(network) => match decode::required_text(network, "Network"@) {
                Err(f) => Err(f),
                Ok(network) => match decode::field(j, seq!["Backend"@], 1) {
                    Err(f) => Err(f),
                    Ok(None) => Err(decode::Fault::Missing("Backend"@)),
                    Ok(Some(backend)) => match backend_of(backend) {
                        Err(f) => Err(f),
                        Ok(kind) => Ok(ConfView { network, kind }),
                    },
                },
            },
        }
    }
}

/// A configuration whose network is written as one; otherwise the wording of
/// what is wrong with it.
pub open spec fn checked(c: ConfView) -> Result<ConfView, Seq<char>> {
    match ipv4::cidr_read(c.network) {
        Ok(_) => Ok(c),
        Err(e) => Err("invalid Network CIDR '"@ + c.network + "': "@ + e),
    }
}

/// The configuration that a JSON text stands for, or the wording of what is
/// wrong with it.
pub open spec fn conf(s: Seq<char>) -> Result<ConfView, Seq<char>> {
    match decode::document(s) {
        Err(f) => Err(decode::fault_text(f)),
        Ok(j) => match conf_of(j) {
            Err(f) => Err(decode::fault_text(f)),
            Ok(c) => checked(c),
        },
    }
}

impl NetConf {
    /// Decodes a configuration.
    pub fn decode(v: &Value) -> (r: Result<NetConf, DecodeError>)
        ensures
            decode::outcome(r, |c: NetConf| c@) == conf_of(json::json_view(*v)),
    {
        if !decode::record(v, 0, 2) {
            return Err(DecodeError::Invalid("NetConf".to_owned()));
        }
        let network = decode::take_text(decode::field1(v, "Network", 0)?, "Network")?;
        match decode::field1(v, "Backend", 1)? {
            None => Err(DecodeError::Missing("Backend".to_owned())),
            Some(b) => {
                if !decode::record(b, 0, 1) {
                    return Err(DecodeError::Invalid("Backend".to_owned()));
                }
                let kind = decode::take_text(decode::field1(b, "Type", 0)?, "Type")?;
                Ok(NetConf { network, backend: Backend { kind } })
            },
        }
    }

    /// Checks that the network is written as one. The subnet of a node does
    /// not come from it.
    pub fn check(self) -> (r: Result<NetConf, String>)
        ensures
            netlink::text_result(r, |c: NetConf| c@) == checked(self@),
    {
        let net = Ipv4Net::parse(self.network.as_str());
        match net {
            Ok(_) => Ok(self),
            Err(e) => {
                let mut s = text::join3("invalid Network CIDR '", self.network.as_str(), "': ");
                s.append(e.as_str());
                Err(s)
            },
        }
    }

    /// Reads a configuration from JSON text.
    pub fn parse(s: &str) -> (r: Result<NetConf, String>)
        ensures
            netlink::text_result(r, |c: NetConf| c@) == conf(s@),
    {
        let v = match decode::read_document(s) {
            Ok(v) => v,
            Err(e) => {
                return Err(e.message());
            },
        };
        match NetConf::decode(&v) {
            Ok(c) => c.check(),
            Err(e) => Err(e.message()),
        }
    }
}

/// The backend of a name.
pub open spec fn backend_type(kind: Seq<char>) -> Option<BackendType> {
    if kind == "vxlan"@ {
        Some(BackendType::Vxlan)
    } else if kind == "host-gw"@ {
        Some(BackendType::HostGw)
    } else {
        None
    }
}

/// The name of a backend.
pub open spec fn backend_name(b: BackendType) -> Seq<char> {
    match b {
        BackendType::Vxlan => "vxlan"@,
        BackendType::HostGw => "host-gw"@,
    }
}

impl BackendType {
    /// The backend of a name.
    pub fn parse(kind: &str) -> (r: Option<BackendType>)
        ensures
            r == backend_type(kind@),
    {
        if text::same(kind, "vxlan") {
            Some(BackendType::Vxlan)
        } else if text::same(kind, "host-gw") {
            Some(BackendType::HostGw)
        } else {
            None
        }
    }

    /// The name of the backend.
    pub fn name(&self) -> (s: String)
        ensures
            s@ == backend_name(*self),
    {
        match self {
            BackendType::Vxlan => "vxlan".to_owned(),
            BackendType::HostGw => "host-gw".to_owned(),
        }
    }
}

/// The name of a backend is read as that backend.
pub proof fn law_backend_name_reads_back(b: BackendType)
    ensures
        backend_type(backend_name(b)) == Some(b),
{
    reveal_strlit("vxlan");
    reveal_strlit("host-gw");
    assert("vxlan"@.len() != "host-gw"@.len());
}

/// A configuration is taken only where its network is written as one, and any
/// such configuration is taken.
pub proof fn law_network_is_one(s: Seq<char>, c: ConfView)
    ensures
        conf(s) == Ok::<ConfView, Seq<char>>(c) <==> (decode::document(s) matches Ok(j) && conf_of(j)
            == Ok::<ConfView, decode::Fault>(c) && exists|net: ipv4::NetView| #[trigger]
            ipv4::names(c.network, net)),
{
    if let Ok(n) = ipv4::cidr_read(c.network) {
        assert(ipv4::names(c.network, ipv4::NetView { addr: n.0, prefix: n.1 }));
    }
}

} // verus!
