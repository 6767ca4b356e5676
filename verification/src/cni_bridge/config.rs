//! The configuration of the bridge plugin.

use serde_json::Value;
use vstd::prelude::*;
use vstd::string::*;

use crate::decode;
use crate::decode::DecodeError;
use crate::json;

verus! {

/// The configuration on standard input. The bridge is named by its own field
/// or by the name of the network.
#[derive(Debug)]
pub struct BridgeConf {
    pub cni_version: String,
    pub bridge: String,
    pub is_gateway: bool,
    pub is_default_gateway: bool,
    pub hairpin_mode: bool,
    pub mtu: Option<u32>,
    pub ipam: Ipam,
}

/// The plugin that manages the addresses.
#[derive(Debug)]
pub struct Ipam {
    pub kind: String,
}

/// The model of `BridgeConf`.
pub struct ConfView {
    pub cni_version: Seq<char>,
    pub bridge: Seq<char>,
    pub is_gateway: bool,
    pub is_default_gateway: bool,
    pub hairpin_mode: bool,
    pub mtu: Option<u32>,
    pub ipam: Seq<char>,
}

impl View for BridgeConf {
    type V = ConfView;

    open spec fn view(&self) -> ConfView {
        ConfView {
            cni_version: self.cni_version@,
            bridge: self.bridge@,
            is_gateway: self.is_gateway,
            is_default_gateway: self.is_default_gateway,
            hairpin_mode: self.hairpin_mode,
            mtu: self.mtu,
            ipam: self.ipam.kind@,
        }
    }
}

/// The plugin that a value names.
pub open spec fn ipam_of(j: json::Json) -> Result<Seq<char>, decode::Fault> {
    if !decode::is_record(j, 0, 1) {
        Err(decode::Fault::Invalid("Ipam"@))
    } else {
        match decode::field(j, seq!["type"@], 0) {
            Err(f) => Err(f),
            Ok(kind) => decode::required_text(kind, "type"@),
        }
    }
}

/// The configuration that a value stands for.
pub open spec fn conf_of(j: json::Json) -> Result<ConfView, decode::Fault> {
    if !decode::is_record(j, 0, 7) {
        Err(decode::Fault::Invalid("BridgeConf"@))
    } else {
        match decode::field(j, seq!["cniVersion"@], 0) {
            Err(f) => Err(f),
            Ok(version) => match decode::text_or(version, "cniVersion"@, ""@) {
                Err(f) => Err(f),
                Ok(cni_version) => match decode::field(j, seq!["bridge"@, "name"@], 1) {
                    Err(f) => Err(f),
                    Ok(bridge) => match decode::text_or(bridge, "bridge"@, "cni0"@) {
                        Err(f) => Err(f),
                        Ok(bridge) => flags_of(j, cni_version, bridge),
                    },
                },
            },
        }
    }
}

/// The configuration that a value stands for, once version and bridge are
/// known.
pub open spec fn flags_of(j: json::Json, cni_version: Seq<char>, bridge: Seq<char>) -> Result<
    ConfView,
    decode::Fault,
> {
    match decode::field(j, seq!["isGateway"@], 2) {
        Err(f) => Err(f),
        Ok(flag) => match decode::bool_or_false(flag, "isGateway"@) {
            Err(f) => Err(f),
            Ok(is_gateway) => match decode::field(j, seq!["isDefaultGateway"@], 3) {
                Err(f) => Err(f),
                Ok(flag) => match decode::bool_or_false(flag, "isDefaultGateway"@) {
                    Err(f) => Err(f),
                    Ok(is_default_gateway) => match decode::field(j, seq!["hairpinMode"@], 4) {
                        Err(f) => Err(f),
                        Ok(flag) => match decode::bool_or_false(flag, "hairpinMode"@) {
                            Err(f) => Err(f),
                            Ok(hairpin_mode) => match decode::field(j, seq!["mtu"@], 5) {
                                Err(f) => Err(f),
                                Ok(mtu) => match decode::optional_u32(mtu, "mtu"@) {
                                    Err(f) => Err(f),
                                    Ok(mtu) => match decode::field(j, seq!["ipam"@], 6) {
                                        Err(f) => Err(f),
                                        Ok(None) => Err(decode::Fault::Missing("ipam"@)),
                                        Ok(Some(ipam)) => match ipam_of(ipam) {
                                            Err(f) => Err(f),
                                            Ok(ipam) => Ok(
                                                ConfView {
                                                    cni_version,
                                                    bridge,
                                                    is_gateway,
                                                    is_default_gateway,
                                                    hairpin_mode,
                                                    mtu,
                                                    ipam,
                                                },
                                            ),
                                        },
                                    },
                                },
                            },
                        },
                    },
                },
            },
        },
    }
}

/// The configuration that a JSON text stands for.
pub open spec fn conf(s: Seq<char>) -> Result<ConfView, decode::Fault> {
    match decode::document(s) {
        Err(f) => Err(f),
        Ok(j) => conf_of(j),
    }
}

impl Ipam {
    fn decode(v: &Value) -> (r: Result<Ipam, DecodeError>)
        ensures
            decode::outcome(r, |x: Ipam| x.kind@) == ipam_of(json::json_view(*v)),
    {
        if !decode::record(v, 0, 1) {
            return Err(DecodeError::Invalid("Ipam".to_owned()));
        }
        let kind = decode::take_text(decode::field1(v, "type", 0)?, "type")?;
        Ok(Ipam { kind })
    }
}

impl BridgeConf {
    /// Decodes a configuration.
    pub fn decode(v: &Value) -> (r: Result<BridgeConf, DecodeError>)
        ensures
            decode::outcome(r, |x: BridgeConf| x@) == conf_of(json::json_view(*v)),
    {
        if !decode::record(v, 0, 7) {
            return Err(DecodeError::Invalid("BridgeConf".to_owned()));
        }
        let cni_version = decode::take_text_or(
            decode::field1(v, "cniVersion", 0)?,
            "cniVersion",
            "",
        )?;
        let bridge = decode::take_text_or(
            decode::field2(v, "bridge", "name", 1)?,
            "bridge",
            "cni0",
        )?;
        let is_gateway = decode::take_bool(decode::field1(v, "isGateway", 2)?, "isGateway")?;
        let is_default_gateway = decode::take_bool(
            decode::field1(v, "isDefaultGateway", 3)?,
            "isDefaultGateway",
        )?;
        let hairpin_mode = decode::take_bool(decode::field1(v, "hairpinMode", 4)?, "hairpinMode")?;
        let mtu = decode::take_optional_u32(decode::field1(v, "mtu", 5)?, "mtu")?;
        match decode::field1(v, "ipam", 6)? {
            None => Err(DecodeError::Missing("ipam".to_owned())),
            Some(ipam) => {
                let ipam = Ipam::decode(ipam)?;
                Ok(
                    BridgeConf {
                        cni_version,
                        bridge,
                        is_gateway,
                        is_default_gateway,
                        hairpin_mode,
                        mtu,
                        ipam,
                    },
                )
            },
        }
    }

    /// Reads a configuration from JSON text.
    pub fn parse(s: &str) -> (r: Result<BridgeConf, DecodeError>)
        ensures
            decode::outcome(r, |x: BridgeConf| x@) == conf(s@),
    {
        let v = decode::read_document(s)?;
        BridgeConf::decode(&v)
    }
}

} // verus!
