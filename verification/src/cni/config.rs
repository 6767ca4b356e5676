//! The network configuration that an IPAM plugin reads on its standard input.

use serde_json::Value;
use vstd::prelude::*;
use vstd::string::*;

use crate::cni::dns;
use crate::cni::dns::Dns;
use crate::decode;
use crate::decode::DecodeError;
use crate::json;
use crate::text;

verus! {

/// Top-level network configuration.
#[derive(Debug)]
pub struct NetConf {
    pub cni_version: String,
    pub name: String,
    pub ipam: IpamConfig,
    pub dns: Option<Dns>,
}

/// The part of the configuration that concerns address management.
#[derive(Debug)]
pub struct IpamConfig {
    pub kind: String,
    pub ranges: Vec<Vec<RangeConfig>>,
    pub routes: Vec<Route>,
    pub data_dir: Option<String>,
}

/// A range of addresses to allocate from.
#[derive(Debug)]
pub struct RangeConfig {
    pub subnet: String,
    pub gateway: Option<String>,
}

/// A route of the container.
#[derive(Debug)]
pub struct Route {
    pub dst: String,
    pub gw: Option<String>,
}

// ---------------------------------------------------------------------------
// Models
// ---------------------------------------------------------------------------

/// The model of `NetConf`.
pub struct NetConfView {
    pub cni_version: Seq<char>,
    pub name: Seq<char>,
    pub ipam: IpamView,
    pub dns: Option<dns::DnsView>,
}

/// The model of `IpamConfig`.
pub struct IpamView {
    pub kind: Seq<char>,
    pub ranges: Seq<Seq<RangeView>>,
    pub routes: Seq<RouteView>,
    pub data_dir: Option<Seq<char>>,
}

/// The model of `RangeConfig`.
pub struct RangeView {
    pub subnet: Seq<char>,
    pub gateway: Option<Seq<char>>,
}

/// The model of `Route`.
pub struct RouteView {
    pub dst: Seq<char>,
    pub gw: Option<Seq<char>>,
}

impl View for NetConf {
    type V = NetConfView;

    open spec fn view(&self) -> NetConfView {
        NetConfView {
            cni_version: self.cni_version@,
            name: self.name@,
            ipam: self.ipam@,
            dns: dns::opt_dns(self.dns),
        }
    }
}

impl View for IpamConfig {
    type V = IpamView;

    open spec fn view(&self) -> IpamView {
        IpamView {
            kind: self.kind@,
            ranges: range_sets(self.ranges@),
            routes: route_views(self.routes@),
            data_dir: text::opt_text(self.data_dir),
        }
    }
}

impl View for RangeConfig {
    type V = RangeView;

    open spec fn view(&self) -> RangeView {
        RangeView { subnet: self.subnet@, gateway: text::opt_text(self.gateway) }
    }
}

impl View for Route {
    type V = RouteView;

    open spec fn view(&self) -> RouteView {
        RouteView { dst: self.dst@, gw: text::opt_text(self.gw) }
    }
}

/// The models of routes.
pub open spec fn route_views(v: Seq<Route>) -> Seq<RouteView> {
    v.map_values(|r: Route| r@)
}

/// The models of ranges.
pub open spec fn range_views(v: Seq<RangeConfig>) -> Seq<RangeView> {
    v.map_values(|r: RangeConfig| r@)
}

/// The models of sets of ranges.
pub open spec fn range_sets(v: Seq<Vec<RangeConfig>>) -> Seq<Seq<RangeView>> {
    v.map_values(|r: Vec<RangeConfig>| range_views(r@))
}

// ---------------------------------------------------------------------------
// Decoding
// ---------------------------------------------------------------------------

/// The route that a value stands for.
pub open spec fn route_of(j: json::Json) -> Result<RouteView, decode::Fault> {
    if !decode::is_record(j, 0, 2) {
        Err(decode::Fault::Invalid("Route"@))
    } else {
        match decode::field(j, seq!["dst"@], 0) {
            Err(f) => Err(f),
            Ok(dst) => match decode::required_text(dst, "dst"@) {
                Err(f) => Err(f),
                Ok(dst) => match decode::field(j, seq!["gw"@], 1) {
                    Err(f) => Err(f),
                    Ok(gw) => match decode::optional_text(gw, "gw"@) {
                        Err(f) => Err(f),
                        Ok(gw) => Ok(RouteView { dst, gw }),
                    },
                },
            },
        }
    }
}

/// The decoder of routes.
pub open spec fn route_decoder() -> spec_fn(json::Json) -> Result<RouteView, decode::Fault> {
    |j: json::Json| route_of(j)
}

/// The range that a value stands for.
pub open spec fn range_of(j: json::Json) -> Result<RangeView, decode::Fault> {
    if !decode::is_record(j, 0, 2) {
        Err(decode::Fault::Invalid("RangeConfig"@))
    } else {
        match decode::field(j, seq!["subnet"@], 0) {
            Err(f) => Err(f),
            Ok(subnet) => match decode::required_text(subnet, "subnet"@) {
                Err(f) => Err(f),
                Ok(subnet) => match decode::field(j, seq!["gateway"@], 1) {
                    Err(f) => Err(f),
                    Ok(gateway) => match decode::optional_text(gateway, "gateway"@) {
                        Err(f) => Err(f),
                        Ok(gateway) => Ok(RangeView { subnet, gateway }),
                    },
                },
            },
        }
    }
}

/// The decoder of ranges.
pub open spec fn range_decoder() -> spec_fn(json::Json) -> Result<RangeView, decode::Fault> {
    |j: json::Json| range_of(j)
}

/// The set of ranges that a value stands for.
pub open spec fn range_set_of(j: json::Json) -> Result<Seq<RangeView>, decode::Fault> {
    match decode::required_list(Some(j), "ranges"@) {
        Err(f) => Err(f),
        Ok(items) => decode::decode_all(items, range_decoder()),
    }
}

/// The decoder of sets of ranges.
pub open spec fn range_set_decoder() -> spec_fn(json::Json) -> Result<
    Seq<RangeView>,
    decode::Fault,
> {
    |j: json::Json| range_set_of(j)
}

/// The routes that a field stands for: none where it is absent.
pub open spec fn routes_of(o: Option<json::Json>) -> Result<Seq<RouteView>, decode::Fault> {
    match decode::list_or_empty(o, "routes"@) {
        Err(f) => Err(f),
        Ok(items) => decode::decode_all(items, route_decoder()),
    }
}

/// The sets of ranges that a field stands for: none where it is absent.
pub open spec fn ranges_of(o: Option<json::Json>) -> Result<Seq<Seq<RangeView>>, decode::Fault> {
    match decode::list_or_empty(o, "ranges"@) {
        Err(f) => Err(f),
        Ok(items) => decode::decode_all(items, range_set_decoder()),
    }
}

/// The IPAM configuration that a value stands for.
pub open spec fn ipam_of(j: json::Json) -> Result<IpamView, decode::Fault> {
    if !decode::is_record(j, 0, 4) {
        Err(decode::Fault::Invalid("IpamConfig"@))
    } else {
        match decode::field(j, seq!["type"@], 0) {
            Err(f) => Err(f),
            Ok(kind) => match decode::text_or(kind, "type"@, ""@) {
                Err(f) => Err(f),
                Ok(kind) => match decode::field(j, seq!["ranges"@], 1) {
                    Err(f) => Err(f),
                    Ok(ranges) => match ranges_of(ranges) {
                        Err(f) => Err(f),
                        Ok(ranges) => match decode::field(j, seq!["routes"@], 2) {
                            Err(f) => Err(f),
                            Ok(routes) => match routes_of(routes) {
                                Err(f) => Err(f),
                                Ok(routes) => match decode::field(j, seq!["dataDir"@], 3) {
                                    Err(f) => Err(f),
                                    Ok(dir) => match decode::optional_text(dir, "dataDir"@) {
                                        Err(f) => Err(f),
                                        Ok(data_dir) => Ok(
                                            IpamView { kind, ranges, routes, data_dir },
                                        ),
                                    },
                                },
                            },
                        },
                    },
                },
            },
        }
    }
}

/// The network configuration that a value stands for.
pub open spec fn net_conf_of(j: json::Json) -> Result<NetConfView, decode::Fault> {
    if !decode::is_record(j, 0, 4) {
        Err(decode::Fault::Invalid("NetConf"@))
    } else {
        match decode::field(j, seq!["cniVersion"@], 0) {
            Err(f) => Err(f),
            Ok(version) => match decode::text_or(version, "cniVersion"@, ""@) {
                Err(f) => Err(f),
                Ok(cni_version) => match decode::field(j, seq!["name"@], 1) {
                    Err(f) => Err(f),
                    Ok(name) => match decode::text_or(name, "name"@, ""@) {
                        Err(f) => Err(f),
                        Ok(name) => match decode::field(j, seq!["ipam"@], 2) {
                            Err(f) => Err(f),
                            Ok(None) => Err(decode::Fault::Missing("ipam"@)),
                            Ok(Some(ipam)) => match ipam_of(ipam) {
                                Err(f) => Err(f),
                                Ok(ipam) => match decode::field(j, seq!["dns"@], 3) {
                                    Err(f) => Err(f),
                                    Ok(dns) => match dns::opt_dns_of(dns) {
                                        Err(f) => Err(f),
                                        Ok(dns) => Ok(
                                            NetConfView { cni_version, name, ipam, dns },
                                        ),
                                    },
                                },
                            },
                        },
                    },
                },
            },
        }
    }
}

/// The network configuration that a JSON text stands for.
pub open spec fn net_conf(s: Seq<char>) -> Result<NetConfView, decode::Fault> {
    match decode::document(s) {
        Err(f) => Err(f),
        Ok(j) => net_conf_of(j),
    }
}

impl Clone for Route {
    fn clone(&self) -> (r: Route)
        ensures
            r@ == self@,
    {
        Route { dst: self.dst.clone(), gw: text::copy_opt(&self.gw) }
    }
}

impl Clone for RangeConfig {
    fn clone(&self) -> (r: RangeConfig)
        ensures
            r@ == self@,
    {
        RangeConfig { subnet: self.subnet.clone(), gateway: text::copy_opt(&self.gateway) }
    }
}

/// A copy of a list of routes.
pub fn copy_routes(v: &Vec<Route>) -> (r: Vec<Route>)
    ensures
        route_views(r@) == route_views(v@),
{
    let mut r: Vec<Route> = Vec::new();
    let mut i: usize = 0;
    while i < v.len()
        invariant
            i <= v@.len(),
            route_views(r@) == route_views(v@).take(i as int),
        decreases v@.len() - i,
    {
        let ghost before = route_views(r@);
        let one: Route = v[i].clone();
        r.push(one);
        assert(route_views(r@) =~= before.push(v@[i as int]@));
        i = i + 1;
        assert(route_views(r@) =~= route_views(v@).take(i as int));
    }
    assert(route_views(v@).take(v@.len() as int) =~= route_views(v@));
    r
}

impl Route {
    /// Decodes a route.
    pub fn decode(v: &Value) -> (r: Result<Route, DecodeError>)
        ensures
            decode::outcome(r, |x: Route| x@) == route_of(json::json_view(*v)),
    {
        if !decode::record(v, 0, 2) {
            return Err(DecodeError::Invalid("Route".to_owned()));
        }
        let dst = decode::take_text(decode::field1(v, "dst", 0)?, "dst")?;
        let gw = decode::take_optional_text(decode::field1(v, "gw", 1)?, "gw")?;
        Ok(Route { dst, gw })
    }
}

impl RangeConfig {
    /// Decodes a range.
    pub fn decode(v: &Value) -> (r: Result<RangeConfig, DecodeError>)
        ensures
            decode::outcome(r, |x: RangeConfig| x@) == range_of(json::json_view(*v)),
    {
        if !decode::record(v, 0, 2) {
            return Err(DecodeError::Invalid("RangeConfig".to_owned()));
        }
        let subnet = decode::take_text(decode::field1(v, "subnet", 0)?, "subnet")?;
        let gateway = decode::take_optional_text(decode::field1(v, "gateway", 1)?, "gateway")?;
        Ok(RangeConfig { subnet, gateway })
    }
}

/// Decodes routes.
pub fn decode_routes(items: &Vec<Value>) -> (r: Result<Vec<Route>, DecodeError>)
    ensures
        decode::outcome(r, |x: Vec<Route>| route_views(x@)) == decode::decode_all(
            json::views(items@),
            route_decoder(),
        ),
{
    let mut out: Vec<Route> = Vec::new();
    let mut i: usize = 0;
    let ghost all = json::views(items@);
    assert(all.take(0) =~= Seq::<json::Json>::empty());
    assert(route_views(out@) =~= Seq::<RouteView>::empty());
    while i < items.len()
        invariant
            i <= items@.len(),
            all == json::views(items@),
            decode::decode_all(all.take(i as int), route_decoder()) == Ok::<
                Seq<RouteView>,
                decode::Fault,
            >(route_views(out@)),
        decreases items@.len() - i,
    {
        proof {
            decode::lemma_decode_next(all, route_decoder(), i as int);
        }
        match Route::decode(&items[i]) {
            Ok(x) => {
                let ghost before = route_views(out@);
                out.push(x);
                assert(route_views(out@) =~= before.push(x@));
            },
            Err(e) => {
                proof {
                    decode::lemma_decode_fault(all, route_decoder(), i + 1);
                }
                return Err(e);
            },
        }
        i = i + 1;
    }
    assert(all.take(items@.len() as int) =~= all);
    Ok(out)
}

/// Decodes a set of ranges.
pub fn decode_range_set(v: &Value) -> (r: Result<Vec<RangeConfig>, DecodeError>)
    ensures
        decode::outcome(r, |x: Vec<RangeConfig>| range_views(x@)) == range_set_of(
            json::json_view(*v),
        ),
{
    let items = decode::take_list(Some(v), "ranges")?;
    let mut out: Vec<RangeConfig> = Vec::new();
    let mut i: usize = 0;
    let ghost all = json::views(items@);
    assert(all.take(0) =~= Seq::<json::Json>::empty());
    assert(range_views(out@) =~= Seq::<RangeView>::empty());
    while i < items.len()
        invariant
            i <= items@.len(),
            all == json::views(items@),
            range_set_of(json::json_view(*v)) == decode::decode_all(all, range_decoder()),
            decode::decode_all(all.take(i as int), range_decoder()) == Ok::<
                Seq<RangeView>,
                decode::Fault,
            >(range_views(out@)),
        decreases items@.len() - i,
    {
        proof {
            decode::lemma_decode_next(all, range_decoder(), i as int);
        }
        match RangeConfig::decode(&items[i]) {
            Ok(x) => {
                let ghost before = range_views(out@);
                out.push(x);
                assert(range_views(out@) =~= before.push(x@));
            },
            Err(e) => {
                proof {
                    decode::lemma_decode_fault(all, range_decoder(), i + 1);
                }
                return Err(e);
            },
        }
        i = i + 1;
    }
    assert(all.take(items@.len() as int) =~= all);
    Ok(out)
}

/// Decodes sets of ranges.
pub fn decode_ranges(items: &Vec<Value>) -> (r: Result<Vec<Vec<RangeConfig>>, DecodeError>)
    ensures
        decode::outcome(r, |x: Vec<Vec<RangeConfig>>| range_sets(x@)) == decode::decode_all(
            json::views(items@),
            range_set_decoder(),
        ),
{
    let mut out: Vec<Vec<RangeConfig>> = Vec::new();
    let mut i: usize = 0;
    let ghost all = json::views(items@);
    assert(all.take(0) =~= Seq::<json::Json>::empty());
    assert(range_sets(out@) =~= Seq::<Seq<RangeView>>::empty());
    while i < items.len()
        invariant
            i <= items@.len(),
            all == json::views(items@),
            decode::decode_all(all.take(i as int), range_set_decoder()) == Ok::<
                Seq<Seq<RangeView>>,
                decode::Fault,
            >(range_sets(out@)),
        decreases items@.len() - i,
    {
        proof {
            decode::lemma_decode_next(all, range_set_decoder(), i as int);
        }
        match decode_range_set(&items[i]) {
            Ok(x) => {
                let ghost before = range_sets(out@);
                out.push(x);
                assert(range_sets(out@) =~= before.push(range_views(x@)));
            },
            Err(e) => {
                proof {
                    decode::lemma_decode_fault(all, range_set_decoder(), i + 1);
                }
                return Err(e);
            },
        }
        i = i + 1;
    }
    assert(all.take(items@.len() as int) =~= all);
    Ok(out)
}

/// Decodes a field of routes.
pub fn take_routes(o: Option<&Value>) -> (r: Result<Vec<Route>, DecodeError>)
    ensures
        decode::outcome(r, |x: Vec<Route>| route_views(x@)) == routes_of(decode::opt_view(o)),
{
    if o.is_none() {
        let none: Vec<Route> = Vec::new();
        assert(route_views(none@) =~= Seq::<RouteView>::empty());
        return Ok(none);
    }
    decode_routes(decode::take_list(o, "routes")?)
}

/// Decodes a field of ranges.
pub fn take_ranges(o: Option<&Value>) -> (r: Result<Vec<Vec<RangeConfig>>, DecodeError>)
    ensures
        decode::outcome(r, |x: Vec<Vec<RangeConfig>>| range_sets(x@)) == ranges_of(
            decode::opt_view(o),
        ),
{
    if o.is_none() {
        let none: Vec<Vec<RangeConfig>> = Vec::new();
        assert(range_sets(none@) =~= Seq::<Seq<RangeView>>::empty());
        return Ok(none);
    }
    decode_ranges(decode::take_list(o, "ranges")?)
}

impl IpamConfig {
    /// Decodes an IPAM configuration.
    pub fn decode(v: &Value) -> (r: Result<IpamConfig, DecodeError>)
        ensures
            decode::outcome(r, |x: IpamConfig| x@) == ipam_of(json::json_view(*v)),
    {
        if !decode::record(v, 0, 4) {
            return Err(DecodeError::Invalid("IpamConfig".to_owned()));
        }
        let kind = decode::take_text_or(decode::field1(v, "type", 0)?, "type", "")?;
        let ranges = take_ranges(decode::field1(v, "ranges", 1)?)?;
        let routes = take_routes(decode::field1(v, "routes", 2)?)?;
        let data_dir = decode::take_optional_text(decode::field1(v, "dataDir", 3)?, "dataDir")?;
        Ok(IpamConfig { kind, ranges, routes, data_dir })
    }
}

impl NetConf {
    /// Decodes a network configuration.
    pub fn decode(v: &Value) -> (r: Result<NetConf, DecodeError>)
        ensures
            decode::outcome(r, |x: NetConf| x@) == net_conf_of(json::json_view(*v)),
    {
        if !decode::record(v, 0, 4) {
            return Err(DecodeError::Invalid("NetConf".to_owned()));
        }
        let cni_version = decode::take_text_or(
            decode::field1(v, "cniVersion", 0)?,
            "cniVersion",
            "",
        )?;
        let name = decode::take_text_or(decode::field1(v, "name", 1)?, "name", "")?;
        match decode::field1(v, "ipam", 2)? {
            None => Err(DecodeError::Missing("ipam".to_owned())),
            Some(ipam) => {
                let ipam = IpamConfig::decode(ipam)?;
                let dns = dns::take_dns(decode::field1(v, "dns", 3)?)?;
                Ok(NetConf { cni_version, name, ipam, dns })
            },
        }
    }

    /// Reads a network configuration from JSON text.
    pub fn parse(s: &str) -> (r: Result<NetConf, DecodeError>)
        ensures
            decode::outcome(r, |x: NetConf| x@) == net_conf(s@),
    {
        let v = decode::read_document(s)?;
        NetConf::decode(&v)
    }
}

} // verus!
