//! The configuration that is handed to the delegate.

use serde_json::Value;
use vstd::prelude::*;
use vstd::string::*;

use crate::cni::config;
use crate::cni::dns;
use crate::cni_flannel::subnetenv;
use crate::cni_flannel::subnetenv::SubnetEnv;
use crate::decode;
use crate::decode::DecodeError;
use crate::json;
use crate::json::Json;

verus! {

/// The plugin's own configuration.
#[derive(Debug)]
pub struct FlannelConf {
    pub name: String,
    pub cni_version: String,
    pub delegate: serde_json::Map<String, Value>,
}

/// The model of `FlannelConf`.
pub struct ConfView {
    pub name: Seq<char>,
    pub cni_version: Seq<char>,
    pub delegate: Map<Seq<char>, Json>,
}

impl View for FlannelConf {
    type V = ConfView;

    open spec fn view(&self) -> ConfView {
        ConfView {
            name: self.name@,
            cni_version: self.cni_version@,
            delegate: json::members(self.delegate),
        }
    }
}

/// The text of a member, or a default where it is absent or no text.
pub open spec fn text_member(j: Json, key: Seq<char>, default: Seq<char>) -> Seq<char> {
    match json::member_of(j, key) {
        Some(Json::Text(s)) => s,
        _ => default,
    }
}

/// The configuration that a value stands for. Whatever is absent or of
/// another kind has its default.
pub open spec fn conf_of(j: Json) -> ConfView {
    ConfView {
        name: text_member(j, "name"@, ""@),
        cni_version: text_member(j, "cniVersion"@, "0.3.1"@),
        delegate: match json::member_of(j, "delegate"@) {
            Some(Json::Object(m)) => m,
            _ => Map::empty(),
        },
    }
}

/// The configuration that a JSON text stands for.
pub open spec fn conf(s: Seq<char>) -> Result<ConfView, decode::Fault> {
    match decode::document(s) {
        Err(f) => Err(f),
        Ok(j) => Ok(conf_of(j)),
    }
}

fn text_or(v: &Value, key: &str, default: &str) -> (s: String)
    ensures
        s@ == text_member(json::json_view(*v), key@, default@),
{
    match json::member(v, key) {
        Some(x) => match x.as_str() {
            Some(s) => s.to_owned(),
            None => default.to_owned(),
        },
        None => default.to_owned(),
    }
}

impl FlannelConf {
    /// Reads the configuration from JSON text.
    pub fn parse(s: &str) -> (r: Result<FlannelConf, DecodeError>)
        ensures
            decode::outcome(r, |c: FlannelConf| c@) == conf(s@),
    {
        let v = decode::read_document(s)?;
        let name = text_or(&v, "name", "");
        let cni_version = text_or(&v, "cniVersion", "0.3.1");
        let delegate = match json::member(&v, "delegate") {
            Some(d) => match d.as_object() {
                Some(m) => m.clone(),
                None => serde_json::Map::new(),
            },
            None => serde_json::Map::new(),
        };
        Ok(FlannelConf { name, cni_version, delegate })
    }
}

/// The members of a one-member object.
pub open spec fn only(key: Seq<char>, value: Json) -> Map<Seq<char>, Json> {
    Map::empty().insert(key, value)
}

/// The IPAM configuration for a subnet: host-local, with the subnet as its
/// only range and a route to the whole network.
pub open spec fn ipam_json(env: subnetenv::EnvView) -> Json {
    Json::Object(
        Map::empty().insert("type"@, Json::Text("host-local"@)).insert(
            "ranges"@,
            Json::Array(
                seq![Json::Array(seq![Json::Object(only("subnet"@, Json::Text(env.subnet)))])],
            ),
        ).insert(
            "routes"@,
            Json::Array(seq![Json::Object(only("dst"@, Json::Text(env.network)))]),
        ),
    )
}

/// `m` with a member where it has none of that name.
pub open spec fn filled(m: Map<Seq<char>, Json>, key: Seq<char>, value: Json) -> Map<
    Seq<char>,
    Json,
> {
    if m.contains_key(key) {
        m
    } else {
        m.insert(key, value)
    }
}

/// The delegate's configuration: the user's, with what the user did not set
/// filled in, and always with the IPAM configuration of the subnet.
pub open spec fn delegate_members(c: ConfView, env: subnetenv::EnvView) -> Map<Seq<char>, Json> {
    let named = filled(
        filled(c.delegate, "name"@, Json::Text(c.name)),
        "cniVersion"@,
        Json::Text(c.cni_version),
    );
    let typed = filled(named, "type"@, Json::Text("bridge"@));
    let masqueraded = filled(typed, "ipMasq"@, Json::Bool(!env.ipmasq));
    let sized = filled(masqueraded, "mtu"@, Json::Unsigned(env.mtu as u64));
    let gated = if sized["type"@] == Json::Text("bridge"@) {
        filled(sized, "isGateway"@, Json::Bool(true))
    } else {
        sized
    };
    gated.insert("ipam"@, ipam_json(env))
}

fn one_member(key: &str, value: Value) -> (v: Value)
    ensures
        json::json_view(v) == Json::Object(only(key@, json::json_view(value))),
{
    let mut m: serde_json::Map<String, Value> = serde_json::Map::new();
    m.insert(key.to_owned(), value);
    json::object_value(m)
}

fn one_item(value: Value) -> (v: Value)
    ensures
        json::json_view(v) == Json::Array(seq![json::json_view(value)]),
{
    let items = vec![value];
    assert(json::views(items@) =~= seq![json::json_view(value)]);
    json::list_value(items)
}

fn ipam_value(env: &SubnetEnv) -> (v: Value)
    ensures
        json::json_view(v) == ipam_json(env@),
{
    let mut m: serde_json::Map<String, Value> = serde_json::Map::new();
    m.insert("type".to_owned(), json::text_value("host-local".to_owned()));
    m.insert(
        "ranges".to_owned(),
        one_item(one_item(one_member("subnet", json::text_value(env.subnet.clone())))),
    );
    m.insert(
        "routes".to_owned(),
        one_item(one_member("dst", json::text_value(env.network.clone()))),
    );
    json::object_value(m)
}

/// Fills in what the user did not set, and sets the IPAM configuration.
pub fn build_delegate(conf: &FlannelConf, env: &SubnetEnv) -> (v: Value)
    ensures
        json::json_view(v) == Json::Object(delegate_members(conf@, env@)),
{
    let mut d = conf.delegate.clone();
    if !json::has_member(&d, "name") {
        d.insert("name".to_owned(), json::text_value(conf.name.clone()));
    }
    if !json::has_member(&d, "cniVersion") {
        d.insert("cniVersion".to_owned(), json::text_value(conf.cni_version.clone()));
    }
    if !json::has_member(&d, "type") {
        d.insert("type".to_owned(), json::text_value("bridge".to_owned()));
    }
    if !json::has_member(&d, "ipMasq") {
        d.insert("ipMasq".to_owned(), json::bool_value(!env.ipmasq));
    }
    if !json::has_member(&d, "mtu") {
        d.insert("mtu".to_owned(), json::number_value(env.mtu));
    }
    proof {
        lemma_names_differ();
    }
    if is_bridge(&d) && !json::has_member(&d, "isGateway") {
        d.insert("isGateway".to_owned(), json::bool_value(true));
    }
    d.insert("ipam".to_owned(), ipam_value(env));
    json::object_value(d)
}

fn is_bridge(d: &serde_json::Map<String, Value>) -> (r: bool)
    ensures
        r == (json::members(*d).contains_key("type"@) && json::members(*d)["type"@] == Json::Text(
            "bridge"@,
        )),
{
    match json::get_member(d, "type") {
        Some(t) => match t.as_str() {
            Some(s) => crate::text::same(s, "bridge"),
            None => false,
        },
        None => false,
    }
}

/// The names of the members that are filled in or set all differ.
pub proof fn lemma_names_differ()
    ensures
        "type"@ != "ipMasq"@,
        "type"@ != "mtu"@,
        "type"@ != "name"@,
        "type"@ != "cniVersion"@,
        "type"@ != "isGateway"@,
        "type"@ != "ipam"@,
        "name"@ != "cniVersion"@,
        "name"@ != "ipMasq"@,
        "name"@ != "mtu"@,
        "name"@ != "isGateway"@,
        "name"@ != "ipam"@,
        "cniVersion"@ != "ipMasq"@,
        "cniVersion"@ != "mtu"@,
        "cniVersion"@ != "isGateway"@,
        "cniVersion"@ != "ipam"@,
        "ipMasq"@ != "mtu"@,
        "ipMasq"@ != "isGateway"@,
        "ipMasq"@ != "ipam"@,
        "mtu"@ != "isGateway"@,
        "mtu"@ != "ipam"@,
        "isGateway"@ != "ipam"@,
        "type"@ != "ranges"@,
        "type"@ != "routes"@,
        "type"@ != "dataDir"@,
        "ranges"@ != "routes"@,
        "ranges"@ != "dataDir"@,
        "routes"@ != "dataDir"@,
        "subnet"@ != "gateway"@,
        "dst"@ != "gw"@,
        "dns"@ != "type"@,
        "dns"@ != "ipMasq"@,
        "dns"@ != "mtu"@,
        "dns"@ != "name"@,
        "dns"@ != "cniVersion"@,
        "dns"@ != "isGateway"@,
        "dns"@ != "ipam"@,
{
    reveal_strlit("type");
    reveal_strlit("ipMasq");
    reveal_strlit("mtu");
    reveal_strlit("name");
    reveal_strlit("cniVersion");
    reveal_strlit("isGateway");
    reveal_strlit("ipam");
    reveal_strlit("ranges");
    reveal_strlit("routes");
    reveal_strlit("dataDir");
    reveal_strlit("subnet");
    reveal_strlit("gateway");
    reveal_strlit("dst");
    reveal_strlit("gw");
    reveal_strlit("dns");
    assert("type"@[0] == 't' && "mtu"@[0] == 'm' && "name"@[0] == 'n' && "cniVersion"@[0] == 'c');
    assert("ipMasq"@[2] == 'M' && "isGateway"@[2] == 'G' && "ipam"@[2] == 'a');
    assert("ipMasq"@[0] == 'i' && "isGateway"@[0] == 'i' && "ipam"@[0] == 'i');
    assert("ranges"@[1] == 'a' && "routes"@[1] == 'o' && "dataDir"@[0] == 'd');
    assert("ranges"@[0] == 'r' && "routes"@[0] == 'r');
    assert("subnet"@[0] == 's' && "gateway"@[0] == 'g' && "dst"@[0] == 'd' && "gw"@[0] == 'g');
    assert("dns"@[0] == 'd');
}

// ---------------------------------------------------------------------------
// Laws
// ---------------------------------------------------------------------------

/// What the user set stays: only the IPAM configuration is replaced.
pub proof fn law_user_fields_are_kept(c: ConfView, env: subnetenv::EnvView, key: Seq<char>)
    requires
        c.delegate.contains_key(key),
        key != "ipam"@,
    ensures
        delegate_members(c, env).contains_key(key),
        delegate_members(c, env)[key] == c.delegate[key],
{
}

/// What the delegate is told without the user's doing: the name and version of
/// the network, a type, whether to masquerade (where the daemon does not), an
/// MTU and the IPAM configuration; and, for a bridge, that it is a gateway.
pub proof fn law_defaults_are_filled(c: ConfView, env: subnetenv::EnvView)
    ensures
        ({
            let d = delegate_members(c, env);
            let user = c.delegate;
            &&& !user.contains_key("name"@) ==> d["name"@] == Json::Text(c.name)
            &&& !user.contains_key("cniVersion"@) ==> d["cniVersion"@] == Json::Text(
                c.cni_version,
            )
            &&& d["ipam"@] == ipam_json(env)
            &&& !user.contains_key("type"@) ==> d["type"@] == Json::Text("bridge"@)
            &&& !user.contains_key("ipMasq"@) ==> d["ipMasq"@] == Json::Bool(!env.ipmasq)
            &&& !user.contains_key("mtu"@) ==> d["mtu"@] == Json::Unsigned(env.mtu as u64)
            &&& !user.contains_key("isGateway"@) && d["type"@] == Json::Text("bridge"@)
                ==> d["isGateway"@] == Json::Bool(true)
            &&& !user.contains_key("isGateway"@) && d["type"@] != Json::Text("bridge"@)
                ==> !d.contains_key("isGateway"@)
        }),
{
    lemma_names_differ();
}

/// The delegate's configuration always has a type.
pub proof fn lemma_type_is_set(c: ConfView, env: subnetenv::EnvView)
    ensures
        delegate_members(c, env).contains_key("type"@),
{
    lemma_names_differ();
}

/// The text that the user set for a member, or the one that is filled in.
/// Nothing where the user set something that is no text.
pub open spec fn told_text(user: Map<Seq<char>, Json>, key: Seq<char>, fill: Seq<char>) -> Option<
    Seq<char>,
> {
    if !user.contains_key(key) {
        Some(fill)
    } else {
        match user[key] {
            Json::Text(s) => Some(s),
            _ => None,
        }
    }
}

/// The name resolution that the user set.
pub open spec fn told_dns(c: ConfView) -> Result<Option<dns::DnsView>, decode::Fault> {
    dns::opt_dns_of(json::member_of(Json::Object(c.delegate), "dns"@))
}

/// Whether what the user set can be read by the IPAM plugin too: a name and a
/// version are texts, and name resolution has its parts.
pub open spec fn readable(c: ConfView) -> bool {
    &&& told_text(c.delegate, "name"@, c.name) is Some
    &&& told_text(c.delegate, "cniVersion"@, c.cni_version) is Some
    &&& told_dns(c) is Ok
}

/// The delegate's configuration, as the IPAM plugin decodes it, asks for an
/// address out of the node's subnet and a route to the whole network, and keeps
/// the user's name resolution.
pub proof fn law_ipam_plugin_reads_the_subnet(c: ConfView, env: subnetenv::EnvView)
    requires
        readable(c),
    ensures
        config::net_conf_of(Json::Object(delegate_members(c, env))) == Ok::<
            config::NetConfView,
            decode::Fault,
        >(
            config::NetConfView {
                cni_version: told_text(c.delegate, "cniVersion"@, c.cni_version)->0,
                name: told_text(c.delegate, "name"@, c.name)->0,
                ipam: config::IpamView {
                    kind: "host-local"@,
                    ranges: seq![seq![config::RangeView { subnet: env.subnet, gateway: None }]],
                    routes: seq![config::RouteView { dst: env.network, gw: None }],
                    data_dir: None,
                },
                dns: told_dns(c)->Ok_0,
            },
        ),
{
    lemma_names_differ();
    law_defaults_are_filled(c, env);
    let d = delegate_members(c, env);
    let j = Json::Object(d);
    decode::lemma_field_of_object(j, "cniVersion"@, 0);
    decode::lemma_field_of_object(j, "name"@, 1);
    decode::lemma_field_of_object(j, "ipam"@, 2);
    decode::lemma_field_of_object(j, "dns"@, 3);
    let ipam = ipam_json(env);
    decode::lemma_field_of_object(ipam, "type"@, 0);
    decode::lemma_field_of_object(ipam, "ranges"@, 1);
    decode::lemma_field_of_object(ipam, "routes"@, 2);
    decode::lemma_field_of_object(ipam, "dataDir"@, 3);
    let range = Json::Object(only("subnet"@, Json::Text(env.subnet)));
    decode::lemma_field_of_object(range, "subnet"@, 0);
    decode::lemma_field_of_object(range, "gateway"@, 1);
    let range_view = config::RangeView { subnet: env.subnet, gateway: None };
    assert(config::range_of(range) == Ok::<config::RangeView, decode::Fault>(range_view));
    let set = Json::Array(seq![range]);
    decode::lemma_decode_all_ok(seq![range], config::range_decoder(), seq![range_view]);
    assert(config::range_set_of(set) == Ok::<Seq<config::RangeView>, decode::Fault>(
        seq![range_view],
    ));
    decode::lemma_decode_all_ok(seq![set], config::range_set_decoder(), seq![seq![range_view]]);
    let route = Json::Object(only("dst"@, Json::Text(env.network)));
    decode::lemma_field_of_object(route, "dst"@, 0);
    decode::lemma_field_of_object(route, "gw"@, 1);
    let route_view = config::RouteView { dst: env.network, gw: None };
    assert(config::route_of(route) == Ok::<config::RouteView, decode::Fault>(route_view));
    decode::lemma_decode_all_ok(seq![route], config::route_decoder(), seq![route_view]);
}

} // verus!
