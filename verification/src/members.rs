//! What configurations are read from: the members of JSON objects, each under
//! its own name.

use vstd::prelude::*;

use crate::cni::config;
use crate::cni::result;
use crate::cni_bridge;
use crate::cni_portmap;
use crate::decode;
use crate::flanneld;
use crate::json::Json;

verus! {

/// The member of a name.
pub open spec fn member(m: Map<Seq<char>, Json>, name: Seq<char>) -> Option<Json> {
    if m.contains_key(name) {
        Some(m[name])
    } else {
        None
    }
}

/// The member that goes by either of two names. There is no telling where both
/// are used.
pub open spec fn either(m: Map<Seq<char>, Json>, a: Seq<char>, b: Seq<char>) -> Option<
    Option<Json>,
> {
    if m.contains_key(a) && m.contains_key(b) {
        None
    } else if m.contains_key(a) {
        Some(Some(m[a]))
    } else {
        Some(member(m, b))
    }
}

/// Whether a member gives a text, or is absent and the text is the usual one.
pub open spec fn gives_text(v: Option<Json>, s: Seq<char>, usual: Seq<char>) -> bool {
    v == Some(Json::Text(s)) || v is None && s == usual
}

/// Whether a member gives a text that may be left out.
pub open spec fn may_give_text(v: Option<Json>, o: Option<Seq<char>>) -> bool {
    match o {
        Some(s) => v == Some(Json::Text(s)),
        None => v is None || v == Some(Json::Null),
    }
}

/// Whether a member gives a flag; one that is absent is not set.
pub open spec fn gives_flag(v: Option<Json>, b: bool) -> bool {
    v == Some(Json::Bool(b)) || v is None && !b
}

/// Whether a member gives a number that may be left out.
pub open spec fn may_give_number(v: Option<Json>, o: Option<u32>) -> bool {
    match o {
        Some(n) => v == Some(Json::Unsigned(n as u64)),
        None => v is None || v == Some(Json::Null),
    }
}

/// Whether a member gives a list; one that is absent is empty.
pub open spec fn gives_list(v: Option<Json>, items: Seq<Json>) -> bool {
    v == Some(Json::Array(items)) || v is None && items.len() == 0
}

proof fn lemma_either(m: Map<Seq<char>, Json>, a: Seq<char>, b: Seq<char>, index: nat)
    requires
        a != b,
    ensures
        decode::field(Json::Object(m), seq![a, b], index) == (match either(m, a, b) {
            Some(v) => Ok::<Option<Json>, decode::Fault>(v),
            None => Err(decode::Fault::Repeated(a)),
        }),
{
    reveal_with_fuel(Seq::filter, 3);
    assert(seq![a, b].drop_last() =~= seq![a]);
    assert(seq![a].drop_last() =~= Seq::<Seq<char>>::empty());
}

proof fn lemma_all_decoded<T>(
    items: Seq<Json>,
    decoder: spec_fn(Json) -> Result<T, decode::Fault>,
    out: Seq<T>,
)
    requires
        decode::decode_all(items, decoder) == Ok::<Seq<T>, decode::Fault>(out),
    ensures
        items.len() == out.len(),
        forall|i: int|
            0 <= i < items.len() ==> decoder(#[trigger] items[i]) == Ok::<T, decode::Fault>(out[i]),
    decreases items.len(),
{
    if items.len() > 0 {
        let before = decode::decode_all(items.drop_last(), decoder)->Ok_0;
        lemma_all_decoded(items.drop_last(), decoder, before);
        assert forall|i: int| 0 <= i < items.len() implies decoder(#[trigger] items[i]) == Ok::<
            T,
            decode::Fault,
        >(out[i]) by {
            if i < items.len() - 1 {
                assert(items.drop_last()[i] == items[i]);
            }
        }
    }
}

/// A mapping is read from its members: the ports under the names of the ports,
/// in either spelling, and the protocol, which is TCP where none is given.
pub proof fn law_mapping_is_read_by_name(
    m: Map<Seq<char>, Json>,
    v: cni_portmap::config::MappingView,
)
    requires
        cni_portmap::config::mapping_of(Json::Object(m)) == Ok::<
            cni_portmap::config::MappingView,
            decode::Fault,
        >(v),
    ensures
        either(m, "hostPort"@, "HostPort"@) == Some(Some(Json::Unsigned(v.host_port as u64))),
        either(m, "containerPort"@, "ContainerPort"@) == Some(
            Some(Json::Unsigned(v.container_port as u64)),
        ),
        either(m, "protocol"@, "Protocol"@) matches Some(p) && gives_text(p, v.protocol, "tcp"@),
{
    reveal_strlit("hostPort");
    reveal_strlit("HostPort");
    reveal_strlit("containerPort");
    reveal_strlit("ContainerPort");
    reveal_strlit("protocol");
    reveal_strlit("Protocol");
    assert("hostPort"@[0] == 'h' && "HostPort"@[0] == 'H');
    assert("containerPort"@[0] == 'c' && "ContainerPort"@[0] == 'C');
    assert("protocol"@[0] == 'p' && "Protocol"@[0] == 'P');
    lemma_either(m, "hostPort"@, "HostPort"@, 0);
    lemma_either(m, "containerPort"@, "ContainerPort"@, 1);
    lemma_either(m, "protocol"@, "Protocol"@, 2);
}

/// The mappings of a container are those that the runtime lists, in its order,
/// and the previous result is the one that the configuration holds.
pub proof fn law_mappings_are_those_listed(
    m: Map<Seq<char>, Json>,
    c: cni_portmap::config::ConfView,
)
    requires
        cni_portmap::config::conf_of(Json::Object(m)) == Ok::<
            cni_portmap::config::ConfView,
            decode::Fault,
        >(c),
    ensures
        match c.prev_result {
            Some(prev) => member(m, "prevResult"@) matches Some(j) && result::result_of(j) == Ok::<
                result::ResultView,
                decode::Fault,
            >(prev),
            None => may_give_text(member(m, "prevResult"@), None),
        },
        !m.contains_key("runtimeConfig"@) ==> c.mappings.len() == 0,
        member(m, "runtimeConfig"@) matches Some(Json::Object(r)) ==> exists|items: Seq<Json>| #[trigger]
            gives_list(member(r, "portMappings"@), items) && items.len() == c.mappings.len()
                && forall|i: int|
                0 <= i < items.len() ==> cni_portmap::config::mapping_of(#[trigger] items[i])
                    == Ok::<cni_portmap::config::MappingView, decode::Fault>(c.mappings[i]),
{
    let j = Json::Object(m);
    decode::lemma_field_of_object(j, "cniVersion"@, 0);
    decode::lemma_field_of_object(j, "prevResult"@, 1);
    decode::lemma_field_of_object(j, "runtimeConfig"@, 2);
    if let Some(Json::Object(r)) = member(m, "runtimeConfig"@) {
        decode::lemma_field_of_object(Json::Object(r), "portMappings"@, 0);
        let items = decode::list_or_empty(member(r, "portMappings"@), "portMappings"@)->Ok_0;
        lemma_all_decoded(items, cni_portmap::config::mapping_decoder(), c.mappings);
        assert forall|i: int| 0 <= i < items.len() implies cni_portmap::config::mapping_of(
            #[trigger] items[i],
        ) == Ok::<cni_portmap::config::MappingView, decode::Fault>(c.mappings[i]) by {
            assert(cni_portmap::config::mapping_decoder()(items[i]) == Ok::<
                cni_portmap::config::MappingView,
                decode::Fault,
            >(c.mappings[i]));
        }
        assert(gives_list(member(r, "portMappings"@), items));
    }
}

/// The configuration of the bridge plugin is read from its members: the name of
/// the bridge, which is that of the network where it has none of its own; whether
/// it is a gateway; whether the container gets a default route; the size of
/// packets; and the plugin that manages the addresses.
pub proof fn law_bridge_is_read_by_name(
    m: Map<Seq<char>, Json>,
    c: cni_bridge::config::ConfView,
)
    requires
        cni_bridge::config::conf_of(Json::Object(m)) == Ok::<
            cni_bridge::config::ConfView,
            decode::Fault,
        >(c),
    ensures
        either(m, "bridge"@, "name"@) matches Some(b) && gives_text(b, c.bridge, "cni0"@),
        gives_flag(member(m, "isGateway"@), c.is_gateway),
        gives_flag(member(m, "isDefaultGateway"@), c.is_default_gateway),
        may_give_number(member(m, "mtu"@), c.mtu),
        member(m, "ipam"@) is Some,
        member(m, "ipam"@) matches Some(Json::Object(ipam)) ==> member(ipam, "type"@) == Some(
            Json::Text(c.ipam),
        ),
{
    reveal_strlit("bridge");
    reveal_strlit("name");
    assert("bridge"@.len() != "name"@.len());
    let j = Json::Object(m);
    decode::lemma_field_of_object(j, "cniVersion"@, 0);
    lemma_either(m, "bridge"@, "name"@, 1);
    decode::lemma_field_of_object(j, "isGateway"@, 2);
    decode::lemma_field_of_object(j, "isDefaultGateway"@, 3);
    decode::lemma_field_of_object(j, "hairpinMode"@, 4);
    decode::lemma_field_of_object(j, "mtu"@, 5);
    decode::lemma_field_of_object(j, "ipam"@, 6);
    if let Some(Json::Object(ipam)) = member(m, "ipam"@) {
        decode::lemma_field_of_object(Json::Object(ipam), "type"@, 0);
    }
}

/// The configuration of the address plugin is read from its members: the name and
/// version of the network, and in its own part the directory of the leases, the
/// ranges and the routes, in the order of the configuration.
pub proof fn law_addresses_are_read_by_name(
    m: Map<Seq<char>, Json>,
    ipam: Map<Seq<char>, Json>,
    c: config::NetConfView,
)
    requires
        config::net_conf_of(Json::Object(m)) == Ok::<config::NetConfView, decode::Fault>(c),
        member(m, "ipam"@) == Some(Json::Object(ipam)),
    ensures
        gives_text(member(m, "cniVersion"@), c.cni_version, ""@),
        gives_text(member(m, "name"@), c.name, ""@),
        gives_text(member(ipam, "type"@), c.ipam.kind, ""@),
        may_give_text(member(ipam, "dataDir"@), c.ipam.data_dir),
        exists|sets: Seq<Json>| #[trigger]
            gives_list(member(ipam, "ranges"@), sets) && sets.len() == c.ipam.ranges.len()
                && forall|i: int|
                0 <= i < sets.len() ==> config::range_set_of(#[trigger] sets[i]) == Ok::<
                    Seq<config::RangeView>,
                    decode::Fault,
                >(c.ipam.ranges[i]),
        exists|routes: Seq<Json>| #[trigger]
            gives_list(member(ipam, "routes"@), routes) && routes.len() == c.ipam.routes.len()
                && forall|i: int|
                0 <= i < routes.len() ==> config::route_of(#[trigger] routes[i]) == Ok::<
                    config::RouteView,
                    decode::Fault,
                >(c.ipam.routes[i]),
{
    let j = Json::Object(m);
    decode::lemma_field_of_object(j, "cniVersion"@, 0);
    decode::lemma_field_of_object(j, "name"@, 1);
    decode::lemma_field_of_object(j, "ipam"@, 2);
    decode::lemma_field_of_object(j, "dns"@, 3);
    let i = Json::Object(ipam);
    decode::lemma_field_of_object(i, "type"@, 0);
    decode::lemma_field_of_object(i, "ranges"@, 1);
    decode::lemma_field_of_object(i, "routes"@, 2);
    decode::lemma_field_of_object(i, "dataDir"@, 3);
    let sets = decode::list_or_empty(member(ipam, "ranges"@), "ranges"@)->Ok_0;
    let routes = decode::list_or_empty(member(ipam, "routes"@), "routes"@)->Ok_0;
    lemma_all_decoded(sets, config::range_set_decoder(), c.ipam.ranges);
    lemma_all_decoded(routes, config::route_decoder(), c.ipam.routes);
    assert(gives_list(member(ipam, "ranges"@), sets));
    assert(gives_list(member(ipam, "routes"@), routes));
    assert forall|k: int| 0 <= k < sets.len() implies config::range_set_of(#[trigger] sets[k])
        == Ok::<Seq<config::RangeView>, decode::Fault>(c.ipam.ranges[k]) by {
        assert(config::range_set_decoder()(sets[k]) == Ok::<
            Seq<config::RangeView>,
            decode::Fault,
        >(c.ipam.ranges[k]));
    }
    assert forall|k: int| 0 <= k < routes.len() implies config::route_of(#[trigger] routes[k])
        == Ok::<config::RouteView, decode::Fault>(c.ipam.routes[k]) by {
        assert(config::route_decoder()(routes[k]) == Ok::<config::RouteView, decode::Fault>(
            c.ipam.routes[k],
        ));
    }
}

/// A range is read from its members: its subnet, and its gateway where it has
/// one. A route is read from its members too: where it leads, and its gateway
/// where it has one.
pub proof fn law_ranges_and_routes_are_read_by_name(m: Map<Seq<char>, Json>)
    ensures
        config::range_of(Json::Object(m)) matches Ok(r) ==> member(m, "subnet"@) == Some(
            Json::Text(r.subnet),
        ) && may_give_text(member(m, "gateway"@), r.gateway),
        config::route_of(Json::Object(m)) matches Ok(r) ==> member(m, "dst"@) == Some(
            Json::Text(r.dst),
        ) && may_give_text(member(m, "gw"@), r.gw),
{
    let j = Json::Object(m);
    decode::lemma_field_of_object(j, "subnet"@, 0);
    decode::lemma_field_of_object(j, "gateway"@, 1);
    decode::lemma_field_of_object(j, "dst"@, 0);
    decode::lemma_field_of_object(j, "gw"@, 1);
}

/// The configuration of the daemon is read from its members: the network, and the
/// type of the backend.
pub proof fn law_network_is_read_by_name(
    m: Map<Seq<char>, Json>,
    c: flanneld::config::ConfView,
)
    requires
        flanneld::config::conf_of(Json::Object(m)) == Ok::<
            flanneld::config::ConfView,
            decode::Fault,
        >(c),
    ensures
        member(m, "Network"@) == Some(Json::Text(c.network)),
        member(m, "Backend"@) is Some,
        member(m, "Backend"@) matches Some(Json::Object(b)) ==> member(b, "Type"@) == Some(
            Json::Text(c.kind),
        ),
{
    let j = Json::Object(m);
    decode::lemma_field_of_object(j, "Network"@, 0);
    decode::lemma_field_of_object(j, "Backend"@, 1);
    if let Some(Json::Object(b)) = member(m, "Backend"@) {
        decode::lemma_field_of_object(Json::Object(b), "Type"@, 0);
    }
}

/// A mapping whose members are in order is read: its ports are numbers that fit,
/// and its protocol and its host address, where they are given, are texts.
pub proof fn law_proper_mapping_is_read(
    m: Map<Seq<char>, Json>,
    host_port: u16,
    container_port: u16,
    protocol: Seq<char>,
)
    requires
        either(m, "hostPort"@, "HostPort"@) == Some(Some(Json::Unsigned(host_port as u64))),
        either(m, "containerPort"@, "ContainerPort"@) == Some(
            Some(Json::Unsigned(container_port as u64)),
        ),
        either(m, "protocol"@, "Protocol"@) matches Some(p) && gives_text(p, protocol, "tcp"@),
        !m.contains_key("hostIP"@) && !m.contains_key("HostIP"@) && !m.contains_key("hostIp"@),
    ensures
        cni_portmap::config::mapping_of(Json::Object(m)) == Ok::<
            cni_portmap::config::MappingView,
            decode::Fault,
        >(
            cni_portmap::config::MappingView {
                host_port,
                container_port,
                protocol,
                host_ip: None,
            },
        ),
{
    reveal_strlit("hostPort");
    reveal_strlit("HostPort");
    reveal_strlit("containerPort");
    reveal_strlit("ContainerPort");
    reveal_strlit("protocol");
    reveal_strlit("Protocol");
    assert("hostPort"@[0] == 'h' && "HostPort"@[0] == 'H');
    assert("containerPort"@[0] == 'c' && "ContainerPort"@[0] == 'C');
    assert("protocol"@[0] == 'p' && "Protocol"@[0] == 'P');
    lemma_either(m, "hostPort"@, "HostPort"@, 0);
    lemma_either(m, "containerPort"@, "ContainerPort"@, 1);
    lemma_either(m, "protocol"@, "Protocol"@, 2);
    let names = seq!["hostIP"@, "HostIP"@, "hostIp"@];
    reveal_with_fuel(Seq::filter, 4);
    assert(names.drop_last() =~= seq!["hostIP"@, "HostIP"@]);
    assert(seq!["hostIP"@, "HostIP"@].drop_last() =~= seq!["hostIP"@]);
    assert(seq!["hostIP"@].drop_last() =~= Seq::<Seq<char>>::empty());
}

/// A configuration of the bridge plugin whose members are in order is read.
pub proof fn law_proper_bridge_is_read(m: Map<Seq<char>, Json>, c: cni_bridge::config::ConfView)
    requires
        gives_text(member(m, "cniVersion"@), c.cni_version, ""@),
        either(m, "bridge"@, "name"@) matches Some(b) && gives_text(b, c.bridge, "cni0"@),
        gives_flag(member(m, "isGateway"@), c.is_gateway),
        gives_flag(member(m, "isDefaultGateway"@), c.is_default_gateway),
        gives_flag(member(m, "hairpinMode"@), c.hairpin_mode),
        may_give_number(member(m, "mtu"@), c.mtu),
        member(m, "ipam"@) matches Some(Json::Object(ipam)) && member(ipam, "type"@) == Some(
            Json::Text(c.ipam),
        ),
    ensures
        cni_bridge::config::conf_of(Json::Object(m)) == Ok::<
            cni_bridge::config::ConfView,
            decode::Fault,
        >(c),
{
    reveal_strlit("bridge");
    reveal_strlit("name");
    assert("bridge"@.len() != "name"@.len());
    let j = Json::Object(m);
    decode::lemma_field_of_object(j, "cniVersion"@, 0);
    lemma_either(m, "bridge"@, "name"@, 1);
    decode::lemma_field_of_object(j, "isGateway"@, 2);
    decode::lemma_field_of_object(j, "isDefaultGateway"@, 3);
    decode::lemma_field_of_object(j, "hairpinMode"@, 4);
    decode::lemma_field_of_object(j, "mtu"@, 5);
    decode::lemma_field_of_object(j, "ipam"@, 6);
    decode::lemma_field_of_object(member(m, "ipam"@)->0, "type"@, 0);
}

/// A configuration of the daemon whose members are in order is read.
pub proof fn law_proper_network_is_read(m: Map<Seq<char>, Json>, c: flanneld::config::ConfView)
    requires
        member(m, "Network"@) == Some(Json::Text(c.network)),
        member(m, "Backend"@) matches Some(Json::Object(b)) && member(b, "Type"@) == Some(
            Json::Text(c.kind),
        ),
    ensures
        flanneld::config::conf_of(Json::Object(m)) == Ok::<
            flanneld::config::ConfView,
            decode::Fault,
        >(c),
{
    let j = Json::Object(m);
    decode::lemma_field_of_object(j, "Network"@, 0);
    decode::lemma_field_of_object(j, "Backend"@, 1);
    decode::lemma_field_of_object(member(m, "Backend"@)->0, "Type"@, 0);
}

} // verus!
