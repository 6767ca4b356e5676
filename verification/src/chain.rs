//! The daemon and the plugins as a chain: what one hands on is what the next
//! one reads, from the subnet of a node to the address of a container.

use vstd::prelude::*;

use crate::cni::config;
use crate::cni::result;
use crate::cni_bridge;
use crate::cni_bridge::plan;
use crate::cni_flannel::delegate;
use crate::cni_flannel::subnetenv;
use crate::cni_host_local::allocator;
use crate::cni_host_local::command;
use crate::cni_host_local::store;
use crate::cni_portmap;
use crate::decode;
use crate::flanneld::subnet;
use crate::ipv4;
use crate::json;
use crate::json::Json;
use crate::members;
use crate::number;
use crate::text;

verus! {

/// What the daemon tells the plugins of a node.
pub open spec fn node_env(
    network: ipv4::NetView,
    node: ipv4::NetView,
    mtu: u32,
    ipmasq: bool,
) -> subnetenv::EnvView {
    subnetenv::EnvView { network: ipv4::cidr(network), subnet: ipv4::cidr(node), mtu, ipmasq }
}

/// The configuration that reaches the address plugin: that of the delegate, as
/// what is told of the node fills it.
pub open spec fn address_conf(c: delegate::ConfView, env: subnetenv::EnvView) -> Result<
    config::NetConfView,
    decode::Fault,
> {
    config::net_conf_of(Json::Object(delegate::delegate_members(c, env)))
}

proof fn lemma_cidr_survives(n: ipv4::NetView)
    ensures
        subnet::survives(ipv4::cidr(n)),
{
    let s = ipv4::cidr(n);
    let d = ipv4::dotted(n.addr);
    let p = number::decimal(n.prefix as nat);
    ipv4::lemma_dotted_chars(n.addr);
    number::lemma_decimal(n.prefix as nat);
    assert forall|i: int| 0 <= i < s.len() implies '.' <= #[trigger] s[i] <= '9' by {
        if i < d.len() {
            assert(s[i] == d[i]);
        } else if i == d.len() {
            assert(s[i] == '/');
        } else {
            assert(s[i] == p[i - d.len() - 1]);
        }
    }
    text::lemma_trimmed_same(s);
}

/// What the daemon writes down for a node is what the plugin that hands over
/// reads.
pub proof fn law_file_reaches_the_plugin(
    network: ipv4::NetView,
    node: ipv4::NetView,
    mtu: u32,
    ipmasq: bool,
)
    ensures
        subnetenv::env_of(
            subnet::with_feeds(subnet::env_lines(node_env(network, node, mtu, ipmasq))),
        ) == Ok::<subnetenv::EnvView, Seq<char>>(node_env(network, node, mtu, ipmasq)),
{
    lemma_cidr_survives(network);
    lemma_cidr_survives(node);
    subnet::law_subnet_env_reads_back(node_env(network, node, mtu, ipmasq));
}

/// The address plugin hands out addresses of the node's subnet, with the first
/// of them as the gateway.
pub proof fn law_addresses_come_from_the_node(
    c: delegate::ConfView,
    network: ipv4::NetView,
    node: ipv4::NetView,
    mtu: u32,
    ipmasq: bool,
)
    requires
        delegate::readable(c),
        16 <= node.prefix <= 32,
    ensures
        address_conf(c, node_env(network, node, mtu, ipmasq)) matches Ok(nc)
            && command::allocation(nc) matches Ok(a) && a == (node, allocator::first_after(node)),
{
    delegate::law_ipam_plugin_reads_the_subnet(c, node_env(network, node, mtu, ipmasq));
    ipv4::law_cidr_reads_back(node);
}

/// A container gets an address of its node: whatever address is handed out is
/// inside the node's subnet and none of its reserved ones; the plugin that
/// connects the container reads it, the gateway and a route to the whole
/// network out of the result; and the plugin that publishes ports reads the
/// same address.
pub proof fn law_container_gets_an_address_of_the_node(
    c: delegate::ConfView,
    network: ipv4::NetView,
    node: ipv4::NetView,
    mtu: u32,
    ipmasq: bool,
    files: store::Files,
    ip: u32,
)
    requires
        delegate::readable(c),
        network.prefix <= 32,
        16 <= node.prefix <= 32,
        command::next_address(node, allocator::first_after(node), files) == Some(ip),
    ensures
        ({
            let gateway = allocator::first_after(node);
            let nc = address_conf(c, node_env(network, node, mtu, ipmasq))->Ok_0;
            let r = command::allocated(nc, node, gateway, ip);
            &&& ipv4::contains(node, ip)
            &&& ip != ipv4::network(node) && ip != ipv4::broadcast(node) && ip != gateway
            &&& result::result_of(json::doc_json(result::result_doc(r, nc.dns))) == Ok::<
                result::ResultView,
                decode::Fault,
            >(r)
            &&& plan::plan_of(r) == Ok::<plan::PlanView, Seq<char>>(
                plan::PlanView {
                    addr: ip,
                    prefix: node.prefix,
                    gateway: Some(gateway),
                    routes: seq![network],
                },
            )
            &&& cni_portmap::config::first_ipv4(r.ips) == Some(ip)
        }),
{
    let gateway = allocator::first_after(node);
    law_addresses_come_from_the_node(c, network, node, mtu, ipmasq);
    delegate::law_ipam_plugin_reads_the_subnet(c, node_env(network, node, mtu, ipmasq));
    let nc = address_conf(c, node_env(network, node, mtu, ipmasq))->Ok_0;
    let r = command::allocated(nc, node, gateway, ip);
    let given = ipv4::NetView { addr: ip, prefix: node.prefix };
    command::law_added_address_was_free(node, gateway, files, ip);
    result::law_result_reads_back(r, nc.dns);
    ipv4::law_cidr_reads_back(network);
    ipv4::law_cidr_reads_back(given);
    plan::law_plan_takes_what_is_written(r, given, Some(gateway));
    reveal_with_fuel(plan::destinations, 2);
    let routes = r.routes;
    assert(routes == seq![config::RouteView { dst: ipv4::cidr(network), gw: None }]);
    assert(routes.drop_last() =~= Seq::<config::RouteView>::empty());
    assert(plan::destinations(routes) == Ok::<Seq<ipv4::NetView>, Seq<char>>(seq![network])) by {
        assert(Seq::<ipv4::NetView>::empty().push(network) =~= seq![network]);
    }
}

proof fn lemma_bridge_members_differ()
    ensures
        "bridge"@ != "name"@ && "bridge"@ != "cniVersion"@ && "bridge"@ != "type"@ && "bridge"@
            != "ipMasq"@ && "bridge"@ != "mtu"@ && "bridge"@ != "isGateway"@ && "bridge"@
            != "ipam"@,
        "isDefaultGateway"@ != "name"@ && "isDefaultGateway"@ != "cniVersion"@
            && "isDefaultGateway"@ != "type"@ && "isDefaultGateway"@ != "ipMasq"@
            && "isDefaultGateway"@ != "mtu"@ && "isDefaultGateway"@ != "isGateway"@
            && "isDefaultGateway"@ != "ipam"@,
        "hairpinMode"@ != "name"@ && "hairpinMode"@ != "cniVersion"@ && "hairpinMode"@ != "type"@
            && "hairpinMode"@ != "ipMasq"@ && "hairpinMode"@ != "mtu"@ && "hairpinMode"@
            != "isGateway"@ && "hairpinMode"@ != "ipam"@,
{
    reveal_strlit("bridge");
    reveal_strlit("isDefaultGateway");
    reveal_strlit("hairpinMode");
    reveal_strlit("name");
    reveal_strlit("cniVersion");
    reveal_strlit("type");
    reveal_strlit("ipMasq");
    reveal_strlit("mtu");
    reveal_strlit("isGateway");
    reveal_strlit("ipam");
    assert("bridge"@[0] == 'b' && "ipMasq"@[0] == 'i');
    assert("isDefaultGateway"@.len() == 16 && "hairpinMode"@.len() == 11 && "bridge"@.len() == 6);
    assert("name"@.len() == 4 && "cniVersion"@.len() == 10 && "type"@.len() == 4 && "ipMasq"@.len()
        == 6 && "mtu"@.len() == 3 && "isGateway"@.len() == 9 && "ipam"@.len() == 4);
}

/// The plugin that connects a container reads what it is told of the node: where
/// the user leaves it to the defaults, the bridge has the name of the network, is
/// the gateway of the node's containers, lets packets be as large as the daemon
/// says, gives no default route, and has addresses from the address plugin.
pub proof fn law_bridge_reads_what_it_is_told(
    c: delegate::ConfView,
    env: subnetenv::EnvView,
    user: Map<Seq<char>, Json>,
)
    requires
        user == c.delegate,
        delegate::readable(c),
        !user.contains_key("type"@) && !user.contains_key("bridge"@) && !user.contains_key("mtu"@),
        !user.contains_key("isGateway"@) && !user.contains_key("isDefaultGateway"@)
            && !user.contains_key("hairpinMode"@),
    ensures
        cni_bridge::config::conf_of(Json::Object(delegate::delegate_members(c, env))) matches Ok(b)
            && {
            &&& b.bridge == delegate::told_text(user, "name"@, c.name)->0
            &&& b.is_gateway
            &&& !b.is_default_gateway
            &&& b.mtu == Some(env.mtu)
            &&& b.ipam == "host-local"@
        },
{
    lemma_bridge_members_differ();
    delegate::lemma_names_differ();
    delegate::law_defaults_are_filled(c, env);
    let d = delegate::delegate_members(c, env);
    let told = cni_bridge::config::ConfView {
        cni_version: delegate::told_text(user, "cniVersion"@, c.cni_version)->0,
        bridge: delegate::told_text(user, "name"@, c.name)->0,
        is_gateway: true,
        is_default_gateway: false,
        hairpin_mode: false,
        mtu: Some(env.mtu),
        ipam: "host-local"@,
    };
    members::law_proper_bridge_is_read(d, told);
}

} // verus!
