//! The names of a container's links, and the addresses they get.

use vstd::prelude::*;
use vstd::string::*;

use crate::cni::config;
use crate::cni::result;
use crate::cni::result::CniResult;
use crate::ipv4;
use crate::ipv4::Ipv4Net;
use crate::netlink;
use crate::text;

verus! {

/// The name of the host's end of a container's link.
pub open spec fn host_name(container_id: Seq<char>) -> Seq<char> {
    "veth"@ + text::alnum_prefix(container_id, 11)
}

/// The name of the container's end before it is moved and renamed.
pub open spec fn temp_name(container_id: Seq<char>) -> Seq<char> {
    "vethc"@ + text::alnum_prefix(container_id, 10)
}

/// The name of the host's end of a container's link, within the 15 characters
/// that the kernel allows: "veth" and the first 11 letters and digits of the
/// container.
pub fn host_veth_name(container_id: &str) -> (s: String)
    ensures
        s@ == host_name(container_id@),
        s@.len() <= 15,
{
    proof {
        reveal_strlit("veth");
    }
    text::join2("veth", text::alnum(container_id, 11).as_str())
}

/// The name of the container's end while it is still on the host, within the
/// 15 characters that the kernel allows.
pub fn temp_cont_name(container_id: &str) -> (s: String)
    ensures
        s@ == temp_name(container_id@),
        s@.len() <= 15,
{
    proof {
        reveal_strlit("vethc");
    }
    text::join2("vethc", text::alnum(container_id, 10).as_str())
}

/// A container's address with its prefix, its gateway and its routes.
#[derive(Debug)]
pub struct IpPlan {
    pub addr: u32,
    pub prefix: u8,
    pub gateway: Option<u32>,
    pub routes: Vec<Ipv4Net>,
}

/// The model of `IpPlan`.
pub struct PlanView {
    pub addr: u32,
    pub prefix: u8,
    pub gateway: Option<u32>,
    pub routes: Seq<ipv4::NetView>,
}

/// The models of networks.
pub open spec fn net_views(v: Seq<Ipv4Net>) -> Seq<ipv4::NetView> {
    v.map_values(|n: Ipv4Net| n@)
}

impl View for IpPlan {
    type V = PlanView;

    open spec fn view(&self) -> PlanView {
        PlanView {
            addr: self.addr,
            prefix: self.prefix,
            gateway: self.gateway,
            routes: net_views(self.routes@),
        }
    }
}

/// The destinations of routes, or the wording of the first that is none.
pub open spec fn destinations(routes: Seq<config::RouteView>) -> Result<
    Seq<ipv4::NetView>,
    Seq<char>,
>
    decreases routes.len(),
{
    if routes.len() == 0 {
        Ok(Seq::empty())
    } else {
        match destinations(routes.drop_last()) {
            Err(e) => Err(e),
            Ok(done) => match ipv4::cidr_read(routes.last().dst) {
                Err(_) => Err("bad route dst "@ + routes.last().dst),
                Ok(n) => Ok(done.push(ipv4::NetView { addr: n.0, prefix: n.1 })),
            },
        }
    }
}

/// The plan of a result: its first address with prefix and gateway, and all
/// its routes.
pub open spec fn plan_of(r: result::ResultView) -> Result<PlanView, Seq<char>> {
    if r.ips.len() == 0 {
        Err("IPAM result has no IPs"@)
    } else {
        let ip = r.ips[0];
        match ipv4::cidr_read(ip.address) {
            Err(_) => Err("bad IPAM address "@ + ip.address),
            Ok(n) => {
                let gateway = match ip.gateway {
                    Some(g) => ipv4::address(g),
                    None => None,
                };
                if ip.gateway is Some && gateway is None {
                    Err("bad IPAM gateway "@ + ip.gateway->0)
                } else {
                    match destinations(r.routes) {
                        Err(e) => Err(e),
                        Ok(routes) => Ok(PlanView { addr: n.0, prefix: n.1, gateway, routes }),
                    }
                }
            },
        }
    }
}

proof fn lemma_destinations_fault(routes: Seq<config::RouteView>, k: int)
    requires
        0 <= k <= routes.len(),
        destinations(routes.take(k)) is Err,
    ensures
        destinations(routes) == destinations(routes.take(k)),
    decreases routes.len(),
{
    if k < routes.len() {
        assert(routes.drop_last().take(k) =~= routes.take(k));
        lemma_destinations_fault(routes.drop_last(), k);
    } else {
        assert(routes.take(k) =~= routes);
    }
}

/// The plan of a result.
pub fn ip_plan(result: &CniResult) -> (r: Result<IpPlan, String>)
    ensures
        netlink::text_result(r, |p: IpPlan| p@) == plan_of(result@),
        r matches Ok(p) ==> p.prefix <= 32,
{
    if result.ips.len() == 0 {
        return Err("IPAM result has no IPs".to_owned());
    }
    let ip = &result.ips[0];
    assert(result@.ips[0] == ip@);
    let net = match Ipv4Net::parse(ip.address.as_str()) {
        Ok(n) => n,
        Err(_) => {
            return Err(text::join2("bad IPAM address ", ip.address.as_str()));
        },
    };
    let gateway: Option<u32> = match &ip.gateway {
        Some(g) => match ipv4::parse_address(g.as_str()) {
            Some(a) => Some(a),
            None => {
                return Err(text::join2("bad IPAM gateway ", g.as_str()));
            },
        },
        None => None,
    };
    let ghost all = result@.routes;
    let mut routes: Vec<Ipv4Net> = Vec::new();
    let mut i: usize = 0;
    assert(all.take(0) =~= Seq::<config::RouteView>::empty());
    assert(net_views(routes@) =~= Seq::<ipv4::NetView>::empty());
    while i < result.routes.len()
        invariant
            i <= result.routes@.len(),
            all == result@.routes,
            destinations(all.take(i as int)) == Ok::<Seq<ipv4::NetView>, Seq<char>>(
                net_views(routes@),
            ),
            plan_of(result@) == (match destinations(all) {
                Err(e) => Err(e),
                Ok(routes) => Ok(
                    PlanView { addr: net@.addr, prefix: net@.prefix, gateway, routes },
                ),
            }),
        decreases result.routes@.len() - i,
    {
        let dst = result.routes[i].dst.as_str();
        proof {
            assert(all.take(i + 1).drop_last() =~= all.take(i as int));
            assert(all.take(i + 1).last() == result.routes@[i as int]@);
        }
        match Ipv4Net::parse(dst) {
            Ok(n) => {
                let ghost before = net_views(routes@);
                routes.push(n);
                assert(net_views(routes@) =~= before.push(n@));
            },
            Err(_) => {
                proof {
                    lemma_destinations_fault(all, i + 1);
                }
                return Err(text::join2("bad route dst ", dst));
            },
        }
        i = i + 1;
    }
    assert(all.take(result.routes@.len() as int) =~= all);
    Ok(IpPlan { addr: net.ip(), prefix: net.prefix(), gateway, routes })
}

/// An address that is written in CIDR notation is planned as it is written,
/// with the gateway as it is written; only a route can stand in the way.
pub proof fn law_plan_takes_what_is_written(
    r: result::ResultView,
    n: ipv4::NetView,
    gateway: Option<u32>,
)
    requires
        r.ips.len() > 0,
        n.prefix <= 32,
        r.ips[0].address == ipv4::cidr(n),
        r.ips[0].gateway == (match gateway {
            Some(g) => Some(ipv4::dotted(g)),
            None => None,
        }),
    ensures
        plan_of(r) == (match destinations(r.routes) {
            Err(e) => Err(e),
            Ok(routes) => Ok(PlanView { addr: n.addr, prefix: n.prefix, gateway, routes }),
        }),
{
    ipv4::law_cidr_reads_back(n);
    if let Some(g) = gateway {
        ipv4::law_dotted_reads_back(g);
    }
}

/// The names of a container's links are as telling as the kernel's 15 characters
/// allow: behind the first part, which tells the two ends apart, stand the first
/// letters and digits of the container.
pub proof fn law_link_names_tell_the_container(container_id: Seq<char>)
    ensures
        host_name(container_id).take(4) == "veth"@,
        text::is_beginning(host_name(container_id).skip(4), container_id, 11),
        temp_name(container_id).take(5) == "vethc"@,
        text::is_beginning(temp_name(container_id).skip(5), container_id, 10),
{
    reveal_strlit("veth");
    reveal_strlit("vethc");
    text::law_first_letters_and_digits_are_kept(container_id, 11);
    text::law_first_letters_and_digits_are_kept(container_id, 10);
    assert(host_name(container_id).skip(4) =~= text::alnum_prefix(container_id, 11));
    assert(temp_name(container_id).skip(5) =~= text::alnum_prefix(container_id, 10));
    assert(host_name(container_id).take(4) =~= "veth"@);
    assert(temp_name(container_id).take(5) =~= "vethc"@);
}

} // verus!
