//! The container's side: its link, address and routes.

use vstd::prelude::*;
use vstd::string::*;

use crate::cni_bridge::hostns;
use crate::cni_bridge::plan;
use crate::cni_bridge::plan::IpPlan;
use crate::ipv4;
use crate::netlink;
use crate::netlink::{Reply, Request, RouteSpec};
use crate::progress;
use crate::progress::Progress;
use crate::text;

verus! {

/// A route of the container, through the gateway where there is one.
pub open spec fn route_to(net: ipv4::NetView, gateway: Option<u32>, idx: u32) -> RouteSpec {
    RouteSpec { dst: ipv4::network(net), prefix: net.prefix, gateway, oif: idx, onlink: false }
}

/// The routes of a container: those of the plan, and a default route where it
/// is asked for and there is a gateway.
pub open spec fn wanted_routes(p: plan::PlanView, default: bool, idx: u32) -> Seq<RouteSpec> {
    let given = p.routes.map_values(|n: ipv4::NetView| route_to(n, p.gateway, idx));
    if default && p.gateway is Some {
        given.push(
            RouteSpec { dst: 0, prefix: 0, gateway: p.gateway, oif: idx, onlink: false },
        )
    } else {
        given
    }
}

/// Adding routes one by one, whatever comes of each.
pub open spec fn routes_progress(
    routes: Seq<RouteSpec>,
    replies: Seq<netlink::ReplyView>,
    from: int,
) -> Progress<netlink::RequestView, Result<(), Seq<char>>> {
    if replies.len() < from + routes.len() {
        Progress::Ask(netlink::RequestView::AddRoute(routes[replies.len() - from]))
    } else {
        Progress::Done(Ok(()), (from + routes.len()) as usize)
    }
}

/// Configuring the moved link: it is found under its temporary name, renamed,
/// brought up, given the address and the routes.
pub open spec fn configure_progress(
    temp: Seq<char>,
    ifname: Seq<char>,
    p: plan::PlanView,
    default: bool,
    replies: Seq<netlink::ReplyView>,
    from: int,
) -> Progress<netlink::RequestView, Result<(), Seq<char>>> {
    if from >= replies.len() {
        Progress::Ask(netlink::RequestView::Connect)
    } else if let Some(t) = netlink::failure_of(replies[from]) {
        Progress::Done(
            Err(netlink::within("netlink conn in container ns"@, t)),
            (from + 1) as usize,
        )
    } else if from + 1 >= replies.len() {
        Progress::Ask(netlink::RequestView::FindLink(temp))
    } else {
        match netlink::index_of(replies[from + 1]) {
            Err(t) => Progress::Done(Err(t), (from + 2) as usize),
            Ok(None) => Progress::Done(
                Err("moved iface not found in container ns"@),
                (from + 2) as usize,
            ),
            Ok(Some(idx)) => if from + 2 >= replies.len() {
                Progress::Ask(netlink::RequestView::Rename(idx, ifname))
            } else if let Some(t) = netlink::failure_of(replies[from + 2]) {
                Progress::Done(Err(netlink::within("rename iface"@, t)), (from + 3) as usize)
            } else if from + 3 >= replies.len() {
                Progress::Ask(netlink::RequestView::SetUp(idx))
            } else if let Some(t) = netlink::failure_of(replies[from + 3]) {
                Progress::Done(Err(netlink::within("set iface up"@, t)), (from + 4) as usize)
            } else if from + 4 >= replies.len() {
                Progress::Ask(netlink::RequestView::AddAddress(idx, p.addr, p.prefix))
            } else if let Some(t) = netlink::failure_of(replies[from + 4]) {
                Progress::Done(Err(netlink::within("assign pod ip"@, t)), (from + 5) as usize)
            } else {
                routes_progress(wanted_routes(p, default, idx), replies, from + 5)
            },
        }
    }
}

/// Configures the moved link, in the container's namespace.
pub fn configure(
    temp_name: &str,
    ifname: &str,
    plan: &IpPlan,
    add_default_route: bool,
    replies: &Vec<Reply>,
    from: usize,
) -> (p: Progress<Request, Result<(), String>>)
    ensures
        hostns::net_view(p, |u: ()| u) == configure_progress(
            temp_name@,
            ifname@,
            plan@,
            add_default_route,
            netlink::reply_views(replies@),
            from as int,
        ),
{
    let ghost views = netlink::reply_views(replies@);
    if from >= replies.len() {
        return Progress::Ask(Request::Connect);
    }
    assert(views[from as int] == replies@[from as int]@);
    if let Some(t) = netlink::failure(&replies[from]) {
        return Progress::Done(
            Err(netlink::in_context("netlink conn in container ns", t.as_str())),
            from + 1,
        );
    }
    if from + 1 >= replies.len() {
        return Progress::Ask(Request::FindLink(temp_name.to_owned()));
    }
    assert(views[from + 1] == replies@[from + 1]@);
    let idx: u32 = match netlink::link_index(&replies[from + 1]) {
        Err(t) => {
            return Progress::Done(Err(t), from + 2);
        },
        Ok(None) => {
            return Progress::Done(
                Err("moved iface not found in container ns".to_owned()),
                from + 2,
            );
        },
        Ok(Some(i)) => i,
    };
    if from + 2 >= replies.len() {
        return Progress::Ask(Request::Rename(idx, ifname.to_owned()));
    }
    assert(views[from + 2] == replies@[from + 2]@);
    if let Some(t) = netlink::failure(&replies[from + 2]) {
        return Progress::Done(Err(netlink::in_context("rename iface", t.as_str())), from + 3);
    }
    if from + 3 >= replies.len() {
        return Progress::Ask(Request::SetUp(idx));
    }
    assert(views[from + 3] == replies@[from + 3]@);
    if let Some(t) = netlink::failure(&replies[from + 3]) {
        return Progress::Done(Err(netlink::in_context("set iface up", t.as_str())), from + 4);
    }
    if from + 4 >= replies.len() {
        return Progress::Ask(Request::AddAddress(idx, plan.addr, plan.prefix));
    }
    assert(views[from + 4] == replies@[from + 4]@);
    if let Some(t) = netlink::failure(&replies[from + 4]) {
        return Progress::Done(Err(netlink::in_context("assign pod ip", t.as_str())), from + 5);
    }
    let ghost routes = wanted_routes(plan@, add_default_route, idx);
    let done: usize = replies.len() - (from + 5);
    if done < plan.routes.len() {
        let net = &plan.routes[done];
        assert(plan@.routes[done as int] == net@);
        return Progress::Ask(
            Request::AddRoute(
                RouteSpec {
                    dst: net.network(),
                    prefix: net.prefix(),
                    gateway: plan.gateway,
                    oif: idx,
                    onlink: false,
                },
            ),
        );
    }
    if add_default_route && plan.gateway.is_some() {
        if done == plan.routes.len() {
            return Progress::Ask(
                Request::AddRoute(
                    RouteSpec {
                        dst: 0,
                        prefix: 0,
                        gateway: plan.gateway,
                        oif: idx,
                        onlink: false,
                    },
                ),
            );
        }
        return Progress::Done(Ok(()), from + 5 + plan.routes.len() + 1);
    }
    Progress::Done(Ok(()), from + 5 + plan.routes.len())
}

/// Configuring a container's link: the work is done in its namespace, and the
/// host's is restored whatever comes of it.
pub open spec fn container_progress(
    netns: Seq<char>,
    temp: Seq<char>,
    ifname: Seq<char>,
    p: plan::PlanView,
    default: bool,
    replies: Seq<netlink::ReplyView>,
    from: int,
) -> Progress<netlink::RequestView, Result<(), Seq<char>>> {
    if from >= replies.len() {
        Progress::Ask(netlink::RequestView::OpenHostNs)
    } else if let Some(t) = netlink::failure_of(replies[from]) {
        Progress::Done(Err(netlink::within("open host netns"@, t)), (from + 1) as usize)
    } else if from + 1 >= replies.len() {
        Progress::Ask(netlink::RequestView::OpenNetns(netns))
    } else if let Some(t) = netlink::failure_of(replies[from + 1]) {
        Progress::Done(Err(netlink::within("open netns "@ + netns, t)), (from + 2) as usize)
    } else if from + 2 >= replies.len() {
        Progress::Ask(netlink::RequestView::EnterNs)
    } else if let Some(t) = netlink::failure_of(replies[from + 2]) {
        Progress::Done(Err(netlink::within("setns into container"@, t)), (from + 3) as usize)
    } else if from + 3 >= replies.len() {
        Progress::Ask(netlink::RequestView::StartRuntime)
    } else if let Some(t) = netlink::failure_of(replies[from + 3]) {
        Progress::Done(
            Err(netlink::within("build container-ns runtime"@, t)),
            (from + 4) as usize,
        )
    } else {
        match configure_progress(temp, ifname, p, default, replies, from + 4) {
            Progress::Ask(q) => Progress::Ask(q),
            Progress::Done(r, next) => if next >= replies.len() {
                Progress::Ask(netlink::RequestView::LeaveNs)
            } else {
                Progress::Done(r, (next + 1) as usize)
            },
        }
    }
}

/// Configures a container's link: finds the moved link under its temporary
/// name, renames it, brings it up, and gives it the address, the routes and a
/// default route if asked.
pub fn configure_container_iface(
    netns_path: &str,
    temp_name: &str,
    ifname: &str,
    plan: &IpPlan,
    add_default_route: bool,
    replies: &Vec<Reply>,
    from: usize,
) -> (p: Progress<Request, Result<(), String>>)
    ensures
        hostns::net_view(p, |u: ()| u) == container_progress(
            netns_path@,
            temp_name@,
            ifname@,
            plan@,
            add_default_route,
            netlink::reply_views(replies@),
            from as int,
        ),
{
    let ghost views = netlink::reply_views(replies@);
    if from >= replies.len() {
        return Progress::Ask(Request::OpenHostNs);
    }
    assert(views[from as int] == replies@[from as int]@);
    if let Some(t) = netlink::failure(&replies[from]) {
        return Progress::Done(Err(netlink::in_context("open host netns", t.as_str())), from + 1);
    }
    if from + 1 >= replies.len() {
        return Progress::Ask(Request::OpenNetns(netns_path.to_owned()));
    }
    assert(views[from + 1] == replies@[from + 1]@);
    if let Some(t) = netlink::failure(&replies[from + 1]) {
        let context = text::join2("open netns ", netns_path);
        return Progress::Done(Err(netlink::in_context(context.as_str(), t.as_str())), from + 2);
    }
    if from + 2 >= replies.len() {
        return Progress::Ask(Request::EnterNs);
    }
    assert(views[from + 2] == replies@[from + 2]@);
    if let Some(t) = netlink::failure(&replies[from + 2]) {
        return Progress::Done(
            Err(netlink::in_context("setns into container", t.as_str())),
            from + 3,
        );
    }
    if from + 3 >= replies.len() {
        return Progress::Ask(Request::StartRuntime);
    }
    assert(views[from + 3] == replies@[from + 3]@);
    if let Some(t) = netlink::failure(&replies[from + 3]) {
        return Progress::Done(
            Err(netlink::in_context("build container-ns runtime", t.as_str())),
            from + 4,
        );
    }
    match configure(temp_name, ifname, plan, add_default_route, replies, from + 4) {
        Progress::Ask(q) => Progress::Ask(q),
        Progress::Done(r, next) => if next >= replies.len() {
            Progress::Ask(Request::LeaveNs)
        } else {
            Progress::Done(r, next + 1)
        },
    }
}

/// Deleting a container's link in its namespace. A namespace that is gone
/// leaves nothing to do; what goes wrong with the link itself is ignored; the
/// host's namespace is restored.
pub open spec fn delete_progress(
    netns: Seq<char>,
    ifname: Seq<char>,
    replies: Seq<netlink::ReplyView>,
    from: int,
) -> Progress<netlink::RequestView, Result<(), Seq<char>>> {
    if from >= replies.len() {
        Progress::Ask(netlink::RequestView::OpenHostNs)
    } else if let Some(t) = netlink::failure_of(replies[from]) {
        Progress::Done(Err(netlink::within("open host netns"@, t)), (from + 1) as usize)
    } else if from + 1 >= replies.len() {
        Progress::Ask(netlink::RequestView::OpenNetns(netns))
    } else if netlink::failure_of(replies[from + 1]) is Some {
        Progress::Done(Ok(()), (from + 2) as usize)
    } else if from + 2 >= replies.len() {
        Progress::Ask(netlink::RequestView::EnterNs)
    } else if let Some(t) = netlink::failure_of(replies[from + 2]) {
        Progress::Done(Err(netlink::within("setns into container"@, t)), (from + 3) as usize)
    } else if from + 3 >= replies.len() {
        Progress::Ask(netlink::RequestView::StartRuntime)
    } else if let Some(t) = netlink::failure_of(replies[from + 3]) {
        Progress::Done(Err(t), (from + 4) as usize)
    } else if from + 4 >= replies.len() {
        Progress::Ask(netlink::RequestView::Connect)
    } else if netlink::failure_of(replies[from + 4]) is Some {
        leave(replies, from + 5)
    } else if from + 5 >= replies.len() {
        Progress::Ask(netlink::RequestView::FindLink(ifname))
    } else {
        match netlink::index_of(replies[from + 5]) {
            Ok(Some(idx)) => if from + 6 >= replies.len() {
                Progress::Ask(netlink::RequestView::DeleteLink(idx))
            } else {
                leave(replies, from + 7)
            },
            _ => leave(replies, from + 6),
        }
    }
}

/// Going back to the host's namespace, whatever comes of it.
pub open spec fn leave(replies: Seq<netlink::ReplyView>, from: int) -> Progress<
    netlink::RequestView,
    Result<(), Seq<char>>,
> {
    if from >= replies.len() {
        Progress::Ask(netlink::RequestView::LeaveNs)
    } else {
        Progress::Done(Ok(()), (from + 1) as usize)
    }
}

fn leave_ns(replies: &Vec<Reply>, from: usize) -> (p: Progress<Request, Result<(), String>>)
    ensures
        hostns::net_view(p, |u: ()| u) == leave(netlink::reply_views(replies@), from as int),
{
    if from >= replies.len() {
        Progress::Ask(Request::LeaveNs)
    } else {
        Progress::Done(Ok(()), from + 1)
    }
}

/// Deletes a container's link, which removes the pair.
pub fn delete_container_iface(
    netns_path: &str,
    ifname: &str,
    replies: &Vec<Reply>,
    from: usize,
) -> (p: Progress<Request, Result<(), String>>)
    ensures
        hostns::net_view(p, |u: ()| u) == delete_progress(
            netns_path@,
            ifname@,
            netlink::reply_views(replies@),
            from as int,
        ),
{
    let ghost views = netlink::reply_views(replies@);
    if from >= replies.len() {
        return Progress::Ask(Request::OpenHostNs);
    }
    assert(views[from as int] == replies@[from as int]@);
    if let Some(t) = netlink::failure(&replies[from]) {
        return Progress::Done(Err(netlink::in_context("open host netns", t.as_str())), from + 1);
    }
    if from + 1 >= replies.len() {
        return Progress::Ask(Request::OpenNetns(netns_path.to_owned()));
    }
    assert(views[from + 1] == replies@[from + 1]@);
    if netlink::failure(&replies[from + 1]).is_some() {
        return Progress::Done(Ok(()), from + 2);
    }
    if from + 2 >= replies.len() {
        return Progress::Ask(Request::EnterNs);
    }
    assert(views[from + 2] == replies@[from + 2]@);
    if let Some(t) = netlink::failure(&replies[from + 2]) {
        return Progress::Done(
            Err(netlink::in_context("setns into container", t.as_str())),
            from + 3,
        );
    }
    if from + 3 >= replies.len() {
        return Progress::Ask(Request::StartRuntime);
    }
    assert(views[from + 3] == replies@[from + 3]@);
    if let Some(t) = netlink::failure(&replies[from + 3]) {
        return Progress::Done(Err(t), from + 4);
    }
    if from + 4 >= replies.len() {
        return Progress::Ask(Request::Connect);
    }
    assert(views[from + 4] == replies@[from + 4]@);
    if netlink::failure(&replies[from + 4]).is_some() {
        return leave_ns(replies, from + 5);
    }
    if from + 5 >= replies.len() {
        return Progress::Ask(Request::FindLink(ifname.to_owned()));
    }
    assert(views[from + 5] == replies@[from + 5]@);
    match netlink::link_index(&replies[from + 5]) {
        Ok(Some(idx)) => if from + 6 >= replies.len() {
            Progress::Ask(Request::DeleteLink(idx))
        } else {
            leave_ns(replies, from + 7)
        },
        _ => leave_ns(replies, from + 6),
    }
}

/// What comes of configuring a container's link depends on the answers up to
/// the position that it ends at.
pub proof fn lemma_container_stable(
    netns: Seq<char>,
    temp: Seq<char>,
    ifname: Seq<char>,
    p: plan::PlanView,
    default: bool,
    replies: Seq<netlink::ReplyView>,
    from: int,
    k: int,
)
    requires
        0 <= from,
        replies.len() <= usize::MAX,
        container_progress(
            netns,
            temp,
            ifname,
            p,
            default,
            replies,
            from,
        ) matches Progress::Done(_, next) && next <= k <= replies.len(),
    ensures
        container_progress(netns, temp, ifname, p, default, replies.take(k), from)
            == container_progress(netns, temp, ifname, p, default, replies, from),
        container_progress(netns, temp, ifname, p, default, replies, from)->Done_1 > from,
{
    let cut = replies.take(k);
    if from + 3 < replies.len() && netlink::failure_of(replies[from]) is None
        && netlink::failure_of(replies[from + 1]) is None && netlink::failure_of(replies[from + 2])
        is None && netlink::failure_of(replies[from + 3]) is None {
        let c = configure_progress(temp, ifname, p, default, replies, from + 4);
        assert(c is Done);
        assert(configure_progress(temp, ifname, p, default, cut, from + 4) == c);
    }
}

} // verus!
