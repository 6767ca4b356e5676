//! What adding a container to the bridge is for: the container gets a link that
//! leads to the bridge, with its address and its routes.

use vstd::prelude::*;

use crate::cni::delegate;
use crate::cni::env;
use crate::cni::result;
use crate::cni_bridge::command;
use crate::cni_bridge::config;
use crate::cni_bridge::contns;
use crate::cni_bridge::hostns;
use crate::cni_bridge::plan;
use crate::ipv4;
use crate::netlink;
use crate::netlink::RouteSpec;
use crate::number;
use crate::progress::Progress;
use crate::text;

verus! {

/// The run of an addition: what it is about, and what it was answered.
pub struct Run {
    pub args: env::ArgsView,
    pub conf: config::ConfView,
    pub stdin: Seq<char>,
    pub replies: Seq<netlink::ReplyView>,
    pub answers: Seq<delegate::AnswerView>,
}

/// What comes of a run.
pub open spec fn outcome(r: Run) -> command::Step {
    command::add_progress(r.args, r.conf, r.stdin, r.replies, r.answers)
}

/// What a run comes to after the kernel's first `k` answers.
pub open spec fn outcome_at(r: Run, k: int) -> command::Step {
    command::add_progress(r.args, r.conf, r.stdin, r.replies.take(k), r.answers)
}

/// Whether the answer at `k` is that to the request `q`.
pub open spec fn asks(r: Run, k: int, q: netlink::RequestView) -> bool {
    0 <= k < r.replies.len() && outcome_at(r, k) == Progress::<
        command::QuestionView,
        Result<Seq<char>, crate::cni::error::ErrorView>,
    >::Ask(command::QuestionView::Net(q))
}

/// Whether an answer says that something went wrong.
pub open spec fn went_wrong(a: netlink::ReplyView) -> bool {
    a is Failed || a is Refused
}

/// Whether the request `q` was answered with success.
pub open spec fn granted(r: Run, k: int, q: netlink::RequestView) -> bool {
    asks(r, k, q) && !went_wrong(r.replies[k])
}

/// Whether a link was looked for by its name and has that index.
pub open spec fn found(r: Run, k: int, name: Seq<char>, idx: u32) -> bool {
    asks(r, k, netlink::RequestView::FindLink(name)) && r.replies[k] == netlink::ReplyView::Link(
        Some(idx),
    )
}

/// The links of a container's connection, and when the run was in the
/// container's namespace and began to ask for routes.
pub struct Wiring {
    pub bridge: u32,
    pub host: u32,
    pub peer: u32,
    pub link: u32,
    pub enter: int,
    pub routes: int,
    pub leave: int,
}

/// The gateway that a result gives its first address.
pub open spec fn has_gateway(res: result::ResultView, gateway: Option<u32>) -> bool {
    match res.ips[0].gateway {
        Some(g) => gateway is Some && ipv4::address(g) == gateway,
        None => gateway is None,
    }
}

/// Whether a route is one for exactly the addresses that a text stands for,
/// through the gateway.
pub open spec fn leads_to(route: RouteSpec, dst: Seq<char>, gateway: Option<u32>, link: u32) -> bool {
    &&& route.oif == link && route.gateway == gateway && !route.onlink
    &&& forall|net: ipv4::NetView, ip: u32| #[trigger]
        ipv4::names(dst, net) ==> (#[trigger] ipv4::routed_by(route.dst, route.prefix, ip)
            <==> ipv4::contains(net, ip))
}

/// Whether a route is one for all addresses, through the gateway.
pub open spec fn leads_anywhere(route: RouteSpec, gateway: Option<u32>, link: u32) -> bool {
    &&& route.oif == link && route.gateway == gateway && !route.onlink
    &&& route.dst == 0 && route.prefix == 0
    &&& forall|ip: u32| #[trigger] ipv4::routed_by(route.dst, route.prefix, ip)
}

/// How many routes a container gets: those of the result, and one for all
/// addresses where the configuration asks for it and there is a gateway.
pub open spec fn route_count(c: config::ConfView, res: result::ResultView) -> int {
    res.routes.len() + if c.is_default_gateway && res.ips[0].gateway is Some {
        1int
    } else {
        0int
    }
}

/// The host's side of a connection: a pair of links was created, one end moved
/// into the container's namespace, the other made a port of the configured
/// bridge, and all of them brought up.
pub open spec fn joined_to_bridge(r: Run, w: Wiring, host: Seq<char>, temp: Seq<char>) -> bool {
    &&& exists|k: int| #[trigger] found(r, k, r.conf.bridge, w.bridge)
    &&& exists|k: int| #[trigger] granted(r, k, netlink::RequestView::SetUp(w.bridge))
    &&& exists|k: int| #[trigger] granted(r, k, netlink::RequestView::AddVeth(host, temp))
    &&& exists|k: int| #[trigger] found(r, k, host, w.host)
    &&& exists|k: int| k < w.enter && #[trigger] found(r, k, temp, w.peer)
    &&& exists|k: int|
        0 < k < w.enter && #[trigger] granted(r, k, netlink::RequestView::MoveToNetns(w.peer))
            && granted(r, k - 1, netlink::RequestView::OpenNetns(r.args.netns))
    &&& exists|k: int| k > w.leave && #[trigger] granted(r, k, netlink::RequestView::SetUp(w.host))
    &&& exists|k: int|
        k > w.leave && #[trigger] granted(
            r,
            k,
            netlink::RequestView::SetController(w.host, w.bridge),
        )
    &&& r.conf.mtu matches Some(m) ==> {
        &&& exists|k: int| #[trigger] asks(r, k, netlink::RequestView::SetMtu(w.bridge, m))
        &&& exists|k: int| #[trigger] asks(r, k, netlink::RequestView::SetMtu(w.host, m))
        &&& exists|k: int| #[trigger] asks(r, k, netlink::RequestView::SetMtu(w.peer, m))
    }
}

/// The container's side of a connection: between entering and leaving its
/// namespace the moved link was renamed as the invocation says, brought up and
/// given the first address of the result.
pub open spec fn set_up_inside(
    r: Run,
    res: result::ResultView,
    w: Wiring,
    temp: Seq<char>,
) -> bool {
    &&& granted(r, w.enter, netlink::RequestView::EnterNs)
    &&& granted(r, w.enter - 1, netlink::RequestView::OpenNetns(r.args.netns))
    &&& asks(r, w.leave, netlink::RequestView::LeaveNs)
    &&& w.enter < w.routes <= w.leave
    &&& exists|k: int| w.enter < k < w.routes && #[trigger] found(r, k, temp, w.link)
    &&& exists|k: int|
        w.enter < k < w.routes && #[trigger] granted(
            r,
            k,
            netlink::RequestView::Rename(w.link, r.args.ifname),
        )
    &&& exists|k: int|
        w.enter < k < w.routes && #[trigger] granted(r, k, netlink::RequestView::SetUp(w.link))
    &&& exists|k: int, a: u32, prefix: u8|
        w.enter < k < w.routes && #[trigger] granted(
            r,
            k,
            netlink::RequestView::AddAddress(w.link, a, prefix),
        ) && ipv4::names(res.ips[0].address, ipv4::NetView { addr: a, prefix })
}

/// Whether the answer at `k` is that to a request for a route to what a text
/// stands for.
pub open spec fn asks_route_to(
    r: Run,
    k: int,
    dst: Seq<char>,
    gateway: Option<u32>,
    link: u32,
) -> bool {
    exists|route: RouteSpec| #[trigger]
        asks(r, k, netlink::RequestView::AddRoute(route)) && leads_to(route, dst, gateway, link)
}

/// Whether each route of the result was asked for, for exactly the addresses that
/// it names and through the gateway, and then, where the configuration asks for a
/// default route and there is a gateway, one for all addresses.
pub open spec fn routes_through(
    r: Run,
    res: result::ResultView,
    w: Wiring,
    gateway: Option<u32>,
) -> bool {
    &&& forall|i: int|
        0 <= i < res.routes.len() ==> asks_route_to(
            r,
            w.routes + i,
            (#[trigger] res.routes[i]).dst,
            gateway,
            w.link,
        )
    &&& r.conf.is_default_gateway && gateway is Some ==> exists|route: RouteSpec| #[trigger]
        asks(r, w.leave - 1, netlink::RequestView::AddRoute(route)) && leads_anywhere(
            route,
            gateway,
            w.link,
        )
}

/// The routes of a container: they are asked for one after the other, inside the
/// namespace and nowhere else. First come those of the result, through the
/// gateway; where the configuration asks for a default route and there is a
/// gateway, it comes last; otherwise there is none beside those of the result.
pub open spec fn routed(r: Run, res: result::ResultView, w: Wiring) -> bool {
    &&& w.leave == w.routes + route_count(r.conf, res)
    &&& forall|k: int, route: RouteSpec| #[trigger]
        asks(r, k, netlink::RequestView::AddRoute(route)) ==> w.routes <= k < w.leave
    &&& exists|gateway: Option<u32>| #[trigger]
        has_gateway(res, gateway) && routes_through(r, res, w, gateway)
}

// ---------------------------------------------------------------------------
// The parts of a run
// ---------------------------------------------------------------------------

proof fn lemma_take(replies: Seq<netlink::ReplyView>, n: int)
    requires
        0 <= n <= replies.len(),
    ensures
        forall|k: int, i: int|
            0 <= i < k <= replies.len() ==> (#[trigger] replies.take(k))[i] == #[trigger] replies[i],
        forall|k: int| 0 <= k <= replies.len() ==> (#[trigger] replies.take(k)).len() == k,
{
}

/// What configuring the container's link asks for, answer by answer.
proof fn lemma_container_asks(
    netns: Seq<char>,
    temp: Seq<char>,
    ifname: Seq<char>,
    p: plan::PlanView,
    default: bool,
    replies: Seq<netlink::ReplyView>,
    m: int,
) -> (idx: u32)
    requires
        0 <= m,
        replies.len() <= usize::MAX,
        contns::container_progress(netns, temp, ifname, p, default, replies, m) matches
            Progress::Done(Ok(_), next) && next <= replies.len(),
    ensures
        ({
            let routes = contns::wanted_routes(p, default, idx);
            let end = m + 9 + routes.len();
            let at = |k: int|
                contns::container_progress(
                    netns,
                    temp,
                    ifname,
                    p,
                    default,
                    replies.take(k),
                    m,
                );
            &&& contns::container_progress(netns, temp, ifname, p, default, replies, m)->Done_1
                == end + 1
            &&& end < replies.len()
            &&& at(m) == asking(netlink::RequestView::OpenHostNs)
            &&& at(m + 1) == asking(netlink::RequestView::OpenNetns(netns))
            &&& !went_wrong(replies[m + 1])
            &&& at(m + 2) == asking(netlink::RequestView::EnterNs)
            &&& !went_wrong(replies[m + 2])
            &&& at(m + 3) == asking(netlink::RequestView::StartRuntime)
            &&& at(m + 4) == asking(netlink::RequestView::Connect)
            &&& at(m + 5) == asking(netlink::RequestView::FindLink(temp))
            &&& replies[m + 5] == netlink::ReplyView::Link(Some(idx))
            &&& at(m + 6) == asking(netlink::RequestView::Rename(idx, ifname))
            &&& !went_wrong(replies[m + 6])
            &&& at(m + 7) == asking(netlink::RequestView::SetUp(idx))
            &&& !went_wrong(replies[m + 7])
            &&& at(m + 8) == asking(netlink::RequestView::AddAddress(idx, p.addr, p.prefix))
            &&& !went_wrong(replies[m + 8])
            &&& forall|k: int|
                m + 9 <= k < end ==> #[trigger] at(k) == asking(
                    netlink::RequestView::AddRoute(routes[k - m - 9]),
                )
            &&& at(end) == asking(netlink::RequestView::LeaveNs)
        }),
{
    let idx = netlink::index_of(replies[m + 5])->Ok_0->0;
    let routes = contns::wanted_routes(p, default, idx);
    let end = m + 9 + routes.len();
    lemma_take(replies, 0);
    let inner = contns::configure_progress(temp, ifname, p, default, replies, m + 4);
    assert(inner is Done);
    assert(inner->Done_1 == end);
    assert forall|k: int| m + 9 <= k <= end implies #[trigger] contns::configure_progress(
        temp,
        ifname,
        p,
        default,
        replies.take(k),
        m + 4,
    ) == contns::routes_progress(routes, replies.take(k), m + 9) by {
        let cut = replies.take(k);
        assert(cut[m + 4] == replies[m + 4] && cut[m + 5] == replies[m + 5] && cut[m + 6]
            == replies[m + 6] && cut[m + 7] == replies[m + 7] && cut[m + 8] == replies[m + 8]);
    }
    assert forall|k: int| m + 9 <= k <= end implies #[trigger] contns::container_progress(
        netns,
        temp,
        ifname,
        p,
        default,
        replies.take(k),
        m,
    ) == (if k < end {
        asking(netlink::RequestView::AddRoute(routes[k - m - 9]))
    } else {
        asking(netlink::RequestView::LeaveNs)
    }) by {
        let cut = replies.take(k);
        assert(cut[m] == replies[m] && cut[m + 1] == replies[m + 1] && cut[m + 2] == replies[m + 2]
            && cut[m + 3] == replies[m + 3]);
        assert(contns::configure_progress(temp, ifname, p, default, cut, m + 4)
            == contns::routes_progress(routes, cut, m + 9));
    }
    let t1 = replies.take(m + 1);
    let t2 = replies.take(m + 2);
    let t3 = replies.take(m + 3);
    let t4 = replies.take(m + 4);
    let t5 = replies.take(m + 5);
    let t6 = replies.take(m + 6);
    let t7 = replies.take(m + 7);
    let t8 = replies.take(m + 8);
    assert(t1[m] == replies[m]);
    assert(t2[m] == replies[m] && t2[m + 1] == replies[m + 1]);
    assert(t3[m] == replies[m] && t3[m + 1] == replies[m + 1] && t3[m + 2] == replies[m + 2]);
    assert(t4[m] == replies[m] && t4[m + 1] == replies[m + 1] && t4[m + 2] == replies[m + 2] && t4[m
        + 3] == replies[m + 3]);
    assert(t5[m] == replies[m] && t5[m + 1] == replies[m + 1] && t5[m + 2] == replies[m + 2] && t5[m
        + 3] == replies[m + 3] && t5[m + 4] == replies[m + 4]);
    assert(t6[m] == replies[m] && t6[m + 1] == replies[m + 1] && t6[m + 2] == replies[m + 2] && t6[m
        + 3] == replies[m + 3] && t6[m + 4] == replies[m + 4] && t6[m + 5] == replies[m + 5]);
    assert(t7[m] == replies[m] && t7[m + 1] == replies[m + 1] && t7[m + 2] == replies[m + 2] && t7[m
        + 3] == replies[m + 3] && t7[m + 4] == replies[m + 4] && t7[m + 5] == replies[m + 5] && t7[m
        + 6] == replies[m + 6]);
    assert(t8[m] == replies[m] && t8[m + 1] == replies[m + 1] && t8[m + 2] == replies[m + 2] && t8[m
        + 3] == replies[m + 3] && t8[m + 4] == replies[m + 4] && t8[m + 5] == replies[m + 5] && t8[m
        + 6] == replies[m + 6] && t8[m + 7] == replies[m + 7]);
    idx
}

/// A request of the container's side.
spec fn asking(q: netlink::RequestView) -> Progress<netlink::RequestView, Result<(), Seq<char>>> {
    Progress::Ask(q)
}

/// What making sure of the bridge asks for.
proof fn lemma_bridge_asks(
    name: Seq<char>,
    mtu: Option<u32>,
    replies: Seq<netlink::ReplyView>,
    from: int,
) -> (at: int)
    requires
        0 <= from,
        replies.len() <= usize::MAX,
        hostns::bridge_progress(name, mtu, replies, from) matches Progress::Done(Ok(_), next)
            && next <= replies.len(),
    ensures
        ({
            let idx = hostns::bridge_progress(name, mtu, replies, from)->Done_0->Ok_0;
            let next = hostns::bridge_progress(name, mtu, replies, from)->Done_1 as int;
            let part = |k: int| hostns::bridge_progress(name, mtu, replies.take(k), from);
            &&& from <= at < next - 1
            &&& part(at) matches Progress::Ask(q) && q == netlink::RequestView::FindLink(name)
            &&& replies[at] == netlink::ReplyView::Link(Some(idx))
            &&& part(next - 1) matches Progress::Ask(q) && q == netlink::RequestView::SetUp(idx)
            &&& !went_wrong(replies[next - 1])
            &&& mtu matches Some(m) ==> (part(next - 2) matches Progress::Ask(q) && q
                == netlink::RequestView::SetMtu(idx, m) && from <= next - 2)
            &&& forall|k: int|
                from <= k < next ==> (#[trigger] part(k) matches Progress::Ask(q) && !(
                q is AddRoute) && !(q is EnableForwarding))
        }),
{
    lemma_take(replies, 0);
    assert(replies.take(from).len() == from);
    let t1 = replies.take(from + 1);
    assert(t1[from] == replies[from]);
    if netlink::index_of(replies[from])->Ok_0 is Some {
        if mtu is Some {
            let t2 = replies.take(from + 2);
            assert(t2[from] == replies[from]);
        }
        from
    } else {
        let t2 = replies.take(from + 2);
        let t3 = replies.take(from + 3);
        assert(t2[from] == replies[from] && t2[from + 1] == replies[from + 1]);
        assert(t3[from] == replies[from] && t3[from + 1] == replies[from + 1] && t3[from + 2]
            == replies[from + 2]);
        if mtu is Some {
            let t4 = replies.take(from + 4);
            assert(t4[from] == replies[from] && t4[from + 1] == replies[from + 1] && t4[from + 2]
                == replies[from + 2]);
        }
        from + 2
    }
}

/// What creating the pair of links asks for.
proof fn lemma_veth_asks(
    host: Seq<char>,
    peer: Seq<char>,
    mtu: Option<u32>,
    replies: Seq<netlink::ReplyView>,
    from: int,
)
    requires
        0 <= from,
        replies.len() <= usize::MAX,
        hostns::veth_progress(host, peer, mtu, replies, from) matches Progress::Done(Ok(_), next)
            && next <= replies.len(),
    ensures
        ({
            let (h, p) = hostns::veth_progress(host, peer, mtu, replies, from)->Done_0->Ok_0;
            let next = hostns::veth_progress(host, peer, mtu, replies, from)->Done_1 as int;
            let part = |k: int| hostns::veth_progress(host, peer, mtu, replies.take(k), from);
            &&& from + 3 <= next
            &&& part(from) matches Progress::Ask(q) && q == netlink::RequestView::AddVeth(
                host,
                peer,
            )
            &&& !went_wrong(replies[from])
            &&& part(from + 1) matches Progress::Ask(q) && q == netlink::RequestView::FindLink(host)
            &&& replies[from + 1] == netlink::ReplyView::Link(Some(h))
            &&& part(from + 2) matches Progress::Ask(q) && q == netlink::RequestView::FindLink(peer)
            &&& replies[from + 2] == netlink::ReplyView::Link(Some(p))
            &&& mtu matches Some(m) ==> next == from + 5 && (part(from + 3) matches Progress::Ask(q)
                && q == netlink::RequestView::SetMtu(h, m)) && (part(from + 4) matches
                Progress::Ask(q) && q == netlink::RequestView::SetMtu(p, m))
            &&& forall|k: int|
                from <= k < next ==> (#[trigger] part(k) matches Progress::Ask(q) && !(
                q is AddRoute) && !(q is EnableForwarding))
        }),
{
    lemma_take(replies, 0);
    assert(replies.take(from).len() == from);
    let t1 = replies.take(from + 1);
    let t2 = replies.take(from + 2);
    assert(t1[from] == replies[from]);
    assert(t2[from] == replies[from] && t2[from + 1] == replies[from + 1]);
    if mtu is Some {
        let t3 = replies.take(from + 3);
        let t4 = replies.take(from + 4);
        assert(t3[from] == replies[from] && t3[from + 1] == replies[from + 1] && t3[from + 2]
            == replies[from + 2]);
        assert(t4[from] == replies[from] && t4[from + 1] == replies[from + 1] && t4[from + 2]
            == replies[from + 2]);
    }
}

proof fn lemma_destination(res: result::ResultView, i: int)
    requires
        plan::destinations(res.routes) is Ok,
        0 <= i < res.routes.len(),
    ensures
        plan::destinations(res.routes)->Ok_0.len() == res.routes.len(),
        ipv4::names(res.routes[i].dst, plan::destinations(res.routes)->Ok_0[i]),
    decreases res.routes.len(),
{
    reveal_with_fuel(plan::destinations, 2);
    let cut = result::ResultView { routes: res.routes.drop_last(), ..res };
    if cut.routes.len() > 0 {
        lemma_destination(cut, if i < cut.routes.len() { i } else { 0 });
    }
    if i < cut.routes.len() {
        assert(cut.routes[i] == res.routes[i]);
    }
}

proof fn lemma_no_routes(res: result::ResultView)
    requires
        plan::destinations(res.routes) is Ok,
    ensures
        plan::destinations(res.routes)->Ok_0.len() == res.routes.len(),
{
    if res.routes.len() > 0 {
        lemma_destination(res, 0);
    }
}

/// The parts of a run that succeeded, with the positions at which they begin.
struct Parts {
    pub res: result::ResultView,
    pub p: plan::PlanView,
    pub bridge: u32,
    pub host: u32,
    pub peer: u32,
    pub veth: int,
    pub connect: int,
    pub attach: int,
    pub gate: int,
}

spec fn parts_of(r: Run) -> Parts {
    let bridge = hostns::bridge_progress(r.conf.bridge, r.conf.mtu, r.replies, 1);
    let veth = bridge->Done_1 as int;
    let out = delegate::delegation(r.conf.ipam, r.args, r.stdin, r.answers, 0)->Done_0->Ok_0;
    let (res, p) = command::ipam_outcome(out)->Ok_0;
    let pair = hostns::veth_progress(
        plan::host_name(r.args.container_id),
        plan::temp_name(r.args.container_id),
        r.conf.mtu,
        r.replies,
        veth,
    );
    let connect = pair->Done_1 as int;
    let inside = contns::container_progress(
        r.args.netns,
        plan::temp_name(r.args.container_id),
        r.args.ifname,
        p,
        r.conf.is_default_gateway,
        r.replies,
        connect + 2,
    );
    let attach = inside->Done_1 as int;
    Parts {
        res,
        p,
        bridge: bridge->Done_0->Ok_0,
        host: pair->Done_0->Ok_0.0,
        peer: pair->Done_0->Ok_0.1,
        veth,
        connect,
        attach,
        gate: attach + 2,
    }
}

spec fn step(q: netlink::RequestView) -> command::Step {
    Progress::Ask(command::QuestionView::Net(q))
}

/// A run that succeeded went through its parts one after the other.
proof fn lemma_parts(r: Run)
    requires
        r.replies.len() <= usize::MAX,
        outcome(r) matches Progress::Done(Ok(_), n) && n <= r.replies.len(),
    ensures
        ({
            let x = parts_of(r);
            let temp = plan::temp_name(r.args.container_id);
            let s = outcome(r)->Done_0->Ok_0;
            &&& result::result(s) == Ok::<result::ResultView, crate::decode::Fault>(x.res)
            &&& plan::plan_of(x.res) == Ok::<plan::PlanView, Seq<char>>(x.p)
            &&& 1 < x.veth < x.connect < x.connect + 2 < x.attach < x.gate <= r.replies.len()
            &&& hostns::bridge_progress(r.conf.bridge, r.conf.mtu, r.replies, 1) == Progress::<
                netlink::RequestView,
                Result<u32, Seq<char>>,
            >::Done(Ok(x.bridge), x.veth as usize)
            &&& hostns::veth_progress(
                plan::host_name(r.args.container_id),
                temp,
                r.conf.mtu,
                r.replies,
                x.veth,
            ) == Progress::<netlink::RequestView, Result<(u32, u32), Seq<char>>>::Done(
                Ok((x.host, x.peer)),
                x.connect as usize,
            )
            &&& contns::container_progress(
                r.args.netns,
                temp,
                r.args.ifname,
                x.p,
                r.conf.is_default_gateway,
                r.replies,
                x.connect + 2,
            ) == Progress::<netlink::RequestView, Result<(), Seq<char>>>::Done(
                Ok(()),
                x.attach as usize,
            )
            &&& !went_wrong(r.replies[x.connect])
            &&& !went_wrong(r.replies[x.connect + 1])
            &&& !went_wrong(r.replies[x.attach])
            &&& !went_wrong(r.replies[x.attach + 1])
            &&& outcome(r) == command::gate_progress(
                r.conf,
                x.res,
                s,
                x.bridge,
                r.replies,
                x.gate,
            )
        }),
{
    let x = parts_of(r);
    let bridge = hostns::bridge_progress(r.conf.bridge, r.conf.mtu, r.replies, 1);
    assert(bridge is Done);
    let at = lemma_bridge_asks(r.conf.bridge, r.conf.mtu, r.replies, 1);
    lemma_veth_asks(
        plan::host_name(r.args.container_id),
        plan::temp_name(r.args.container_id),
        r.conf.mtu,
        r.replies,
        x.veth,
    );
}

/// Before the connection: the bridge, then the pair of links.
proof fn lemma_first_phases(r: Run, k: int)
    requires
        r.replies.len() <= usize::MAX,
        outcome(r) matches Progress::Done(Ok(_), n) && n <= r.replies.len(),
        0 <= k < parts_of(r).connect,
    ensures
        ({
            let x = parts_of(r);
            let cut = r.replies.take(k);
            let now = outcome_at(r, k);
            let bridge = hostns::bridge_progress(r.conf.bridge, r.conf.mtu, cut, 1);
            let veth = hostns::veth_progress(
                plan::host_name(r.args.container_id),
                plan::temp_name(r.args.container_id),
                r.conf.mtu,
                cut,
                x.veth,
            );
            &&& k == 0 ==> now == step(netlink::RequestView::Connect)
            &&& 1 <= k < x.veth ==> bridge is Ask && now == step(bridge->Ask_0)
            &&& x.veth <= k ==> veth is Ask && now == step(veth->Ask_0)
        }),
{
    lemma_parts(r);
    let x = parts_of(r);
    let cut = r.replies.take(k);
    let host = plan::host_name(r.args.container_id);
    let temp = plan::temp_name(r.args.container_id);
    if k > 0 {
        assert(cut[0] == r.replies[0]);
    }
    if 1 <= k < x.veth {
        let at = lemma_bridge_asks(r.conf.bridge, r.conf.mtu, r.replies, 1);
        let part = |j: int|
            hostns::bridge_progress(r.conf.bridge, r.conf.mtu, r.replies.take(j), 1);
        assert(part(k) is Ask);
    }
    if k >= x.veth {
        hostns::lemma_bridge_stable(r.conf.bridge, r.conf.mtu, r.replies, 1, k);
        lemma_veth_asks(host, temp, r.conf.mtu, r.replies, x.veth);
        let part = |j: int|
            hostns::veth_progress(host, temp, r.conf.mtu, r.replies.take(j), x.veth);
        assert(part(k) is Ask);
    }
}

/// From the connection on, a run is what the connection comes to.
proof fn lemma_connects(r: Run, k: int)
    requires
        r.replies.len() <= usize::MAX,
        outcome(r) matches Progress::Done(Ok(_), n) && n <= r.replies.len(),
        parts_of(r).connect <= k <= r.replies.len(),
    ensures
        ({
            let x = parts_of(r);
            outcome_at(r, k) == command::connect_progress(
                r.args,
                r.conf,
                x.res,
                x.p,
                outcome(r)->Done_0->Ok_0,
                x.bridge,
                x.host,
                x.peer,
                r.replies.take(k),
                x.connect,
            )
        }),
{
    lemma_parts(r);
    let x = parts_of(r);
    let cut = r.replies.take(k);
    assert(cut[0] == r.replies[0]);
    hostns::lemma_bridge_stable(r.conf.bridge, r.conf.mtu, r.replies, 1, k);
    hostns::lemma_veth_stable(
        plan::host_name(r.args.container_id),
        plan::temp_name(r.args.container_id),
        r.conf.mtu,
        r.replies,
        x.veth,
        k,
    );
}

spec fn inside(r: Run, k: int) -> Progress<netlink::RequestView, Result<(), Seq<char>>> {
    let x = parts_of(r);
    contns::container_progress(
        r.args.netns,
        plan::temp_name(r.args.container_id),
        r.args.ifname,
        x.p,
        r.conf.is_default_gateway,
        r.replies.take(k),
        x.connect + 2,
    )
}

spec fn link_of(r: Run) -> u32 {
    netlink::index_of(r.replies[parts_of(r).connect + 7])->Ok_0->0
}

/// What is asked inside the container's namespace.
proof fn lemma_inside(r: Run)
    requires
        r.replies.len() <= usize::MAX,
        outcome(r) matches Progress::Done(Ok(_), n) && n <= r.replies.len(),
    ensures
        ({
            let x = parts_of(r);
            let m = x.connect + 2;
            let idx = link_of(r);
            let temp = plan::temp_name(r.args.container_id);
            let routes = contns::wanted_routes(x.p, r.conf.is_default_gateway, idx);
            let end = m + 9 + routes.len();
            &&& x.attach == end + 1
            &&& inside(r, m) == asking(netlink::RequestView::OpenHostNs)
            &&& inside(r, m + 1) == asking(netlink::RequestView::OpenNetns(r.args.netns))
            &&& !went_wrong(r.replies[m + 1])
            &&& inside(r, m + 2) == asking(netlink::RequestView::EnterNs)
            &&& !went_wrong(r.replies[m + 2])
            &&& inside(r, m + 3) == asking(netlink::RequestView::StartRuntime)
            &&& inside(r, m + 4) == asking(netlink::RequestView::Connect)
            &&& inside(r, m + 5) == asking(netlink::RequestView::FindLink(temp))
            &&& r.replies[m + 5] == netlink::ReplyView::Link(Some(idx))
            &&& inside(r, m + 6) == asking(netlink::RequestView::Rename(idx, r.args.ifname))
            &&& !went_wrong(r.replies[m + 6])
            &&& inside(r, m + 7) == asking(netlink::RequestView::SetUp(idx))
            &&& !went_wrong(r.replies[m + 7])
            &&& inside(r, m + 8) == asking(
                netlink::RequestView::AddAddress(idx, x.p.addr, x.p.prefix),
            )
            &&& !went_wrong(r.replies[m + 8])
            &&& forall|k: int|
                m + 9 <= k < end ==> #[trigger] inside(r, k) == asking(
                    netlink::RequestView::AddRoute(routes[k - m - 9]),
                )
            &&& inside(r, end) == asking(netlink::RequestView::LeaveNs)
        }),
{
    lemma_parts(r);
    let x = parts_of(r);
    let m = x.connect + 2;
    let temp = plan::temp_name(r.args.container_id);
    let idx = lemma_container_asks(
        r.args.netns,
        temp,
        r.args.ifname,
        x.p,
        r.conf.is_default_gateway,
        r.replies,
        m,
    );
    let at = |k: int|
        contns::container_progress(
            r.args.netns,
            temp,
            r.args.ifname,
            x.p,
            r.conf.is_default_gateway,
            r.replies.take(k),
            m,
        );
    assert(forall|k: int| #[trigger] inside(r, k) == at(k));
}

/// The connection: the container's end moves, is configured inside, and the
/// host's end becomes a port.
#[verifier::rlimit(40)]
proof fn lemma_last_phases(r: Run, k: int)
    requires
        r.replies.len() <= usize::MAX,
        outcome(r) matches Progress::Done(Ok(_), n) && n <= r.replies.len(),
        parts_of(r).connect <= k <= r.replies.len(),
    ensures
        ({
            let x = parts_of(r);
            let now = outcome_at(r, k);
            &&& k == x.connect ==> now == step(netlink::RequestView::OpenNetns(r.args.netns))
            &&& k == x.connect + 1 ==> now == step(netlink::RequestView::MoveToNetns(x.peer))
            &&& x.connect + 2 <= k < x.attach ==> inside(r, k) is Ask && now == step(
                inside(r, k)->Ask_0,
            )
            &&& k == x.attach ==> now == step(netlink::RequestView::SetUp(x.host))
            &&& k == x.attach + 1 ==> now == step(
                netlink::RequestView::SetController(x.host, x.bridge),
            )
            &&& k >= x.gate ==> now == command::gate_progress(
                r.conf,
                x.res,
                outcome(r)->Done_0->Ok_0,
                x.bridge,
                r.replies.take(k),
                x.gate,
            )
        }),
{
    lemma_parts(r);
    lemma_connects(r, k);
    let x = parts_of(r);
    let cut = r.replies.take(k);
    if k > x.connect {
        assert(cut[x.connect] == r.replies[x.connect]);
    }
    if k > x.connect + 1 {
        assert(cut[x.connect + 1] == r.replies[x.connect + 1]);
    }
    if x.connect + 2 <= k < x.attach {
        lemma_inside(r);
        assert(inside(r, k) is Ask) by {
            let m = x.connect + 2;
            if k < m + 9 {
                assert(k == m || k == m + 1 || k == m + 2 || k == m + 3 || k == m + 4 || k == m + 5
                    || k == m + 6 || k == m + 7 || k == m + 8);
            }
        }
    }
    if k >= x.attach {
        contns::lemma_container_stable(
            r.args.netns,
            plan::temp_name(r.args.container_id),
            r.args.ifname,
            x.p,
            r.conf.is_default_gateway,
            r.replies,
            x.connect + 2,
            k,
        );
    }
    if k > x.attach {
        assert(cut[x.attach] == r.replies[x.attach]);
    }
    if k > x.attach + 1 {
        assert(cut[x.attach + 1] == r.replies[x.attach + 1]);
    }
}

spec fn wiring_of(r: Run) -> Wiring {
    let x = parts_of(r);
    let m = x.connect + 2;
    Wiring {
        bridge: x.bridge,
        host: x.host,
        peer: x.peer,
        link: link_of(r),
        enter: m + 2,
        routes: m + 9,
        leave: m + 9 + contns::wanted_routes(x.p, r.conf.is_default_gateway, link_of(r)).len(),
    }
}

// ---------------------------------------------------------------------------
// Laws
// ---------------------------------------------------------------------------

proof fn lemma_route_serves(n: ipv4::NetView, dst: Seq<char>, gateway: Option<u32>, link: u32)
    requires
        ipv4::names(dst, n),
    ensures
        leads_to(contns::route_to(n, gateway, link), dst, gateway, link),
{
    let route = contns::route_to(n, gateway, link);
    assert forall|net: ipv4::NetView, ip: u32| #[trigger] ipv4::names(dst, net) implies (#[trigger]
    ipv4::routed_by(route.dst, route.prefix, ip) <==> ipv4::contains(net, ip)) by {
        ipv4::lemma_prefix(dst, net);
        ipv4::lemma_routed_by(net, ip);
    }
}

proof fn lemma_default_serves(gateway: Option<u32>, link: u32)
    ensures
        leads_anywhere(
            (RouteSpec { dst: 0, prefix: 0, gateway, oif: link, onlink: false }),
            gateway,
            link,
        ),
{
    vstd::arithmetic::power2::lemma2_to64();
    assert forall|ip: u32| #[trigger] ipv4::routed_by(0, 0, ip) by {
        assert(vstd::arithmetic::power2::pow2(32) == 0x1_0000_0000);
        assert(ip as int / 0x1_0000_0000 == 0);
    }
}

proof fn lemma_joined(r: Run)
    requires
        r.replies.len() <= usize::MAX,
        outcome(r) matches Progress::Done(Ok(_), n) && n <= r.replies.len(),
    ensures
        joined_to_bridge(
            r,
            wiring_of(r),
            plan::host_name(r.args.container_id),
            plan::temp_name(r.args.container_id),
        ),
{
    lemma_parts(r);
    let x = parts_of(r);
    let w = wiring_of(r);
    let host = plan::host_name(r.args.container_id);
    let temp = plan::temp_name(r.args.container_id);
    let m = x.connect + 2;
    let at = lemma_bridge_asks(r.conf.bridge, r.conf.mtu, r.replies, 1);
    lemma_veth_asks(host, temp, r.conf.mtu, r.replies, x.veth);
    assert(found(r, at, r.conf.bridge, w.bridge)) by {
        lemma_first_phases(r, at);
    }
    assert(granted(r, x.veth - 1, netlink::RequestView::SetUp(w.bridge))) by {
        lemma_first_phases(r, x.veth - 1);
    }
    assert(granted(r, x.veth, netlink::RequestView::AddVeth(host, temp))) by {
        lemma_first_phases(r, x.veth);
    }
    assert(found(r, x.veth + 1, host, w.host)) by {
        lemma_first_phases(r, x.veth + 1);
    }
    assert(found(r, x.veth + 2, temp, w.peer)) by {
        lemma_first_phases(r, x.veth + 2);
    }
    if let Some(mtu) = r.conf.mtu {
        assert(asks(r, x.veth - 2, netlink::RequestView::SetMtu(w.bridge, mtu))) by {
            lemma_first_phases(r, x.veth - 2);
        }
        assert(asks(r, x.veth + 3, netlink::RequestView::SetMtu(w.host, mtu))) by {
            lemma_first_phases(r, x.veth + 3);
        }
        assert(asks(r, x.veth + 4, netlink::RequestView::SetMtu(w.peer, mtu))) by {
            lemma_first_phases(r, x.veth + 4);
        }
    }
    assert(granted(r, x.connect, netlink::RequestView::OpenNetns(r.args.netns))) by {
        lemma_last_phases(r, x.connect);
    }
    assert(granted(r, x.connect + 1, netlink::RequestView::MoveToNetns(w.peer))) by {
        lemma_last_phases(r, x.connect + 1);
    }
    assert(w.leave < x.attach) by {
        lemma_inside(r);
    }
    assert(granted(r, x.attach, netlink::RequestView::SetUp(w.host))) by {
        lemma_last_phases(r, x.attach);
    }
    assert(granted(r, x.attach + 1, netlink::RequestView::SetController(w.host, w.bridge))) by {
        lemma_last_phases(r, x.attach + 1);
    }
}

proof fn lemma_set_up(r: Run)
    requires
        r.replies.len() <= usize::MAX,
        outcome(r) matches Progress::Done(Ok(_), n) && n <= r.replies.len(),
    ensures
        set_up_inside(
            r,
            parts_of(r).res,
            wiring_of(r),
            plan::temp_name(r.args.container_id),
        ),
{
    lemma_parts(r);
    lemma_inside(r);
    let x = parts_of(r);
    let w = wiring_of(r);
    let temp = plan::temp_name(r.args.container_id);
    let m = x.connect + 2;
    assert(granted(r, m + 1, netlink::RequestView::OpenNetns(r.args.netns))) by {
        lemma_last_phases(r, m + 1);
    }
    assert(granted(r, m + 2, netlink::RequestView::EnterNs)) by {
        lemma_last_phases(r, m + 2);
    }
    assert(found(r, m + 5, temp, w.link)) by {
        lemma_last_phases(r, m + 5);
    }
    assert(granted(r, m + 6, netlink::RequestView::Rename(w.link, r.args.ifname))) by {
        lemma_last_phases(r, m + 6);
    }
    assert(granted(r, m + 7, netlink::RequestView::SetUp(w.link))) by {
        lemma_last_phases(r, m + 7);
    }
    assert(granted(r, m + 8, netlink::RequestView::AddAddress(w.link, x.p.addr, x.p.prefix))) by {
        lemma_last_phases(r, m + 8);
    }
    assert(asks(r, w.leave, netlink::RequestView::LeaveNs)) by {
        lemma_last_phases(r, w.leave);
    }
}

proof fn lemma_routes_inside(r: Run, k: int, route: RouteSpec)
    requires
        r.replies.len() <= usize::MAX,
        outcome(r) matches Progress::Done(Ok(_), n) && n <= r.replies.len(),
        asks(r, k, netlink::RequestView::AddRoute(route)),
    ensures
        wiring_of(r).routes <= k < wiring_of(r).leave,
{
    lemma_parts(r);
    let x = parts_of(r);
    let m = x.connect + 2;
    let host = plan::host_name(r.args.container_id);
    let temp = plan::temp_name(r.args.container_id);
    if k < x.connect {
        lemma_first_phases(r, k);
        if 1 <= k < x.veth {
            let at = lemma_bridge_asks(r.conf.bridge, r.conf.mtu, r.replies, 1);
            let part = |j: int|
                hostns::bridge_progress(r.conf.bridge, r.conf.mtu, r.replies.take(j), 1);
            assert(part(k) is Ask);
        }
        if x.veth <= k {
            lemma_veth_asks(host, temp, r.conf.mtu, r.replies, x.veth);
            let part = |j: int|
                hostns::veth_progress(host, temp, r.conf.mtu, r.replies.take(j), x.veth);
            assert(part(k) is Ask);
        }
    } else {
        lemma_last_phases(r, k);
        lemma_inside(r);
        if m <= k < m + 9 {
            assert(k == m || k == m + 1 || k == m + 2 || k == m + 3 || k == m + 4 || k == m + 5
                || k == m + 6 || k == m + 7 || k == m + 8);
        }
    }
}

spec fn route_at(r: Run, k: int) -> RouteSpec {
    let w = wiring_of(r);
    contns::wanted_routes(parts_of(r).p, r.conf.is_default_gateway, w.link)[k - w.routes]
}

proof fn lemma_asks_route(r: Run, k: int)
    requires
        r.replies.len() <= usize::MAX,
        outcome(r) matches Progress::Done(Ok(_), n) && n <= r.replies.len(),
        wiring_of(r).routes <= k < wiring_of(r).leave,
    ensures
        asks(r, k, netlink::RequestView::AddRoute(route_at(r, k))),
{
    lemma_parts(r);
    lemma_inside(r);
    lemma_last_phases(r, k);
}

proof fn lemma_result_route(r: Run, i: int)
    requires
        r.replies.len() <= usize::MAX,
        outcome(r) matches Progress::Done(Ok(_), n) && n <= r.replies.len(),
        0 <= i < parts_of(r).res.routes.len(),
    ensures
        ({
            let w = wiring_of(r);
            let x = parts_of(r);
            &&& w.routes + i < w.leave
            &&& leads_to(route_at(r, w.routes + i), x.res.routes[i].dst, x.p.gateway, w.link)
        }),
{
    lemma_parts(r);
    let x = parts_of(r);
    let w = wiring_of(r);
    lemma_no_routes(x.res);
    lemma_destination(x.res, i);
    lemma_route_serves(x.p.routes[i], x.res.routes[i].dst, x.p.gateway, w.link);
}

proof fn lemma_routed(r: Run)
    requires
        r.replies.len() <= usize::MAX,
        outcome(r) matches Progress::Done(Ok(_), n) && n <= r.replies.len(),
    ensures
        routed(r, parts_of(r).res, wiring_of(r)),
{
    let x = parts_of(r);
    let res = x.res;
    let w = wiring_of(r);
    let gateway = x.p.gateway;
    assert(w.leave == w.routes + route_count(r.conf, res) && has_gateway(res, gateway)) by {
        lemma_parts(r);
        lemma_no_routes(res);
    }
    assert forall|i: int| 0 <= i < res.routes.len() implies asks_route_to(
        r,
        w.routes + i,
        (#[trigger] res.routes[i]).dst,
        gateway,
        w.link,
    ) by {
        lemma_result_route(r, i);
        lemma_asks_route(r, w.routes + i);
    }
    if r.conf.is_default_gateway && gateway is Some {
        lemma_asks_route(r, w.leave - 1);
        lemma_default_serves(gateway, w.link);
        assert(leads_anywhere(route_at(r, w.leave - 1), gateway, w.link)) by {
            lemma_parts(r);
            lemma_no_routes(res);
        }
    }
    assert forall|k: int, route: RouteSpec| #[trigger]
        asks(r, k, netlink::RequestView::AddRoute(route)) implies w.routes <= k < w.leave by {
        lemma_routes_inside(r, k, route);
    }
}

/// An addition that succeeds has wired the container: one end of a pair of links
/// is in its namespace, under the name of the invocation and with the address of
/// the result; the other is a port of the bridge; and its routes are those of the
/// result and, where the configuration asks for one, a default route.
pub proof fn law_container_is_wired(r: Run)
    requires
        r.replies.len() <= usize::MAX,
        outcome(r) matches Progress::Done(Ok(_), n) && n <= r.replies.len(),
    ensures
        result::result(outcome(r)->Done_0->Ok_0) matches Ok(res) && res.ips.len() > 0 && exists|
            w: Wiring,
            host: Seq<char>,
            temp: Seq<char>,
        |
            #[trigger] joined_to_bridge(r, w, host, temp) && set_up_inside(r, res, w, temp)
                && routed(r, res, w),
{
    assert(parts_of(r).res.ips.len() > 0 && result::result(outcome(r)->Done_0->Ok_0) == Ok::<
        result::ResultView,
        crate::decode::Fault,
    >(parts_of(r).res)) by {
        lemma_parts(r);
    }
    lemma_joined(r);
    lemma_set_up(r);
    lemma_routed(r);
}

/// Where the configuration asks for a gateway, an addition that succeeds has
/// asked that the host forward packets, and that the bridge have the address of
/// the container's gateway, with the prefix of the container's address, or 24 bits
/// where that is written without one; where it does not ask for a gateway, it has
/// not asked for forwarding.
pub proof fn law_bridge_is_the_gateway(r: Run)
    requires
        r.replies.len() <= usize::MAX,
        outcome(r) matches Progress::Done(Ok(_), n) && n <= r.replies.len(),
    ensures
        (exists|k: int| #[trigger] asks(r, k, netlink::RequestView::EnableForwarding))
            <==> r.conf.is_gateway,
        result::result(outcome(r)->Done_0->Ok_0) matches Ok(res) && (r.conf.is_gateway
            && res.ips[0].gateway is Some ==> exists|k: int, idx: u32, gw: u32, prefix: u8|
            {
                &&& #[trigger] asks(r, k, netlink::RequestView::AddAddress(idx, gw, prefix))
                &&& exists|j: int| #[trigger] found(r, j, r.conf.bridge, idx)
                &&& exists|j: int, host: u32|
                    j < k && #[trigger] asks(
                        r,
                        j,
                        netlink::RequestView::SetController(host, idx),
                    )
                &&& ipv4::address(res.ips[0].gateway->0) == Some(gw)
                &&& forall|net: ipv4::NetView|
                    net.prefix <= 32 && res.ips[0].address == #[trigger] ipv4::cidr(net) ==> prefix
                        == net.prefix
                &&& !res.ips[0].address.contains('/') ==> prefix == 24
            }),
{
    lemma_parts(r);
    let x = parts_of(r);
    let res = x.res;
    if r.conf.is_gateway {
        lemma_joined(r);
        let at = choose|j: int| #[trigger] found(r, j, r.conf.bridge, x.bridge);
        assert(found(r, at, r.conf.bridge, x.bridge));
        lemma_last_phases(r, x.attach + 1);
        assert(asks(
            r,
            x.attach + 1,
            netlink::RequestView::SetController(x.host, x.bridge),
        ));
        let cut = r.replies.take(x.gate);
        assert(cut.len() == x.gate);
        lemma_last_phases(r, x.gate);
        if res.ips[0].gateway is Some {
            let gw = x.p.gateway->0;
            let prefix = command::written_prefix(res.ips[0].address);
            assert(asks(r, x.gate, netlink::RequestView::AddAddress(x.bridge, gw, prefix)));
            assert forall|net: ipv4::NetView|
                net.prefix <= 32 && res.ips[0].address == #[trigger] ipv4::cidr(
                    net,
                ) implies prefix == net.prefix by {
                lemma_written_prefix(net);
            }
            if !res.ips[0].address.contains('/') {
                text::lemma_split_single(res.ips[0].address, '/');
            }
            lemma_last_phases(r, x.gate + 1);
            let cut = r.replies.take(x.gate + 1);
            assert(cut.len() == x.gate + 1);
            assert(asks(r, x.gate + 1, netlink::RequestView::EnableForwarding));
        } else {
            assert(asks(r, x.gate, netlink::RequestView::EnableForwarding));
        }
    } else {
        assert forall|k: int| !(#[trigger] asks(
            r,
            k,
            netlink::RequestView::EnableForwarding,
        )) by {
            if asks(r, k, netlink::RequestView::EnableForwarding) {
                lemma_no_forwarding(r, k);
            }
        }
    }
}

proof fn lemma_forwarding_is_last(r: Run, k: int)
    requires
        r.replies.len() <= usize::MAX,
        outcome(r) matches Progress::Done(Ok(_), n) && n <= r.replies.len(),
        parts_of(r).connect <= k,
        asks(r, k, netlink::RequestView::EnableForwarding),
    ensures
        k >= parts_of(r).gate,
{
    let x = parts_of(r);
    let m = x.connect + 2;
    lemma_last_phases(r, k);
    assert(x.gate == x.attach + 2) by {
        lemma_parts(r);
    }
    if m <= k < x.attach {
        lemma_inside(r);
        if k < m + 9 {
            assert(k == m || k == m + 1 || k == m + 2 || k == m + 3 || k == m + 4 || k == m + 5
                || k == m + 6 || k == m + 7 || k == m + 8);
        }
    }
}

proof fn lemma_no_forwarding(r: Run, k: int)
    requires
        r.replies.len() <= usize::MAX,
        outcome(r) matches Progress::Done(Ok(_), n) && n <= r.replies.len(),
        asks(r, k, netlink::RequestView::EnableForwarding),
    ensures
        r.conf.is_gateway,
{
    let x = parts_of(r);
    let host = plan::host_name(r.args.container_id);
    let temp = plan::temp_name(r.args.container_id);
    if k < x.connect {
        lemma_parts(r);
        lemma_first_phases(r, k);
        if 1 <= k < x.veth {
            let at = lemma_bridge_asks(r.conf.bridge, r.conf.mtu, r.replies, 1);
            let part = |j: int|
                hostns::bridge_progress(r.conf.bridge, r.conf.mtu, r.replies.take(j), 1);
            assert(part(k) is Ask);
        }
        if x.veth <= k {
            lemma_veth_asks(host, temp, r.conf.mtu, r.replies, x.veth);
            let part = |j: int|
                hostns::veth_progress(host, temp, r.conf.mtu, r.replies.take(j), x.veth);
            assert(part(k) is Ask);
        }
    } else {
        lemma_forwarding_is_last(r, k);
        lemma_last_phases(r, k);
    }
}

proof fn lemma_written_prefix(net: ipv4::NetView)
    requires
        net.prefix <= 32,
    ensures
        command::written_prefix(ipv4::cidr(net)) == net.prefix,
{
    let d = ipv4::dotted(net.addr);
    let tail = number::decimal(net.prefix as nat);
    ipv4::lemma_dotted_chars(net.addr);
    number::lemma_decimal(net.prefix as nat);
    assert forall|i: int| 0 <= i < d.len() implies d[i] != '/' by {}
    assert forall|i: int| 0 <= i < tail.len() implies tail[i] != '/' by {}
    assert(!d.contains('/'));
    assert(!tail.contains('/'));
    text::lemma_split_head(d, '/', tail);
    text::lemma_split_single(tail, '/');
    number::law_decimal_reads_back(net.prefix as nat, 255);
}

} // verus!
