//! What the daemon's requests to the kernel are for: packets to the containers
//! of a peer reach the peer.

use vstd::prelude::*;

use crate::flanneld::config::BackendType;
use crate::flanneld::netlink as overlay;
use crate::flanneld::peer;
use crate::flanneld::round;
use crate::ipv4;
use crate::netlink;
use crate::netlink::RouteSpec;
use crate::progress::Progress;

verus! {

// ---------------------------------------------------------------------------
// Additions
// ---------------------------------------------------------------------------

/// Whether a request is one that an addition of the peer may make. The route is
/// one for exactly the addresses of the peer's containers, out on the link. On
/// an overlay it leads through the peer's end of the overlay, which has the
/// lowest of those addresses and is resolved to the hardware address that the
/// peer published; frames for that are sent to the peer's own address. Without
/// an overlay the route leads through the peer's own address.
pub open spec fn serves(
    b: BackendType,
    dev: u32,
    p: peer::PeerView,
    q: netlink::RequestView,
) -> bool {
    match q {
        netlink::RequestView::AddRoute(r) => {
            &&& r.oif == dev
            &&& forall|net: ipv4::NetView, ip: u32| #[trigger]
                ipv4::names(p.pod_cidr, net) ==> (#[trigger] ipv4::routed_by(r.dst, r.prefix, ip)
                    <==> ipv4::contains(net, ip))
            &&& match b {
                BackendType::Vxlan => r.onlink && r.gateway is Some && forall|net: ipv4::NetView|
                    #[trigger]
                    ipv4::names(p.pod_cidr, net) ==> ipv4::is_lowest(net, r.gateway->0),
                BackendType::HostGw => !r.onlink && r.gateway is Some && r.gateway
                    == ipv4::address(p.public_ip),
            }
        },
        netlink::RequestView::AddNeighbour(d, ip, m) => {
            &&& b == BackendType::Vxlan && d == dev
            &&& forall|net: ipv4::NetView| #[trigger]
                ipv4::names(p.pod_cidr, net) ==> ipv4::is_lowest(net, ip)
            &&& overlay::mac_of(p.vtep_mac) == Ok::<Seq<u8>, Seq<char>>(m)
        },
        netlink::RequestView::AddForwarding(d, m, host) => {
            &&& b == BackendType::Vxlan && d == dev
            &&& overlay::mac_of(p.vtep_mac) == Ok::<Seq<u8>, Seq<char>>(m)
            &&& ipv4::address(p.public_ip) == Some(host)
        },
        _ => false,
    }
}

/// Whatever an addition asks for serves the peer: with either backend the route
/// is for exactly the addresses of the peer's containers, and packets that take
/// it end up at the peer's own address.
pub proof fn law_addition_serves_the_peer(
    b: BackendType,
    dev: u32,
    p: peer::PeerView,
    replies: Seq<netlink::ReplyView>,
    from: int,
)
    ensures
        round::action_progress(b, dev, peer::ActionView::Add(p), replies, from) matches
            Progress::Ask(q) ==> serves(b, dev, p, q),
{
    assert forall|net: ipv4::NetView, ip: u32| #[trigger] ipv4::names(p.pod_cidr, net) implies (
    #[trigger] ipv4::routed_by(ipv4::network(net), net.prefix, ip) <==> ipv4::contains(net, ip))
        && ipv4::is_lowest(net, ipv4::network(net)) by {
        ipv4::lemma_prefix(p.pod_cidr, net);
        ipv4::lemma_routed_by(net, ip);
    }
    if let Ok(n) = ipv4::cidr_read(p.pod_cidr) {
        let net = ipv4::NetView { addr: n.0, prefix: n.1 };
        assert(ipv4::names(p.pod_cidr, net));
        assert(forall|other: ipv4::NetView| #[trigger] ipv4::names(p.pod_cidr, other) ==> other == net);
        assert(ipv4::routed_by(ipv4::network(net), net.prefix, 0) <==> ipv4::contains(net, 0));
    }
}

/// Whether an answer is a success of something that was to be added: it is done,
/// or the kernel says that it exists already.
pub open spec fn is_there(r: netlink::ReplyView) -> bool {
    match r {
        netlink::ReplyView::Failed(_) => false,
        netlink::ReplyView::Refused(code, _) => code == -17,
        _ => true,
    }
}

/// Whether the answer at `k` is that to the request which an addition makes
/// there.
pub open spec fn asked_at(
    b: BackendType,
    dev: u32,
    p: peer::PeerView,
    replies: Seq<netlink::ReplyView>,
    from: int,
    k: int,
    q: netlink::RequestView,
) -> bool {
    &&& from <= k < replies.len()
    &&& round::action_progress(b, dev, peer::ActionView::Add(p), replies.take(k), from)
        == Progress::<netlink::RequestView, bool>::Ask(q)
}

/// Whether an addition has asked for a route.
pub open spec fn asked_route(
    b: BackendType,
    dev: u32,
    p: peer::PeerView,
    replies: Seq<netlink::ReplyView>,
    from: int,
) -> bool {
    exists|k: int, r: RouteSpec| #[trigger]
        asked_at(b, dev, p, replies, from, k, netlink::RequestView::AddRoute(r)) && is_there(
            replies[k],
        )
}

/// Whether an addition has asked for what resolves the gateway of its route, and
/// for where frames for that go.
pub open spec fn asked_resolution(
    dev: u32,
    p: peer::PeerView,
    replies: Seq<netlink::ReplyView>,
    from: int,
) -> bool {
    &&& exists|k: int, ip: u32, m: Seq<u8>| #[trigger]
        asked_at(
            BackendType::Vxlan,
            dev,
            p,
            replies,
            from,
            k,
            netlink::RequestView::AddNeighbour(dev, ip, m),
        ) && is_there(replies[k])
    &&& exists|k: int, m: Seq<u8>, host: u32| #[trigger]
        asked_at(
            BackendType::Vxlan,
            dev,
            p,
            replies,
            from,
            k,
            netlink::RequestView::AddForwarding(dev, m, host),
        ) && is_there(replies[k])
}

/// An addition succeeds exactly where everything that it needs was asked for and
/// is there afterwards: the route, and on an overlay what resolves its gateway
/// and where frames for that go.
pub proof fn law_addition_succeeds_where_all_is_there(
    b: BackendType,
    dev: u32,
    p: peer::PeerView,
    replies: Seq<netlink::ReplyView>,
    from: int,
)
    requires
        0 <= from <= replies.len() <= usize::MAX,
        round::action_progress(b, dev, peer::ActionView::Add(p), replies, from) is Done,
    ensures
        round::action_progress(b, dev, peer::ActionView::Add(p), replies, from)->Done_0 <==> {
            &&& asked_route(b, dev, p, replies, from)
            &&& b == BackendType::Vxlan ==> asked_resolution(dev, p, replies, from)
        },
{
    let all = round::action_progress(b, dev, peer::ActionView::Add(p), replies, from);
    let ok = all->Done_0;
    assert(forall|k: int| 0 <= k <= replies.len() ==> (#[trigger] replies.take(k)).len() == k);
    if from < replies.len() {
        assert(forall|k: int|
            from < k <= replies.len() ==> (#[trigger] replies.take(k))[from] == replies[from]);
    }
    if from + 1 < replies.len() {
        assert(forall|k: int| from + 1 < k <= replies.len() ==> (#[trigger] replies.take(k))[from
            + 1] == replies[from + 1]);
    }
    let first = replies.take(from);
    let net = overlay::peer_net(p);
    if let Ok(net) = net {
        match b {
            BackendType::Vxlan => {
                let r = overlay::overlay_route(net, dev);
                let route = netlink::RequestView::AddRoute(r);
                assert(asked_at(b, dev, p, replies, from, from, route));
                if let (Ok(m), Some(host)) = (
                    overlay::mac_of(p.vtep_mac),
                    ipv4::address(p.public_ip),
                ) {
                    let ip = ipv4::network(net);
                    assert(asked_at(
                        b,
                        dev,
                        p,
                        replies,
                        from,
                        from + 1,
                        netlink::RequestView::AddNeighbour(dev, ip, m),
                    ));
                    assert(asked_at(
                        b,
                        dev,
                        p,
                        replies,
                        from,
                        from + 2,
                        netlink::RequestView::AddForwarding(dev, m, host),
                    ));
                }
            },
            BackendType::HostGw => {
                if let Some(gw) = ipv4::address(p.public_ip) {
                    let q = round::action_progress(
                        b,
                        dev,
                        peer::ActionView::Add(p),
                        first,
                        from,
                    )->Ask_0;
                    assert(asked_at(b, dev, p, replies, from, from, q));
                }
            },
        }
    }
}

// ---------------------------------------------------------------------------
// Removals
// ---------------------------------------------------------------------------

/// What an addition of the peer asks for.
pub open spec fn adds(
    b: BackendType,
    dev: u32,
    p: peer::PeerView,
    replies: Seq<netlink::ReplyView>,
    from: int,
    q: netlink::RequestView,
) -> bool {
    round::action_progress(b, dev, peer::ActionView::Add(p), replies, from) == Progress::<
        netlink::RequestView,
        bool,
    >::Ask(q)
}

/// What a removal of the peer asks for after the first `k` answers.
pub open spec fn removes_at(
    b: BackendType,
    dev: u32,
    p: peer::PeerView,
    replies: Seq<netlink::ReplyView>,
    from: int,
    k: int,
    q: netlink::RequestView,
) -> bool {
    &&& from <= k < replies.len()
    &&& round::action_progress(b, dev, peer::ActionView::Remove(p), replies.take(k), from)
        == Progress::<netlink::RequestView, bool>::Ask(q)
}

/// Whether an entry of the kernel's list is the route that was asked for.
pub open spec fn is_route(e: netlink::RouteEntryView, r: RouteSpec) -> bool {
    e.prefix == r.prefix && e.destinations.contains(r.dst) && e.oif == Some(r.oif)
}

/// Whether an entry of the kernel's list is the neighbour that was asked for.
pub open spec fn is_neighbour(e: netlink::NeighbourEntryView, dev: u32, ip: u32) -> bool {
    e.ifindex == dev && e.destinations.contains(ip)
}

/// Whether an answer says that something went wrong.
pub open spec fn went_wrong(r: netlink::ReplyView) -> bool {
    r is Failed || r is Refused
}

proof fn lemma_same_route(
    b: BackendType,
    dev: u32,
    p: peer::PeerView,
    replies: Seq<netlink::ReplyView>,
    from: int,
    r: RouteSpec,
)
    requires
        adds(b, dev, p, replies, from, netlink::RequestView::AddRoute(r)),
    ensures
        overlay::peer_net(p) is Ok,
        forall|e: netlink::RouteEntryView| #[trigger]
            overlay::leads_to(e, overlay::peer_net(p)->Ok_0, dev) <==> is_route(e, r),
{
}

/// A removal that succeeds deletes the routes that an addition of the same peer
/// asks for: the kernel listed its routes to the end, and each that is such a
/// route was deleted.
pub proof fn law_removal_deletes_the_added_route(
    b: BackendType,
    dev: u32,
    p: peer::PeerView,
    earlier: Seq<netlink::ReplyView>,
    at: int,
    r: RouteSpec,
    replies: Seq<netlink::ReplyView>,
    from: int,
    i: int,
)
    requires
        adds(b, dev, p, earlier, at, netlink::RequestView::AddRoute(r)),
        0 <= from <= replies.len() <= usize::MAX,
        round::action_progress(b, dev, peer::ActionView::Remove(p), replies, from) matches
            Progress::Done(ok, _) && ok,
    ensures
        removes_at(b, dev, p, replies, from, from, netlink::RequestView::ListRoutes),
        replies[from] matches netlink::ReplyView::Routes(routes, ended) && ended is None && (0 <= i
            < routes.len() && is_route(routes[i], r) ==> exists|k: int| #[trigger]
            removes_at(
                b,
                dev,
                p,
                replies,
                from,
                k,
                netlink::RequestView::DeleteRoute(i as usize),
            ) && !went_wrong(replies[k])),
{
    lemma_same_route(b, dev, p, earlier, at, r);
    overlay::law_removal_leaves_no_route(b, dev, p, replies, from, i);
    let net = overlay::peer_net(p)->Ok_0;
    if let netlink::ReplyView::Routes(routes, ended) = replies[from] {
        if 0 <= i < routes.len() && is_route(routes[i], r) {
            assert(overlay::leads_to(routes[i], net, dev));
            let q = netlink::RequestView::DeleteRoute(i as usize);
            let k = choose|k: int|
                from < k < replies.len() && netlink::failure_of(#[trigger] replies[k]) is None
                    && overlay::removal(b, dev, p, replies.take(k), from) == Progress::<
                    netlink::RequestView,
                    Result<(), Seq<char>>,
                >::Ask(q);
            assert(removes_at(b, dev, p, replies, from, k, q));
            assert(!went_wrong(replies[k]));
        }
    }
}

/// A removal deletes no other route: whatever route it asks to delete is one
/// that an addition of the same peer asks for.
pub proof fn law_removal_deletes_no_other_route(
    b: BackendType,
    dev: u32,
    p: peer::PeerView,
    earlier: Seq<netlink::ReplyView>,
    at: int,
    r: RouteSpec,
    replies: Seq<netlink::ReplyView>,
    from: int,
    k: int,
    i: usize,
)
    requires
        adds(b, dev, p, earlier, at, netlink::RequestView::AddRoute(r)),
        0 <= from,
        removes_at(b, dev, p, replies, from, k, netlink::RequestView::DeleteRoute(i)),
        replies[from] matches netlink::ReplyView::Routes(routes, _) ==> routes.len() <= usize::MAX,
    ensures
        replies[from] matches netlink::ReplyView::Routes(routes, _) && i < routes.len() && is_route(
            routes[i as int],
            r,
        ),
{
    lemma_same_route(b, dev, p, earlier, at, r);
    let cut = replies.take(k);
    assert(k > from);
    assert(cut[from] == replies[from]);
    overlay::law_removal_spares_other_routes(b, dev, p, cut, from, i);
}

/// A removal of a peer of the overlay takes what resolves the peer's end: where
/// the kernel listed its routes and then its neighbours, and one of those is the
/// neighbour that an addition of the same peer asks for, such a one was asked to
/// be deleted.
pub proof fn law_removal_takes_the_neighbour(
    dev: u32,
    p: peer::PeerView,
    earlier: Seq<netlink::ReplyView>,
    at: int,
    ip: u32,
    m: Seq<u8>,
    replies: Seq<netlink::ReplyView>,
    from: int,
)
    requires
        adds(
            BackendType::Vxlan,
            dev,
            p,
            earlier,
            at,
            netlink::RequestView::AddNeighbour(dev, ip, m),
        ),
        0 <= from < replies.len() <= usize::MAX,
        replies[from] is Routes,
        round::action_progress(
            BackendType::Vxlan,
            dev,
            peer::ActionView::Remove(p),
            replies,
            from,
        ) is Done,
        forall|k: int|
            0 <= k < replies.len() ==> entries_of(#[trigger] replies[k]).len() <= usize::MAX,
    ensures
        exists|l: int|
            {
                &&& #[trigger] removes_at(
                    BackendType::Vxlan,
                    dev,
                    p,
                    replies,
                    from,
                    l,
                    netlink::RequestView::ListNeighbours,
                )
                &&& (exists|j: int|
                    0 <= j < entries_of(replies[l]).len() && #[trigger] is_neighbour(
                        entries_of(replies[l])[j],
                        dev,
                        ip,
                    )) ==> exists|k: int, i: usize|
                    {
                        &&& #[trigger] removes_at(
                            BackendType::Vxlan,
                            dev,
                            p,
                            replies,
                            from,
                            k,
                            netlink::RequestView::DeleteNeighbour(i),
                        )
                        &&& i < entries_of(replies[l]).len()
                        &&& is_neighbour(entries_of(replies[l])[i as int], dev, ip)
                    }
            },
{
    let b = BackendType::Vxlan;
    let net = overlay::peer_net(p)->Ok_0;
    if let netlink::ReplyView::Routes(routes, ended) = replies[from] {
        let there = overlay::routes_to(routes, net, dev);
        let l = from + 1 + there.len();
        assert(overlay::unrouted(net, dev, replies, from) is Done);
        assert(l < replies.len());
        let cut = replies.take(l);
        assert(cut[from] == replies[from]);
        assert(cut.subrange(from + 1, l) =~= replies.subrange(from + 1, l));
        assert(removes_at(b, dev, p, replies, from, l, netlink::RequestView::ListNeighbours));
        let entries = entries_of(replies[l]);
        if exists|j: int| 0 <= j < entries.len() && #[trigger] is_neighbour(entries[j], dev, ip) {
            let j = choose|j: int|
                0 <= j < entries.len() && #[trigger] is_neighbour(entries[j], dev, ip);
            lemma_position(entries, dev, ip, 0, j);
            let found = overlay::neighbour_position(entries, dev, ip, 0)->0;
            let k = l + 1;
            let after = replies.take(k);
            assert(after[from] == replies[from] && after[l] == replies[l]);
            assert(after.subrange(from + 1, l) =~= replies.subrange(from + 1, l));
            assert(is_neighbour(entries[j], dev, ip) && replies[l] is Neighbours);
            assert(entries.len() <= usize::MAX);
            assert(removes_at(
                b,
                dev,
                p,
                replies,
                from,
                k,
                netlink::RequestView::DeleteNeighbour(found as usize),
            ));
            assert(is_neighbour(entries[found as usize as int], dev, ip));
        }
    }
}

/// The neighbours that an answer lists.
pub open spec fn entries_of(r: netlink::ReplyView) -> Seq<netlink::NeighbourEntryView> {
    match r {
        netlink::ReplyView::Neighbours(entries) => entries,
        _ => Seq::empty(),
    }
}

proof fn lemma_position(
    entries: Seq<netlink::NeighbourEntryView>,
    dev: u32,
    ip: u32,
    from: int,
    j: int,
)
    requires
        0 <= from <= j < entries.len(),
        is_neighbour(entries[j], dev, ip),
    ensures
        overlay::neighbour_position(entries, dev, ip, from) matches Some(i) && from <= i
            < entries.len() && is_neighbour(entries[i], dev, ip),
    decreases j - from,
{
    if !is_neighbour(entries[from], dev, ip) {
        lemma_position(entries, dev, ip, from + 1, j);
    }
}

proof fn lemma_position_is(
    entries: Seq<netlink::NeighbourEntryView>,
    dev: u32,
    ip: u32,
    from: int,
)
    requires
        0 <= from,
    ensures
        overlay::neighbour_position(entries, dev, ip, from) matches Some(i) ==> from <= i
            < entries.len() && is_neighbour(entries[i], dev, ip),
    decreases entries.len() - from,
{
    if from < entries.len() && !is_neighbour(entries[from], dev, ip) {
        lemma_position_is(entries, dev, ip, from + 1);
    }
}

/// A removal deletes no other neighbour: whatever neighbour it asks to delete,
/// right after the kernel listed them, is one that an addition of the same peer
/// asks for.
pub proof fn law_removal_takes_no_other_neighbour(
    dev: u32,
    p: peer::PeerView,
    earlier: Seq<netlink::ReplyView>,
    at: int,
    ip: u32,
    m: Seq<u8>,
    replies: Seq<netlink::ReplyView>,
    from: int,
    k: int,
    i: usize,
)
    requires
        adds(
            BackendType::Vxlan,
            dev,
            p,
            earlier,
            at,
            netlink::RequestView::AddNeighbour(dev, ip, m),
        ),
        0 <= from < replies.len() <= usize::MAX,
        removes_at(
            BackendType::Vxlan,
            dev,
            p,
            replies,
            from,
            k,
            netlink::RequestView::DeleteNeighbour(i),
        ),
        entries_of(replies[k - 1]).len() <= usize::MAX,
    ensures
        i < entries_of(replies[k - 1]).len(),
        is_neighbour(entries_of(replies[k - 1])[i as int], dev, ip),
{
    let cut = replies.take(k);
    let net = overlay::peer_net(p)->Ok_0;
    if let Progress::Done(_, next) = overlay::unrouted(net, dev, cut, from) {
        overlay::lemma_unrouted_in_turn(net, dev, cut, from);
        assert(cut[next as int] == replies[k - 1]);
        lemma_position_is(entries_of(replies[k - 1]), dev, ip, 0);
    }
}

/// What a removal of a peer asks to be deleted among forwarding entries is what
/// an addition of the same peer asks for.
pub proof fn law_removal_takes_the_added_forwarding(
    dev: u32,
    p: peer::PeerView,
    earlier: Seq<netlink::ReplyView>,
    at: int,
    replies: Seq<netlink::ReplyView>,
    from: int,
    d: u32,
    m: Seq<u8>,
    host: u32,
)
    requires
        adds(
            BackendType::Vxlan,
            dev,
            p,
            earlier,
            at,
            netlink::RequestView::AddForwarding(d, m, host),
        ),
        0 <= from < replies.len() <= usize::MAX,
        replies[from] is Routes,
        round::action_progress(
            BackendType::Vxlan,
            dev,
            peer::ActionView::Remove(p),
            replies,
            from,
        ) is Done,
    ensures
        exists|k: int| #[trigger]
            removes_at(
                BackendType::Vxlan,
                dev,
                p,
                replies,
                from,
                k,
                netlink::RequestView::DeleteForwarding(d, m, host),
            ),
{
    overlay::law_removal_takes_the_forwarding_entry(dev, p, replies, from);
    let q = netlink::RequestView::DeleteForwarding(d, m, host);
    let k = choose|k: int|
        from < k < replies.len() && overlay::del_progress(
            dev,
            p,
            #[trigger] replies.take(k),
            from,
        ) == Progress::<netlink::RequestView, Result<(), Seq<char>>>::Ask(q);
    assert(removes_at(BackendType::Vxlan, dev, p, replies, from, k, q));
}

/// Setting up the link of the overlay fails for a reason only: something went
/// wrong, the link is not there once it was created, or it tells no hardware
/// address. What goes wrong with the size of packets and with the address is no
/// reason.
pub proof fn law_link_fails_for_a_reason(
    name: Seq<char>,
    vni: u32,
    port: u16,
    local: u32,
    gateway: u32,
    mtu: u32,
    replies: Seq<netlink::ReplyView>,
)
    requires
        replies.len() <= usize::MAX,
        overlay::vxlan_progress(name, vni, port, local, gateway, mtu, replies, 0) matches
            Progress::Done(Err(_), n) && n <= replies.len(),
    ensures
        ({
            let n = overlay::vxlan_progress(
                name,
                vni,
                port,
                local,
                gateway,
                mtu,
                replies,
                0,
            )->Done_1 as int;
            &&& n > 0
            &&& overlay::vxlan_progress(
                name,
                vni,
                port,
                local,
                gateway,
                mtu,
                replies.take(n - 1),
                0,
            ) matches Progress::Ask(q)
            &&& !(q is SetMtu) && !(q is AddAddress)
            &&& went_wrong(replies[n - 1]) || q is FindLink && !(replies[n - 1] matches
                netlink::ReplyView::Link(Some(_))) || q is LinkAddresses && !(replies[n - 1] matches
                netlink::ReplyView::Addresses(Some(list)) && list.len() > 0)
        }),
{
    let n = overlay::vxlan_progress(
        name,
        vni,
        port,
        local,
        gateway,
        mtu,
        replies,
        0,
    )->Done_1 as int;
    let cut = replies.take(n - 1);
    assert(cut.len() == n - 1);
    assert(forall|i: int| 0 <= i < n - 1 ==> #[trigger] cut[i] == replies[i]);
}

} // verus!
