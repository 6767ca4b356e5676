//! What the daemon asks of the kernel's network configuration.

use vstd::prelude::*;
use vstd::string::*;

use crate::cni_bridge::hostns;
use crate::flanneld::config::BackendType;
use crate::flanneld::peer;
use crate::flanneld::peer::Peer;
use crate::ipv4;
use crate::ipv4::Ipv4Net;
use crate::netlink;
use crate::netlink::{NeighbourEntry, Reply, Request, RouteEntry, RouteSpec};
use crate::number;
use crate::progress;
use crate::progress::Progress;
use crate::text;

verus! {

/// The requests of the daemon.
#[derive(Debug)]
pub struct Netlink;

// ---------------------------------------------------------------------------
// Hardware addresses
// ---------------------------------------------------------------------------

/// The bytes of a list in hexadecimal, one by one.
pub open spec fn hex_bytes(bytes: Seq<u8>) -> Seq<Seq<char>> {
    bytes.map_values(|b: u8| number::hex_byte(b))
}

/// A hardware address as text: two digits for each byte, with colons between.
pub open spec fn mac_text(bytes: Seq<u8>) -> Seq<char> {
    text::joined(hex_bytes(bytes), ":"@)
}

/// A hardware address as text.
pub fn format_mac(bytes: &Vec<u8>) -> (s: String)
    ensures
        s@ == mac_text(bytes@),
{
    let mut parts: Vec<String> = Vec::new();
    let mut i: usize = 0;
    while i < bytes.len()
        invariant
            i <= bytes@.len(),
            text::texts(parts@) == hex_bytes(bytes@).take(i as int),
        decreases bytes@.len() - i,
    {
        let ghost before = text::texts(parts@);
        parts.push(number::hex_text(bytes[i]));
        assert(text::texts(parts@) =~= before.push(number::hex_byte(bytes@[i as int])));
        i = i + 1;
        assert(text::texts(parts@) =~= hex_bytes(bytes@).take(i as int));
    }
    assert(hex_bytes(bytes@).take(bytes@.len() as int) =~= hex_bytes(bytes@));
    text::join(&parts, ":")
}

/// The numbers that the parts write in hexadecimal, or the first fault.
pub open spec fn hex_values(parts: Seq<Seq<char>>) -> Result<Seq<u8>, number::NumberFault>
    decreases parts.len(),
{
    if parts.len() == 0 {
        Ok(Seq::empty())
    } else {
        match hex_values(parts.drop_last()) {
            Err(f) => Err(f),
            Ok(done) => match number::number(parts.last(), 16, 255) {
                Err(f) => Err(f),
                Ok(n) => Ok(done.push(n as u8)),
            },
        }
    }
}

/// The hardware address that a text writes: six numbers with colons between.
pub open spec fn mac_of(s: Seq<char>) -> Result<Seq<u8>, Seq<char>> {
    match hex_values(text::split(s, ':')) {
        Err(f) => Err(netlink::within("parse mac"@, number::fault_text(f))),
        Ok(bytes) => if bytes.len() == 6 {
            Ok(bytes)
        } else {
            Err("mac not 6 bytes"@)
        },
    }
}

proof fn lemma_hex_fault(parts: Seq<Seq<char>>, k: int)
    requires
        0 <= k <= parts.len(),
        hex_values(parts.take(k)) is Err,
    ensures
        hex_values(parts) == hex_values(parts.take(k)),
    decreases parts.len(),
{
    if k < parts.len() {
        assert(parts.drop_last().take(k) =~= parts.take(k));
        lemma_hex_fault(parts.drop_last(), k);
    } else {
        assert(parts.take(k) =~= parts);
    }
}

/// Reads a hardware address.
pub fn parse_mac(s: &str) -> (r: Result<[u8; 6], String>)
    ensures
        netlink::text_result(r, |m: [u8; 6]| m@) == mac_of(s@),
{
    let parts = text::split_text(s, ':');
    let ghost all = text::split(s@, ':');
    let mut bytes: Vec<u8> = Vec::new();
    let mut i: usize = 0;
    assert(all.take(0) =~= Seq::<Seq<char>>::empty());
    while i < parts.len()
        invariant
            i <= parts@.len(),
            all == text::split(s@, ':'),
            all == text::texts(parts@),
            hex_values(all.take(i as int)) == Ok::<Seq<u8>, number::NumberFault>(bytes@),
        decreases parts@.len() - i,
    {
        proof {
            assert(all.take(i + 1).drop_last() =~= all.take(i as int));
            assert(all.take(i + 1).last() == parts@[i as int]@);
            number::lemma_number_bound(parts@[i as int]@, 16, 255);
        }
        match number::read_number(parts[i].as_str(), 16, 255) {
            Ok(n) => {
                bytes.push(n as u8);
            },
            Err(f) => {
                proof {
                    lemma_hex_fault(all, i + 1);
                }
                return Err(netlink::in_context("parse mac", f.message().as_str()));
            },
        }
        i = i + 1;
    }
    assert(all.take(parts@.len() as int) =~= all);
    if bytes.len() != 6 {
        return Err("mac not 6 bytes".to_owned());
    }
    let mac: [u8; 6] = [bytes[0], bytes[1], bytes[2], bytes[3], bytes[4], bytes[5]];
    assert(mac@ =~= bytes@);
    Ok(mac)
}

proof fn lemma_hex_values(bytes: Seq<u8>)
    ensures
        hex_values(hex_bytes(bytes)) == Ok::<Seq<u8>, number::NumberFault>(bytes),
    decreases bytes.len(),
{
    if bytes.len() == 0 {
        assert(bytes =~= Seq::<u8>::empty());
    } else {
        assert(hex_bytes(bytes).drop_last() =~= hex_bytes(bytes.drop_last()));
        lemma_hex_values(bytes.drop_last());
        number::law_hex_reads_back(bytes.last());
        assert(bytes =~= bytes.drop_last().push(bytes.last()));
    }
}

/// A hardware address is read as the one that was written.
pub proof fn law_mac_reads_back(bytes: Seq<u8>)
    requires
        bytes.len() == 6,
    ensures
        mac_of(mac_text(bytes)) == Ok::<Seq<u8>, Seq<char>>(bytes),
{
    let parts = hex_bytes(bytes);
    reveal_strlit(":");
    assert(":"@ =~= seq![':']);
    assert forall|i: int| 0 <= i < parts.len() implies !(#[trigger] parts[i]).contains(':') by {
        number::law_hex_reads_back(bytes[i]);
    }
    text::law_split_undoes_join(parts, ':');
    lemma_hex_values(bytes);
}

// ---------------------------------------------------------------------------
// The VXLAN link
// ---------------------------------------------------------------------------

/// The hardware address that an answer gives: the first of the link.
pub open spec fn first_mac(r: netlink::ReplyView, idx: u32) -> Result<Seq<char>, Seq<char>> {
    match r {
        netlink::ReplyView::Refused(_, t) => Err(t),
        netlink::ReplyView::Failed(t) => Err(t),
        netlink::ReplyView::Addresses(Some(list)) => if list.len() > 0 {
            Ok(mac_text(list[0]))
        } else {
            Err("no MAC on link "@ + number::decimal(idx as nat))
        },
        _ => Err("link disappeared"@),
    }
}

fn link_mac(r: &Reply, idx: u32) -> (m: Result<String, String>)
    ensures
        netlink::text_result(m, |s: String| s@) == first_mac(r@, idx),
{
    match r {
        Reply::Refused(_, t) => Err(t.clone()),
        Reply::Failed(t) => Err(t.clone()),
        Reply::Addresses(Some(list)) => if list.len() > 0 {
            assert(netlink::byte_views(list@)[0] == list@[0]@);
            Ok(format_mac(&list[0]))
        } else {
            Err(
                text::join2(
                    "no MAC on link ",
                    number::decimal_text(idx as u64).as_str(),
                ),
            )
        },
        _ => Err("link disappeared".to_owned()),
    }
}

/// Making sure of the VXLAN link: it is looked for; where it is absent, it is
/// created and gets the MTU and the gateway's address, whatever comes of
/// either; it is brought up. The outcome is its hardware address and its index.
pub open spec fn vxlan_progress(
    name: Seq<char>,
    vni: u32,
    dstport: u16,
    local: u32,
    gateway: u32,
    mtu: u32,
    replies: Seq<netlink::ReplyView>,
    from: int,
) -> Progress<netlink::RequestView, Result<(Seq<char>, u32), Seq<char>>> {
    if from >= replies.len() {
        Progress::Ask(netlink::RequestView::FindLink(name))
    } else {
        match netlink::index_of(replies[from]) {
            Err(t) => Progress::Done(Err(t), (from + 1) as usize),
            Ok(Some(idx)) => if from + 1 >= replies.len() {
                Progress::Ask(netlink::RequestView::LinkAddresses(idx))
            } else {
                match first_mac(replies[from + 1], idx) {
                    Err(t) => Progress::Done(Err(t), (from + 2) as usize),
                    Ok(mac) => if from + 2 >= replies.len() {
                        Progress::Ask(netlink::RequestView::SetUp(idx))
                    } else {
                        Progress::Done(
                            match netlink::failure_of(replies[from + 2]) {
                                Some(t) => Err(t),
                                None => Ok((mac, idx)),
                            },
                            (from + 3) as usize,
                        )
                    },
                }
            },
            Ok(None) => new_vxlan_progress(
                name,
                vni,
                dstport,
                local,
                gateway,
                mtu,
                replies,
                from + 1,
            ),
        }
    }
}

/// Creating the VXLAN link.
pub open spec fn new_vxlan_progress(
    name: Seq<char>,
    vni: u32,
    dstport: u16,
    local: u32,
    gateway: u32,
    mtu: u32,
    replies: Seq<netlink::ReplyView>,
    from: int,
) -> Progress<netlink::RequestView, Result<(Seq<char>, u32), Seq<char>>> {
    if from >= replies.len() {
        Progress::Ask(netlink::RequestView::AddVxlan(name, vni, dstport, local))
    } else if let Some(t) = netlink::failure_of(replies[from]) {
        Progress::Done(Err(netlink::within("create vxlan link"@, t)), (from + 1) as usize)
    } else if from + 1 >= replies.len() {
        Progress::Ask(netlink::RequestView::FindLink(name))
    } else {
        match netlink::index_of(replies[from + 1]) {
            Err(t) => Progress::Done(Err(t), (from + 2) as usize),
            Ok(None) => Progress::Done(
                Err("vxlan link missing after create"@),
                (from + 2) as usize,
            ),
            Ok(Some(idx)) => if from + 2 >= replies.len() {
                Progress::Ask(netlink::RequestView::SetMtu(idx, mtu))
            } else if from + 3 >= replies.len() {
                Progress::Ask(netlink::RequestView::AddAddress(idx, gateway, 32))
            } else if from + 4 >= replies.len() {
                Progress::Ask(netlink::RequestView::SetUp(idx))
            } else if let Some(t) = netlink::failure_of(replies[from + 4]) {
                Progress::Done(Err(t), (from + 5) as usize)
            } else if from + 5 >= replies.len() {
                Progress::Ask(netlink::RequestView::LinkAddresses(idx))
            } else {
                Progress::Done(
                    match first_mac(replies[from + 5], idx) {
                        Err(t) => Err(t),
                        Ok(mac) => Ok((mac, idx)),
                    },
                    (from + 6) as usize,
                )
            },
        }
    }
}

fn create_vxlan(
    name: &str,
    vni: u32,
    dstport: u16,
    local: u32,
    gateway: u32,
    mtu: u32,
    replies: &Vec<Reply>,
    from: usize,
) -> (p: Progress<Request, Result<(String, u32), String>>)
    ensures
        hostns::net_view(p, |t: (String, u32)| (t.0@, t.1)) == new_vxlan_progress(
            name@,
            vni,
            dstport,
            local,
            gateway,
            mtu,
            netlink::reply_views(replies@),
            from as int,
        ),
{
    let ghost views = netlink::reply_views(replies@);
    if from >= replies.len() {
        return Progress::Ask(Request::AddVxlan(name.to_owned(), vni, dstport, local));
    }
    assert(views[from as int] == replies@[from as int]@);
    if let Some(t) = netlink::failure(&replies[from]) {
        return Progress::Done(
            Err(netlink::in_context("create vxlan link", t.as_str())),
            from + 1,
        );
    }
    if from + 1 >= replies.len() {
        return Progress::Ask(Request::FindLink(name.to_owned()));
    }
    assert(views[from + 1] == replies@[from + 1]@);
    let idx: u32 = match netlink::link_index(&replies[from + 1]) {
        Err(t) => {
            return Progress::Done(Err(t), from + 2);
        },
        Ok(None) => {
            return Progress::Done(Err("vxlan link missing after create".to_owned()), from + 2);
        },
        Ok(Some(i)) => i,
    };
    if from + 2 >= replies.len() {
        return Progress::Ask(Request::SetMtu(idx, mtu));
    }
    if from + 3 >= replies.len() {
        return Progress::Ask(Request::AddAddress(idx, gateway, 32));
    }
    if from + 4 >= replies.len() {
        return Progress::Ask(Request::SetUp(idx));
    }
    assert(views[from + 4] == replies@[from + 4]@);
    if let Some(t) = netlink::failure(&replies[from + 4]) {
        return Progress::Done(Err(t), from + 5);
    }
    if from + 5 >= replies.len() {
        return Progress::Ask(Request::LinkAddresses(idx));
    }
    assert(views[from + 5] == replies@[from + 5]@);
    match link_mac(&replies[from + 5], idx) {
        Err(t) => Progress::Done(Err(t), from + 6),
        Ok(mac) => Progress::Done(Ok((mac, idx)), from + 6),
    }
}

impl Netlink {
    /// Makes sure of the VXLAN link.
    pub fn ensure_vxlan(
        name: &str,
        vni: u32,
        dstport: u16,
        local: u32,
        gateway: u32,
        mtu: u32,
        replies: &Vec<Reply>,
        from: usize,
    ) -> (p: Progress<Request, Result<(String, u32), String>>)
        ensures
            hostns::net_view(p, |t: (String, u32)| (t.0@, t.1)) == vxlan_progress(
                name@,
                vni,
                dstport,
                local,
                gateway,
                mtu,
                netlink::reply_views(replies@),
                from as int,
            ),
    {
        let ghost views = netlink::reply_views(replies@);
        if from >= replies.len() {
            return Progress::Ask(Request::FindLink(name.to_owned()));
        }
        assert(views[from as int] == replies@[from as int]@);
        let idx: u32 = match netlink::link_index(&replies[from]) {
            Err(t) => {
                return Progress::Done(Err(t), from + 1);
            },
            Ok(None) => {
                return create_vxlan(name, vni, dstport, local, gateway, mtu, replies, from + 1);
            },
            Ok(Some(i)) => i,
        };
        if from + 1 >= replies.len() {
            return Progress::Ask(Request::LinkAddresses(idx));
        }
        assert(views[from + 1] == replies@[from + 1]@);
        let mac = match link_mac(&replies[from + 1], idx) {
            Err(t) => {
                return Progress::Done(Err(t), from + 2);
            },
            Ok(m) => m,
        };
        if from + 2 >= replies.len() {
            return Progress::Ask(Request::SetUp(idx));
        }
        assert(views[from + 2] == replies@[from + 2]@);
        match netlink::failure(&replies[from + 2]) {
            Some(t) => Progress::Done(Err(t), from + 3),
            None => Progress::Done(Ok((mac, idx)), from + 3),
        }
    }
}

// ---------------------------------------------------------------------------
// Peers
// ---------------------------------------------------------------------------

/// The subnet of a peer, or the wording of what is wrong with it.
pub open spec fn peer_net(p: peer::PeerView) -> Result<ipv4::NetView, Seq<char>> {
    match ipv4::cidr_read(p.pod_cidr) {
        Ok(n) => Ok(ipv4::NetView { addr: n.0, prefix: n.1 }),
        Err(e) => Err(netlink::within("parse peer cidr"@, e)),
    }
}

fn net_of(p: &Peer) -> (r: Result<Ipv4Net, String>)
    ensures
        netlink::text_result(r, |n: Ipv4Net| n@) == peer_net(p@),
{
    match Ipv4Net::parse(p.pod_cidr.as_str()) {
        Ok(n) => Ok(n),
        Err(e) => Err(netlink::in_context("parse peer cidr", e.as_str())),
    }
}

/// Adding a route. That it exists already is no failure.
pub open spec fn added_route(
    spec: RouteSpec,
    context: Seq<char>,
    replies: Seq<netlink::ReplyView>,
    from: int,
) -> Progress<netlink::RequestView, Result<(), Seq<char>>> {
    if from >= replies.len() {
        Progress::Ask(netlink::RequestView::AddRoute(spec))
    } else {
        Progress::Done(
            match netlink::refusal_of(replies[from]) {
                Some(t) => Err(netlink::within(context, t)),
                None => Ok(()),
            },
            (from + 1) as usize,
        )
    }
}

fn put_route(spec: RouteSpec, context: &str, replies: &Vec<Reply>, from: usize) -> (p: Progress<
    Request,
    Result<(), String>,
>)
    ensures
        hostns::net_view(p, |u: ()| u) == added_route(
            spec,
            context@,
            netlink::reply_views(replies@),
            from as int,
        ),
{
    if from >= replies.len() {
        return Progress::Ask(Request::AddRoute(spec));
    }
    assert(netlink::reply_views(replies@)[from as int] == replies@[from as int]@);
    match netlink::refusal(&replies[from]) {
        Some(t) => Progress::Done(Err(netlink::in_context(context, t.as_str())), from + 1),
        None => Progress::Done(Ok(()), from + 1),
    }
}

/// The route to a peer's subnet over the overlay: through the lowest address
/// of the subnet, which is the peer's end of the overlay and counts as
/// directly reachable.
pub open spec fn overlay_route(net: ipv4::NetView, dev: u32) -> RouteSpec {
    RouteSpec {
        dst: ipv4::network(net),
        prefix: net.prefix,
        gateway: Some(ipv4::network(net)),
        oif: dev,
        onlink: true,
    }
}

/// Adding the route to a peer's subnet over the overlay.
pub open spec fn route_progress(
    dev: u32,
    p: peer::PeerView,
    replies: Seq<netlink::ReplyView>,
    from: int,
) -> Progress<netlink::RequestView, Result<(), Seq<char>>> {
    match peer_net(p) {
        Err(e) => Progress::Done(Err(e), from as usize),
        Ok(net) => added_route(overlay_route(net, dev), "add route"@, replies, from),
    }
}

impl Netlink {
    /// Adds the route to a peer's subnet over the overlay.
    ///
    /// Without a gateway the kernel would try to resolve each destination on the
    /// overlay's link, which learns nothing; through the peer's end it resolves
    /// that one address, which has a permanent entry.
    pub fn add_route(dev: u32, peer: &Peer, replies: &Vec<Reply>, from: usize) -> (p: Progress<
        Request,
        Result<(), String>,
    >)
        ensures
            hostns::net_view(p, |u: ()| u) == route_progress(
                dev,
                peer@,
                netlink::reply_views(replies@),
                from as int,
            ),
    {
        match net_of(peer) {
            Err(e) => Progress::Done(Err(e), from),
            Ok(net) => {
                let network: u32 = net.network();
                let spec = RouteSpec {
                    dst: network,
                    prefix: net.prefix(),
                    gateway: Some(network),
                    oif: dev,
                    onlink: true,
                };
                put_route(spec, "add route", replies, from)
            },
        }
    }
}

/// The message of the standard library for text that is no address.
pub open spec fn address_fault() -> Seq<char> {
    "invalid IPv4 address syntax"@
}

/// Adding what resolves a peer's end of the overlay: its hardware address, and
/// the node behind that. Both are asked for; that either exists already is no
/// failure.
pub open spec fn l2_progress(
    dev: u32,
    p: peer::PeerView,
    replies: Seq<netlink::ReplyView>,
    from: int,
) -> Progress<netlink::RequestView, Result<(), Seq<char>>> {
    match mac_of(p.vtep_mac) {
        Err(e) => Progress::Done(Err(e), from as usize),
        Ok(bytes) => match ipv4::cidr_read(p.pod_cidr) {
            Err(e) => Progress::Done(Err(e), from as usize),
            Ok(n) => match ipv4::address(p.public_ip) {
                None => Progress::Done(Err(address_fault()), from as usize),
                Some(public) => {
                    let vtep_ip = ipv4::network(ipv4::NetView { addr: n.0, prefix: n.1 });
                    if from >= replies.len() {
                        Progress::Ask(netlink::RequestView::AddNeighbour(dev, vtep_ip, bytes))
                    } else if from + 1 >= replies.len() {
                        Progress::Ask(netlink::RequestView::AddForwarding(dev, bytes, public))
                    } else {
                        Progress::Done(
                            resolved(replies[from], replies[from + 1]),
                            (from + 2) as usize,
                        )
                    }
                },
            },
        },
    }
}

/// What came of adding a neighbour and a forwarding entry.
pub open spec fn resolved(
    neighbour: netlink::ReplyView,
    forwarding: netlink::ReplyView,
) -> Result<(), Seq<char>> {
    match (netlink::refusal_of(neighbour), netlink::refusal_of(forwarding)) {
        (Some(t), _) => Err(netlink::within("add neighbour"@, t)),
        (None, Some(t)) => Err(netlink::within("add fdb entry"@, t)),
        (None, None) => Ok(()),
    }
}

impl Netlink {
    /// Adds what resolves a peer's end of the overlay.
    pub fn add_peer_l2(dev: u32, peer: &Peer, replies: &Vec<Reply>, from: usize) -> (p: Progress<
        Request,
        Result<(), String>,
    >)
        ensures
            hostns::net_view(p, |u: ()| u) == l2_progress(
                dev,
                peer@,
                netlink::reply_views(replies@),
                from as int,
            ),
    {
        let mac: [u8; 6] = match parse_mac(peer.vtep_mac.as_str()) {
            Err(e) => {
                return Progress::Done(Err(e), from);
            },
            Ok(m) => m,
        };
        let cidr = match Ipv4Net::parse(peer.pod_cidr.as_str()) {
            Err(e) => {
                return Progress::Done(Err(e), from);
            },
            Ok(n) => n,
        };
        let public: u32 = match ipv4::parse_address(peer.public_ip.as_str()) {
            None => {
                return Progress::Done(Err("invalid IPv4 address syntax".to_owned()), from);
            },
            Some(a) => a,
        };
        if from >= replies.len() {
            return Progress::Ask(Request::AddNeighbour(dev, cidr.network(), mac));
        }
        if from + 1 >= replies.len() {
            return Progress::Ask(Request::AddForwarding(dev, mac, public));
        }
        let ghost views = netlink::reply_views(replies@);
        assert(views[from as int] == replies@[from as int]@);
        assert(views[from + 1] == replies@[from + 1]@);
        if let Some(t) = netlink::refusal(&replies[from]) {
            return Progress::Done(Err(netlink::in_context("add neighbour", t.as_str())), from + 2);
        }
        match netlink::refusal(&replies[from + 1]) {
            Some(t) => Progress::Done(
                Err(netlink::in_context("add fdb entry", t.as_str())),
                from + 2,
            ),
            None => Progress::Done(Ok(()), from + 2),
        }
    }
}

/// Whether a route leads to exactly that subnet, out on that link.
pub open spec fn leads_to(r: netlink::RouteEntryView, net: ipv4::NetView, dev: u32) -> bool {
    r.prefix == net.prefix && r.destinations.contains(ipv4::network(net)) && r.oif == Some(dev)
}

/// The positions of the routes that lead to exactly that subnet, out on that
/// link.
pub open spec fn routes_to(
    routes: Seq<netlink::RouteEntryView>,
    net: ipv4::NetView,
    dev: u32,
) -> Seq<int>
    decreases routes.len(),
{
    if routes.len() == 0 {
        Seq::empty()
    } else {
        let before = routes_to(routes.drop_last(), net, dev);
        if leads_to(routes.last(), net, dev) {
            before.push(routes.len() - 1)
        } else {
            before
        }
    }
}

proof fn lemma_routes_to(routes: Seq<netlink::RouteEntryView>, net: ipv4::NetView, dev: u32)
    ensures
        forall|k: int|
            0 <= k < routes_to(routes, net, dev).len() ==> 0 <= #[trigger] routes_to(
                routes,
                net,
                dev,
            )[k] < routes.len() && leads_to(routes[routes_to(routes, net, dev)[k]], net, dev),
        forall|i: int|
            0 <= i < routes.len() && leads_to(#[trigger] routes[i], net, dev) ==> routes_to(
                routes,
                net,
                dev,
            ).contains(i),
    decreases routes.len(),
{
    if routes.len() > 0 {
        let cut = routes.drop_last();
        let before = routes_to(cut, net, dev);
        let all = routes_to(routes, net, dev);
        lemma_routes_to(cut, net, dev);
        assert forall|k: int| 0 <= k < all.len() implies 0 <= #[trigger] all[k] < routes.len()
            && leads_to(routes[all[k]], net, dev) by {
            if k < before.len() {
                assert(all[k] == before[k]);
                assert(cut[before[k]] == routes[before[k]]);
            }
        }
        assert forall|i: int|
            0 <= i < routes.len() && leads_to(#[trigger] routes[i], net, dev) implies all.contains(
            i,
        ) by {
            if i < cut.len() {
                assert(cut[i] == routes[i]);
                assert(before.contains(i));
                assert(all[before.index_of(i)] == i);
            } else {
                assert(all[before.len() as int] == i);
            }
        }
    }
}

/// The first neighbour on that link with that address, from a position on.
pub open spec fn neighbour_position(
    entries: Seq<netlink::NeighbourEntryView>,
    dev: u32,
    ip: u32,
    from: int,
) -> Option<int>
    decreases entries.len() - from,
{
    if from >= entries.len() {
        None
    } else if entries[from].ifindex == dev && entries[from].destinations.contains(ip) {
        Some(from)
    } else {
        neighbour_position(entries, dev, ip, from + 1)
    }
}

fn holds_ip(list: &Vec<u32>, ip: u32) -> (r: bool)
    ensures
        r == list@.contains(ip),
{
    let mut i: usize = 0;
    while i < list.len()
        invariant
            i <= list@.len(),
            forall|j: int| 0 <= j < i ==> list@[j] != ip,
        decreases list@.len() - i,
    {
        if list[i] == ip {
            return true;
        }
        i = i + 1;
    }
    false
}

/// Positions as numbers without bound.
pub open spec fn as_ints(v: Seq<usize>) -> Seq<int> {
    v.map_values(|i: usize| i as int)
}

fn find_routes(routes: &Vec<RouteEntry>, net: &Ipv4Net, dev: u32) -> (v: Vec<usize>)
    ensures
        as_ints(v@) == routes_to(netlink::route_views(routes@), net@, dev),
        v@.len() <= routes@.len(),
{
    let ghost all = netlink::route_views(routes@);
    let prefix: u8 = net.prefix();
    let network: u32 = net.network();
    let mut v: Vec<usize> = Vec::new();
    let mut i: usize = 0;
    assert(all.take(0) =~= Seq::<netlink::RouteEntryView>::empty());
    assert(as_ints(v@) =~= Seq::<int>::empty());
    while i < routes.len()
        invariant
            i <= routes@.len(),
            all == netlink::route_views(routes@),
            prefix == net@.prefix,
            network == ipv4::network(net@),
            v@.len() <= i,
            as_ints(v@) == routes_to(all.take(i as int), net@, dev),
        decreases routes@.len() - i,
    {
        let ghost before = as_ints(v@);
        proof {
            assert(all.take(i + 1).drop_last() =~= all.take(i as int));
            assert(all.take(i + 1).last() == routes@[i as int]@);
        }
        let here = match routes[i].oif {
            Some(oif) => oif == dev,
            None => false,
        };
        if here && routes[i].prefix == prefix && holds_ip(&routes[i].destinations, network) {
            v.push(i);
            assert(as_ints(v@) =~= before.push(i as int));
        }
        i = i + 1;
    }
    assert(all.take(routes@.len() as int) =~= all);
    v
}

fn find_neighbour(entries: &Vec<NeighbourEntry>, dev: u32, ip: u32) -> (r: Option<usize>)
    ensures
        match r {
            Some(i) => neighbour_position(netlink::neighbour_views(entries@), dev, ip, 0) == Some(
                i as int,
            ),
            None => neighbour_position(netlink::neighbour_views(entries@), dev, ip, 0) is None,
        },
{
    let ghost views = netlink::neighbour_views(entries@);
    let mut i: usize = 0;
    while i < entries.len()
        invariant
            i <= entries@.len(),
            views == netlink::neighbour_views(entries@),
            neighbour_position(views, dev, ip, 0) == neighbour_position(views, dev, ip, i as int),
        decreases entries@.len() - i,
    {
        assert(views[i as int] == entries@[i as int]@);
        if entries[i].ifindex == dev && holds_ip(&entries[i].destinations, ip) {
            return Some(i);
        }
        i = i + 1;
    }
    None
}

/// The first failure among answers.
pub open spec fn first_failure(replies: Seq<netlink::ReplyView>) -> Option<Seq<char>>
    decreases replies.len(),
{
    if replies.len() == 0 {
        None
    } else if let Some(t) = first_failure(replies.drop_last()) {
        Some(t)
    } else {
        netlink::failure_of(replies.last())
    }
}

proof fn lemma_no_failure(replies: Seq<netlink::ReplyView>)
    requires
        first_failure(replies) is None,
    ensures
        forall|i: int| 0 <= i < replies.len() ==> netlink::failure_of(#[trigger] replies[i]) is None,
    decreases replies.len(),
{
    if replies.len() > 0 {
        lemma_no_failure(replies.drop_last());
        assert forall|i: int| 0 <= i < replies.len() implies netlink::failure_of(
            #[trigger] replies[i],
        ) is None by {
            if i < replies.len() - 1 {
                assert(replies.drop_last()[i] == replies[i]);
            }
        }
    }
}

fn failure_among(replies: &Vec<Reply>, from: usize, end: usize) -> (r: Option<String>)
    requires
        from <= end <= replies@.len(),
    ensures
        text::opt_text(r) == first_failure(
            netlink::reply_views(replies@).subrange(from as int, end as int),
        ),
{
    let ghost views = netlink::reply_views(replies@);
    let ghost all = views.subrange(from as int, end as int);
    let mut i: usize = from;
    let mut found: Option<String> = None;
    assert(all.take(0) =~= Seq::<netlink::ReplyView>::empty());
    while i < end
        invariant
            from <= i <= end <= replies@.len(),
            views == netlink::reply_views(replies@),
            all == views.subrange(from as int, end as int),
            text::opt_text(found) == first_failure(all.take(i - from)),
        decreases end - i,
    {
        proof {
            assert(all.take(i - from + 1).drop_last() =~= all.take(i - from));
            assert(all.take(i - from + 1).last() == replies@[i as int]@);
        }
        if found.is_none() {
            found = netlink::failure(&replies[i]);
        }
        i = i + 1;
    }
    assert(all.take(end - from) =~= all);
    found
}

/// Removing the routes to a subnet on a link: the routes are listed, and each
/// that leads there is deleted. It fails where the list could not be read to
/// its end, and where a route could not be deleted, though the others are.
pub open spec fn unrouted(
    net: ipv4::NetView,
    dev: u32,
    replies: Seq<netlink::ReplyView>,
    from: int,
) -> Progress<netlink::RequestView, Result<(), Seq<char>>> {
    if from >= replies.len() {
        Progress::Ask(netlink::RequestView::ListRoutes)
    } else {
        match replies[from] {
            netlink::ReplyView::Refused(_, t) => Progress::Done(Err(t), (from + 1) as usize),
            netlink::ReplyView::Failed(t) => Progress::Done(Err(t), (from + 1) as usize),
            netlink::ReplyView::Routes(routes, ended) => {
                let there = routes_to(routes, net, dev);
                let end = from + 1 + there.len();
                if replies.len() < end {
                    Progress::Ask(
                        netlink::RequestView::DeleteRoute(
                            there[replies.len() - from - 1] as usize,
                        ),
                    )
                } else {
                    Progress::Done(
                        match (first_failure(replies.subrange(from + 1, end)), ended) {
                            (Some(t), _) => Err(netlink::within("delete route"@, t)),
                            (None, Some(t)) => Err(t),
                            (None, None) => Ok(()),
                        },
                        end as usize,
                    )
                }
            },
            _ => Progress::Done(Err("no list of routes"@), (from + 1) as usize),
        }
    }
}

fn drop_routes(net: &Ipv4Net, dev: u32, replies: &Vec<Reply>, from: usize) -> (p: Progress<
    Request,
    Result<(), String>,
>)
    ensures
        hostns::net_view(p, |u: ()| u) == unrouted(
            net@,
            dev,
            netlink::reply_views(replies@),
            from as int,
        ),
{
    if from >= replies.len() {
        return Progress::Ask(Request::ListRoutes);
    }
    assert(netlink::reply_views(replies@)[from as int] == replies@[from as int]@);
    match &replies[from] {
        Reply::Refused(_, t) => Progress::Done(Err(t.clone()), from + 1),
        Reply::Failed(t) => Progress::Done(Err(t.clone()), from + 1),
        Reply::Routes(routes, ended) => {
            let there = find_routes(routes, net, dev);
            let done: usize = replies.len() - from - 1;
            if done < there.len() {
                assert(as_ints(there@)[done as int] == there@[done as int]);
                return Progress::Ask(Request::DeleteRoute(there[done]));
            }
            let end: usize = from + 1 + there.len();
            if let Some(t) = failure_among(replies, from + 1, end) {
                return Progress::Done(Err(netlink::in_context("delete route", t.as_str())), end);
            }
            match ended {
                Some(t) => Progress::Done(Err(t.clone()), end),
                None => Progress::Done(Ok(()), end),
            }
        },
        _ => Progress::Done(Err("no list of routes".to_owned()), from + 1),
    }
}

/// Removing the neighbour that resolves a peer's end of the overlay, whatever
/// comes of it.
pub open spec fn forgotten(
    dev: u32,
    ip: u32,
    replies: Seq<netlink::ReplyView>,
    from: int,
) -> Progress<netlink::RequestView, ()> {
    if from >= replies.len() {
        Progress::Ask(netlink::RequestView::ListNeighbours)
    } else {
        match replies[from] {
            netlink::ReplyView::Neighbours(entries) => match neighbour_position(
                entries,
                dev,
                ip,
                0,
            ) {
                Some(i) => if from + 1 >= replies.len() {
                    Progress::Ask(netlink::RequestView::DeleteNeighbour(i as usize))
                } else {
                    Progress::Done((), (from + 2) as usize)
                },
                None => Progress::Done((), (from + 1) as usize),
            },
            _ => Progress::Done((), (from + 1) as usize),
        }
    }
}

fn drop_neighbour(dev: u32, ip: u32, replies: &Vec<Reply>, from: usize) -> (p: Progress<
    Request,
    (),
>)
    ensures
        progress::progress_view(p, |q: Request| q@, |u: ()| u) == forgotten(
            dev,
            ip,
            netlink::reply_views(replies@),
            from as int,
        ),
{
    if from >= replies.len() {
        return Progress::Ask(Request::ListNeighbours);
    }
    assert(netlink::reply_views(replies@)[from as int] == replies@[from as int]@);
    match &replies[from] {
        Reply::Neighbours(entries) => match find_neighbour(entries, dev, ip) {
            Some(i) => if from + 1 >= replies.len() {
                Progress::Ask(Request::DeleteNeighbour(i))
            } else {
                Progress::Done((), from + 2)
            },
            None => Progress::Done((), from + 1),
        },
        _ => Progress::Done((), from + 1),
    }
}

/// Removing the forwarding entry of a peer's end of the overlay, whatever comes
/// of it. A peer without readable addresses has none.
pub open spec fn unforwarded(
    dev: u32,
    p: peer::PeerView,
    replies: Seq<netlink::ReplyView>,
    from: int,
) -> Progress<netlink::RequestView, ()> {
    match (mac_of(p.vtep_mac), ipv4::address(p.public_ip)) {
        (Ok(bytes), Some(public)) => if from >= replies.len() {
            Progress::Ask(netlink::RequestView::DeleteForwarding(dev, bytes, public))
        } else {
            Progress::Done((), (from + 1) as usize)
        },
        _ => Progress::Done((), from as usize),
    }
}

fn drop_forwarding(dev: u32, peer: &Peer, replies: &Vec<Reply>, from: usize) -> (p: Progress<
    Request,
    (),
>)
    ensures
        progress::progress_view(p, |q: Request| q@, |u: ()| u) == unforwarded(
            dev,
            peer@,
            netlink::reply_views(replies@),
            from as int,
        ),
{
    match (parse_mac(peer.vtep_mac.as_str()), ipv4::parse_address(peer.public_ip.as_str())) {
        (Ok(mac), Some(public)) => if from >= replies.len() {
            Progress::Ask(Request::DeleteForwarding(dev, mac, public))
        } else {
            Progress::Done((), from + 1)
        },
        _ => Progress::Done((), from),
    }
}

/// Removing a peer of the overlay: its routes, then, where the routes could be
/// listed, the neighbour and the forwarding entry. What comes of the routes is
/// what comes of it.
pub open spec fn del_progress(
    dev: u32,
    p: peer::PeerView,
    replies: Seq<netlink::ReplyView>,
    from: int,
) -> Progress<netlink::RequestView, Result<(), Seq<char>>> {
    match peer_net(p) {
        Err(e) => Progress::Done(Err(e), from as usize),
        Ok(net) => match unrouted(net, dev, replies, from) {
            Progress::Ask(q) => Progress::Ask(q),
            Progress::Done(r, next) => if !(replies[from] is Routes) {
                Progress::Done(r, next)
            } else {
                match forgotten(dev, ipv4::network(net), replies, next as int) {
                    Progress::Ask(q) => Progress::Ask(q),
                    Progress::Done(_, next) => match unforwarded(dev, p, replies, next as int) {
                        Progress::Ask(q) => Progress::Ask(q),
                        Progress::Done(_, last) => Progress::Done(r, last),
                    },
                }
            },
        },
    }
}

impl Netlink {
    /// Removes a peer of the overlay.
    pub fn del_peer(dev: u32, peer: &Peer, replies: &Vec<Reply>, from: usize) -> (p: Progress<
        Request,
        Result<(), String>,
    >)
        ensures
            hostns::net_view(p, |u: ()| u) == del_progress(
                dev,
                peer@,
                netlink::reply_views(replies@),
                from as int,
            ),
    {
        let net = match net_of(peer) {
            Err(e) => {
                return Progress::Done(Err(e), from);
            },
            Ok(n) => n,
        };
        match drop_routes(&net, dev, replies, from) {
            Progress::Ask(q) => Progress::Ask(q),
            Progress::Done(r, next) => {
                assert(netlink::reply_views(replies@)[from as int] == replies@[from as int]@);
                if let Reply::Routes(_, _) = &replies[from] {
                    match drop_neighbour(dev, net.network(), replies, next) {
                        Progress::Ask(q) => Progress::Ask(q),
                        Progress::Done(_, next) => match drop_forwarding(
                            dev,
                            peer,
                            replies,
                            next,
                        ) {
                            Progress::Ask(q) => Progress::Ask(q),
                            Progress::Done(_, last) => Progress::Done(r, last),
                        },
                    }
                } else {
                    Progress::Done(r, next)
                }
            },
        }
    }
}

/// Adding the direct route to a peer's subnet: through the peer itself.
pub open spec fn host_gw_progress(
    dev: u32,
    p: peer::PeerView,
    replies: Seq<netlink::ReplyView>,
    from: int,
) -> Progress<netlink::RequestView, Result<(), Seq<char>>> {
    match peer_net(p) {
        Err(e) => Progress::Done(Err(e), from as usize),
        Ok(net) => match ipv4::address(p.public_ip) {
            None => Progress::Done(Err(address_fault()), from as usize),
            Some(gw) => added_route(
                RouteSpec {
                    dst: ipv4::network(net),
                    prefix: net.prefix,
                    gateway: Some(gw),
                    oif: dev,
                    onlink: false,
                },
                "add host-gw route"@,
                replies,
                from,
            ),
        },
    }
}

impl Netlink {
    /// Adds the direct route to a peer's subnet.
    pub fn add_host_gw_route(dev: u32, peer: &Peer, replies: &Vec<Reply>, from: usize) -> (p: Progress<
        Request,
        Result<(), String>,
    >)
        ensures
            hostns::net_view(p, |u: ()| u) == host_gw_progress(
                dev,
                peer@,
                netlink::reply_views(replies@),
                from as int,
            ),
    {
        let net = match net_of(peer) {
            Err(e) => {
                return Progress::Done(Err(e), from);
            },
            Ok(n) => n,
        };
        match ipv4::parse_address(peer.public_ip.as_str()) {
            None => Progress::Done(Err("invalid IPv4 address syntax".to_owned()), from),
            Some(gw) => {
                let spec = RouteSpec {
                    dst: net.network(),
                    prefix: net.prefix(),
                    gateway: Some(gw),
                    oif: dev,
                    onlink: false,
                };
                put_route(spec, "add host-gw route", replies, from)
            },
        }
    }
}

/// Removing the direct routes to a peer's subnet.
pub open spec fn del_host_gw_progress(
    dev: u32,
    p: peer::PeerView,
    replies: Seq<netlink::ReplyView>,
    from: int,
) -> Progress<netlink::RequestView, Result<(), Seq<char>>> {
    match peer_net(p) {
        Err(e) => Progress::Done(Err(e), from as usize),
        Ok(net) => unrouted(net, dev, replies, from),
    }
}

impl Netlink {
    /// Removes the direct routes to a peer's subnet.
    pub fn del_host_gw_route(dev: u32, peer: &Peer, replies: &Vec<Reply>, from: usize) -> (p: Progress<
        Request,
        Result<(), String>,
    >)
        ensures
            hostns::net_view(p, |u: ()| u) == del_host_gw_progress(
                dev,
                peer@,
                netlink::reply_views(replies@),
                from as int,
            ),
    {
        match net_of(peer) {
            Err(e) => Progress::Done(Err(e), from),
            Ok(net) => drop_routes(&net, dev, replies, from),
        }
    }
}

// ---------------------------------------------------------------------------
// What a removal leaves
// ---------------------------------------------------------------------------

/// What is asked after so many of the answers, where a peer is removed.
pub open spec fn removal(
    b: BackendType,
    dev: u32,
    p: peer::PeerView,
    replies: Seq<netlink::ReplyView>,
    from: int,
) -> Progress<netlink::RequestView, Result<(), Seq<char>>> {
    match b {
        BackendType::Vxlan => del_progress(dev, p, replies, from),
        BackendType::HostGw => del_host_gw_progress(dev, p, replies, from),
    }
}

/// A removal that succeeds leaves no route behind: the routes were listed to
/// their end, and each that leads to the peer's subnet on the link was asked to
/// be deleted, and was.
pub proof fn law_removal_leaves_no_route(
    b: BackendType,
    dev: u32,
    p: peer::PeerView,
    replies: Seq<netlink::ReplyView>,
    from: int,
    i: int,
)
    requires
        0 <= from,
        replies.len() <= usize::MAX,
        removal(b, dev, p, replies, from) matches Progress::Done(Ok(_), _),
    ensures
        ({
            &&& peer_net(p) matches Ok(net)
            &&& from < replies.len()
            &&& replies[from] matches netlink::ReplyView::Routes(routes, ended)
            &&& ended is None
            &&& 0 <= i < routes.len() && leads_to(routes[i], net, dev) ==> exists|k: int|
                from < k < replies.len() && netlink::failure_of(#[trigger] replies[k]) is None
                    && removal(b, dev, p, replies.take(k), from) == Progress::<
                    netlink::RequestView,
                    Result<(), Seq<char>>,
                >::Ask(netlink::RequestView::DeleteRoute(i as usize))
        }),
{
    let net = peer_net(p)->Ok_0;
    if replies.len() > from {
        if let netlink::ReplyView::Routes(routes, ended) = replies[from] {
            let there = routes_to(routes, net, dev);
            let end = from + 1 + there.len();
            assert(unrouted(net, dev, replies, from) is Done);
            assert(replies.len() >= end);
            let deletions = replies.subrange(from + 1, end);
            lemma_no_failure(deletions);
            lemma_routes_to(routes, net, dev);
            if 0 <= i < routes.len() && leads_to(routes[i], net, dev) {
                let at = there.index_of(i);
                let k = from + 1 + at;
                assert(there[at] == i);
                assert(deletions[at] == replies[k]);
                let cut = replies.take(k);
                assert(cut[from] == replies[from]);
                assert(unrouted(net, dev, cut, from) == Progress::<
                    netlink::RequestView,
                    Result<(), Seq<char>>,
                >::Ask(netlink::RequestView::DeleteRoute(i as usize)));
            }
        }
    }
}

/// No other route is deleted: whatever route a removal asks to delete is in the
/// list, and leads to the peer's subnet on the link.
pub proof fn law_removal_spares_other_routes(
    b: BackendType,
    dev: u32,
    p: peer::PeerView,
    replies: Seq<netlink::ReplyView>,
    from: int,
    i: usize,
)
    requires
        0 <= from,
        removal(b, dev, p, replies, from) == Progress::<
            netlink::RequestView,
            Result<(), Seq<char>>,
        >::Ask(netlink::RequestView::DeleteRoute(i)),
        from < replies.len(),
        replies[from] matches netlink::ReplyView::Routes(routes, _) ==> routes.len() <= usize::MAX,
    ensures
        peer_net(p) matches Ok(net) && replies[from] matches netlink::ReplyView::Routes(routes, _)
            && i < routes.len() && leads_to(routes[i as int], net, dev),
{
    let net = peer_net(p)->Ok_0;
    if let netlink::ReplyView::Routes(routes, _) = replies[from] {
        lemma_routes_to(routes, net, dev);
    }
}

/// A removal that ends after the routes were listed has asked for the forwarding
/// entry of the peer's hardware address and node to be deleted.
pub proof fn law_removal_takes_the_forwarding_entry(
    dev: u32,
    p: peer::PeerView,
    replies: Seq<netlink::ReplyView>,
    from: int,
)
    requires
        0 <= from < replies.len() <= usize::MAX,
        del_progress(dev, p, replies, from) is Done,
        replies[from] is Routes,
        peer_net(p) is Ok,
        mac_of(p.vtep_mac) is Ok,
        ipv4::address(p.public_ip) is Some,
    ensures
        exists|k: int|
            from < k < replies.len() && del_progress(dev, p, #[trigger] replies.take(k), from)
                == Progress::<netlink::RequestView, Result<(), Seq<char>>>::Ask(
                netlink::RequestView::DeleteForwarding(
                    dev,
                    mac_of(p.vtep_mac)->Ok_0,
                    ipv4::address(p.public_ip)->0,
                ),
            ),
{
    let net = peer_net(p)->Ok_0;
    let k = (del_progress(dev, p, replies, from)->Done_1 - 1) as int;
    let cut = replies.take(k);
    assert(cut[from] == replies[from]);
    if let netlink::ReplyView::Routes(routes, _) = replies[from] {
        let there = routes_to(routes, net, dev);
        let end = from + 1 + there.len();
        assert(unrouted(net, dev, replies, from) is Done);
        assert(cut[end] == replies[end]);
        assert(cut.subrange(from + 1, end) =~= replies.subrange(from + 1, end));
        assert(unrouted(net, dev, cut, from) == unrouted(net, dev, replies, from));
        assert(forgotten(dev, ipv4::network(net), cut, end) == forgotten(
            dev,
            ipv4::network(net),
            replies,
            end,
        ));
    }
}

// ---------------------------------------------------------------------------
// Answers in turn
// ---------------------------------------------------------------------------

/// Adding a route over the overlay takes its answers in turn.
pub proof fn lemma_route_in_turn(
    dev: u32,
    p: peer::PeerView,
    replies: Seq<netlink::ReplyView>,
    from: int,
)
    requires
        0 <= from <= replies.len() <= usize::MAX,
    ensures
        progress::in_turn(
            |r: Seq<netlink::ReplyView>| route_progress(dev, p, r, from),
            replies,
            from,
        ),
{
    if from < replies.len() {
        assert(forall|j: int| from < j <= replies.len() ==> (#[trigger] replies.take(j))[from]
            == replies[from]);
    }
}

/// Adding a direct route takes its answers in turn.
pub proof fn lemma_host_gw_in_turn(
    dev: u32,
    p: peer::PeerView,
    replies: Seq<netlink::ReplyView>,
    from: int,
)
    requires
        0 <= from <= replies.len() <= usize::MAX,
    ensures
        progress::in_turn(
            |r: Seq<netlink::ReplyView>| host_gw_progress(dev, p, r, from),
            replies,
            from,
        ),
{
    if from < replies.len() {
        assert(forall|j: int| from < j <= replies.len() ==> (#[trigger] replies.take(j))[from]
            == replies[from]);
    }
}

/// Adding what resolves a peer takes its answers in turn.
pub proof fn lemma_l2_in_turn(
    dev: u32,
    p: peer::PeerView,
    replies: Seq<netlink::ReplyView>,
    from: int,
)
    requires
        0 <= from <= replies.len() <= usize::MAX,
    ensures
        progress::in_turn(
            |r: Seq<netlink::ReplyView>| l2_progress(dev, p, r, from),
            replies,
            from,
        ),
{
    if from + 1 < replies.len() {
        assert(forall|j: int| from + 1 < j <= replies.len() ==> (#[trigger] replies.take(j))[from]
            == replies[from] && replies.take(j)[from + 1] == replies[from + 1]);
    }
}

/// Removing the routes to a subnet takes its answers in turn.
pub proof fn lemma_unrouted_in_turn(
    net: ipv4::NetView,
    dev: u32,
    replies: Seq<netlink::ReplyView>,
    from: int,
)
    requires
        0 <= from <= replies.len() <= usize::MAX,
    ensures
        progress::in_turn(
            |r: Seq<netlink::ReplyView>| unrouted(net, dev, r, from),
            replies,
            from,
        ),
        unrouted(net, dev, replies, from) is Done ==> from < replies.len(),
        unrouted(net, dev, replies, from) matches Progress::Done(_, next) ==> from < next,
{
    if from < replies.len() {
        assert(forall|j: int| from < j <= replies.len() ==> (#[trigger] replies.take(j))[from]
            == replies[from]);
        if let netlink::ReplyView::Routes(routes, ended) = replies[from] {
            let end = from + 1 + routes_to(routes, net, dev).len();
            if end <= replies.len() {
                assert forall|j: int| end <= j <= replies.len() implies (#[trigger] replies.take(
                    j,
                )).subrange(from + 1, end) == replies.subrange(from + 1, end) by {
                    assert(replies.take(j).subrange(from + 1, end) =~= replies.subrange(
                        from + 1,
                        end,
                    ));
                }
            }
        }
    }
}

proof fn lemma_forgotten_in_turn(
    dev: u32,
    ip: u32,
    replies: Seq<netlink::ReplyView>,
    from: int,
)
    requires
        0 <= from <= replies.len() <= usize::MAX,
    ensures
        progress::in_turn(
            |r: Seq<netlink::ReplyView>| forgotten(dev, ip, r, from),
            replies,
            from,
        ),
{
    if from < replies.len() {
        assert(forall|j: int| from < j <= replies.len() ==> (#[trigger] replies.take(j))[from]
            == replies[from]);
    }
}

/// Removing direct routes takes its answers in turn.
pub proof fn lemma_del_host_gw_in_turn(
    dev: u32,
    p: peer::PeerView,
    replies: Seq<netlink::ReplyView>,
    from: int,
)
    requires
        0 <= from <= replies.len() <= usize::MAX,
    ensures
        progress::in_turn(
            |r: Seq<netlink::ReplyView>| del_host_gw_progress(dev, p, r, from),
            replies,
            from,
        ),
{
    if let Ok(net) = peer_net(p) {
        lemma_unrouted_in_turn(net, dev, replies, from);
        let work = |r: Seq<netlink::ReplyView>| unrouted(net, dev, r, from);
        assert(progress::in_turn(work, replies, from));
        assert(forall|j: int|
            work(#[trigger] replies.take(j)) == unrouted(net, dev, replies.take(j), from));
    }
}

/// Removing a peer of the overlay takes its answers in turn.
pub proof fn lemma_del_in_turn(
    dev: u32,
    p: peer::PeerView,
    replies: Seq<netlink::ReplyView>,
    from: int,
)
    requires
        0 <= from <= replies.len() <= usize::MAX,
    ensures
        progress::in_turn(
            |r: Seq<netlink::ReplyView>| del_progress(dev, p, r, from),
            replies,
            from,
        ),
{
    if let Ok(net) = peer_net(p) {
        let ip = ipv4::network(net);
        let first = |r: Seq<netlink::ReplyView>| unrouted(net, dev, r, from);
        lemma_unrouted_in_turn(net, dev, replies, from);
        assert(progress::in_turn(first, replies, from));
        if let Progress::Done(_, next) = unrouted(net, dev, replies, from) {
            let second = |r: Seq<netlink::ReplyView>| forgotten(dev, ip, r, next as int);
            lemma_forgotten_in_turn(dev, ip, replies, next as int);
            assert(progress::in_turn(second, replies, next as int));
            let whole = |r: Seq<netlink::ReplyView>| del_progress(dev, p, r, from);
            if let Progress::Done(_, last) = whole(replies) {
                assert forall|j: int| last <= j <= replies.len() implies whole(
                    #[trigger] replies.take(j),
                ) == whole(replies) by {
                    let cut = replies.take(j);
                    assert(cut[from] == replies[from]);
                    assert(first(cut) == first(replies));
                    if replies[from] is Routes {
                        assert(second(cut) == second(replies));
                    }
                }
                assert forall|j: int| from <= j < last implies whole(
                    #[trigger] replies.take(j),
                ) is Ask by {
                    let cut = replies.take(j);
                    if j < next {
                        assert(first(cut) is Ask);
                    } else {
                        assert(cut[from] == replies[from]);
                        assert(first(cut) == first(replies));
                        let after = second(replies)->Done_1;
                        if j < after {
                            assert(second(cut) is Ask);
                        } else {
                            assert(second(cut) == second(replies));
                        }
                    }
                }
            }
        }
    }
}

} // verus!
