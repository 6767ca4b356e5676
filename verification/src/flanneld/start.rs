//! What the daemon's start is for: the other nodes, the kernel and the plugins
//! learn of this node what lets them reach its containers.

use vstd::prelude::*;

use crate::cni_flannel::subnetenv;
use crate::flanneld::annotation;
use crate::flanneld::config;
use crate::flanneld::config::BackendType;
use crate::flanneld::daemon;
use crate::flanneld::datapath;
use crate::flanneld::kube_mgr;
use crate::flanneld::netlink as overlay;
use crate::flanneld::peer;
use crate::flanneld::subnet;
use crate::ipv4;
use crate::json;
use crate::json::Json;
use crate::netlink;
use crate::netlink::RouteSpec;

verus! {

// ---------------------------------------------------------------------------
// What is known
// ---------------------------------------------------------------------------

/// Whether a text is the address of a node: the first that the cluster lists as
/// internal.
pub open spec fn is_own_address(n: kube_mgr::NodeView, a: Seq<char>) -> bool {
    exists|i: int|
        {
            &&& 0 <= i < n.addresses.len()
            &&& #[trigger] n.addresses[i] == ("InternalIP"@, a)
            &&& forall|j: int| 0 <= j < i ==> (#[trigger] n.addresses[j]).0 != "InternalIP"@
        }
}

/// Whether a start knows its node, with these texts for the addresses of its
/// containers and for its own address.
pub open spec fn knows(
    l: daemon::LearnedView,
    pod_cidr: Seq<char>,
    own: Seq<char>,
) -> bool {
    &&& l.own_node matches Some(Ok(n))
    &&& n.pod_cidr == Some(pod_cidr)
    &&& is_own_address(n, own)
}

/// Whether a start was configured with a backend, and with that text for the
/// addresses of the network.
pub open spec fn configured(
    l: daemon::LearnedView,
    b: BackendType,
    network: Seq<char>,
) -> bool {
    &&& l.net_conf matches Some(Ok(raw))
    &&& config::conf(raw) matches Ok(c)
    &&& c.network == network
    &&& c.kind == match b {
        BackendType::Vxlan => "vxlan"@,
        BackendType::HostGw => "host-gw"@,
    }
}

/// How large packets of containers may be: an overlay takes 50 bytes of what
/// the node's link allows, which is taken as 1500 where it is not known.
pub open spec fn leaves_room(l: daemon::LearnedView, b: BackendType, mtu: u32) -> bool {
    let link = match l.link_mtu {
        Some(Ok(m)) => m,
        _ => 1500,
    };
    match b {
        BackendType::Vxlan => mtu + 50 == link || (link < 50 && mtu == 0),
        BackendType::HostGw => mtu == link,
    }
}

proof fn lemma_own_address(
    all: Seq<(Seq<char>, Seq<char>)>,
    at: int,
)
    requires
        0 <= at <= all.len(),
        forall|j: int| 0 <= j < at ==> (#[trigger] all[j]).0 != "InternalIP"@,
    ensures
        kube_mgr::internal_ip(all.skip(at)) matches Some(a) ==> exists|i: int|
            {
                &&& 0 <= i < all.len()
                &&& #[trigger] all[i] == ("InternalIP"@, a)
                &&& forall|j: int| 0 <= j < i ==> (#[trigger] all[j]).0 != "InternalIP"@
            },
    decreases all.len() - at,
{
    if at < all.len() {
        let rest = all.skip(at);
        assert(rest[0] == all[at]);
        assert(rest.skip(1) =~= all.skip(at + 1));
        if all[at].0 != "InternalIP"@ {
            lemma_own_address(all, at + 1);
        } else {
            assert(all[at] == ("InternalIP"@, all[at].1));
        }
    }
}

proof fn lemma_backend(kind: Seq<char>)
    ensures
        config::backend_type(kind) == Some(BackendType::Vxlan) <==> kind == "vxlan"@,
        config::backend_type(kind) == Some(BackendType::HostGw) <==> kind == "host-gw"@,
{
    reveal_strlit("vxlan");
    reveal_strlit("host-gw");
    assert("vxlan"@.len() != "host-gw"@.len());
}

/// What is known where an attempt has come beyond its node.
proof fn lemma_known(l: daemon::LearnedView) -> (r: (BackendType, Seq<char>, Seq<char>, Seq<char>))
    requires
        match daemon::attempt(l) {
            daemon::AttemptView::Ask(daemon::QuestionView::ReadNetConf) => false,
            daemon::AttemptView::Ask(daemon::QuestionView::OwnNode) => false,
            daemon::AttemptView::Failed(_) => false,
            _ => true,
        },
    ensures
        configured(l, r.0, r.1),
        knows(l, r.2, r.3),
        ({
            let n = l.own_node->0->Ok_0;
            let c = ipv4::cidr_read(r.2);
            &&& c is Ok
            &&& ipv4::address(r.3) is Some
            &&& kube_mgr::own_of(n) == Ok::<kube_mgr::OwnView, Seq<char>>(
                kube_mgr::OwnView { pod_cidr: r.2, public_ip: r.3 },
            )
            &&& daemon::attempt(l) == daemon::connected(
                (daemon::Facts {
                    network: r.1,
                    backend: r.0,
                    own: kube_mgr::OwnView { pod_cidr: r.2, public_ip: r.3 },
                    local: ipv4::address(r.3)->0,
                    cidr: ipv4::NetView { addr: (c->Ok_0).0, prefix: (c->Ok_0).1 },
                }),
                l,
            )
        }),
{
    let raw = l.net_conf->0->Ok_0;
    let c = config::conf(raw)->Ok_0;
    lemma_backend(c.kind);
    let n = l.own_node->0->Ok_0;
    lemma_own_address(n.addresses, 0);
    assert(n.addresses.skip(0) =~= n.addresses);
    let own = kube_mgr::own_of(n)->Ok_0;
    (config::backend_type(c.kind)->0, c.network, own.pod_cidr, own.public_ip)
}

// ---------------------------------------------------------------------------
// The link
// ---------------------------------------------------------------------------

/// Whether an index is one that the kernel gave for a link that was looked for.
pub open spec fn found(replies: Seq<netlink::ReplyView>, idx: u32) -> bool {
    exists|k: int|
        0 <= k < replies.len() && #[trigger] replies[k] == netlink::ReplyView::Link(Some(idx))
}

/// Whether a request to the kernel is one that a start may make. All are about
/// the link of the overlay. It is created for the node's own address. The
/// address that it gets is the lowest of the node's containers, and nothing but
/// it; packets on it leave room for the overlay.
pub open spec fn sets_up(
    l: daemon::LearnedView,
    pod_cidr: Seq<char>,
    own: Seq<char>,
    q: netlink::RequestView,
) -> bool {
    match q {
        netlink::RequestView::FindLink(name) => name == "flannel.1"@,
        netlink::RequestView::AddVxlan(name, vni, port, local) => {
            &&& name == "flannel.1"@
            &&& vni == 1
            &&& port == 8472
            &&& ipv4::address(own) == Some(local)
        },
        netlink::RequestView::AddAddress(idx, a, prefix) => {
            &&& found(l.replies, idx)
            &&& prefix == 32
            &&& forall|net: ipv4::NetView| #[trigger]
                ipv4::names(pod_cidr, net) ==> ipv4::is_lowest(net, a)
        },
        netlink::RequestView::SetMtu(idx, mtu) => found(l.replies, idx) && leaves_room(
            l,
            BackendType::Vxlan,
            mtu,
        ),
        netlink::RequestView::SetUp(idx) => found(l.replies, idx),
        netlink::RequestView::LinkAddresses(idx) => found(l.replies, idx),
        _ => false,
    }
}

/// Whatever a start asks of the kernel sets up the link of the overlay for this
/// node, and is asked only where an overlay is configured.
pub proof fn law_start_sets_up_the_link(
    l: daemon::LearnedView,
    q: netlink::RequestView,
)
    requires
        daemon::attempt(l) == daemon::AttemptView::Ask(daemon::QuestionView::Net(q)),
    ensures
        exists|network: Seq<char>| #[trigger] configured(l, BackendType::Vxlan, network),
        exists|pod_cidr: Seq<char>, own: Seq<char>| #[trigger]
            knows(l, pod_cidr, own) && sets_up(l, pod_cidr, own, q),
{
    let (b, network, pod_cidr, own) = lemma_known(l);
    let c = ipv4::cidr_read(pod_cidr)->Ok_0;
    let cidr = ipv4::NetView { addr: c.0, prefix: c.1 };
    assert(ipv4::names(pod_cidr, cidr));
    ipv4::lemma_prefix(pod_cidr, cidr);
    ipv4::lemma_routed_by(cidr, 0);
    assert(forall|net: ipv4::NetView| #[trigger] ipv4::names(pod_cidr, net) ==> net == cidr);
    assert(configured(l, BackendType::Vxlan, network));
    if l.replies.len() > 0 {
        assert(l.replies[0] == l.replies[0]);
        if l.replies.len() > 2 {
            assert(l.replies[2] == l.replies[2]);
        }
    }
    assert(sets_up(l, pod_cidr, own, q));
    assert(knows(l, pod_cidr, own));
}

/// The nodes agree on the ends of the overlay: the address that a start asks for
/// on its link is the gateway of the route by which any other node reaches the
/// containers of this one.
pub proof fn law_link_is_the_gateway_of_others(
    l: daemon::LearnedView,
    pod_cidr: Seq<char>,
    own: Seq<char>,
    idx: u32,
    a: u32,
    prefix: u8,
    p: peer::PeerView,
    dev: u32,
    replies: Seq<netlink::ReplyView>,
    from: int,
    r: RouteSpec,
)
    requires
        daemon::attempt(l) == daemon::AttemptView::Ask(
            daemon::QuestionView::Net(netlink::RequestView::AddAddress(idx, a, prefix)),
        ),
        knows(l, pod_cidr, own),
        p.pod_cidr == pod_cidr,
        datapath::adds(
            BackendType::Vxlan,
            dev,
            p,
            replies,
            from,
            netlink::RequestView::AddRoute(r),
        ),
    ensures
        r.gateway == Some(a),
        prefix == 32,
{
    law_start_sets_up_the_link(l, netlink::RequestView::AddAddress(idx, a, prefix));
    datapath::law_addition_serves_the_peer(BackendType::Vxlan, dev, p, replies, from);
    let (b, network, pod, address) = lemma_known(l);
    let c = ipv4::cidr_read(pod_cidr)->Ok_0;
    let cidr = ipv4::NetView { addr: c.0, prefix: c.1 };
    assert(ipv4::names(pod_cidr, cidr));
    let g = r.gateway->0;
    assert(ipv4::contains(cidr, g) && ipv4::contains(cidr, a));
}

/// What has been learned, with the kernel's first answers only and nothing of
/// what comes after them.
pub open spec fn early(l: daemon::LearnedView, k: int) -> daemon::LearnedView {
    daemon::LearnedView { replies: l.replies.take(k), published: None, written: None, ..l }
}

/// Whether a start asked for something of the kernel, and what the answer was.
pub open spec fn asked(l: daemon::LearnedView, k: int, q: netlink::RequestView) -> bool {
    &&& 0 <= k < l.replies.len()
    &&& daemon::attempt(early(l, k)) == daemon::AttemptView::Ask(daemon::QuestionView::Net(q))
}

/// Whether a start went beyond the kernel.
pub open spec fn beyond_the_kernel(l: daemon::LearnedView) -> bool {
    match daemon::attempt(l) {
        daemon::AttemptView::Ask(daemon::QuestionView::Publish(_)) => true,
        daemon::AttemptView::Ask(daemon::QuestionView::WriteSubnetEnv(_)) => true,
        daemon::AttemptView::Ready(_) => true,
        _ => false,
    }
}

/// On an overlay nothing is published before the link is up: it was looked for;
/// where it was absent, it was created, and its address and the size of its
/// packets were asked for; and it was brought up with success.
pub proof fn law_link_is_up_before_anything_is_published(l: daemon::LearnedView, network: Seq<char>)
    requires
        l.replies.len() <= usize::MAX,
        configured(l, BackendType::Vxlan, network),
        beyond_the_kernel(l),
    ensures
        asked(l, 0, netlink::RequestView::FindLink("flannel.1"@)),
        exists|k: int, idx: u32| #[trigger]
            asked(l, k, netlink::RequestView::SetUp(idx)) && !datapath::went_wrong(l.replies[k]),
        exists|k: int, idx: u32| #[trigger]
            asked(l, k, netlink::RequestView::LinkAddresses(idx)) && (l.replies[k] matches
                netlink::ReplyView::Addresses(Some(list)) && list.len() > 0),
        !(l.replies[0] matches netlink::ReplyView::Link(Some(_))) ==> {
            &&& exists|vni: u32, port: u16, local: u32| #[trigger]
                asked(l, 1, netlink::RequestView::AddVxlan("flannel.1"@, vni, port, local))
            &&& !datapath::went_wrong(l.replies[1])
            &&& exists|k: int, idx: u32, a: u32, prefix: u8| #[trigger]
                asked(l, k, netlink::RequestView::AddAddress(idx, a, prefix))
            &&& exists|k: int, idx: u32, mtu: u32| #[trigger]
                asked(l, k, netlink::RequestView::SetMtu(idx, mtu))
        },
{
    let (b, other, pod_cidr, own) = lemma_known(l);
    let c = ipv4::cidr_read(pod_cidr)->Ok_0;
    let cidr = ipv4::NetView { addr: c.0, prefix: c.1 };
    lemma_backend(config::conf(l.net_conf->0->Ok_0)->Ok_0.kind);
    assert(b == BackendType::Vxlan);
    let n = l.replies.len() as int;
    assert(n >= 3);
    let local = ipv4::address(own)->0;
    let gateway = ipv4::network(cidr);
    assert forall|k: int, i: int| 0 <= i < k <= n implies (#[trigger] l.replies.take(
        k,
    ))[i] == #[trigger] l.replies[i] by {}
    assert(l.replies.take(0).len() == 0);
    assert(asked(l, 0, netlink::RequestView::FindLink("flannel.1"@)));
    assert(l.replies.take(1)[0] == l.replies[0]);
    assert(l.replies.take(2)[0] == l.replies[0] && l.replies.take(2)[1] == l.replies[1]);
    match netlink::index_of(l.replies[0]) {
        Ok(Some(idx)) => {
            assert(asked(l, 1, netlink::RequestView::LinkAddresses(idx)));
            assert(asked(l, 2, netlink::RequestView::SetUp(idx)));
        },
        _ => {
            assert(n >= 7);
            assert(asked(
                l,
                1,
                netlink::RequestView::AddVxlan("flannel.1"@, 1, 8472, local),
            ));
            let idx = netlink::index_of(l.replies[2])->Ok_0->0;
            let t3 = l.replies.take(3);
            let t4 = l.replies.take(4);
            let t5 = l.replies.take(5);
            let t6 = l.replies.take(6);
            assert(t3[0] == l.replies[0] && t3[1] == l.replies[1] && t3[2] == l.replies[2]);
            assert(t4[0] == l.replies[0] && t4[1] == l.replies[1] && t4[2] == l.replies[2]);
            assert(t5[0] == l.replies[0] && t5[1] == l.replies[1] && t5[2] == l.replies[2]);
            assert(t6[0] == l.replies[0] && t6[1] == l.replies[1] && t6[2] == l.replies[2] && t6[5]
                == l.replies[5]);
            let mtu = daemon::mtu_of(
                b,
                match l.link_mtu->0 {
                    Ok(m) => m,
                    Err(_) => daemon::DEFAULT_MTU,
                },
            );
            assert(asked(l, 3, netlink::RequestView::SetMtu(idx, mtu)));
            assert(asked(l, 4, netlink::RequestView::AddAddress(idx, gateway, 32)));
            assert(asked(l, 5, netlink::RequestView::SetUp(idx)));
            assert(asked(l, 6, netlink::RequestView::LinkAddresses(idx)));
        },
    }
}

// ---------------------------------------------------------------------------
// The lease
// ---------------------------------------------------------------------------

/// The name of the annotation with a node's own address.
pub open spec fn address_key() -> Seq<char> {
    "flannel.alpha.coreos.com/public-ip"@
}

/// The name of the annotation with a node's backend.
pub open spec fn backend_key() -> Seq<char> {
    "flannel.alpha.coreos.com/backend-type"@
}

/// The name of the annotation with what others need of a node's link.
pub open spec fn data_key() -> Seq<char> {
    "flannel.alpha.coreos.com/backend-data"@
}

/// The name of the annotation that says who manages a node's lease.
pub open spec fn managed_key() -> Seq<char> {
    "flannel.alpha.coreos.com/kube-subnet-manager-managed"@
}

proof fn lemma_annotation_keys()
    ensures
        annotation::key_of("public-ip"@) == address_key(),
        annotation::key_of("backend-type"@) == backend_key(),
        annotation::key_of("backend-data"@) == data_key(),
        annotation::key_of("kube-subnet-manager-managed"@) == managed_key(),
        address_key() != backend_key(),
        address_key() != data_key(),
        address_key() != managed_key(),
        backend_key() != data_key(),
        backend_key() != managed_key(),
        data_key() != managed_key(),
{
    reveal_strlit("flannel.alpha.coreos.com");
    reveal_strlit("/");
    reveal_strlit("public-ip");
    reveal_strlit("backend-type");
    reveal_strlit("backend-data");
    reveal_strlit("kube-subnet-manager-managed");
    reveal_strlit("flannel.alpha.coreos.com/public-ip");
    reveal_strlit("flannel.alpha.coreos.com/backend-type");
    reveal_strlit("flannel.alpha.coreos.com/backend-data");
    reveal_strlit("flannel.alpha.coreos.com/kube-subnet-manager-managed");
    assert(annotation::key_of("public-ip"@) =~= address_key());
    assert(annotation::key_of("backend-type"@) =~= backend_key());
    assert(annotation::key_of("backend-data"@) =~= data_key());
    assert(annotation::key_of("kube-subnet-manager-managed"@) =~= managed_key());
    assert(backend_key()[33] == 't' && data_key()[33] == 'd');
}

/// Whether an object is one of a node with these annotations, and no others.
pub open spec fn annotates(j: Json, annotations: Map<Seq<char>, Json>) -> bool {
    &&& json::member_of(j, "apiVersion"@) == Some(Json::Text("v1"@))
    &&& json::member_of(j, "kind"@) == Some(Json::Text("Node"@))
    &&& json::member_of(j, "metadata"@) matches Some(meta)
    &&& json::member_of(meta, "annotations"@) == Some(Json::Object(annotations))
}

/// Whether annotations tell other nodes how to reach this one: its backend, its
/// own address and, on an overlay, the hardware address that its link has.
pub open spec fn tells_others(
    l: daemon::LearnedView,
    b: BackendType,
    own: Seq<char>,
    m: Map<Seq<char>, Json>,
) -> bool {
    &&& forall|k: Seq<char>| #[trigger]
        m.contains_key(k) <==> k == backend_key() || k == address_key() || k == managed_key() || (b
            == BackendType::Vxlan && k == data_key())
    &&& m[address_key()] == Json::Text(own)
    &&& m[managed_key()] == Json::Text("true"@)
    &&& match b {
        BackendType::Vxlan => {
            &&& m[backend_key()] == Json::Text("vxlan"@)
            &&& exists|k: int, idx: u32, list: Seq<Seq<u8>>, mac: Seq<char>|
                {
                    &&& #[trigger] asked(l, k, netlink::RequestView::LinkAddresses(idx))
                    &&& #[trigger] gave(l.replies[k], list)
                    &&& m[data_key()] == Json::Text(
                        json::doc_text(#[trigger] annotation::backend_doc(mac)),
                    )
                    &&& list[0].len() == 6 ==> overlay::mac_of(mac) == Ok::<Seq<u8>, Seq<char>>(
                        list[0],
                    )
                }
        },
        BackendType::HostGw => m[backend_key()] == Json::Text("host-gw"@),
    }
}

/// Whether the kernel gave hardware addresses of a link.
pub open spec fn gave(r: netlink::ReplyView, list: Seq<Seq<u8>>) -> bool {
    r == netlink::ReplyView::Addresses(Some(list)) && list.len() > 0
}

proof fn lemma_annotates(m: Map<Seq<char>, Json>)
    ensures
        annotates(kube_mgr::patch_json(m), m),
{
    reveal_strlit("apiVersion");
    reveal_strlit("kind");
    reveal_strlit("metadata");
    assert("apiVersion"@.len() == 10 && "kind"@.len() == 4 && "metadata"@.len() == 8);
}

/// What a start publishes tells the other nodes how to reach this one: the
/// node's own address, as the cluster lists it, and on an overlay the hardware
/// address that the kernel gave for the link.
pub proof fn law_lease_tells_others(l: daemon::LearnedView, j: Json)
    requires
        l.replies.len() <= usize::MAX,
        daemon::attempt(l) == daemon::AttemptView::Ask(daemon::QuestionView::Publish(j)),
    ensures
        exists|b: BackendType, network: Seq<char>, pod_cidr: Seq<char>, own: Seq<char>, m: Map<
            Seq<char>,
            Json,
        >|
            #[trigger] configured(l, b, network) && #[trigger] knows(l, pod_cidr, own)
                && #[trigger] annotates(j, m) && tells_others(l, b, own, m),
{
    let (b, network, pod_cidr, own) = lemma_known(l);
    let c = ipv4::cidr_read(pod_cidr)->Ok_0;
    let cidr = ipv4::NetView { addr: c.0, prefix: c.1 };
    lemma_annotation_keys();
    let mtu = daemon::mtu_of(
        b,
        match l.link_mtu->0 {
            Ok(m) => m,
            Err(_) => daemon::DEFAULT_MTU,
        },
    );
    match b {
        BackendType::Vxlan => {
            let done = overlay::vxlan_progress(
                daemon::DEV@,
                daemon::VNI,
                daemon::DSTPORT,
                ipv4::address(own)->0,
                ipv4::network(cidr),
                mtu,
                l.replies,
                0,
            );
            let (mac, idx) = done->Done_0->Ok_0;
            let m = kube_mgr::lease_annotations(b, own, Some(mac));
            lemma_annotates(m);
            assert(annotates(j, m));
            law_link_is_up_before_anything_is_published(l, network);
            lemma_mac_asked(l, network, pod_cidr, own, mac, idx);
            let k = if netlink::index_of(l.replies[0]) matches Ok(Some(_)) {
                1int
            } else {
                6int
            };
            let list = l.replies[k]->Addresses_0->0;
            assert(gave(l.replies[k], list));
            if list[0].len() == 6 {
                overlay::law_mac_reads_back(list[0]);
            }
            assert(asked(l, k, netlink::RequestView::LinkAddresses(idx)));
            assert(m[data_key()] == Json::Text(json::doc_text(annotation::backend_doc(mac))));
            assert(tells_others(l, b, own, m));
            assert(configured(l, b, network) && knows(l, pod_cidr, own));
        },
        BackendType::HostGw => {
            let m = kube_mgr::lease_annotations(b, own, None);
            lemma_annotates(m);
            assert(annotates(j, m));
            assert(tells_others(l, b, own, m));
            assert(configured(l, b, network) && knows(l, pod_cidr, own));
        },
    }
}

proof fn lemma_mac_asked(
    l: daemon::LearnedView,
    network: Seq<char>,
    pod_cidr: Seq<char>,
    own: Seq<char>,
    mac: Seq<char>,
    idx: u32,
)
    requires
        l.replies.len() <= usize::MAX,
        configured(l, BackendType::Vxlan, network),
        beyond_the_kernel(l),
        kube_mgr::own_of(l.own_node->0->Ok_0) == Ok::<kube_mgr::OwnView, Seq<char>>(
            kube_mgr::OwnView { pod_cidr, public_ip: own },
        ),
        ({
            let c = ipv4::cidr_read(pod_cidr)->Ok_0;
            overlay::vxlan_progress(
                daemon::DEV@,
                daemon::VNI,
                daemon::DSTPORT,
                ipv4::address(own)->0,
                ipv4::network(ipv4::NetView { addr: c.0, prefix: c.1 }),
                daemon::mtu_of(
                    BackendType::Vxlan,
                    match l.link_mtu->0 {
                        Ok(m) => m,
                        Err(_) => daemon::DEFAULT_MTU,
                    },
                ),
                l.replies,
                0,
            ) matches crate::progress::Progress::Done(Ok(t), _) && t == (mac, idx)
        }),
    ensures
        ({
            let k = if netlink::index_of(l.replies[0]) matches Ok(Some(_)) {
                1int
            } else {
                6int
            };
            &&& asked(l, k, netlink::RequestView::LinkAddresses(idx))
            &&& l.replies[k] matches netlink::ReplyView::Addresses(Some(list))
            &&& list.len() > 0
            &&& mac == overlay::mac_text(list[0])
        }),
{
    lemma_backend(config::conf(l.net_conf->0->Ok_0)->Ok_0.kind);
    let n = l.replies.len() as int;
    assert(n >= 3);
    assert(l.replies.take(1)[0] == l.replies[0]);
    if !(netlink::index_of(l.replies[0]) matches Ok(Some(_))) {
        assert(n >= 7);
        let t6 = l.replies.take(6);
        assert(t6[0] == l.replies[0] && t6[1] == l.replies[1] && t6[2] == l.replies[2] && t6[5]
            == l.replies[5]);
    }
}

/// Without an overlay, a node that carries what a start published is read by the
/// others as a peer with this node's own address.
pub proof fn law_direct_lease_is_read_by_others(
    n: kube_mgr::NodeView,
    own: Seq<char>,
    m: Map<Seq<char>, Json>,
    l: daemon::LearnedView,
)
    requires
        tells_others(l, BackendType::HostGw, own, m),
        n.name is Some,
        n.pod_cidr is Some,
        n.annotations is Some,
        forall|k: Seq<char>| #[trigger]
            m.contains_key(k) ==> n.annotations->0.contains_key(k) && Json::Text(
                n.annotations->0[k],
            ) == m[k],
    ensures
        kube_mgr::peer_of(n, BackendType::HostGw) matches Some(p) && p.node == n.name->0
            && p.pod_cidr == n.pod_cidr->0 && p.public_ip == own,
{
    lemma_annotation_keys();
    assert(m.contains_key(address_key()));
}

// ---------------------------------------------------------------------------
// The plugins' file and what follows
// ---------------------------------------------------------------------------

/// What a start writes for the plugins is read by them as the network of the
/// configuration, the addresses of this node's containers, packets that leave
/// room for the overlay, and that packets are masqueraded already.
pub proof fn law_file_tells_the_plugins(l: daemon::LearnedView, s: Seq<char>)
    requires
        daemon::attempt(l) == daemon::AttemptView::Ask(daemon::QuestionView::WriteSubnetEnv(s)),
    ensures
        exists|b: BackendType, network: Seq<char>, pod_cidr: Seq<char>, own: Seq<char>|
            {
                &&& #[trigger] configured(l, b, network)
                &&& #[trigger] knows(l, pod_cidr, own)
                &&& subnet::survives(network) && subnet::survives(pod_cidr) ==> {
                    &&& subnetenv::env_of(s) matches Ok(e)
                    &&& e.network == network
                    &&& e.subnet == pod_cidr
                    &&& e.ipmasq
                    &&& leaves_room(l, b, e.mtu)
                }
            },
{
    let (b, network, pod_cidr, own) = lemma_known(l);
    let mtu = daemon::mtu_of(
        b,
        match l.link_mtu->0 {
            Ok(m) => m,
            Err(_) => daemon::DEFAULT_MTU,
        },
    );
    let e = subnetenv::EnvView { network, subnet: pod_cidr, mtu, ipmasq: true };
    if subnet::survives(network) && subnet::survives(pod_cidr) {
        subnet::law_subnet_env_reads_back(e);
    }
    assert(configured(l, b, network) && knows(l, pod_cidr, own));
}

/// What a start asks about links is about the one with the node's own address.
pub proof fn law_start_asks_about_the_own_link(l: daemon::LearnedView, a: u32)
    requires
        daemon::attempt(l) == daemon::AttemptView::Ask(daemon::QuestionView::LinkMtu(a))
            || daemon::attempt(l) == daemon::AttemptView::Ask(daemon::QuestionView::LinkIndex(a)),
    ensures
        exists|pod_cidr: Seq<char>, own: Seq<char>| #[trigger]
            knows(l, pod_cidr, own) && ipv4::address(own) == Some(a),
{
    let (b, network, pod_cidr, own) = lemma_known(l);
    assert(knows(l, pod_cidr, own));
}

/// A start that succeeds hands on what it was configured with and what it
/// learned: the link for the routes to the peers is that of the overlay, or the
/// one with the node's own address; and it notes exactly that some address of
/// the node's containers is none of the network's.
pub proof fn law_ready_hands_on_what_was_learned(l: daemon::LearnedView, s: daemon::StateView)
    requires
        daemon::attempt(l) == daemon::AttemptView::Ready(s),
    ensures
        configured(l, s.backend, s.network),
        exists|own: Seq<char>| #[trigger] knows(l, s.subnet, own),
        match s.backend {
            BackendType::Vxlan => found(l.replies, s.dev_idx),
            BackendType::HostGw => l.link_index == Some(Ok::<u32, Seq<char>>(s.dev_idx)),
        },
        forall|inner: ipv4::NetView, outer: ipv4::NetView|
            #[trigger] ipv4::names(s.subnet, inner) && #[trigger] ipv4::names(
                s.network,
                outer,
            ) ==> (s.outside <==> exists|ip: u32|
                ipv4::contains(inner, ip) && !ipv4::contains(outer, ip)),
{
    let (b, network, pod_cidr, own) = lemma_known(l);
    assert(knows(l, s.subnet, own));
    if l.replies.len() > 0 {
        assert(l.replies[0] == l.replies[0]);
        if l.replies.len() > 2 {
            assert(l.replies[2] == l.replies[2]);
        }
    }
    assert forall|inner: ipv4::NetView, outer: ipv4::NetView|
        #[trigger] ipv4::names(s.subnet, inner) && #[trigger] ipv4::names(
            s.network,
            outer,
        ) implies (s.outside <==> exists|ip: u32|
        ipv4::contains(inner, ip) && !ipv4::contains(outer, ip)) by {
        ipv4::lemma_prefix(s.subnet, inner);
        ipv4::lemma_prefix(s.network, outer);
        ipv4::law_within_means_every_address(inner, outer);
    }
}

/// A peer is what a node's object says, and is known only where the object says
/// all that is needed: the node's name and the addresses of its containers, the
/// address that it published and, on an overlay, the hardware address too.
pub proof fn law_peer_is_what_its_node_published(n: kube_mgr::NodeView, b: BackendType)
    ensures
        match kube_mgr::peer_of(n, b) {
            Some(p) => {
                &&& n.name == Some(p.node)
                &&& n.pod_cidr == Some(p.pod_cidr)
                &&& n.annotations matches Some(m) && m.contains_key(address_key())
                    && m[address_key()] == p.public_ip && (b == BackendType::Vxlan
                    ==> m.contains_key(data_key()) && annotation::backend_data(m[data_key()])
                    == Ok::<Seq<char>, crate::decode::Fault>(p.vtep_mac))
            },
            None => {
                ||| n.name is None
                ||| n.pod_cidr is None
                ||| n.annotations is None
                ||| !n.annotations->0.contains_key(address_key())
                ||| b == BackendType::Vxlan && !(n.annotations->0.contains_key(data_key())
                    && annotation::backend_data(n.annotations->0[data_key()]) is Ok)
            },
        },
{
    lemma_annotation_keys();
}

} // verus!
