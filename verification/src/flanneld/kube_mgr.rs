//! The nodes of the cluster, as their objects describe them.

use serde_json::Value;
use vstd::prelude::*;
use vstd::string::*;

use crate::decode;
use crate::flanneld::annotation;
use crate::flanneld::annotation::BackendData;
use crate::flanneld::config;
use crate::flanneld::config::BackendType;
use crate::flanneld::peer;
use crate::flanneld::peer::Peer;
use crate::json;
use crate::json::Json;
use crate::netlink;
use crate::text;
use crate::text_map::TextMap;

verus! {

/// What the daemon needs of a node's object.
#[derive(Debug)]
pub struct NodeInfo {
    pub name: Option<String>,
    pub annotations: Option<TextMap<String>>,
    pub pod_cidr: Option<String>,
    pub addresses: Vec<NodeAddress>,
}

/// An address of a node, with its type.
#[derive(Debug)]
pub struct NodeAddress {
    pub kind: String,
    pub address: String,
}

/// The node that the daemon runs on.
#[derive(Debug)]
pub struct OwnNode {
    pub pod_cidr: String,
    pub public_ip: String,
}

/// The model of `NodeInfo`.
pub struct NodeView {
    pub name: Option<Seq<char>>,
    pub annotations: Option<Map<Seq<char>, Seq<char>>>,
    pub pod_cidr: Option<Seq<char>>,
    pub addresses: Seq<(Seq<char>, Seq<char>)>,
}

/// Texts by name.
pub open spec fn texts_by_name(m: Map<Seq<char>, String>) -> Map<Seq<char>, Seq<char>> {
    m.map_values(|s: String| s@)
}

/// The models of addresses.
pub open spec fn address_views(v: Seq<NodeAddress>) -> Seq<(Seq<char>, Seq<char>)> {
    v.map_values(|a: NodeAddress| (a.kind@, a.address@))
}

impl View for NodeInfo {
    type V = NodeView;

    open spec fn view(&self) -> NodeView {
        NodeView {
            name: text::opt_text(self.name),
            annotations: match self.annotations {
                Some(m) => Some(texts_by_name(m@)),
                None => None,
            },
            pod_cidr: text::opt_text(self.pod_cidr),
            addresses: address_views(self.addresses@),
        }
    }
}

/// The models of nodes.
pub open spec fn node_views(v: Seq<NodeInfo>) -> Seq<NodeView> {
    v.map_values(|n: NodeInfo| n@)
}

/// The model of `OwnNode`.
pub struct OwnView {
    pub pod_cidr: Seq<char>,
    pub public_ip: Seq<char>,
}

impl View for OwnNode {
    type V = OwnView;

    open spec fn view(&self) -> OwnView {
        OwnView { pod_cidr: self.pod_cidr@, public_ip: self.public_ip@ }
    }
}

// ---------------------------------------------------------------------------
// The own node
// ---------------------------------------------------------------------------

/// The first address of type `InternalIP`.
pub open spec fn internal_ip(addresses: Seq<(Seq<char>, Seq<char>)>) -> Option<Seq<char>>
    decreases addresses.len(),
{
    if addresses.len() == 0 {
        None
    } else if addresses[0].0 == "InternalIP"@ {
        Some(addresses[0].1)
    } else {
        internal_ip(addresses.skip(1))
    }
}

/// What the daemon needs of its own node, or the wording of what is missing.
pub open spec fn own_of(n: NodeView) -> Result<OwnView, Seq<char>> {
    match n.pod_cidr {
        None => Err("node has no PodCIDR"@),
        Some(pod_cidr) => match internal_ip(n.addresses) {
            None => Err("node has no InternalIP"@),
            Some(public_ip) => Ok(OwnView { pod_cidr, public_ip }),
        },
    }
}

/// What the daemon needs of its own node: the subnet and the first internal
/// address.
pub fn extract_own_node(n: &NodeInfo) -> (r: Result<OwnNode, String>)
    ensures
        netlink::text_result(r, |o: OwnNode| o@) == own_of(n@),
{
    let pod_cidr = match &n.pod_cidr {
        None => {
            return Err("node has no PodCIDR".to_owned());
        },
        Some(c) => c.clone(),
    };
    let ghost all = n@.addresses;
    let mut i: usize = 0;
    assert(all.skip(0) =~= all);
    while i < n.addresses.len()
        invariant
            i <= n.addresses@.len(),
            all == n@.addresses,
            n@.pod_cidr == Some(pod_cidr@),
            internal_ip(all) == internal_ip(all.skip(i as int)),
        decreases n.addresses@.len() - i,
    {
        proof {
            assert(all.skip(i as int)[0] == (
                n.addresses@[i as int].kind@,
                n.addresses@[i as int].address@,
            ));
            assert(all.skip(i as int).skip(1) =~= all.skip(i + 1));
        }
        if text::same(n.addresses[i].kind.as_str(), "InternalIP") {
            return Ok(OwnNode { pod_cidr, public_ip: n.addresses[i].address.clone() });
        }
        i = i + 1;
    }
    Err("node has no InternalIP".to_owned())
}

// ---------------------------------------------------------------------------
// Peers
// ---------------------------------------------------------------------------

/// The hardware address that a node publishes, where the backend needs one.
pub open spec fn published_mac(ann: Map<Seq<char>, Seq<char>>, b: BackendType) -> Option<
    Seq<char>,
> {
    match b {
        BackendType::HostGw => Some(Seq::empty()),
        BackendType::Vxlan => {
            let key = annotation::key_of("backend-data"@);
            if ann.contains_key(key) {
                match annotation::backend_data(ann[key]) {
                    Ok(mac) => Some(mac),
                    Err(_) => None,
                }
            } else {
                None
            }
        },
    }
}

/// The peer that a node's object describes, where it is complete: it has a
/// name, a subnet and the annotations that the backend needs.
pub open spec fn peer_of(n: NodeView, b: BackendType) -> Option<peer::PeerView> {
    match (n.annotations, n.pod_cidr, n.name) {
        (Some(ann), Some(pod_cidr), Some(node)) => {
            let key = annotation::key_of("public-ip"@);
            match published_mac(ann, b) {
                Some(vtep_mac) => if ann.contains_key(key) {
                    Some(
                        peer::PeerView { node, pod_cidr, public_ip: ann[key], vtep_mac },
                    )
                } else {
                    None
                },
                None => None,
            }
        },
        _ => None,
    }
}

/// The model of an optional peer.
pub open spec fn opt_peer(p: Option<Peer>) -> Option<peer::PeerView> {
    match p {
        Some(p) => Some(p@),
        None => None,
    }
}

fn mac_in(ann: &TextMap<String>, b: BackendType) -> (r: Option<String>)
    ensures
        text::opt_text(r) == published_mac(texts_by_name(ann@), b),
        forall|public_ip: Seq<char>, vtep_mac: Seq<char>|
            b == BackendType::Vxlan && #[trigger] publishes(
                texts_by_name(ann@),
                public_ip,
                vtep_mac,
            ) ==> r is Some && r->0@ == vtep_mac,
{
    proof {
        let ghost texts = texts_by_name(ann@);
        assert forall|public_ip: Seq<char>, vtep_mac: Seq<char>| #[trigger]
            publishes(texts, public_ip, vtep_mac) implies texts.contains_key(
            annotation::key_of("backend-data"@),
        ) && texts[annotation::key_of("backend-data"@)] == json::doc_text(
            annotation::backend_doc(vtep_mac),
        ) by {
            lemma_published(texts, public_ip, vtep_mac);
        }
    }
    match b {
        BackendType::HostGw => Some(String::new()),
        BackendType::Vxlan => match ann.get(annotation::key("backend-data").as_str()) {
            Some(s) => match BackendData::from_json(s.as_str()) {
                Ok(d) => Some(d.vtep_mac),
                Err(_) => None,
            },
            None => None,
        },
    }
}

/// Whether a node has the annotations of a lease of the overlay.
pub open spec fn publishes(
    ann: Map<Seq<char>, Seq<char>>,
    public_ip: Seq<char>,
    vtep_mac: Seq<char>,
) -> bool {
    let lease = lease_annotations(BackendType::Vxlan, public_ip, Some(vtep_mac));
    forall|k: Seq<char>| #[trigger]
        lease.contains_key(k) ==> ann.contains_key(k) && Json::Text(ann[k]) == lease[k]
}

proof fn lemma_published(
    ann: Map<Seq<char>, Seq<char>>,
    public_ip: Seq<char>,
    vtep_mac: Seq<char>,
)
    requires
        publishes(ann, public_ip, vtep_mac),
    ensures
        ann.contains_key(annotation::key_of("backend-data"@)),
        ann[annotation::key_of("backend-data"@)] == json::doc_text(
            annotation::backend_doc(vtep_mac),
        ),
        ann.contains_key(annotation::key_of("public-ip"@)),
        ann[annotation::key_of("public-ip"@)] == public_ip,
{
    let lease = lease_annotations(BackendType::Vxlan, public_ip, Some(vtep_mac));
    let data = annotation::key_of("backend-data"@);
    let ip = annotation::key_of("public-ip"@);
    let managed = annotation::key_of("kube-subnet-manager-managed"@);
    reveal_strlit("backend-data");
    reveal_strlit("public-ip");
    reveal_strlit("kube-subnet-manager-managed");
    assert(data.len() != ip.len() && data.len() != managed.len() && ip.len() != managed.len());
    assert(lease.contains_key(data) && lease.contains_key(ip));
}

/// The peer that a node's object describes, where it is complete. What a node
/// publishes is what is read of it.
pub fn node_to_peer(n: &NodeInfo, b: BackendType) -> (r: Option<Peer>)
    ensures
        opt_peer(r) == peer_of(n@, b),
        forall|public_ip: Seq<char>, vtep_mac: Seq<char>|
            b == BackendType::Vxlan && n@.annotations is Some && n@.pod_cidr is Some
                && n@.name is Some && #[trigger] publishes(
                n@.annotations->0,
                public_ip,
                vtep_mac,
            ) ==> r is Some && r->0@ == (peer::PeerView {
                node: n@.name->0,
                pod_cidr: n@.pod_cidr->0,
                public_ip,
                vtep_mac,
            }),
{
    let ann = match &n.annotations {
        Some(a) => a,
        None => {
            return None;
        },
    };
    let vtep_mac = match mac_in(ann, b) {
        Some(m) => m,
        None => {
            return None;
        },
    };
    proof {
        let texts = texts_by_name(ann@);
        assert forall|ip: Seq<char>, mac: Seq<char>| #[trigger]
            publishes(texts, ip, mac) implies texts.contains_key(annotation::key_of("public-ip"@))
            && texts[annotation::key_of("public-ip"@)] == ip by {
            lemma_published(texts, ip, mac);
        }
    }
    let public_ip = match ann.get(annotation::key("public-ip").as_str()) {
        Some(s) => s.clone(),
        None => {
            return None;
        },
    };
    match (&n.pod_cidr, &n.name) {
        (Some(pod_cidr), Some(node)) => Some(
            Peer { node: node.clone(), pod_cidr: pod_cidr.clone(), public_ip, vtep_mac },
        ),
        _ => None,
    }
}

/// The peers that nodes describe, without the node that the daemon runs on.
/// Nodes that are not complete are left out.
pub open spec fn peers_of(nodes: Seq<NodeView>, own: Seq<char>, b: BackendType) -> peer::Peers
    decreases nodes.len(),
{
    if nodes.len() == 0 {
        Map::empty()
    } else {
        let rest = peers_of(nodes.drop_last(), own, b);
        match peer_of(nodes.last(), b) {
            Some(p) => if p.node == own {
                rest
            } else {
                rest.insert(p.node, p)
            },
            None => rest,
        }
    }
}

/// The names of the peers that nodes describe, in the order in which the nodes
/// describe them first.
pub open spec fn peer_order(nodes: Seq<NodeView>, own: Seq<char>, b: BackendType) -> Seq<Seq<char>>
    decreases nodes.len(),
{
    if nodes.len() == 0 {
        Seq::empty()
    } else {
        let rest = peer_order(nodes.drop_last(), own, b);
        match peer_of(nodes.last(), b) {
            Some(p) => if p.node == own || rest.contains(p.node) {
                rest
            } else {
                rest.push(p.node)
            },
            None => rest,
        }
    }
}

/// The order holds each peer once, and nothing else.
pub proof fn law_order_lists_the_peers(nodes: Seq<NodeView>, own: Seq<char>, b: BackendType)
    ensures
        peer::lists(peer_order(nodes, own, b), peers_of(nodes, own, b)),
    decreases nodes.len(),
{
    if nodes.len() > 0 {
        law_order_lists_the_peers(nodes.drop_last(), own, b);
        let rest = peer_order(nodes.drop_last(), own, b);
        let all = peer_order(nodes, own, b);
        let before = peers_of(nodes.drop_last(), own, b);
        if all.len() > rest.len() {
            let n = all.last();
            assert(all =~= rest.push(n));
            assert(all[rest.len() as int] == n);
            assert forall|k: Seq<char>| #[trigger]
                peers_of(nodes, own, b).contains_key(k) <==> all.contains(k) by {
                assert(before.contains_key(k) <==> rest.contains(k));
                if rest.contains(k) {
                    assert(all[rest.index_of(k)] == k);
                }
                if all.contains(k) && k != n {
                    assert(rest[all.index_of(k)] == k);
                }
            }
        } else {
            assert forall|k: Seq<char>| #[trigger]
                peers_of(nodes, own, b).contains_key(k) <==> all.contains(k) by {
                assert(before.contains_key(k) <==> rest.contains(k));
            }
        }
    }
}

/// The peers that nodes describe, by the name of their node, in the order in
/// which the nodes describe them first.
pub fn desired_from_nodes(nodes: &Vec<NodeInfo>, own: &str, b: BackendType) -> (m: TextMap<Peer>)
    ensures
        peer::peer_views(m@) == peers_of(node_views(nodes@), own@, b),
        m.keys() == peer_order(node_views(nodes@), own@, b),
{
    let mut m: TextMap<Peer> = TextMap::new();
    let ghost all = node_views(nodes@);
    let mut i: usize = 0;
    assert(all.take(0) =~= Seq::<NodeView>::empty());
    assert(peer::peer_views(m@) =~= Map::<Seq<char>, peer::PeerView>::empty());
    while i < nodes.len()
        invariant
            i <= nodes@.len(),
            all == node_views(nodes@),
            peer::peer_views(m@) == peers_of(all.take(i as int), own@, b),
            m.keys() == peer_order(all.take(i as int), own@, b),
        decreases nodes@.len() - i,
    {
        proof {
            law_order_lists_the_peers(all.take(i as int), own@, b);
            assert(all.take(i + 1).drop_last() =~= all.take(i as int));
            assert(all.take(i + 1).last() == nodes@[i as int]@);
        }
        let ghost before = peer::peer_views(m@);
        if let Some(p) = node_to_peer(&nodes[i], b) {
            if !text::same(p.node.as_str(), own) {
                let ghost v = p@;
                assert(m@.contains_key(v.node) == before.contains_key(v.node));
                m.insert(p.node.clone(), p);
                assert(peer::peer_views(m@) =~= before.insert(v.node, v));
            }
        }
        i = i + 1;
    }
    assert(all.take(nodes@.len() as int) =~= all);
    m
}

/// The peers that are desired stand under the name of their node, and the
/// daemon's own node is not among them.
pub proof fn law_peers_are_others(nodes: Seq<NodeView>, own: Seq<char>, b: BackendType)
    ensures
        peer::keyed(peers_of(nodes, own, b)),
        !peers_of(nodes, own, b).contains_key(own),
    decreases nodes.len(),
{
    if nodes.len() > 0 {
        law_peers_are_others(nodes.drop_last(), own, b);
    }
}

// ---------------------------------------------------------------------------
// Publishing
// ---------------------------------------------------------------------------

/// The annotations of a node's lease. The backend's data is left out where
/// there is none.
pub open spec fn lease_annotations(
    b: BackendType,
    public_ip: Seq<char>,
    vtep_mac: Option<Seq<char>>,
) -> Map<Seq<char>, Json> {
    let typed = Map::<Seq<char>, Json>::empty().insert(
        annotation::key_of("backend-type"@),
        Json::Text(config::backend_name(b)),
    );
    let known = match vtep_mac {
        Some(mac) => typed.insert(
            annotation::key_of("backend-data"@),
            Json::Text(json::doc_text(annotation::backend_doc(mac))),
        ),
        None => typed,
    };
    known.insert(annotation::key_of("public-ip"@), Json::Text(public_ip)).insert(
        annotation::key_of("kube-subnet-manager-managed"@),
        Json::Text("true"@),
    )
}

/// The object that publishes annotations: nothing but a node with them.
pub open spec fn patch_json(annotations: Map<Seq<char>, Json>) -> Json {
    Json::Object(
        Map::<Seq<char>, Json>::empty().insert("apiVersion"@, Json::Text("v1"@)).insert(
            "kind"@,
            Json::Text("Node"@),
        ).insert(
            "metadata"@,
            Json::Object(
                Map::<Seq<char>, Json>::empty().insert("annotations"@, Json::Object(annotations)),
            ),
        ),
    )
}

/// The object that publishes a node's lease.
pub fn lease_patch(b: BackendType, public_ip: &str, vtep_mac: Option<&str>) -> (v: Value)
    ensures
        json::json_view(v) == patch_json(
            lease_annotations(
                b,
                public_ip@,
                match vtep_mac {
                    Some(m) => Some(m@),
                    None => None,
                },
            ),
        ),
{
    let mut annotations: serde_json::Map<String, Value> = serde_json::Map::new();
    annotations.insert(annotation::key("backend-type"), json::text_value(b.name()));
    if let Some(mac) = vtep_mac {
        let data = BackendData { vtep_mac: mac.to_owned() };
        annotations.insert(annotation::key("backend-data"), json::text_value(data.to_json()));
    }
    annotations.insert(annotation::key("public-ip"), json::text_value(public_ip.to_owned()));
    annotations.insert(
        annotation::key("kube-subnet-manager-managed"),
        json::text_value("true".to_owned()),
    );
    let mut metadata: serde_json::Map<String, Value> = serde_json::Map::new();
    metadata.insert("annotations".to_owned(), json::object_value(annotations));
    let mut patch: serde_json::Map<String, Value> = serde_json::Map::new();
    patch.insert("apiVersion".to_owned(), json::text_value("v1".to_owned()));
    patch.insert("kind".to_owned(), json::text_value("Node".to_owned()));
    patch.insert("metadata".to_owned(), json::object_value(metadata));
    json::object_value(patch)
}

/// The object that publishes a lease of the overlay: the four annotations on
/// a minimal node.
pub fn build_publish_patch(public_ip: &str, vtep_mac: &str) -> (v: Value)
    ensures
        json::json_view(v) == patch_json(
            lease_annotations(BackendType::Vxlan, public_ip@, Some(vtep_mac@)),
        ),
{
    lease_patch(BackendType::Vxlan, public_ip, Some(vtep_mac))
}

} // verus!
