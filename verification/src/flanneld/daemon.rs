//! The daemon's start: what it reads, sets up and publishes before it follows
//! the other nodes, and what it does when that fails.

use serde_json::Value;
use vstd::prelude::*;
use vstd::string::*;

use crate::cni::delegate;
use crate::cni_flannel::subnetenv;
use crate::flanneld::config;
use crate::flanneld::config::{BackendType, NetConf};
use crate::flanneld::kube_mgr;
use crate::flanneld::kube_mgr::{NodeInfo, OwnNode};
use crate::flanneld::netlink as overlay;
use crate::flanneld::netlink::Netlink;
use crate::flanneld::subnet;
use crate::flanneld::subnet::SubnetEnv;
use crate::ipv4;
use crate::ipv4::Ipv4Net;
use crate::json;
use crate::netlink;
use crate::netlink::{Reply, Request};
use crate::progress::Progress;
use crate::text;

verus! {

/// The link of the overlay.
pub const DEV: &'static str = "flannel.1";

/// The identifier of the overlay.
pub const VNI: u32 = 1;

/// The port on which nodes exchange the overlay's packets.
pub const DSTPORT: u16 = 8472;

/// The file that holds the configuration of the network.
pub const NET_CONF_PATH: &'static str = "/etc/kube-flannel/net-conf.json";

/// The MTU of a link that does not tell its own.
pub const DEFAULT_MTU: u32 = 1500;

/// How long to wait after the first failed attempt to start, in seconds.
pub const FIRST_DELAY: u64 = 1;

/// How long to wait at most between attempts to start, in seconds.
pub const MAX_DELAY: u64 = 30;

// ---------------------------------------------------------------------------
// The configuration
// ---------------------------------------------------------------------------

/// A misconfiguration that no retry will mend.
#[derive(Debug)]
pub enum Fatal {
    /// The configuration of the network is malformed.
    NetConf(String),
    /// The backend is not supported.
    Backend(String),
    /// The node was given no addresses for its containers.
    NoPodCidr,
}

/// The model of `Fatal`.
pub enum FatalView {
    NetConf(Seq<char>),
    Backend(Seq<char>),
    NoPodCidr,
}

impl View for Fatal {
    type V = FatalView;

    open spec fn view(&self) -> FatalView {
        match self {
            Fatal::NetConf(e) => FatalView::NetConf(e@),
            Fatal::Backend(kind) => FatalView::Backend(kind@),
            Fatal::NoPodCidr => FatalView::NoPodCidr,
        }
    }
}

/// The wording of a misconfiguration.
pub open spec fn fatal_text(f: FatalView) -> Seq<char> {
    match f {
        FatalView::NetConf(e) => "malformed net-conf.json: "@ + e,
        FatalView::Backend(kind) => "unsupported backend "@ + delegate::debug_form(kind)
            + "; only vxlan and host-gw are supported"@,
        FatalView::NoPodCidr => "node has no PodCIDR"@,
    }
}

impl Fatal {
    /// The wording of a misconfiguration.
    pub fn message(&self) -> (s: String)
        ensures
            s@ == fatal_text(self@),
    {
        match self {
            Fatal::NetConf(e) => text::join2("malformed net-conf.json: ", e.as_str()),
            Fatal::Backend(kind) => text::join3(
                "unsupported backend ",
                delegate::debug_text(kind.as_str()).as_str(),
                "; only vxlan and host-gw are supported",
            ),
            Fatal::NoPodCidr => "node has no PodCIDR".to_owned(),
        }
    }
}

/// The configuration that a text holds, with a backend that is supported.
pub open spec fn classified(raw: Seq<char>) -> Result<(config::ConfView, BackendType), FatalView> {
    match config::conf(raw) {
        Err(e) => Err(FatalView::NetConf(e)),
        Ok(c) => backed(c),
    }
}

/// A configuration, with its backend where that is supported.
pub open spec fn backed(c: config::ConfView) -> Result<(config::ConfView, BackendType), FatalView> {
    match config::backend_type(c.kind) {
        None => Err(FatalView::Backend(c.kind)),
        Some(b) => Ok((c, b)),
    }
}

/// The model of a classification.
pub open spec fn classified_view(r: Result<(NetConf, BackendType), Fatal>) -> Result<
    (config::ConfView, BackendType),
    FatalView,
> {
    match r {
        Ok((c, b)) => Ok((c@, b)),
        Err(f) => Err(f@),
    }
}

/// The backend of a configuration, which has to be supported.
pub fn select_backend(nc: NetConf) -> (r: Result<(NetConf, BackendType), Fatal>)
    ensures
        classified_view(r) == backed(nc@),
{
    match BackendType::parse(nc.backend.kind.as_str()) {
        None => Err(Fatal::Backend(nc.backend.kind)),
        Some(b) => Ok((nc, b)),
    }
}

/// Reads and checks the configuration of the network. What is wrong with it is
/// fatal.
pub fn classify_net_conf(raw: &str) -> (r: Result<(NetConf, BackendType), Fatal>)
    ensures
        classified_view(r) == classified(raw@),
{
    match NetConf::parse(raw) {
        Err(e) => Err(Fatal::NetConf(e)),
        Ok(nc) => select_backend(nc),
    }
}

// ---------------------------------------------------------------------------
// One attempt
// ---------------------------------------------------------------------------

/// What an attempt needs from outside.
#[derive(Debug)]
pub enum Question {
    /// The file with the configuration of the network.
    ReadNetConf,
    /// The object of the own node.
    OwnNode,
    /// The MTU of the link with that address.
    LinkMtu(u32),
    /// A request to the kernel.
    Net(Request),
    /// The index of the link with that address.
    LinkIndex(u32),
    /// Apply an object to the own node.
    Publish(Value),
    /// Write the file that tells the plugins the subnet.
    WriteSubnetEnv(String),
}

/// The model of `Question`.
pub enum QuestionView {
    ReadNetConf,
    OwnNode,
    LinkMtu(u32),
    Net(netlink::RequestView),
    LinkIndex(u32),
    Publish(json::Json),
    WriteSubnetEnv(Seq<char>),
}

impl View for Question {
    type V = QuestionView;

    open spec fn view(&self) -> QuestionView {
        match self {
            Question::ReadNetConf => QuestionView::ReadNetConf,
            Question::OwnNode => QuestionView::OwnNode,
            Question::LinkMtu(a) => QuestionView::LinkMtu(*a),
            Question::Net(q) => QuestionView::Net(q@),
            Question::LinkIndex(a) => QuestionView::LinkIndex(*a),
            Question::Publish(v) => QuestionView::Publish(json::json_view(*v)),
            Question::WriteSubnetEnv(s) => QuestionView::WriteSubnetEnv(s@),
        }
    }
}

/// What an attempt has learned so far: nothing yet, a value, or why there is
/// none.
#[derive(Debug)]
pub struct Learned {
    pub net_conf: Option<Result<String, String>>,
    pub own_node: Option<Result<NodeInfo, String>>,
    pub link_mtu: Option<Result<u32, String>>,
    /// The kernel's answers, in order.
    pub replies: Vec<Reply>,
    pub link_index: Option<Result<u32, String>>,
    pub published: Option<Result<(), String>>,
    pub written: Option<Result<(), String>>,
}

/// The model of `Learned`.
pub struct LearnedView {
    pub net_conf: Option<Result<Seq<char>, Seq<char>>>,
    pub own_node: Option<Result<kube_mgr::NodeView, Seq<char>>>,
    pub link_mtu: Option<Result<u32, Seq<char>>>,
    pub replies: Seq<netlink::ReplyView>,
    pub link_index: Option<Result<u32, Seq<char>>>,
    pub published: Option<Result<(), Seq<char>>>,
    pub written: Option<Result<(), Seq<char>>>,
}

/// The model of an answer that may be outstanding.
pub open spec fn learned_view<T, V>(
    r: Option<Result<T, String>>,
    view: spec_fn(T) -> V,
) -> Option<Result<V, Seq<char>>> {
    match r {
        None => None,
        Some(r) => Some(netlink::text_result(r, view)),
    }
}

impl View for Learned {
    type V = LearnedView;

    open spec fn view(&self) -> LearnedView {
        LearnedView {
            net_conf: learned_view(self.net_conf, |s: String| s@),
            own_node: learned_view(self.own_node, |n: NodeInfo| n@),
            link_mtu: learned_view(self.link_mtu, |m: u32| m),
            replies: netlink::reply_views(self.replies@),
            link_index: learned_view(self.link_index, |i: u32| i),
            published: learned_view(self.published, |u: ()| u),
            written: learned_view(self.written, |u: ()| u),
        }
    }
}

/// What a successful start leaves for what follows.
#[derive(Debug)]
pub struct BootstrapState {
    /// The link for the routes to the peers: that of the overlay, or the
    /// node's own.
    pub dev_idx: u32,
    pub backend: BackendType,
    /// The addresses of the whole network.
    pub network: String,
    /// The addresses of this node.
    pub subnet: String,
    /// Whether the node's addresses lie outside the network, which is worth a
    /// warning and no more.
    pub outside: bool,
}

/// The model of `BootstrapState`.
pub struct StateView {
    pub dev_idx: u32,
    pub backend: BackendType,
    pub network: Seq<char>,
    pub subnet: Seq<char>,
    pub outside: bool,
}

impl View for BootstrapState {
    type V = StateView;

    open spec fn view(&self) -> StateView {
        StateView {
            dev_idx: self.dev_idx,
            backend: self.backend,
            network: self.network@,
            subnet: self.subnet@,
            outside: self.outside,
        }
    }
}

/// Why an attempt failed: for good, or for now.
#[derive(Debug)]
pub enum Failure {
    Fatal(Fatal),
    Transient(String),
}

/// The model of `Failure`.
pub enum FailureView {
    Fatal(FatalView),
    Transient(Seq<char>),
}

impl View for Failure {
    type V = FailureView;

    open spec fn view(&self) -> FailureView {
        match self {
            Failure::Fatal(f) => FailureView::Fatal(f@),
            Failure::Transient(e) => FailureView::Transient(e@),
        }
    }
}

/// How far an attempt has come.
#[derive(Debug)]
pub enum Attempt {
    Ask(Question),
    Failed(Failure),
    Ready(BootstrapState),
}

/// The model of `Attempt`.
pub enum AttemptView {
    Ask(QuestionView),
    Failed(FailureView),
    Ready(StateView),
}

impl View for Attempt {
    type V = AttemptView;

    open spec fn view(&self) -> AttemptView {
        match self {
            Attempt::Ask(q) => AttemptView::Ask(q@),
            Attempt::Failed(f) => AttemptView::Failed(f@),
            Attempt::Ready(s) => AttemptView::Ready(s@),
        }
    }
}

/// A failure for now.
pub open spec fn transient(e: Seq<char>) -> AttemptView {
    AttemptView::Failed(FailureView::Transient(e))
}

/// What an attempt knows once it has read the configuration and its node.
pub struct Facts {
    pub network: Seq<char>,
    pub backend: BackendType,
    pub own: kube_mgr::OwnView,
    pub local: u32,
    pub cidr: ipv4::NetView,
}

/// An attempt: the configuration is read, then the own node is looked up.
pub open spec fn attempt(l: LearnedView) -> AttemptView {
    match l.net_conf {
        None => AttemptView::Ask(QuestionView::ReadNetConf),
        Some(Err(e)) => transient(netlink::within("read /etc/kube-flannel/net-conf.json"@, e)),
        Some(Ok(raw)) => match classified(raw) {
            Err(f) => AttemptView::Failed(FailureView::Fatal(f)),
            Ok((c, b)) => placed(c.network, b, l),
        },
    }
}

/// The part of an attempt that looks up the own node. One without addresses
/// for its containers is a misconfiguration.
pub open spec fn placed(network: Seq<char>, b: BackendType, l: LearnedView) -> AttemptView {
    match l.own_node {
        None => AttemptView::Ask(QuestionView::OwnNode),
        Some(Err(e)) => transient(netlink::within("get own node"@, e)),
        Some(Ok(n)) => match kube_mgr::own_of(n) {
            Err(e) => if n.pod_cidr is None {
                AttemptView::Failed(FailureView::Fatal(FatalView::NoPodCidr))
            } else {
                transient(e)
            },
            Ok(own) => match ipv4::address(own.public_ip) {
                None => transient(netlink::within("parse node IP"@, overlay::address_fault())),
                Some(local) => match ipv4::cidr_read(own.pod_cidr) {
                    Err(e) => transient(netlink::within("parse own PodCIDR"@, e)),
                    Ok(c) => connected(
                        Facts {
                            network,
                            backend: b,
                            own,
                            local,
                            cidr: ipv4::NetView { addr: c.0, prefix: c.1 },
                        },
                        l,
                    ),
                },
            },
        },
    }
}

/// The MTU of containers: an overlay takes 50 bytes of that of the link.
pub open spec fn mtu_of(b: BackendType, link_mtu: u32) -> u32 {
    match b {
        BackendType::Vxlan => if link_mtu >= 50 {
            (link_mtu - 50) as u32
        } else {
            0
        },
        BackendType::HostGw => link_mtu,
    }
}

/// The part of an attempt that sets up the link for the routes: that of the
/// overlay, with the lowest address of the subnet, or the node's own.
pub open spec fn connected(f: Facts, l: LearnedView) -> AttemptView {
    match l.link_mtu {
        None => AttemptView::Ask(QuestionView::LinkMtu(f.local)),
        Some(r) => {
            let mtu = mtu_of(
                f.backend,
                match r {
                    Ok(m) => m,
                    Err(_) => DEFAULT_MTU,
                },
            );
            match f.backend {
                BackendType::Vxlan => match overlay::vxlan_progress(
                    DEV@,
                    VNI,
                    DSTPORT,
                    f.local,
                    ipv4::network(f.cidr),
                    mtu,
                    l.replies,
                    0,
                ) {
                    Progress::Ask(q) => AttemptView::Ask(QuestionView::Net(q)),
                    Progress::Done(Err(e), _) => transient(e),
                    Progress::Done(Ok((mac, idx)), _) => published(f, mtu, idx, Some(mac), l),
                },
                BackendType::HostGw => match l.link_index {
                    None => AttemptView::Ask(QuestionView::LinkIndex(f.local)),
                    Some(Err(e)) => transient(e),
                    Some(Ok(idx)) => published(f, mtu, idx, None, l),
                },
            }
        },
    }
}

/// The text of the file for the plugins.
pub open spec fn plugin_file(network: Seq<char>, pod_cidr: Seq<char>, mtu: u32) -> Seq<char> {
    subnet::with_feeds(
        subnet::env_lines(
            subnetenv::EnvView { network, subnet: pod_cidr, mtu, ipmasq: true },
        ),
    )
}

/// The part of an attempt that publishes the lease and writes the file for the
/// plugins.
pub open spec fn published(
    f: Facts,
    mtu: u32,
    idx: u32,
    mac: Option<Seq<char>>,
    l: LearnedView,
) -> AttemptView {
    match l.published {
        None => AttemptView::Ask(
            QuestionView::Publish(
                kube_mgr::patch_json(
                    kube_mgr::lease_annotations(f.backend, f.own.public_ip, mac),
                ),
            ),
        ),
        Some(Err(e)) => transient(netlink::within("patch own annotations"@, e)),
        Some(Ok(_)) => match l.written {
            None => AttemptView::Ask(
                QuestionView::WriteSubnetEnv(plugin_file(f.network, f.own.pod_cidr, mtu)),
            ),
            Some(Err(e)) => transient(netlink::within("write subnet.env"@, e)),
            Some(Ok(_)) => AttemptView::Ready(
                StateView {
                    dev_idx: idx,
                    backend: f.backend,
                    network: f.network,
                    subnet: f.own.pod_cidr,
                    outside: lies_outside(f.cidr, f.network),
                },
            ),
        },
    }
}

/// Whether a subnet lies outside a network that is written as one.
pub open spec fn lies_outside(cidr: ipv4::NetView, network: Seq<char>) -> bool {
    match ipv4::cidr_read(network) {
        Ok(n) => !ipv4::within(cidr, ipv4::NetView { addr: n.0, prefix: n.1 }),
        Err(_) => false,
    }
}

fn later(context: &str, e: &str) -> (a: Attempt)
    ensures
        a@ == transient(netlink::within(context@, e@)),
{
    Attempt::Failed(Failure::Transient(netlink::in_context(context, e)))
}

fn is_outside(cidr: &Ipv4Net, network: &str) -> (r: bool)
    ensures
        r == lies_outside(cidr@, network@),
{
    match Ipv4Net::parse(network) {
        Ok(net) => !subnet::subnet_in_network(cidr, &net),
        Err(_) => false,
    }
}

fn publish(
    network: &str,
    b: BackendType,
    own: &OwnNode,
    cidr: &Ipv4Net,
    mtu: u32,
    idx: u32,
    mac: Option<&str>,
    l: &Learned,
    Ghost(f): Ghost<Facts>,
) -> (a: Attempt)
    requires
        f.network == network@,
        f.backend == b,
        f.own == own@,
        f.cidr == cidr@,
    ensures
        a@ == published(
            f,
            mtu,
            idx,
            match mac {
                Some(m) => Some(m@),
                None => None,
            },
            l@,
        ),
{
    match &l.published {
        None => {
            return Attempt::Ask(
                Question::Publish(kube_mgr::lease_patch(b, own.public_ip.as_str(), mac)),
            );
        },
        Some(Err(e)) => {
            return later("patch own annotations", e.as_str());
        },
        Some(Ok(_)) => {},
    }
    match &l.written {
        None => {
            let env = SubnetEnv {
                network: network.to_owned(),
                subnet: own.pod_cidr.clone(),
                mtu,
                ipmasq: true,
            };
            Attempt::Ask(Question::WriteSubnetEnv(env.render()))
        },
        Some(Err(e)) => later("write subnet.env", e.as_str()),
        Some(Ok(_)) => Attempt::Ready(
            BootstrapState {
                dev_idx: idx,
                backend: b,
                network: network.to_owned(),
                subnet: own.pod_cidr.clone(),
                outside: is_outside(cidr, network),
            },
        ),
    }
}

/// One attempt to start, from what it has learned so far. A misconfiguration
/// is fatal; everything else that fails is transient.
pub fn try_bootstrap(l: &Learned) -> (a: Attempt)
    ensures
        a@ == attempt(l@),
{
    let (nc, backend): (NetConf, BackendType) = match &l.net_conf {
        None => {
            return Attempt::Ask(Question::ReadNetConf);
        },
        Some(Err(e)) => {
            return later("read /etc/kube-flannel/net-conf.json", e.as_str());
        },
        Some(Ok(raw)) => match classify_net_conf(raw.as_str()) {
            Err(f) => {
                return Attempt::Failed(Failure::Fatal(f));
            },
            Ok((c, b)) => (c, b),
        },
    };
    let own: OwnNode = match &l.own_node {
        None => {
            return Attempt::Ask(Question::OwnNode);
        },
        Some(Err(e)) => {
            return later("get own node", e.as_str());
        },
        Some(Ok(n)) => match kube_mgr::extract_own_node(n) {
            Err(e) => {
                if n.pod_cidr.is_none() {
                    return Attempt::Failed(Failure::Fatal(Fatal::NoPodCidr));
                }
                return Attempt::Failed(Failure::Transient(e));
            },
            Ok(own) => own,
        },
    };
    let local: u32 = match ipv4::parse_address(own.public_ip.as_str()) {
        None => {
            return later("parse node IP", "invalid IPv4 address syntax");
        },
        Some(a) => a,
    };
    let cidr: Ipv4Net = match Ipv4Net::parse(own.pod_cidr.as_str()) {
        Err(e) => {
            return later("parse own PodCIDR", e.as_str());
        },
        Ok(n) => n,
    };
    let ghost f = Facts { network: nc@.network, backend, own: own@, local, cidr: cidr@ };
    let link_mtu: u32 = match &l.link_mtu {
        None => {
            return Attempt::Ask(Question::LinkMtu(local));
        },
        Some(Ok(m)) => *m,
        Some(Err(_)) => DEFAULT_MTU,
    };
    match backend {
        BackendType::Vxlan => {
            let mtu: u32 = subnet::vxlan_mtu(link_mtu);
            match Netlink::ensure_vxlan(
                DEV,
                VNI,
                DSTPORT,
                local,
                cidr.network(),
                mtu,
                &l.replies,
                0,
            ) {
                Progress::Ask(q) => Attempt::Ask(Question::Net(q)),
                Progress::Done(Err(e), _) => Attempt::Failed(Failure::Transient(e)),
                Progress::Done(Ok((mac, idx)), _) => publish(
                    nc.network.as_str(),
                    backend,
                    &own,
                    &cidr,
                    mtu,
                    idx,
                    Some(mac.as_str()),
                    l,
                    Ghost(f),
                ),
            }
        },
        BackendType::HostGw => {
            let mtu: u32 = subnet::host_gw_mtu(link_mtu);
            match &l.link_index {
                None => Attempt::Ask(Question::LinkIndex(local)),
                Some(Err(e)) => Attempt::Failed(Failure::Transient(e.clone())),
                Some(Ok(idx)) => publish(
                    nc.network.as_str(),
                    backend,
                    &own,
                    &cidr,
                    mtu,
                    *idx,
                    None,
                    l,
                    Ghost(f),
                ),
            }
        },
    }
}

// ---------------------------------------------------------------------------
// Attempt after attempt
// ---------------------------------------------------------------------------

/// What follows an attempt that has ended.
#[derive(Debug)]
pub enum Next {
    /// The daemon is up.
    Run(BootstrapState),
    /// The daemon ends.
    Stop(Fatal),
    /// Wait so many seconds and try again, with the given delay for the next
    /// failure.
    Retry(u64, u64),
}

/// The model of `Next`.
pub enum NextView {
    Run(StateView),
    Stop(FatalView),
    Retry(u64, u64),
}

impl View for Next {
    type V = NextView;

    open spec fn view(&self) -> NextView {
        match self {
            Next::Run(s) => NextView::Run(s@),
            Next::Stop(f) => NextView::Stop(f@),
            Next::Retry(wait, after) => NextView::Retry(*wait, *after),
        }
    }
}

/// The delay after a delay: twice as long, up to the longest.
pub open spec fn longer(delay: u64) -> u64 {
    if 2 * delay <= MAX_DELAY {
        (2 * delay) as u64
    } else {
        MAX_DELAY
    }
}

/// What follows an attempt that ended with a state or a failure.
pub open spec fn followed(r: Result<StateView, FailureView>, delay: u64) -> NextView {
    match r {
        Ok(s) => NextView::Run(s),
        Err(FailureView::Fatal(f)) => NextView::Stop(f),
        Err(FailureView::Transient(_)) => NextView::Retry(delay, longer(delay)),
    }
}

/// Decides what follows an attempt: a transient failure is retried after an
/// ever longer delay, a fatal one ends the daemon at once.
pub fn bootstrap(r: Result<BootstrapState, Failure>, delay: u64) -> (n: Next)
    ensures
        n@ == followed(
            match r {
                Ok(s) => Ok(s@),
                Err(f) => Err(f@),
            },
            delay,
        ),
{
    match r {
        Ok(s) => Next::Run(s),
        Err(Failure::Fatal(f)) => Next::Stop(f),
        Err(Failure::Transient(_)) => {
            let after: u64 = if delay <= MAX_DELAY / 2 {
                2 * delay
            } else {
                MAX_DELAY
            };
            Next::Retry(delay, after)
        },
    }
}

/// The delay after so many failures in a row.
pub open spec fn delay_after(failures: nat) -> u64
    decreases failures,
{
    if failures == 0 {
        FIRST_DELAY
    } else {
        longer(delay_after((failures - 1) as nat))
    }
}

/// Delays are never shorter than the first nor longer than the longest, do not
/// shrink, and double as long as they may.
pub proof fn law_delays_are_bounded(failures: nat)
    ensures
        FIRST_DELAY <= delay_after(failures) <= MAX_DELAY,
        delay_after(failures) <= delay_after(failures + 1),
        2 * delay_after(failures) <= MAX_DELAY ==> delay_after(failures + 1) == 2 * delay_after(
            failures,
        ),
    decreases failures,
{
    if failures > 0 {
        law_delays_are_bounded((failures - 1) as nat);
    }
}

/// A misconfiguration ends the daemon, whatever else was learned: one of the
/// network, or a node without addresses for its containers. Nothing else does.
pub proof fn law_misconfiguration_is_fatal(l: LearnedView, raw: Seq<char>)
    requires
        l.net_conf == Some(Ok::<Seq<char>, Seq<char>>(raw)),
    ensures
        (attempt(l) matches AttemptView::Failed(FailureView::Fatal(_))) <==> classified(raw) is Err
            || (l.own_node is Some && l.own_node->0 is Ok && l.own_node->0->Ok_0.pod_cidr is None),
{
}

/// A start that succeeds has published the lease and written the file for the
/// plugins, with the network of the configuration and the subnet of the node.
pub proof fn law_ready_has_published(l: LearnedView, s: StateView)
    requires
        attempt(l) == AttemptView::Ready(s),
    ensures
        l.published matches Some(Ok(_)),
        attempt(LearnedView { published: None, ..l }) matches AttemptView::Ask(
            QuestionView::Publish(_),
        ),
        l.written matches Some(Ok(_)),
        exists|mtu: u32|
            attempt(LearnedView { written: None, ..l }) == AttemptView::Ask(
                QuestionView::WriteSubnetEnv(#[trigger] plugin_file(s.network, s.subnet, mtu)),
            ),
        l.net_conf matches Some(Ok(raw)) && classified(raw) matches Ok(cb) && cb.0.network
            == s.network && cb.1 == s.backend,
        l.own_node matches Some(Ok(n)) && kube_mgr::own_of(n) matches Ok(own) && own.pod_cidr
            == s.subnet,
{
    let link_mtu = match l.link_mtu->0 {
        Ok(m) => m,
        Err(_) => DEFAULT_MTU,
    };
    let mtu = mtu_of(s.backend, link_mtu);
    assert(attempt(LearnedView { written: None, ..l }) == AttemptView::Ask(
        QuestionView::WriteSubnetEnv(plugin_file(s.network, s.subnet, mtu)),
    ));
}

// ---------------------------------------------------------------------------
// The command line and the main loop
// ---------------------------------------------------------------------------

/// Whether an argument asks for the version.
pub open spec fn asks_version(arg: Seq<char>) -> bool {
    arg == "--version"@ || arg == "-V"@
}

/// Whether one of the arguments asks for the version.
pub fn wants_version(args: &Vec<String>) -> (r: bool)
    ensures
        r == (exists|i: int| 0 <= i < args@.len() && asks_version((#[trigger] args@[i])@)),
{
    let mut i: usize = 0;
    while i < args.len()
        invariant
            i <= args@.len(),
            forall|j: int| 0 <= j < i ==> !asks_version((#[trigger] args@[j])@),
        decreases args@.len() - i,
    {
        if text::same(args[i].as_str(), "--version") || text::same(args[i].as_str(), "-V") {
            return true;
        }
        i = i + 1;
    }
    false
}

/// What the main loop hears of.
#[derive(Debug)]
pub enum Event {
    /// The nodes changed.
    NodesChanged,
    /// The watch of the nodes failed; it recovers by itself.
    WatchFailed,
    /// The watch of the nodes ended.
    WatchEnded,
    /// It is time to look at the peers again.
    PeerTick,
    /// It is time to look at the masquerading rules again.
    MasqTick,
}

/// What the main loop does.
#[derive(Debug, PartialEq, Eq)]
pub enum Reaction {
    /// Bring the peers up to date.
    Reconcile,
    /// Make sure of the masquerading rules.
    Masquerade,
    /// Wait for the next event.
    Wait,
    /// End with a failure.
    Stop,
}

/// What the main loop does on an event.
pub fn react(e: &Event) -> (r: Reaction)
    ensures
        r == (match *e {
            Event::NodesChanged => Reaction::Reconcile,
            Event::PeerTick => Reaction::Reconcile,
            Event::MasqTick => Reaction::Masquerade,
            Event::WatchFailed => Reaction::Wait,
            Event::WatchEnded => Reaction::Stop,
        }),
{
    match e {
        Event::NodesChanged => Reaction::Reconcile,
        Event::PeerTick => Reaction::Reconcile,
        Event::MasqTick => Reaction::Masquerade,
        Event::WatchFailed => Reaction::Wait,
        Event::WatchEnded => Reaction::Stop,
    }
}

/// Only a failure for now is tried again: after the delay that was due, and with
/// a longer one for the next failure unless that is the longest. A failure for
/// good stops the daemon with its reason, and a success runs it with its state.
pub proof fn law_only_failures_for_now_are_retried(
    r: Result<StateView, FailureView>,
    failures: nat,
)
    ensures
        match followed(r, delay_after(failures)) {
            NextView::Run(s) => r == Ok::<StateView, FailureView>(s),
            NextView::Stop(f) => r == Err::<StateView, FailureView>(FailureView::Fatal(f)),
            NextView::Retry(wait, next) => {
                &&& r matches Err(FailureView::Transient(_))
                &&& wait == delay_after(failures)
                &&& next == delay_after(failures + 1)
                &&& wait < 30 ==> wait < next
                &&& wait <= 30 && next <= 30
            },
        },
{
    law_delays_are_bounded(failures);
}

} // verus!
