//! What is asked of the kernel's network configuration, and what it answers.

use vstd::prelude::*;
use vstd::string::*;

use crate::text;

verus! {

/// The code with which the kernel says that a link does not exist.
pub const ENODEV: i32 = -19;

/// The code with which the kernel says that something exists already.
pub const EEXIST: i32 = -17;

/// A route to be added.
#[derive(Debug, Clone, Copy, PartialEq, Eq, Structural)]
pub struct RouteSpec {
    pub dst: u32,
    pub prefix: u8,
    pub gateway: Option<u32>,
    pub oif: u32,
    /// Whether the gateway counts as directly reachable.
    pub onlink: bool,
}

/// A request.
#[derive(Debug, PartialEq, Eq)]
pub enum Request {
    /// Open a connection to the kernel.
    Connect,
    /// The index of the link of that name.
    FindLink(String),
    SetMtu(u32, u32),
    SetUp(u32),
    AddBridge(String),
    /// Create a pair of connected links.
    AddVeth(String, String),
    /// Open the network namespace of that path.
    OpenNetns(String),
    /// Move a link into the open namespace.
    MoveToNetns(u32),
    /// Make a link a port of a bridge.
    SetController(u32, u32),
    AddAddress(u32, u32, u8),
    Rename(u32, String),
    AddRoute(RouteSpec),
    DeleteLink(u32),
    /// Remember the current network namespace.
    OpenHostNs,
    /// Continue in the open namespace.
    EnterNs,
    /// Prepare for work in the namespace.
    StartRuntime,
    /// Go back to the namespace that was remembered.
    LeaveNs,
    /// Let the host forward packets.
    EnableForwarding,
    /// Create a VXLAN link: name, network identifier, destination port and local
    /// address.
    AddVxlan(String, u32, u16, u32),
    /// The hardware addresses of a link.
    LinkAddresses(u32),
    /// Resolve an address on a link to a hardware address.
    AddNeighbour(u32, u32, [u8; 6]),
    /// Send frames for a hardware address to a host.
    AddForwarding(u32, [u8; 6], u32),
    /// Send frames for a hardware address to that host no longer.
    DeleteForwarding(u32, [u8; 6], u32),
    ListRoutes,
    /// Delete the route at that position of the list.
    DeleteRoute(usize),
    ListNeighbours,
    /// Delete the neighbour at that position of the list.
    DeleteNeighbour(usize),
}

/// The model of `Request`.
pub enum RequestView {
    Connect,
    FindLink(Seq<char>),
    SetMtu(u32, u32),
    SetUp(u32),
    AddBridge(Seq<char>),
    AddVeth(Seq<char>, Seq<char>),
    OpenNetns(Seq<char>),
    MoveToNetns(u32),
    SetController(u32, u32),
    AddAddress(u32, u32, u8),
    Rename(u32, Seq<char>),
    AddRoute(RouteSpec),
    DeleteLink(u32),
    OpenHostNs,
    EnterNs,
    StartRuntime,
    LeaveNs,
    EnableForwarding,
    AddVxlan(Seq<char>, u32, u16, u32),
    LinkAddresses(u32),
    AddNeighbour(u32, u32, Seq<u8>),
    AddForwarding(u32, Seq<u8>, u32),
    DeleteForwarding(u32, Seq<u8>, u32),
    ListRoutes,
    DeleteRoute(usize),
    ListNeighbours,
    DeleteNeighbour(usize),
}

impl View for Request {
    type V = RequestView;

    open spec fn view(&self) -> RequestView {
        match self {
            Request::Connect => RequestView::Connect,
            Request::FindLink(n) => RequestView::FindLink(n@),
            Request::SetMtu(i, m) => RequestView::SetMtu(*i, *m),
            Request::SetUp(i) => RequestView::SetUp(*i),
            Request::AddBridge(n) => RequestView::AddBridge(n@),
            Request::AddVeth(a, b) => RequestView::AddVeth(a@, b@),
            Request::OpenNetns(p) => RequestView::OpenNetns(p@),
            Request::MoveToNetns(i) => RequestView::MoveToNetns(*i),
            Request::SetController(i, b) => RequestView::SetController(*i, *b),
            Request::AddAddress(i, a, p) => RequestView::AddAddress(*i, *a, *p),
            Request::Rename(i, n) => RequestView::Rename(*i, n@),
            Request::AddRoute(r) => RequestView::AddRoute(*r),
            Request::DeleteLink(i) => RequestView::DeleteLink(*i),
            Request::OpenHostNs => RequestView::OpenHostNs,
            Request::EnterNs => RequestView::EnterNs,
            Request::StartRuntime => RequestView::StartRuntime,
            Request::LeaveNs => RequestView::LeaveNs,
            Request::EnableForwarding => RequestView::EnableForwarding,
            Request::AddVxlan(n, v, d, l) => RequestView::AddVxlan(n@, *v, *d, *l),
            Request::LinkAddresses(i) => RequestView::LinkAddresses(*i),
            Request::AddNeighbour(i, a, m) => RequestView::AddNeighbour(*i, *a, m@),
            Request::AddForwarding(i, m, a) => RequestView::AddForwarding(*i, m@, *a),
            Request::DeleteForwarding(i, m, a) => RequestView::DeleteForwarding(*i, m@, *a),
            Request::ListRoutes => RequestView::ListRoutes,
            Request::DeleteRoute(i) => RequestView::DeleteRoute(*i),
            Request::ListNeighbours => RequestView::ListNeighbours,
            Request::DeleteNeighbour(i) => RequestView::DeleteNeighbour(*i),
        }
    }
}

/// A route of the kernel: the length of its prefix, its destinations and the
/// link it leads out on.
#[derive(Debug)]
pub struct RouteEntry {
    pub prefix: u8,
    pub destinations: Vec<u32>,
    pub oif: Option<u32>,
}

/// A neighbour of the kernel: its link and its addresses.
#[derive(Debug)]
pub struct NeighbourEntry {
    pub ifindex: u32,
    pub destinations: Vec<u32>,
}

/// An answer.
#[derive(Debug)]
pub enum Reply {
    /// It is done.
    Done,
    /// The index of a link, where there is one.
    Link(Option<u32>),
    /// The hardware addresses of a link, where there is one.
    Addresses(Option<Vec<Vec<u8>>>),
    /// Routes, and what ended the list early, if anything did.
    Routes(Vec<RouteEntry>, Option<String>),
    /// Neighbours, up to the end of the list or what ended it early.
    Neighbours(Vec<NeighbourEntry>),
    /// The kernel refused, with a code and a wording.
    Refused(i32, String),
    /// Something else went wrong.
    Failed(String),
}

/// The model of `RouteEntry`.
pub struct RouteEntryView {
    pub prefix: u8,
    pub destinations: Seq<u32>,
    pub oif: Option<u32>,
}

/// The model of `NeighbourEntry`.
pub struct NeighbourEntryView {
    pub ifindex: u32,
    pub destinations: Seq<u32>,
}

impl View for RouteEntry {
    type V = RouteEntryView;

    open spec fn view(&self) -> RouteEntryView {
        RouteEntryView { prefix: self.prefix, destinations: self.destinations@, oif: self.oif }
    }
}

impl View for NeighbourEntry {
    type V = NeighbourEntryView;

    open spec fn view(&self) -> NeighbourEntryView {
        NeighbourEntryView { ifindex: self.ifindex, destinations: self.destinations@ }
    }
}

/// The models of routes.
pub open spec fn route_views(v: Seq<RouteEntry>) -> Seq<RouteEntryView> {
    v.map_values(|r: RouteEntry| r@)
}

/// The models of neighbours.
pub open spec fn neighbour_views(v: Seq<NeighbourEntry>) -> Seq<NeighbourEntryView> {
    v.map_values(|n: NeighbourEntry| n@)
}

/// The model of hardware addresses.
pub open spec fn byte_views(v: Seq<Vec<u8>>) -> Seq<Seq<u8>> {
    v.map_values(|b: Vec<u8>| b@)
}

/// The model of `Reply`.
pub enum ReplyView {
    Done,
    Link(Option<u32>),
    Addresses(Option<Seq<Seq<u8>>>),
    Routes(Seq<RouteEntryView>, Option<Seq<char>>),
    Neighbours(Seq<NeighbourEntryView>),
    Refused(i32, Seq<char>),
    Failed(Seq<char>),
}

impl View for Reply {
    type V = ReplyView;

    open spec fn view(&self) -> ReplyView {
        match self {
            Reply::Done => ReplyView::Done,
            Reply::Link(i) => ReplyView::Link(*i),
            Reply::Addresses(None) => ReplyView::Addresses(None),
            Reply::Addresses(Some(a)) => ReplyView::Addresses(Some(byte_views(a@))),
            Reply::Routes(r, e) => ReplyView::Routes(route_views(r@), text::opt_text(*e)),
            Reply::Neighbours(n) => ReplyView::Neighbours(neighbour_views(n@)),
            Reply::Refused(c, t) => ReplyView::Refused(*c, t@),
            Reply::Failed(t) => ReplyView::Failed(t@),
        }
    }
}

/// The models of answers.
pub open spec fn reply_views(v: Seq<Reply>) -> Seq<ReplyView> {
    v.map_values(|r: Reply| r@)
}

/// What went wrong, where something did.
pub open spec fn failure_of(r: ReplyView) -> Option<Seq<char>> {
    match r {
        ReplyView::Refused(_, t) => Some(t),
        ReplyView::Failed(t) => Some(t),
        _ => None,
    }
}

/// What went wrong, where something did.
pub fn failure(r: &Reply) -> (f: Option<String>)
    ensures
        text::opt_text(f) == failure_of(r@),
{
    match r {
        Reply::Refused(_, t) => Some(t.clone()),
        Reply::Failed(t) => Some(t.clone()),
        _ => None,
    }
}

/// The index that an answer gives: none where the link does not exist, which
/// the kernel may also say by a refusal; otherwise what went wrong.
pub open spec fn index_of(r: ReplyView) -> Result<Option<u32>, Seq<char>> {
    match r {
        ReplyView::Link(i) => Ok(i),
        ReplyView::Refused(code, t) => if code == ENODEV {
            Ok(None)
        } else {
            Err(t)
        },
        ReplyView::Failed(t) => Err(t),
        _ => Ok(None),
    }
}

/// The model of a result whose error is a text.
pub open spec fn text_result<T, V>(r: Result<T, String>, view: spec_fn(T) -> V) -> Result<
    V,
    Seq<char>,
> {
    match r {
        Ok(t) => Ok(view(t)),
        Err(e) => Err(e@),
    }
}

/// The index that an answer gives.
pub fn link_index(r: &Reply) -> (i: Result<Option<u32>, String>)
    ensures
        text_result(i, |o: Option<u32>| o) == index_of(r@),
{
    match r {
        Reply::Link(i) => Ok(*i),
        Reply::Refused(code, t) => if *code == ENODEV {
            Ok(None)
        } else {
            Err(t.clone())
        },
        Reply::Failed(t) => Err(t.clone()),
        _ => Ok(None),
    }
}

/// What went wrong when something was added, where that it exists already is
/// nothing.
pub open spec fn refusal_of(r: ReplyView) -> Option<Seq<char>> {
    match r {
        ReplyView::Refused(code, t) => if code == EEXIST {
            None
        } else {
            Some(t)
        },
        ReplyView::Failed(t) => Some(t),
        _ => None,
    }
}

/// What went wrong when something was added.
pub fn refusal(r: &Reply) -> (f: Option<String>)
    ensures
        text::opt_text(f) == refusal_of(r@),
{
    match r {
        Reply::Refused(code, t) => if *code == EEXIST {
            None
        } else {
            Some(t.clone())
        },
        Reply::Failed(t) => Some(t.clone()),
        _ => None,
    }
}

/// A failure within something that was attempted.
pub open spec fn within(context: Seq<char>, reason: Seq<char>) -> Seq<char> {
    context + ": "@ + reason
}

/// A failure within something that was attempted.
pub fn in_context(context: &str, reason: &str) -> (s: String)
    ensures
        s@ == within(context@, reason@),
{
    text::join3(context, ": ", reason)
}

} // verus!
