//! The host's side: the bridge, the pair of links and the port.

use vstd::prelude::*;
use vstd::string::*;

use crate::netlink;
use crate::netlink::{Reply, Request};
use crate::progress;
use crate::progress::Progress;

verus! {

/// A progress in text-worded errors, by its model.
pub open spec fn net_view<T, V>(p: Progress<Request, Result<T, String>>, view: spec_fn(T) -> V) -> Progress<
    netlink::RequestView,
    Result<V, Seq<char>>,
> {
    progress::progress_view(
        p,
        |q: Request| q@,
        |r: Result<T, String>| netlink::text_result(r, view),
    )
}

// ---------------------------------------------------------------------------
// The bridge
// ---------------------------------------------------------------------------

/// Setting the MTU of a link, where one is given and whatever comes of it, and
/// bringing the link up.
pub open spec fn settle(
    idx: u32,
    mtu: Option<u32>,
    replies: Seq<netlink::ReplyView>,
    from: int,
) -> Progress<netlink::RequestView, Result<u32, Seq<char>>> {
    if mtu is Some && from >= replies.len() {
        Progress::Ask(netlink::RequestView::SetMtu(idx, mtu->0))
    } else {
        let at = if mtu is Some {
            from + 1
        } else {
            from
        };
        if at >= replies.len() {
            Progress::Ask(netlink::RequestView::SetUp(idx))
        } else {
            Progress::Done(
                match netlink::failure_of(replies[at]) {
                    Some(t) => Err(t),
                    None => Ok(idx),
                },
                (at + 1) as usize,
            )
        }
    }
}

/// Making sure of a bridge: it is looked for, created where it is absent, and
/// brought up with the MTU. The outcome is its index.
pub open spec fn bridge_progress(
    name: Seq<char>,
    mtu: Option<u32>,
    replies: Seq<netlink::ReplyView>,
    from: int,
) -> Progress<netlink::RequestView, Result<u32, Seq<char>>> {
    if from >= replies.len() {
        Progress::Ask(netlink::RequestView::FindLink(name))
    } else {
        match netlink::index_of(replies[from]) {
            Err(t) => Progress::Done(Err(t), (from + 1) as usize),
            Ok(Some(idx)) => settle(idx, mtu, replies, from + 1),
            Ok(None) => if from + 1 >= replies.len() {
                Progress::Ask(netlink::RequestView::AddBridge(name))
            } else if let Some(t) = netlink::failure_of(replies[from + 1]) {
                Progress::Done(Err(netlink::within("create bridge"@, t)), (from + 2) as usize)
            } else if from + 2 >= replies.len() {
                Progress::Ask(netlink::RequestView::FindLink(name))
            } else {
                match netlink::index_of(replies[from + 2]) {
                    Err(t) => Progress::Done(Err(t), (from + 3) as usize),
                    Ok(None) => Progress::Done(
                        Err("bridge missing after create"@),
                        (from + 3) as usize,
                    ),
                    Ok(Some(idx)) => settle(idx, mtu, replies, from + 3),
                }
            },
        }
    }
}

fn settle_link(idx: u32, mtu: Option<u32>, replies: &Vec<Reply>, from: usize) -> (p: Progress<
    Request,
    Result<u32, String>,
>)
    ensures
        net_view(p, |i: u32| i) == settle(
            idx,
            mtu,
            netlink::reply_views(replies@),
            from as int,
        ),
{
    let mut at: usize = from;
    if let Some(m) = mtu {
        if from >= replies.len() {
            return Progress::Ask(Request::SetMtu(idx, m));
        }
        at = from + 1;
    }
    if at >= replies.len() {
        return Progress::Ask(Request::SetUp(idx));
    }
    assert(netlink::reply_views(replies@)[at as int] == replies@[at as int]@);
    match netlink::failure(&replies[at]) {
        Some(t) => Progress::Done(Err(t), at + 1),
        None => Progress::Done(Ok(idx), at + 1),
    }
}

/// Creates the bridge if it is absent, sets its MTU and brings it up.
pub fn ensure_bridge(name: &str, mtu: Option<u32>, replies: &Vec<Reply>, from: usize) -> (p:
    Progress<Request, Result<u32, String>>)
    ensures
        net_view(p, |i: u32| i) == bridge_progress(
            name@,
            mtu,
            netlink::reply_views(replies@),
            from as int,
        ),
{
    let ghost views = netlink::reply_views(replies@);
    if from >= replies.len() {
        return Progress::Ask(Request::FindLink(name.to_owned()));
    }
    assert(views[from as int] == replies@[from as int]@);
    match netlink::link_index(&replies[from]) {
        Err(t) => {
            return Progress::Done(Err(t), from + 1);
        },
        Ok(Some(idx)) => {
            return settle_link(idx, mtu, replies, from + 1);
        },
        Ok(None) => {},
    }
    if from + 1 >= replies.len() {
        return Progress::Ask(Request::AddBridge(name.to_owned()));
    }
    assert(views[from + 1] == replies@[from + 1]@);
    if let Some(t) = netlink::failure(&replies[from + 1]) {
        return Progress::Done(Err(netlink::in_context("create bridge", t.as_str())), from + 2);
    }
    if from + 2 >= replies.len() {
        return Progress::Ask(Request::FindLink(name.to_owned()));
    }
    assert(views[from + 2] == replies@[from + 2]@);
    match netlink::link_index(&replies[from + 2]) {
        Err(t) => Progress::Done(Err(t), from + 3),
        Ok(None) => Progress::Done(Err("bridge missing after create".to_owned()), from + 3),
        Ok(Some(idx)) => settle_link(idx, mtu, replies, from + 3),
    }
}

// ---------------------------------------------------------------------------
// The pair of links
// ---------------------------------------------------------------------------

/// Creating a pair of links: both are created, looked up, and get the MTU
/// where one is given, whatever comes of that. The outcome is their indexes.
pub open spec fn veth_progress(
    host: Seq<char>,
    peer: Seq<char>,
    mtu: Option<u32>,
    replies: Seq<netlink::ReplyView>,
    from: int,
) -> Progress<netlink::RequestView, Result<(u32, u32), Seq<char>>> {
    if from >= replies.len() {
        Progress::Ask(netlink::RequestView::AddVeth(host, peer))
    } else if let Some(t) = netlink::failure_of(replies[from]) {
        Progress::Done(Err(netlink::within("create veth pair"@, t)), (from + 1) as usize)
    } else if from + 1 >= replies.len() {
        Progress::Ask(netlink::RequestView::FindLink(host))
    } else {
        match netlink::index_of(replies[from + 1]) {
            Err(t) => Progress::Done(Err(t), (from + 2) as usize),
            Ok(None) => Progress::Done(Err("host veth missing"@), (from + 2) as usize),
            Ok(Some(h)) => if from + 2 >= replies.len() {
                Progress::Ask(netlink::RequestView::FindLink(peer))
            } else {
                match netlink::index_of(replies[from + 2]) {
                    Err(t) => Progress::Done(Err(t), (from + 3) as usize),
                    Ok(None) => Progress::Done(Err("peer veth missing"@), (from + 3) as usize),
                    Ok(Some(p)) => match mtu {
                        None => Progress::Done(Ok((h, p)), (from + 3) as usize),
                        Some(m) => if from + 3 >= replies.len() {
                            Progress::Ask(netlink::RequestView::SetMtu(h, m))
                        } else if from + 4 >= replies.len() {
                            Progress::Ask(netlink::RequestView::SetMtu(p, m))
                        } else {
                            Progress::Done(Ok((h, p)), (from + 5) as usize)
                        },
                    },
                }
            },
        }
    }
}

/// Creates a pair of links, both in the host's namespace for now.
pub fn create_veth(
    host_name: &str,
    peer_name: &str,
    mtu: Option<u32>,
    replies: &Vec<Reply>,
    from: usize,
) -> (p: Progress<Request, Result<(u32, u32), String>>)
    ensures
        net_view(p, |t: (u32, u32)| t) == veth_progress(
            host_name@,
            peer_name@,
            mtu,
            netlink::reply_views(replies@),
            from as int,
        ),
{
    let ghost views = netlink::reply_views(replies@);
    if from >= replies.len() {
        return Progress::Ask(Request::AddVeth(host_name.to_owned(), peer_name.to_owned()));
    }
    assert(views[from as int] == replies@[from as int]@);
    if let Some(t) = netlink::failure(&replies[from]) {
        return Progress::Done(Err(netlink::in_context("create veth pair", t.as_str())), from + 1);
    }
    if from + 1 >= replies.len() {
        return Progress::Ask(Request::FindLink(host_name.to_owned()));
    }
    assert(views[from + 1] == replies@[from + 1]@);
    let h: u32 = match netlink::link_index(&replies[from + 1]) {
        Err(t) => {
            return Progress::Done(Err(t), from + 2);
        },
        Ok(None) => {
            return Progress::Done(Err("host veth missing".to_owned()), from + 2);
        },
        Ok(Some(h)) => h,
    };
    if from + 2 >= replies.len() {
        return Progress::Ask(Request::FindLink(peer_name.to_owned()));
    }
    assert(views[from + 2] == replies@[from + 2]@);
    let p: u32 = match netlink::link_index(&replies[from + 2]) {
        Err(t) => {
            return Progress::Done(Err(t), from + 3);
        },
        Ok(None) => {
            return Progress::Done(Err("peer veth missing".to_owned()), from + 3);
        },
        Ok(Some(p)) => p,
    };
    match mtu {
        None => Progress::Done(Ok((h, p)), from + 3),
        Some(m) => if from + 3 >= replies.len() {
            Progress::Ask(Request::SetMtu(h, m))
        } else if from + 4 >= replies.len() {
            Progress::Ask(Request::SetMtu(p, m))
        } else {
            Progress::Done(Ok((h, p)), from + 5)
        },
    }
}

/// Moving a link into the open namespace.
pub open spec fn move_progress(idx: u32, replies: Seq<netlink::ReplyView>, from: int) -> Progress<
    netlink::RequestView,
    Result<(), Seq<char>>,
> {
    if from >= replies.len() {
        Progress::Ask(netlink::RequestView::MoveToNetns(idx))
    } else {
        Progress::Done(
            match netlink::failure_of(replies[from]) {
                Some(t) => Err(netlink::within("move link to netns"@, t)),
                None => Ok(()),
            },
            (from + 1) as usize,
        )
    }
}

/// Moves a link into the open namespace.
pub fn move_to_netns(idx: u32, replies: &Vec<Reply>, from: usize) -> (p: Progress<
    Request,
    Result<(), String>,
>)
    ensures
        net_view(p, |u: ()| u) == move_progress(
            idx,
            netlink::reply_views(replies@),
            from as int,
        ),
{
    if from >= replies.len() {
        return Progress::Ask(Request::MoveToNetns(idx));
    }
    assert(netlink::reply_views(replies@)[from as int] == replies@[from as int]@);
    match netlink::failure(&replies[from]) {
        Some(t) => Progress::Done(
            Err(netlink::in_context("move link to netns", t.as_str())),
            from + 1,
        ),
        None => Progress::Done(Ok(()), from + 1),
    }
}

/// Bringing the host's link up and making it a port of the bridge. For
/// hairpin traffic nothing more is asked of the kernel.
pub open spec fn attach_progress(
    host_idx: u32,
    bridge_idx: u32,
    replies: Seq<netlink::ReplyView>,
    from: int,
) -> Progress<netlink::RequestView, Result<(), Seq<char>>> {
    if from >= replies.len() {
        Progress::Ask(netlink::RequestView::SetUp(host_idx))
    } else if let Some(t) = netlink::failure_of(replies[from]) {
        Progress::Done(Err(t), (from + 1) as usize)
    } else if from + 1 >= replies.len() {
        Progress::Ask(netlink::RequestView::SetController(host_idx, bridge_idx))
    } else {
        Progress::Done(
            match netlink::failure_of(replies[from + 1]) {
                Some(t) => Err(netlink::within("set bridge master"@, t)),
                None => Ok(()),
            },
            (from + 2) as usize,
        )
    }
}

/// Brings the host's link up and makes it a port of the bridge. Hairpin mode
/// has no setting in the interface to the kernel that is used here, so asking
/// for it changes nothing.
pub fn attach_host_veth(
    host_idx: u32,
    bridge_idx: u32,
    _hairpin: bool,
    replies: &Vec<Reply>,
    from: usize,
) -> (p: Progress<Request, Result<(), String>>)
    ensures
        net_view(p, |u: ()| u) == attach_progress(
            host_idx,
            bridge_idx,
            netlink::reply_views(replies@),
            from as int,
        ),
{
    let ghost views = netlink::reply_views(replies@);
    if from >= replies.len() {
        return Progress::Ask(Request::SetUp(host_idx));
    }
    assert(views[from as int] == replies@[from as int]@);
    if let Some(t) = netlink::failure(&replies[from]) {
        return Progress::Done(Err(t), from + 1);
    }
    if from + 1 >= replies.len() {
        return Progress::Ask(Request::SetController(host_idx, bridge_idx));
    }
    assert(views[from + 1] == replies@[from + 1]@);
    match netlink::failure(&replies[from + 1]) {
        Some(t) => Progress::Done(
            Err(netlink::in_context("set bridge master", t.as_str())),
            from + 2,
        ),
        None => Progress::Done(Ok(()), from + 2),
    }
}

/// Giving the bridge the gateway's address. That it has it already is no
/// failure.
pub open spec fn gateway_progress(
    bridge_idx: u32,
    gw: u32,
    prefix: u8,
    replies: Seq<netlink::ReplyView>,
    from: int,
) -> Progress<netlink::RequestView, Result<(), Seq<char>>> {
    if from >= replies.len() {
        Progress::Ask(netlink::RequestView::AddAddress(bridge_idx, gw, prefix))
    } else {
        Progress::Done(
            match netlink::refusal_of(replies[from]) {
                Some(t) => Err(netlink::within("set bridge gateway"@, t)),
                None => Ok(()),
            },
            (from + 1) as usize,
        )
    }
}

/// Gives the bridge the gateway's address, if it has it not already.
pub fn set_bridge_gateway(
    bridge_idx: u32,
    gw: u32,
    prefix: u8,
    replies: &Vec<Reply>,
    from: usize,
) -> (p: Progress<Request, Result<(), String>>)
    ensures
        net_view(p, |u: ()| u) == gateway_progress(
            bridge_idx,
            gw,
            prefix,
            netlink::reply_views(replies@),
            from as int,
        ),
{
    if from >= replies.len() {
        return Progress::Ask(Request::AddAddress(bridge_idx, gw, prefix));
    }
    assert(netlink::reply_views(replies@)[from as int] == replies@[from as int]@);
    match netlink::refusal(&replies[from]) {
        Some(t) => Progress::Done(
            Err(netlink::in_context("set bridge gateway", t.as_str())),
            from + 1,
        ),
        None => Progress::Done(Ok(()), from + 1),
    }
}

/// Deleting a link, whatever comes of it.
pub open spec fn delete_progress(idx: u32, replies: Seq<netlink::ReplyView>, from: int) -> Progress<
    netlink::RequestView,
    (),
> {
    if from >= replies.len() {
        Progress::Ask(netlink::RequestView::DeleteLink(idx))
    } else {
        Progress::Done((), (from + 1) as usize)
    }
}

/// Deletes a link, whatever comes of it.
pub fn del_link(idx: u32, replies: &Vec<Reply>, from: usize) -> (p: Progress<Request, ()>)
    ensures
        progress::progress_view(p, |q: Request| q@, |u: ()| u) == delete_progress(
            idx,
            netlink::reply_views(replies@),
            from as int,
        ),
{
    if from >= replies.len() {
        Progress::Ask(Request::DeleteLink(idx))
    } else {
        Progress::Done((), from + 1)
    }
}

// ---------------------------------------------------------------------------
// Only the answers that were used count
// ---------------------------------------------------------------------------

/// What comes of making sure of a bridge depends on the answers up to the
/// position that it ends at.
pub proof fn lemma_bridge_stable(
    name: Seq<char>,
    mtu: Option<u32>,
    replies: Seq<netlink::ReplyView>,
    from: int,
    k: int,
)
    requires
        0 <= from,
        replies.len() <= usize::MAX,
        bridge_progress(name, mtu, replies, from) matches Progress::Done(_, next) && next <= k
            <= replies.len(),
    ensures
        bridge_progress(name, mtu, replies.take(k), from) == bridge_progress(
            name,
            mtu,
            replies,
            from,
        ),
        bridge_progress(name, mtu, replies, from)->Done_1 > from,
{
}

/// What comes of creating a pair of links depends on the answers up to the
/// position that it ends at.
pub proof fn lemma_veth_stable(
    host: Seq<char>,
    peer: Seq<char>,
    mtu: Option<u32>,
    replies: Seq<netlink::ReplyView>,
    from: int,
    k: int,
)
    requires
        0 <= from,
        replies.len() <= usize::MAX,
        veth_progress(host, peer, mtu, replies, from) matches Progress::Done(_, next) && next <= k
            <= replies.len(),
    ensures
        veth_progress(host, peer, mtu, replies.take(k), from) == veth_progress(
            host,
            peer,
            mtu,
            replies,
            from,
        ),
        veth_progress(host, peer, mtu, replies, from)->Done_1 > from,
{
}

} // verus!
