//! One round of bringing the peers up to date with the nodes.

use vstd::prelude::*;

use crate::cni_bridge::hostns;
use crate::flanneld::config::BackendType;
use crate::flanneld::kube_mgr;
use crate::flanneld::kube_mgr::NodeInfo;
use crate::flanneld::netlink as overlay;
use crate::flanneld::netlink::Netlink;
use crate::flanneld::peer;
use crate::flanneld::peer::{Action, Peer};
use crate::netlink;
use crate::netlink::{Reply, Request};
use crate::progress;
use crate::progress::Progress;
use crate::text_map::TextMap;

verus! {

/// What a round leaves: the peers that count as installed, and whether every
/// addition succeeded.
#[derive(Debug)]
pub struct Round {
    pub installed: TextMap<Peer>,
    pub complete: bool,
}

/// The model of `Round`.
pub struct RoundView {
    pub installed: peer::Peers,
    pub complete: bool,
}

impl View for Round {
    type V = RoundView;

    open spec fn view(&self) -> RoundView {
        RoundView { installed: peer::peer_views(self.installed@), complete: self.complete }
    }
}

/// Carrying out an action; the outcome is whether it succeeded. On an overlay
/// an addition is a route and what resolves it, and both are attempted;
/// without one it is a direct route.
pub open spec fn action_progress(
    b: BackendType,
    dev: u32,
    a: peer::ActionView,
    replies: Seq<netlink::ReplyView>,
    from: int,
) -> Progress<netlink::RequestView, bool> {
    match (a, b) {
        (peer::ActionView::Add(p), BackendType::Vxlan) => match overlay::route_progress(
            dev,
            p,
            replies,
            from,
        ) {
            Progress::Ask(q) => Progress::Ask(q),
            Progress::Done(route, next) => match overlay::l2_progress(
                dev,
                p,
                replies,
                next as int,
            ) {
                Progress::Ask(q) => Progress::Ask(q),
                Progress::Done(l2, last) => Progress::Done(route is Ok && l2 is Ok, last),
            },
        },
        (peer::ActionView::Add(p), BackendType::HostGw) => succeeded(
            overlay::host_gw_progress(dev, p, replies, from),
        ),
        (peer::ActionView::Remove(p), BackendType::Vxlan) => succeeded(
            overlay::del_progress(dev, p, replies, from),
        ),
        (peer::ActionView::Remove(p), BackendType::HostGw) => succeeded(
            overlay::del_host_gw_progress(dev, p, replies, from),
        ),
    }
}

/// Whether something succeeds.
pub open spec fn succeeded(p: Progress<netlink::RequestView, Result<(), Seq<char>>>) -> Progress<
    netlink::RequestView,
    bool,
> {
    match p {
        Progress::Ask(q) => Progress::Ask(q),
        Progress::Done(r, next) => Progress::Done(r is Ok, next),
    }
}

/// What a round leaves after one more action. An addition that failed does not
/// count as installed, so that it comes up again; a removal counts in any
/// case.
pub open spec fn settled(r: RoundView, a: peer::ActionView, ok: bool) -> RoundView {
    match a {
        peer::ActionView::Add(p) => if ok {
            RoundView { installed: r.installed.insert(p.node, p), complete: r.complete }
        } else {
            RoundView { installed: r.installed.remove(p.node), complete: false }
        },
        peer::ActionView::Remove(p) => RoundView {
            installed: r.installed.remove(p.node),
            complete: r.complete,
        },
    }
}

/// Carrying out actions in order, whatever comes of each.
pub open spec fn actions_progress(
    b: BackendType,
    dev: u32,
    actions: Seq<peer::ActionView>,
    r: RoundView,
    replies: Seq<netlink::ReplyView>,
    from: int,
) -> Progress<netlink::RequestView, RoundView>
    decreases actions.len(),
{
    if actions.len() == 0 {
        Progress::Done(r, from as usize)
    } else {
        match action_progress(b, dev, actions[0], replies, from) {
            Progress::Ask(q) => Progress::Ask(q),
            Progress::Done(ok, next) => actions_progress(
                b,
                dev,
                actions.skip(1),
                settled(r, actions[0], ok),
                replies,
                next as int,
            ),
        }
    }
}

/// The actions of a round, in order: what the installed peers need, and then
/// what the others need. The lists hold the names of the nodes.
pub open spec fn plan(
    installed_nodes: Seq<Seq<char>>,
    desired_nodes: Seq<Seq<char>>,
    installed: peer::Peers,
    desired: peer::Peers,
) -> Seq<peer::ActionView> {
    peer::changes(installed_nodes, installed, desired) + peer::additions(
        desired_nodes,
        installed,
        desired,
    )
}

/// A round: what the nodes describe is compared with what is installed, and
/// the difference is carried out.
pub open spec fn round(
    installed_nodes: Seq<Seq<char>>,
    desired_nodes: Seq<Seq<char>>,
    installed: peer::Peers,
    desired: peer::Peers,
    b: BackendType,
    dev: u32,
    replies: Seq<netlink::ReplyView>,
) -> Progress<netlink::RequestView, RoundView> {
    actions_progress(
        b,
        dev,
        plan(installed_nodes, desired_nodes, installed, desired),
        RoundView { installed, complete: true },
        replies,
        0,
    )
}

/// A progress of a round, by its model.
pub open spec fn round_view(p: Progress<Request, Round>) -> Progress<
    netlink::RequestView,
    RoundView,
> {
    progress::progress_view(p, |q: Request| q@, |r: Round| r@)
}

fn outcome(p: Progress<Request, Result<(), String>>) -> (r: Progress<Request, bool>)
    ensures
        progress::progress_view(r, |q: Request| q@, |ok: bool| ok) == succeeded(
            hostns::net_view(p, |u: ()| u),
        ),
{
    match p {
        Progress::Ask(q) => Progress::Ask(q),
        Progress::Done(r, next) => Progress::Done(r.is_ok(), next),
    }
}

fn carry_out(
    b: BackendType,
    dev: u32,
    a: &Action,
    replies: &Vec<Reply>,
    from: usize,
) -> (p: Progress<Request, bool>)
    ensures
        progress::progress_view(p, |q: Request| q@, |ok: bool| ok) == action_progress(
            b,
            dev,
            a@,
            netlink::reply_views(replies@),
            from as int,
        ),
{
    match (a, b) {
        (Action::Add(p), BackendType::Vxlan) => match Netlink::add_route(dev, p, replies, from) {
            Progress::Ask(q) => Progress::Ask(q),
            Progress::Done(route, next) => match Netlink::add_peer_l2(dev, p, replies, next) {
                Progress::Ask(q) => Progress::Ask(q),
                Progress::Done(l2, last) => Progress::Done(route.is_ok() && l2.is_ok(), last),
            },
        },
        (Action::Add(p), BackendType::HostGw) => outcome(
            Netlink::add_host_gw_route(dev, p, replies, from),
        ),
        (Action::Remove(p), BackendType::Vxlan) => outcome(
            Netlink::del_peer(dev, p, replies, from),
        ),
        (Action::Remove(p), BackendType::HostGw) => outcome(
            Netlink::del_host_gw_route(dev, p, replies, from),
        ),
    }
}

fn copy_peers(m: &TextMap<Peer>) -> (c: TextMap<Peer>)
    ensures
        peer::peer_views(c@) == peer::peer_views(m@),
{
    let n: usize = m.len();
    let ghost keys = m.keys();
    let mut c: TextMap<Peer> = TextMap::new();
    let mut i: usize = 0;
    while i < n
        invariant
            i <= n,
            n == keys.len(),
            keys == m.keys(),
            forall|k: Seq<char>| #[trigger] m@.contains_key(k) <==> keys.contains(k),
            forall|k: Seq<char>| #[trigger]
                c@.contains_key(k) <==> exists|j: int| 0 <= j < i && #[trigger] keys[j] == k,
            forall|k: Seq<char>| #[trigger] c@.contains_key(k) ==> c@[k]@ == m@[k]@,
        decreases n - i,
    {
        let ghost before = c@;
        c.insert(m.key(i).to_owned(), m.value(i).clone());
        proof {
            assert forall|k: Seq<char>| #[trigger] c@.contains_key(k) <==> exists|j: int|
                0 <= j < i + 1 && #[trigger] keys[j] == k by {
                if c@.contains_key(k) {
                    if k == keys[i as int] {
                    } else {
                        assert(before.contains_key(k));
                    }
                }
                if exists|j: int| 0 <= j < i + 1 && #[trigger] keys[j] == k {
                    let j = choose|j: int| 0 <= j < i + 1 && #[trigger] keys[j] == k;
                    if j < i {
                        assert(before.contains_key(k));
                    }
                }
            }
        }
        i = i + 1;
    }
    proof {
        assert forall|k: Seq<char>| #[trigger] c@.contains_key(k) <==> m@.contains_key(k) by {
            if m@.contains_key(k) {
                let j = keys.index_of(k);
                assert(keys[j] == k);
            }
        }
        assert(peer::peer_views(c@) =~= peer::peer_views(m@));
    }
    c
}

fn settle(m: &mut TextMap<Peer>, a: Action, ok: bool)
    ensures
        forall|complete: bool|
            peer::peer_views(final(m)@) == (#[trigger] settled(
                (RoundView { installed: peer::peer_views(old(m)@), complete }),
                a@,
                ok,
            )).installed,
{
    let ghost before = peer::peer_views(m@);
    match a {
        Action::Add(p) => {
            let ghost v = p@;
            if ok {
                m.insert(p.node.clone(), p);
                assert(peer::peer_views(m@) =~= before.insert(v.node, v));
            } else {
                m.remove(p.node.as_str());
                assert(peer::peer_views(m@) =~= before.remove(v.node));
            }
        },
        Action::Remove(p) => {
            m.remove(p.node.as_str());
            assert(peer::peer_views(m@) =~= before.remove(p@.node));
        },
    }
}

/// Brings the peers up to date with the nodes, in an order that the nodes and
/// what is installed fix, so that the calls of one round belong together. A
/// failed addition is left out of what counts as installed, so that the next
/// round attempts it again.
pub fn reconcile_from_store(
    nodes: &Vec<NodeInfo>,
    own: &str,
    dev: u32,
    b: BackendType,
    installed: &TextMap<Peer>,
    replies: &Vec<Reply>,
) -> (p: Progress<Request, Round>)
    ensures
        round_view(p) == round(
            installed.keys(),
            kube_mgr::peer_order(kube_mgr::node_views(nodes@), own@, b),
            peer::peer_views(installed@),
            kube_mgr::peers_of(kube_mgr::node_views(nodes@), own@, b),
            b,
            dev,
            netlink::reply_views(replies@),
        ),
        peer::lists(installed.keys(), peer::peer_views(installed@)),
        peer::keyed(peer::peer_views(installed@)) ==> (p matches Progress::Done(r, _)
            ==> forall|n: Seq<char>| #[trigger]
            comes_out(
                n,
                peer::peer_views(installed@),
                kube_mgr::peers_of(kube_mgr::node_views(nodes@), own@, b),
                r@.installed,
                b,
                dev,
                plan(
                    installed.keys(),
                    kube_mgr::peer_order(kube_mgr::node_views(nodes@), own@, b),
                    peer::peer_views(installed@),
                    kube_mgr::peers_of(kube_mgr::node_views(nodes@), own@, b),
                ),
                netlink::reply_views(replies@),
            )),
{
    let desired = kube_mgr::desired_from_nodes(nodes, own, b);
    let ghost views = netlink::reply_views(replies@);
    let mut actions: Vec<Action> = peer::reconcile(installed, &desired);
    let ghost all = peer::action_views(actions@);
    let ghost whole = actions_progress(
        b,
        dev,
        all,
        RoundView { installed: peer::peer_views(installed@), complete: true },
        views,
        0,
    );
    proof {
        assert(whole == round(
            installed.keys(),
            desired.keys(),
            peer::peer_views(installed@),
            peer::peer_views(desired@),
            b,
            dev,
            views,
        ));
    }
    let mut next = copy_peers(installed);
    let mut complete = true;
    let mut at: usize = 0;
    while actions.len() > 0
        invariant
            views == netlink::reply_views(replies@),
            peer::lists(installed.keys(), peer::peer_views(installed@)),
            desired.keys() == kube_mgr::peer_order(kube_mgr::node_views(nodes@), own@, b),
            peer::peer_views(desired@) == kube_mgr::peers_of(
                kube_mgr::node_views(nodes@),
                own@,
                b,
            ),
            whole == round(
                installed.keys(),
                desired.keys(),
                peer::peer_views(installed@),
                peer::peer_views(desired@),
                b,
                dev,
                views,
            ),
            whole == actions_progress(
                b,
                dev,
                peer::action_views(actions@),
                RoundView { installed: peer::peer_views(next@), complete },
                views,
                at as int,
            ),
        decreases actions@.len(),
    {
        let ghost left = peer::action_views(actions@);
        let ghost was = RoundView { installed: peer::peer_views(next@), complete };
        let a = actions.remove(0);
        proof {
            assert(left[0] == a@);
            assert(peer::action_views(actions@) =~= left.skip(1));
        }
        match carry_out(b, dev, &a, replies, at) {
            Progress::Ask(q) => {
                return Progress::Ask(q);
            },
            Progress::Done(ok, after) => {
                let ghost now = settled(was, a@, ok);
                if !ok {
                    if let Action::Add(_) = &a {
                        complete = false;
                    }
                }
                settle(&mut next, a, ok);
                assert(peer::peer_views(next@) == now.installed && complete == now.complete);
                at = after;
            },
        }
    }
    let r = Round { installed: next, complete };
    proof {
        if peer::keyed(peer::peer_views(installed@)) {
            let described = kube_mgr::node_views(nodes@);
            let peers = peer::peer_views(installed@);
            let wanted = kube_mgr::peers_of(described, own@, b);
            let order = kube_mgr::peer_order(described, own@, b);
            assert forall|n: Seq<char>| #[trigger]
                comes_out(
                    n,
                    peers,
                    wanted,
                    r@.installed,
                    b,
                    dev,
                    plan(installed.keys(), order, peers, wanted),
                    views,
                ) by {
                law_round_settles_each_node(
                    described,
                    own@,
                    installed.keys(),
                    peers,
                    b,
                    dev,
                    views,
                    n,
                );
            }
        }
    }
    Progress::Done(r, at)
}

// ---------------------------------------------------------------------------
// Laws
// ---------------------------------------------------------------------------

/// What a round leaves after actions in order, by whether each succeeded.
pub open spec fn all_settled(
    r: RoundView,
    actions: Seq<peer::ActionView>,
    oks: Seq<bool>,
) -> RoundView
    decreases actions.len(),
{
    if actions.len() == 0 {
        r
    } else {
        settled(
            all_settled(r, actions.drop_last(), oks.drop_last()),
            actions.last(),
            oks.last(),
        )
    }
}

proof fn lemma_settled_head(r: RoundView, actions: Seq<peer::ActionView>, oks: Seq<bool>)
    requires
        actions.len() == oks.len(),
        actions.len() > 0,
    ensures
        all_settled(r, actions, oks) == all_settled(
            settled(r, actions[0], oks[0]),
            actions.skip(1),
            oks.skip(1),
        ),
    decreases actions.len(),
{
    reveal_with_fuel(all_settled, 2);
    if actions.len() == 1 {
        assert(actions.last() == actions[0] && oks.last() == oks[0]);
        assert(actions.drop_last().len() == 0);
        assert(actions.skip(1).len() == 0);
    } else {
        lemma_settled_head(r, actions.drop_last(), oks.drop_last());
        assert(actions.skip(1).drop_last() =~= actions.drop_last().skip(1));
        assert(oks.skip(1).drop_last() =~= oks.drop_last().skip(1));
        assert(actions.skip(1).last() == actions.last());
        assert(oks.skip(1).last() == oks.last());
        assert(actions.drop_last()[0] == actions[0]);
        assert(oks.drop_last()[0] == oks[0]);
    }
}

/// The position of the first answer to the action at `i`, where the answers to
/// the first action begin at `from`.
pub open spec fn reached(
    b: BackendType,
    dev: u32,
    actions: Seq<peer::ActionView>,
    replies: Seq<netlink::ReplyView>,
    from: int,
    i: int,
) -> int
    decreases actions.len(),
{
    if i <= 0 || actions.len() == 0 {
        from
    } else {
        match action_progress(b, dev, actions[0], replies, from) {
            Progress::Ask(_) => from,
            Progress::Done(_, next) => reached(
                b,
                dev,
                actions.skip(1),
                replies,
                next as int,
                i - 1,
            ),
        }
    }
}

/// What comes of the action at `i` when its turn has come.
pub open spec fn carried(
    b: BackendType,
    dev: u32,
    actions: Seq<peer::ActionView>,
    replies: Seq<netlink::ReplyView>,
    from: int,
    i: int,
) -> Progress<netlink::RequestView, bool> {
    action_progress(b, dev, actions[i], replies, reached(b, dev, actions, replies, from, i))
}

/// Whether the action at `i` is carried out with success.
pub open spec fn succeeds(
    b: BackendType,
    dev: u32,
    actions: Seq<peer::ActionView>,
    replies: Seq<netlink::ReplyView>,
    from: int,
    i: int,
) -> bool {
    carried(b, dev, actions, replies, from, i) matches Progress::Done(ok, _) && ok
}

proof fn lemma_settles(
    b: BackendType,
    dev: u32,
    actions: Seq<peer::ActionView>,
    r: RoundView,
    replies: Seq<netlink::ReplyView>,
    from: int,
) -> (oks: Seq<bool>)
    requires
        actions_progress(b, dev, actions, r, replies, from) is Done,
    ensures
        oks.len() == actions.len(),
        actions_progress(b, dev, actions, r, replies, from)->Done_0 == all_settled(
            r,
            actions,
            oks,
        ),
        forall|i: int|
            0 <= i < oks.len() ==> #[trigger] oks[i] == succeeds(
                b,
                dev,
                actions,
                replies,
                from,
                i,
            ),
    decreases actions.len(),
{
    if actions.len() == 0 {
        Seq::empty()
    } else {
        match action_progress(b, dev, actions[0], replies, from) {
            Progress::Ask(q) => { Seq::empty() },
            Progress::Done(ok, next) => {
                let rest = lemma_settles(
                    b,
                    dev,
                    actions.skip(1),
                    settled(r, actions[0], ok),
                    replies,
                    next as int,
                );
                let oks = seq![ok] + rest;
                assert(oks.skip(1) =~= rest);
                lemma_settled_head(r, actions, oks);
                assert forall|i: int| 0 <= i < oks.len() implies #[trigger] oks[i] == succeeds(
                    b,
                    dev,
                    actions,
                    replies,
                    from,
                    i,
                ) by {
                    if i > 0 {
                        assert(oks[i] == rest[i - 1]);
                        assert(actions.skip(1)[i - 1] == actions[i]);
                    }
                }
                oks
            },
        }
    }
}

proof fn lemma_complete_is_acted(r: RoundView, actions: Seq<peer::ActionView>, oks: Seq<bool>)
    requires
        oks.len() == actions.len(),
        all_settled(r, actions, oks).complete,
    ensures
        r.complete,
        all_settled(r, actions, oks).installed == peer::all_acted(r.installed, actions),
    decreases actions.len(),
{
    if actions.len() > 0 {
        lemma_complete_is_acted(r, actions.drop_last(), oks.drop_last());
    }
}

/// A round in which every addition succeeds leaves what the nodes describe.
pub proof fn law_complete_round_reaches_desired(
    installed_nodes: Seq<Seq<char>>,
    desired_nodes: Seq<Seq<char>>,
    installed: peer::Peers,
    desired: peer::Peers,
    b: BackendType,
    dev: u32,
    replies: Seq<netlink::ReplyView>,
)
    requires
        peer::keyed(installed),
        peer::keyed(desired),
        peer::lists(installed_nodes, installed),
        peer::lists(desired_nodes, desired),
    ensures
        round(installed_nodes, desired_nodes, installed, desired, b, dev, replies) matches
            Progress::Done(after, _) ==> after.complete ==> after.installed == desired,
{
    let actions = plan(installed_nodes, desired_nodes, installed, desired);
    let r = RoundView { installed, complete: true };
    let p = round(installed_nodes, desired_nodes, installed, desired, b, dev, replies);
    if p is Done && p->Done_0.complete {
        let oks = lemma_settles(b, dev, actions, r, replies, 0);
        lemma_complete_is_acted(r, actions, oks);
        peer::law_reconcile_reaches_desired(installed_nodes, desired_nodes, installed, desired);
    }
}

/// Whether peers are partly up to date: those of `done`, and those that were
/// not installed before, are as desired; the others are as they were.
spec fn partly_current(
    peers: peer::Peers,
    done: Seq<Seq<char>>,
    installed: peer::Peers,
    desired: peer::Peers,
) -> bool {
    forall|k: Seq<char>| #[trigger]
        peers.contains_key(k) ==> if done.contains(k) || !installed.contains_key(k) {
            desired.contains_key(k) && peers[k] == desired[k]
        } else {
            peers[k] == installed[k]
        }
}

proof fn lemma_settled_concat(
    r: RoundView,
    a: Seq<peer::ActionView>,
    x: Seq<peer::ActionView>,
    oks: Seq<bool>,
)
    requires
        oks.len() == a.len() + x.len(),
    ensures
        all_settled(r, a + x, oks) == all_settled(
            all_settled(r, a, oks.take(a.len() as int)),
            x,
            oks.skip(a.len() as int),
        ),
    decreases x.len(),
{
    let n = a.len() as int;
    if x.len() == 0 {
        assert(a + x =~= a);
        assert(oks.take(n) =~= oks);
    } else {
        lemma_settled_concat(r, a, x.drop_last(), oks.drop_last());
        assert((a + x).drop_last() =~= a + x.drop_last());
        assert((a + x).last() == x.last());
        assert(oks.drop_last().take(n) =~= oks.take(n));
        assert(oks.drop_last().skip(n) =~= oks.skip(n).drop_last());
        assert(oks.skip(n).last() == oks.last());
    }
}

proof fn lemma_changes_settle(
    nodes: Seq<Seq<char>>,
    installed: peer::Peers,
    desired: peer::Peers,
    complete: bool,
    oks: Seq<bool>,
)
    requires
        peer::keyed(installed),
        peer::keyed(desired),
        forall|i: int| 0 <= i < nodes.len() ==> installed.contains_key(#[trigger] nodes[i]),
        nodes.no_duplicates(),
        oks.len() == peer::changes(nodes, installed, desired).len(),
    ensures
        partly_current(
            all_settled(
                (RoundView { installed, complete }),
                peer::changes(nodes, installed, desired),
                oks,
            ).installed,
            nodes,
            installed,
            desired,
        ),
    decreases nodes.len(),
{
    let r = RoundView { installed, complete };
    if nodes.len() > 0 {
        let rest = nodes.drop_last();
        let k = nodes.last();
        assert(k == nodes[nodes.len() - 1]);
        assert(installed.contains_key(k));
        assert forall|i: int| 0 <= i < rest.len() implies installed.contains_key(
            #[trigger] rest[i],
        ) by {
            assert(rest[i] == nodes[i]);
        }
        assert(rest.no_duplicates()) by {
            assert forall|i: int, j: int|
                0 <= i < rest.len() && 0 <= j < rest.len() && i != j implies rest[i] != rest[j] by {
                assert(nodes[i] != nodes[j]);
            }
        }
        let first = peer::changes(rest, installed, desired);
        let change = peer::change_for(k, installed, desired);
        let n = first.len() as int;
        lemma_changes_settle(rest, installed, desired, complete, oks.take(n));
        lemma_settled_concat(r, first, change, oks);
        let before = all_settled(r, first, oks.take(n));
        let mine = oks.skip(n);
        let after = all_settled(before, change, mine);
        assert(!rest.contains(k)) by {
            if rest.contains(k) {
                let i = rest.index_of(k);
                assert(nodes[i] == nodes[nodes.len() - 1]);
            }
        }
        assert forall|x: Seq<char>| nodes.contains(x) <==> rest.contains(x) || x == k by {
            if nodes.contains(x) {
                let i = nodes.index_of(x);
                if i < rest.len() {
                    assert(rest[i] == x);
                }
            }
            if rest.contains(x) {
                assert(nodes[rest.index_of(x)] == x);
            }
        }
        reveal_with_fuel(all_settled, 3);
        if change.len() == 1 {
            assert(change.drop_last().len() == 0);
            assert(after.installed == before.installed.remove(k));
        } else if change.len() == 2 {
            assert(change.drop_last() =~= seq![peer::ActionView::Remove(installed[k])]);
            assert(change.drop_last().drop_last().len() == 0);
            assert(desired[k].node == k);
            assert(forall|x: Seq<char>| #[trigger]
                after.installed.contains_key(x) && x != k ==> before.installed.contains_key(x)
                    && after.installed[x] == before.installed[x]);
        }
        assert forall|x: Seq<char>| #[trigger] after.installed.contains_key(x) implies if nodes.contains(
            x,
        ) || !installed.contains_key(x) {
            desired.contains_key(x) && after.installed[x] == desired[x]
        } else {
            after.installed[x] == installed[x]
        } by {
            if x != k {
                assert(before.installed.contains_key(x));
                assert(nodes.contains(x) <==> rest.contains(x));
            } else {
                assert(nodes.contains(x));
                if change.len() == 0 {
                    assert(before.installed.contains_key(x));
                }
            }
        }
    }
}

proof fn lemma_additions_settle(
    nodes: Seq<Seq<char>>,
    r: RoundView,
    done: Seq<Seq<char>>,
    installed: peer::Peers,
    desired: peer::Peers,
    oks: Seq<bool>,
)
    requires
        peer::keyed(desired),
        forall|i: int| 0 <= i < nodes.len() ==> desired.contains_key(#[trigger] nodes[i]),
        partly_current(r.installed, done, installed, desired),
        oks.len() == peer::additions(nodes, installed, desired).len(),
    ensures
        partly_current(
            all_settled(r, peer::additions(nodes, installed, desired), oks).installed,
            done,
            installed,
            desired,
        ),
    decreases nodes.len(),
{
    if nodes.len() > 0 {
        let rest = nodes.drop_last();
        let k = nodes.last();
        assert(k == nodes[nodes.len() - 1]);
        assert(desired.contains_key(k));
        assert forall|i: int| 0 <= i < rest.len() implies desired.contains_key(
            #[trigger] rest[i],
        ) by {
            assert(rest[i] == nodes[i]);
        }
        if installed.contains_key(k) {
            lemma_additions_settle(rest, r, done, installed, desired, oks);
        } else {
            let acts = peer::additions(nodes, installed, desired);
            assert(acts.drop_last() =~= peer::additions(rest, installed, desired));
            lemma_additions_settle(rest, r, done, installed, desired, oks.drop_last());
            let before = all_settled(r, acts.drop_last(), oks.drop_last());
            let after = all_settled(r, acts, oks);
            assert(acts.last() == peer::ActionView::Add(desired[k]));
            assert(desired[k].node == k);
            assert forall|x: Seq<char>| #[trigger]
                after.installed.contains_key(x) implies if done.contains(x)
                || !installed.contains_key(x) {
                desired.contains_key(x) && after.installed[x] == desired[x]
            } else {
                after.installed[x] == installed[x]
            } by {
                if x != k {
                    assert(before.installed.contains_key(x));
                }
            }
        }
    }
}

/// Whatever succeeds or fails in a round, it leaves nothing counted as
/// installed that the nodes do not describe.
pub proof fn law_round_leaves_only_desired(
    installed_nodes: Seq<Seq<char>>,
    desired_nodes: Seq<Seq<char>>,
    installed: peer::Peers,
    desired: peer::Peers,
    b: BackendType,
    dev: u32,
    replies: Seq<netlink::ReplyView>,
)
    requires
        peer::keyed(installed),
        peer::keyed(desired),
        peer::lists(installed_nodes, installed),
        peer::lists(desired_nodes, desired),
    ensures
        round(installed_nodes, desired_nodes, installed, desired, b, dev, replies) matches
            Progress::Done(after, _) ==> after.installed.submap_of(desired) && peer::keyed(
            after.installed,
        ),
{
    let first = peer::changes(installed_nodes, installed, desired);
    let second = peer::additions(desired_nodes, installed, desired);
    let r = RoundView { installed, complete: true };
    let p = round(installed_nodes, desired_nodes, installed, desired, b, dev, replies);
    if p is Done {
        assert forall|i: int| 0 <= i < installed_nodes.len() implies installed.contains_key(
            #[trigger] installed_nodes[i],
        ) by {
            assert(installed_nodes.contains(installed_nodes[i]));
        }
        assert forall|i: int| 0 <= i < desired_nodes.len() implies desired.contains_key(
            #[trigger] desired_nodes[i],
        ) by {
            assert(desired_nodes.contains(desired_nodes[i]));
        }
        let oks = lemma_settles(b, dev, first + second, r, replies, 0);
        let n = first.len() as int;
        lemma_settled_concat(r, first, second, oks);
        lemma_changes_settle(installed_nodes, installed, desired, true, oks.take(n));
        let mid = all_settled(r, first, oks.take(n));
        lemma_additions_settle(desired_nodes, mid, installed_nodes, installed, desired, oks.skip(n));
        let after = p->Done_0;
        assert forall|k: Seq<char>| #[trigger] after.installed.contains_key(k) implies
            desired.contains_key(k) && after.installed[k] == desired[k] by {
            assert(installed.contains_key(k) <==> installed_nodes.contains(k));
        }
    }
}

/// A peer that the nodes describe and that does not count as installed is
/// added in the next round.
pub proof fn law_missing_peers_are_added(
    desired_nodes: Seq<Seq<char>>,
    installed: peer::Peers,
    desired: peer::Peers,
    node: Seq<char>,
)
    requires
        peer::lists(desired_nodes, desired),
        desired.contains_key(node),
        !installed.contains_key(node),
    ensures
        peer::additions(desired_nodes, installed, desired).contains(
            peer::ActionView::Add(desired[node]),
        ),
{
    assert(desired_nodes.contains(node));
    lemma_addition_of(desired_nodes, installed, desired, desired_nodes.index_of(node));
}

proof fn lemma_addition_of(
    nodes: Seq<Seq<char>>,
    installed: peer::Peers,
    desired: peer::Peers,
    i: int,
)
    requires
        0 <= i < nodes.len(),
        !installed.contains_key(nodes[i]),
    ensures
        peer::additions(nodes, installed, desired).contains(
            peer::ActionView::Add(desired[nodes[i]]),
        ),
    decreases nodes.len(),
{
    let acts = peer::additions(nodes, installed, desired);
    if i == nodes.len() - 1 {
        assert(acts[acts.len() - 1] == peer::ActionView::Add(desired[nodes[i]]));
    } else {
        lemma_addition_of(nodes.drop_last(), installed, desired, i);
        let rest = peer::additions(nodes.drop_last(), installed, desired);
        let j = rest.index_of(peer::ActionView::Add(desired[nodes[i]]));
        assert(acts[j] == rest[j]);
    }
}

// ---------------------------------------------------------------------------
// What comes of each node
// ---------------------------------------------------------------------------

/// What a round makes of a node. A peer that is no longer described does not
/// count as installed, whatever came of its removal. One that is installed as
/// described stays, and no action concerns it. Any other that is described is
/// added once, and counts as installed, as described, exactly where that
/// succeeded.
pub open spec fn comes_out(
    n: Seq<char>,
    installed: peer::Peers,
    desired: peer::Peers,
    after: peer::Peers,
    b: BackendType,
    dev: u32,
    actions: Seq<peer::ActionView>,
    replies: Seq<netlink::ReplyView>,
) -> bool {
    if !desired.contains_key(n) {
        !after.contains_key(n)
    } else if installed.contains_key(n) && installed[n] == desired[n] {
        &&& after.contains_key(n) && after[n] == desired[n]
        &&& forall|j: int|
            0 <= j < actions.len() ==> peer::concerned(#[trigger] actions[j]) != n
    } else {
        &&& after.contains_key(n) ==> after[n] == desired[n]
        &&& exists|i: int| #[trigger]
            peer::sole_addition(actions, desired[n], i) && after.contains_key(n) == succeeds(
                b,
                dev,
                actions,
                replies,
                0,
                i,
            )
    }
}

/// What actions leave for a node is decided by the last that concerns it, whose
/// position is given; it is negative where there is none.
proof fn lemma_last_decides(
    r: RoundView,
    actions: Seq<peer::ActionView>,
    oks: Seq<bool>,
    n: Seq<char>,
) -> (i: int)
    requires
        oks.len() == actions.len(),
    ensures
        i < actions.len(),
        forall|j: int|
            0 <= j < actions.len() && j > i ==> peer::concerned(#[trigger] actions[j]) != n,
        ({
            let after = all_settled(r, actions, oks).installed;
            if i < 0 {
                &&& after.contains_key(n) == r.installed.contains_key(n)
                &&& after.contains_key(n) ==> after[n] == r.installed[n]
            } else {
                &&& peer::concerned(actions[i]) == n
                &&& match actions[i] {
                    peer::ActionView::Add(p) => after.contains_key(n) == oks[i] && (oks[i]
                        ==> after[n] == p),
                    peer::ActionView::Remove(_) => !after.contains_key(n),
                }
            }
        }),
    decreases actions.len(),
{
    if actions.len() == 0 {
        -1
    } else {
        let rest = actions.drop_last();
        let last = actions.last();
        assert(last == actions[actions.len() - 1]);
        if peer::concerned(last) == n {
            assert(oks.last() == oks[oks.len() - 1]);
            actions.len() - 1
        } else {
            let i = lemma_last_decides(r, rest, oks.drop_last(), n);
            assert forall|j: int| 0 <= j < actions.len() && j > i implies peer::concerned(
                #[trigger] actions[j],
            ) != n by {
                if j < rest.len() {
                    assert(rest[j] == actions[j]);
                }
            }
            if i >= 0 {
                assert(rest[i] == actions[i]);
                assert(oks.drop_last()[i] == oks[i]);
            }
            i
        }
    }
}

/// What a round leaves is settled for every node: it stays, is gone, or counts
/// as installed exactly where its addition succeeded.
pub proof fn law_round_settles_each_node(
    nodes: Seq<kube_mgr::NodeView>,
    own: Seq<char>,
    installed_nodes: Seq<Seq<char>>,
    installed: peer::Peers,
    b: BackendType,
    dev: u32,
    replies: Seq<netlink::ReplyView>,
    n: Seq<char>,
)
    requires
        peer::keyed(installed),
        peer::lists(installed_nodes, installed),
    ensures
        ({
            let desired = kube_mgr::peers_of(nodes, own, b);
            let order = kube_mgr::peer_order(nodes, own, b);
            round(installed_nodes, order, installed, desired, b, dev, replies) matches
                Progress::Done(after, _) ==> comes_out(
                n,
                installed,
                desired,
                after.installed,
                b,
                dev,
                plan(installed_nodes, order, installed, desired),
                replies,
            )
        }),
{
    let desired = kube_mgr::peers_of(nodes, own, b);
    let order = kube_mgr::peer_order(nodes, own, b);
    let actions = plan(installed_nodes, order, installed, desired);
    let r = RoundView { installed, complete: true };
    kube_mgr::law_peers_are_others(nodes, own, b);
    kube_mgr::law_order_lists_the_peers(nodes, own, b);
    peer::law_reconcile_is_minimal(installed_nodes, order, installed, desired, n);
    if let Progress::Done(after, _) = round(
        installed_nodes,
        order,
        installed,
        desired,
        b,
        dev,
        replies,
    ) {
        let oks = lemma_settles(b, dev, actions, r, replies, 0);
        let i = lemma_last_decides(r, actions, oks, n);
        if !desired.contains_key(n) {
            if i < 0 && installed.contains_key(n) {
                let gone = peer::ActionView::Remove(installed[n]);
                let j = actions.index_of(gone);
                assert(actions[j] == gone);
            }
        } else if installed.contains_key(n) && installed[n] == desired[n] {
            assert forall|j: int| 0 <= j < actions.len() implies peer::concerned(
                #[trigger] actions[j],
            ) != n by {
                assert(peer::needed(actions[j], installed, desired));
            }
        } else {
            let at = choose|at: int| peer::sole_addition(actions, desired[n], at);
            assert(peer::sole_addition(actions, desired[n], at));
            assert(peer::concerned(actions[at]) == n);
            assert(i == at);
            assert(oks[at] == succeeds(b, dev, actions, replies, 0, at));
        }
    }
}

proof fn lemma_action_in_turn(
    b: BackendType,
    dev: u32,
    a: peer::ActionView,
    replies: Seq<netlink::ReplyView>,
    from: int,
)
    requires
        0 <= from <= replies.len() <= usize::MAX,
    ensures
        progress::in_turn(
            |r: Seq<netlink::ReplyView>| action_progress(b, dev, a, r, from),
            replies,
            from,
        ),
{
    let whole = |r: Seq<netlink::ReplyView>| action_progress(b, dev, a, r, from);
    match (a, b) {
        (peer::ActionView::Add(p), BackendType::Vxlan) => {
            let first = |r: Seq<netlink::ReplyView>| overlay::route_progress(dev, p, r, from);
            overlay::lemma_route_in_turn(dev, p, replies, from);
            assert(progress::in_turn(first, replies, from));
            if let Progress::Done(_, next) = first(replies) {
                let second = |r: Seq<netlink::ReplyView>|
                    overlay::l2_progress(dev, p, r, next as int);
                overlay::lemma_l2_in_turn(dev, p, replies, next as int);
                assert(progress::in_turn(second, replies, next as int));
                if let Progress::Done(_, last) = whole(replies) {
                    assert forall|j: int| last <= j <= replies.len() implies whole(
                        #[trigger] replies.take(j),
                    ) == whole(replies) by {
                        assert(first(replies.take(j)) == first(replies));
                        assert(second(replies.take(j)) == second(replies));
                    }
                    assert forall|j: int| from <= j < last implies whole(
                        #[trigger] replies.take(j),
                    ) is Ask by {
                        if j < next {
                            assert(first(replies.take(j)) is Ask);
                        } else {
                            assert(first(replies.take(j)) == first(replies));
                            assert(second(replies.take(j)) is Ask);
                        }
                    }
                }
            }
        },
        (peer::ActionView::Add(p), BackendType::HostGw) => {
            let work = |r: Seq<netlink::ReplyView>| overlay::host_gw_progress(dev, p, r, from);
            overlay::lemma_host_gw_in_turn(dev, p, replies, from);
            assert(progress::in_turn(work, replies, from));
            assert(forall|j: int|
                whole(#[trigger] replies.take(j)) == succeeded(work(replies.take(j))));
        },
        (peer::ActionView::Remove(p), BackendType::Vxlan) => {
            let work = |r: Seq<netlink::ReplyView>| overlay::del_progress(dev, p, r, from);
            overlay::lemma_del_in_turn(dev, p, replies, from);
            assert(progress::in_turn(work, replies, from));
            assert(forall|j: int|
                whole(#[trigger] replies.take(j)) == succeeded(work(replies.take(j))));
        },
        (peer::ActionView::Remove(p), BackendType::HostGw) => {
            let work = |r: Seq<netlink::ReplyView>|
                overlay::del_host_gw_progress(dev, p, r, from);
            overlay::lemma_del_host_gw_in_turn(dev, p, replies, from);
            assert(progress::in_turn(work, replies, from));
            assert(forall|j: int|
                whole(#[trigger] replies.take(j)) == succeeded(work(replies.take(j))));
        },
    }
}

/// Whether the request before the answer at `k` is one of an action whose
/// answers begin at `start`.
pub open spec fn asks_for(
    p: Progress<netlink::RequestView, RoundView>,
    b: BackendType,
    dev: u32,
    a: peer::ActionView,
    replies: Seq<netlink::ReplyView>,
    start: int,
    k: int,
) -> bool {
    p matches Progress::Ask(q) && action_progress(b, dev, a, replies.take(k), start) == Progress::<
        netlink::RequestView,
        bool,
    >::Ask(q)
}

proof fn lemma_asks_in_turn(
    b: BackendType,
    dev: u32,
    actions: Seq<peer::ActionView>,
    r: RoundView,
    replies: Seq<netlink::ReplyView>,
    from: int,
    i: int,
)
    requires
        0 <= from <= replies.len() <= usize::MAX,
        actions_progress(b, dev, actions, r, replies, from) is Done,
        0 <= i < actions.len(),
    ensures
        from <= reached(b, dev, actions, replies, from, i) <= reached(
            b,
            dev,
            actions,
            replies,
            from,
            i + 1,
        ) <= replies.len(),
        forall|k: int|
            reached(b, dev, actions, replies, from, i) <= k < reached(
                b,
                dev,
                actions,
                replies,
                from,
                i + 1,
            ) ==> asks_for(
                actions_progress(b, dev, actions, r, #[trigger] replies.take(k), from),
                b,
                dev,
                actions[i],
                replies,
                reached(b, dev, actions, replies, from, i),
                k,
            ),
        reached(b, dev, actions, replies, from, actions.len() as int) == actions_progress(
            b,
            dev,
            actions,
            r,
            replies,
            from,
        )->Done_1,
    decreases actions.len(),
{
    let work = |x: Seq<netlink::ReplyView>| action_progress(b, dev, actions[0], x, from);
    lemma_action_in_turn(b, dev, actions[0], replies, from);
    assert(progress::in_turn(work, replies, from));
    let (ok, next) = match work(replies) {
        Progress::Done(ok, next) => (ok, next as int),
        Progress::Ask(_) => (false, from),
    };
    let rest = actions.skip(1);
    let now = settled(r, actions[0], ok);
    if rest.len() > 0 {
        lemma_asks_in_turn(b, dev, rest, now, replies, next, if i > 0 { i - 1 } else { 0 });
    }
    assert(reached(b, dev, actions, replies, from, 1) == next) by {
        reveal_with_fuel(reached, 2);
    }
    if i == 0 {
        assert forall|k: int| from <= k < next implies asks_for(
            actions_progress(b, dev, actions, r, #[trigger] replies.take(k), from),
            b,
            dev,
            actions[0],
            replies,
            from,
            k,
        ) by {
            assert(work(replies.take(k)) is Ask);
        }
    } else {
        assert(rest[i - 1] == actions[i]);
        let start = reached(b, dev, actions, replies, from, i);
        let end = reached(b, dev, actions, replies, from, i + 1);
        assert forall|k: int| start <= k < end implies asks_for(
            actions_progress(b, dev, actions, r, #[trigger] replies.take(k), from),
            b,
            dev,
            actions[i],
            replies,
            start,
            k,
        ) by {
            assert(work(replies.take(k)) == work(replies));
        }
    }
}

/// The calls of one round belong together. The answers to its actions follow
/// each other, from the first to the last. At each answer of an action's turn
/// the round had asked for what that action needs, with the answers before.
pub proof fn law_round_asks_for_each_action_in_turn(
    installed_nodes: Seq<Seq<char>>,
    desired_nodes: Seq<Seq<char>>,
    installed: peer::Peers,
    desired: peer::Peers,
    b: BackendType,
    dev: u32,
    replies: Seq<netlink::ReplyView>,
    i: int,
)
    requires
        replies.len() <= usize::MAX,
        round(installed_nodes, desired_nodes, installed, desired, b, dev, replies) is Done,
        0 <= i < plan(installed_nodes, desired_nodes, installed, desired).len(),
    ensures
        ({
            let actions = plan(installed_nodes, desired_nodes, installed, desired);
            let start = reached(b, dev, actions, replies, 0, i);
            let end = reached(b, dev, actions, replies, 0, i + 1);
            &&& 0 <= start <= end <= replies.len()
            &&& forall|k: int|
                start <= k < end ==> asks_for(
                    round(
                        installed_nodes,
                        desired_nodes,
                        installed,
                        desired,
                        b,
                        dev,
                        #[trigger] replies.take(k),
                    ),
                    b,
                    dev,
                    actions[i],
                    replies,
                    start,
                    k,
                )
            &&& reached(b, dev, actions, replies, 0, 0) == 0
            &&& reached(b, dev, actions, replies, 0, actions.len() as int) == round(
                installed_nodes,
                desired_nodes,
                installed,
                desired,
                b,
                dev,
                replies,
            )->Done_1
        }),
{
    let actions = plan(installed_nodes, desired_nodes, installed, desired);
    lemma_asks_in_turn(
        b,
        dev,
        actions,
        (RoundView { installed, complete: true }),
        replies,
        0,
        i,
    );
}

} // verus!
