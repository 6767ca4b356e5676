//! The other nodes, and what has to change when they do.

use vstd::prelude::*;
use vstd::string::*;

use crate::text;
use crate::text_map::TextMap;

verus! {

/// One remote node.
#[derive(Debug, PartialEq, Eq)]
pub struct Peer {
    pub node: String,
    /// The addresses of the node's containers.
    pub pod_cidr: String,
    /// The address of the node itself.
    pub public_ip: String,
    /// The hardware address of the node's VXLAN link.
    pub vtep_mac: String,
}

/// The model of `Peer`.
pub struct PeerView {
    pub node: Seq<char>,
    pub pod_cidr: Seq<char>,
    pub public_ip: Seq<char>,
    pub vtep_mac: Seq<char>,
}

impl View for Peer {
    type V = PeerView;

    open spec fn view(&self) -> PeerView {
        PeerView {
            node: self.node@,
            pod_cidr: self.pod_cidr@,
            public_ip: self.public_ip@,
            vtep_mac: self.vtep_mac@,
        }
    }
}

impl Clone for Peer {
    fn clone(&self) -> (p: Peer)
        ensures
            p@ == self@,
    {
        Peer {
            node: self.node.clone(),
            pod_cidr: self.pod_cidr.clone(),
            public_ip: self.public_ip.clone(),
            vtep_mac: self.vtep_mac.clone(),
        }
    }
}

impl Peer {
    /// Whether two peers agree in everything.
    pub fn same(&self, other: &Peer) -> (r: bool)
        ensures
            r == (self@ == other@),
    {
        text::same(self.node.as_str(), other.node.as_str()) && text::same(
            self.pod_cidr.as_str(),
            other.pod_cidr.as_str(),
        ) && text::same(self.public_ip.as_str(), other.public_ip.as_str()) && text::same(
            self.vtep_mac.as_str(),
            other.vtep_mac.as_str(),
        )
    }
}

/// A change of what is installed for a peer.
#[derive(Debug, PartialEq)]
pub enum Action {
    Add(Peer),
    Remove(Peer),
}

/// The model of `Action`.
pub enum ActionView {
    Add(PeerView),
    Remove(PeerView),
}

impl View for Action {
    type V = ActionView;

    open spec fn view(&self) -> ActionView {
        match self {
            Action::Add(p) => ActionView::Add(p@),
            Action::Remove(p) => ActionView::Remove(p@),
        }
    }
}

/// The models of actions.
pub open spec fn action_views(v: Seq<Action>) -> Seq<ActionView> {
    v.map_values(|a: Action| a@)
}

/// Peers by the name of their node.
pub type Peers = Map<Seq<char>, PeerView>;

/// The models of peers.
pub open spec fn peer_views(m: Map<Seq<char>, Peer>) -> Peers {
    m.map_values(|p: Peer| p@)
}

/// What an installed peer needs: nothing where it stays, its removal where it
/// is gone, and its removal and addition where it changed.
pub open spec fn change_for(node: Seq<char>, installed: Peers, desired: Peers) -> Seq<ActionView> {
    if !desired.contains_key(node) {
        seq![ActionView::Remove(installed[node])]
    } else if desired[node] != installed[node] {
        seq![ActionView::Remove(installed[node]), ActionView::Add(desired[node])]
    } else {
        Seq::empty()
    }
}

/// What the installed peers need, in order.
pub open spec fn changes(nodes: Seq<Seq<char>>, installed: Peers, desired: Peers) -> Seq<ActionView>
    decreases nodes.len(),
{
    if nodes.len() == 0 {
        Seq::empty()
    } else {
        changes(nodes.drop_last(), installed, desired) + change_for(
            nodes.last(),
            installed,
            desired,
        )
    }
}

/// What the peers that are not installed need, in order.
pub open spec fn additions(nodes: Seq<Seq<char>>, installed: Peers, desired: Peers) -> Seq<
    ActionView,
>
    decreases nodes.len(),
{
    if nodes.len() == 0 {
        Seq::empty()
    } else if installed.contains_key(nodes.last()) {
        additions(nodes.drop_last(), installed, desired)
    } else {
        additions(nodes.drop_last(), installed, desired).push(
            ActionView::Add(desired[nodes.last()]),
        )
    }
}

/// The difference of what is installed and what is desired.
pub fn reconcile(installed: &TextMap<Peer>, desired: &TextMap<Peer>) -> (actions: Vec<Action>)
    ensures
        action_views(actions@) == changes(
            installed.keys(),
            peer_views(installed@),
            peer_views(desired@),
        ) + additions(desired.keys(), peer_views(installed@), peer_views(desired@)),
        lists(installed.keys(), peer_views(installed@)),
        lists(desired.keys(), peer_views(desired@)),
{
    let ghost old_peers = peer_views(installed@);
    let ghost new_peers = peer_views(desired@);
    let mut actions: Vec<Action> = Vec::new();
    let n: usize = installed.len();
    let mut i: usize = 0;
    assert(action_views(actions@) =~= Seq::<ActionView>::empty());
    assert(installed.keys().take(0) =~= Seq::<Seq<char>>::empty());
    while i < n
        invariant
            i <= n,
            n == installed.keys().len(),
            old_peers == peer_views(installed@),
            new_peers == peer_views(desired@),
            action_views(actions@) == changes(
                installed.keys().take(i as int),
                old_peers,
                new_peers,
            ),
        decreases n - i,
    {
        let ghost before = action_views(actions@);
        let node = installed.key(i);
        let old_peer = installed.value(i);
        proof {
            let now = installed.keys().take(i + 1);
            assert(now.drop_last() =~= installed.keys().take(i as int));
            assert(now.last() == node@);
            assert(old_peers[node@] == old_peer@);
        }
        match desired.get(node) {
            None => {
                actions.push(Action::Remove(old_peer.clone()));
                assert(action_views(actions@) =~= before + change_for(
                    node@,
                    old_peers,
                    new_peers,
                ));
            },
            Some(new_peer) => {
                assert(new_peers[node@] == new_peer@);
                if !new_peer.same(old_peer) {
                    actions.push(Action::Remove(old_peer.clone()));
                    actions.push(Action::Add(new_peer.clone()));
                }
                assert(action_views(actions@) =~= before + change_for(
                    node@,
                    old_peers,
                    new_peers,
                ));
            },
        }
        i = i + 1;
    }
    assert(installed.keys().take(n as int) =~= installed.keys());
    let ghost first = action_views(actions@);
    let m: usize = desired.len();
    let mut k: usize = 0;
    assert(desired.keys().take(0) =~= Seq::<Seq<char>>::empty());
    assert(first + additions(Seq::empty(), old_peers, new_peers) =~= first);
    while k < m
        invariant
            k <= m,
            m == desired.keys().len(),
            old_peers == peer_views(installed@),
            new_peers == peer_views(desired@),
            action_views(actions@) == first + additions(
                desired.keys().take(k as int),
                old_peers,
                new_peers,
            ),
        decreases m - k,
    {
        let ghost before = action_views(actions@);
        let ghost done = additions(desired.keys().take(k as int), old_peers, new_peers);
        let node = desired.key(k);
        let new_peer = desired.value(k);
        proof {
            let now = desired.keys().take(k + 1);
            assert(now.drop_last() =~= desired.keys().take(k as int));
            assert(now.last() == node@);
            assert(new_peers[node@] == new_peer@);
        }
        if !installed.contains_key(node) {
            actions.push(Action::Add(new_peer.clone()));
            assert(action_views(actions@) =~= before.push(ActionView::Add(new_peer@)));
            assert(first + done.push(ActionView::Add(new_peer@)) =~= (first + done).push(
                ActionView::Add(new_peer@),
            ));
        }
        k = k + 1;
    }
    assert(desired.keys().take(m as int) =~= desired.keys());
    actions
}

// ---------------------------------------------------------------------------
// Laws
// ---------------------------------------------------------------------------

/// Whether each peer stands under the name of its node.
pub open spec fn keyed(peers: Peers) -> bool {
    forall|k: Seq<char>| #[trigger] peers.contains_key(k) ==> peers[k].node == k
}

/// Whether a list holds each node of a set of peers once.
pub open spec fn lists(nodes: Seq<Seq<char>>, peers: Peers) -> bool {
    &&& nodes.no_duplicates()
    &&& forall|k: Seq<char>| #[trigger] peers.contains_key(k) <==> nodes.contains(k)
}

/// What is installed after an action.
pub open spec fn acted(peers: Peers, a: ActionView) -> Peers {
    match a {
        ActionView::Add(p) => peers.insert(p.node, p),
        ActionView::Remove(p) => peers.remove(p.node),
    }
}

/// What is installed after actions in order.
pub open spec fn all_acted(peers: Peers, actions: Seq<ActionView>) -> Peers
    decreases actions.len(),
{
    if actions.len() == 0 {
        peers
    } else {
        acted(all_acted(peers, actions.drop_last()), actions.last())
    }
}

proof fn lemma_acted_concat(peers: Peers, a: Seq<ActionView>, b: Seq<ActionView>)
    ensures
        all_acted(peers, a + b) == all_acted(all_acted(peers, a), b),
    decreases b.len(),
{
    if b.len() == 0 {
        assert(a + b =~= a);
    } else {
        lemma_acted_concat(peers, a, b.drop_last());
        assert((a + b).drop_last() =~= a + b.drop_last());
        assert((a + b).last() == b.last());
    }
}

/// What is installed after the first nodes of the list were brought up to
/// date.
spec fn partly(nodes: Seq<Seq<char>>, installed: Peers, desired: Peers) -> Peers {
    Map::new(
        |k: Seq<char>|
            installed.contains_key(k) && (nodes.contains(k) ==> desired.contains_key(k)),
        |k: Seq<char>|
            if nodes.contains(k) {
                desired[k]
            } else {
                installed[k]
            },
    )
}

proof fn lemma_changes(nodes: Seq<Seq<char>>, installed: Peers, desired: Peers)
    requires
        keyed(installed),
        keyed(desired),
        nodes.no_duplicates(),
        forall|i: int| 0 <= i < nodes.len() ==> installed.contains_key(#[trigger] nodes[i]),
    ensures
        all_acted(installed, changes(nodes, installed, desired)) == partly(
            nodes,
            installed,
            desired,
        ),
    decreases nodes.len(),
{
    if nodes.len() == 0 {
        assert(partly(nodes, installed, desired) =~= installed);
    } else {
        let rest = nodes.drop_last();
        let k = nodes.last();
        assert(k == nodes[nodes.len() - 1]);
        assert(installed.contains_key(k));
        assert forall|i: int| 0 <= i < rest.len() implies installed.contains_key(
            #[trigger] rest[i],
        ) by {
            assert(rest[i] == nodes[i]);
        }
        assert(rest.no_duplicates()) by {
            assert forall|i: int, j: int|
                0 <= i < rest.len() && 0 <= j < rest.len() && i != j implies rest[i] != rest[j] by {
                assert(nodes[i] != nodes[j]);
            }
        }
        lemma_changes(rest, installed, desired);
        let before = partly(rest, installed, desired);
        let change = change_for(k, installed, desired);
        lemma_acted_concat(installed, changes(rest, installed, desired), change);
        assert(!rest.contains(k)) by {
            if rest.contains(k) {
                let i = rest.index_of(k);
                assert(nodes[i] == nodes[nodes.len() - 1]);
            }
        }
        assert forall|x: Seq<char>| nodes.contains(x) <==> rest.contains(x) || x == k by {
            if nodes.contains(x) {
                let i = nodes.index_of(x);
                if i < rest.len() {
                    assert(rest[i] == x);
                }
            }
            if rest.contains(x) {
                assert(nodes[rest.index_of(x)] == x);
            }
        }
        reveal_with_fuel(all_acted, 3);
        let after = all_acted(before, change);
        assert(change.len() <= 2);
        if change.len() == 1 {
            assert(change.drop_last() =~= Seq::<ActionView>::empty());
            assert(after == before.remove(k));
        } else if change.len() == 2 {
            assert(change.drop_last() =~= seq![ActionView::Remove(installed[k])]);
            assert(change.drop_last().drop_last() =~= Seq::<ActionView>::empty());
            assert(after == before.remove(k).insert(k, desired[k]));
        }
        assert(after =~= partly(nodes, installed, desired));
    }
}

proof fn lemma_additions(
    nodes: Seq<Seq<char>>,
    base: Peers,
    installed: Peers,
    desired: Peers,
)
    requires
        keyed(desired),
        forall|i: int| 0 <= i < nodes.len() ==> desired.contains_key(#[trigger] nodes[i]),
    ensures
        ({
            let after = all_acted(base, additions(nodes, installed, desired));
            &&& forall|k: Seq<char>| #[trigger]
                after.contains_key(k) <==> base.contains_key(k) || (nodes.contains(k)
                    && !installed.contains_key(k))
            &&& forall|k: Seq<char>| #[trigger]
                after.contains_key(k) ==> after[k] == (if nodes.contains(k)
                    && !installed.contains_key(k) {
                    desired[k]
                } else {
                    base[k]
                })
        }),
    decreases nodes.len(),
{
    if nodes.len() > 0 {
        let rest = nodes.drop_last();
        let k = nodes.last();
        assert(k == nodes[nodes.len() - 1]);
        assert(desired.contains_key(k));
        assert forall|i: int| 0 <= i < rest.len() implies desired.contains_key(
            #[trigger] rest[i],
        ) by {
            assert(rest[i] == nodes[i]);
        }
        lemma_additions(rest, base, installed, desired);
        assert forall|x: Seq<char>| nodes.contains(x) <==> rest.contains(x) || x == k by {
            if nodes.contains(x) {
                let i = nodes.index_of(x);
                if i < rest.len() {
                    assert(rest[i] == x);
                }
            }
            if rest.contains(x) {
                assert(nodes[rest.index_of(x)] == x);
            }
        }
        let was = all_acted(base, additions(rest, installed, desired));
        let after = all_acted(base, additions(nodes, installed, desired));
        if !installed.contains_key(k) {
            let acts = additions(nodes, installed, desired);
            assert(acts.drop_last() =~= additions(rest, installed, desired));
            assert(acts.last() == ActionView::Add(desired[k]));
            assert(desired[k].node == k);
            assert(after == was.insert(k, desired[k]));
        } else {
            assert(after == was);
        }
        assert forall|x: Seq<char>| #[trigger] after.contains_key(x) <==> base.contains_key(x) || (
        nodes.contains(x) && !installed.contains_key(x)) by {
            assert(was.contains_key(x) <==> base.contains_key(x) || (rest.contains(x)
                && !installed.contains_key(x)));
            assert(nodes.contains(x) <==> rest.contains(x) || x == k);
        }
        assert forall|x: Seq<char>| #[trigger] after.contains_key(x) implies after[x] == (
        if nodes.contains(x) && !installed.contains_key(x) {
            desired[x]
        } else {
            base[x]
        }) by {
            assert(nodes.contains(x) <==> rest.contains(x) || x == k);
            if x != k || installed.contains_key(k) {
                assert(was.contains_key(x));
            }
        }
    }
}

/// Carrying out the difference leads from what is installed to what is
/// desired.
pub proof fn law_reconcile_reaches_desired(
    installed_nodes: Seq<Seq<char>>,
    desired_nodes: Seq<Seq<char>>,
    installed: Peers,
    desired: Peers,
)
    requires
        keyed(installed),
        keyed(desired),
        lists(installed_nodes, installed),
        lists(desired_nodes, desired),
    ensures
        all_acted(
            installed,
            changes(installed_nodes, installed, desired) + additions(
                desired_nodes,
                installed,
                desired,
            ),
        ) == desired,
{
    assert forall|i: int| 0 <= i < installed_nodes.len() implies installed.contains_key(
        #[trigger] installed_nodes[i],
    ) by {
        assert(installed_nodes.contains(installed_nodes[i]));
    }
    assert forall|i: int| 0 <= i < desired_nodes.len() implies desired.contains_key(
        #[trigger] desired_nodes[i],
    ) by {
        assert(desired_nodes.contains(desired_nodes[i]));
    }
    let first = changes(installed_nodes, installed, desired);
    let second = additions(desired_nodes, installed, desired);
    lemma_changes(installed_nodes, installed, desired);
    let base = partly(installed_nodes, installed, desired);
    lemma_additions(desired_nodes, base, installed, desired);
    lemma_acted_concat(installed, first, second);
    let after = all_acted(base, second);
    assert forall|k: Seq<char>| #[trigger] after.contains_key(k) <==> desired.contains_key(k) by {
        assert(installed.contains_key(k) <==> installed_nodes.contains(k));
        assert(desired.contains_key(k) <==> desired_nodes.contains(k));
        assert(base.contains_key(k) <==> installed.contains_key(k) && desired.contains_key(k));
    }
    assert forall|k: Seq<char>| #[trigger] after.contains_key(k) implies after[k] == desired[k] by {
        assert(installed.contains_key(k) <==> installed_nodes.contains(k));
        assert(desired.contains_key(k) <==> desired_nodes.contains(k));
    }
    assert(after =~= desired);
}

/// There is nothing to do for what is as desired.
pub proof fn law_reconcile_of_same_is_empty(
    installed_nodes: Seq<Seq<char>>,
    desired_nodes: Seq<Seq<char>>,
    peers: Peers,
)
    requires
        lists(installed_nodes, peers),
        lists(desired_nodes, peers),
    ensures
        changes(installed_nodes, peers, peers) + additions(desired_nodes, peers, peers) == Seq::<
            ActionView,
        >::empty(),
{
    assert forall|i: int| 0 <= i < installed_nodes.len() implies peers.contains_key(
        #[trigger] installed_nodes[i],
    ) by {
        assert(installed_nodes.contains(installed_nodes[i]));
    }
    assert forall|i: int| 0 <= i < desired_nodes.len() implies peers.contains_key(
        #[trigger] desired_nodes[i],
    ) by {
        assert(desired_nodes.contains(desired_nodes[i]));
    }
    lemma_no_changes(installed_nodes, peers);
    lemma_no_additions(desired_nodes, peers);
}

proof fn lemma_no_changes(nodes: Seq<Seq<char>>, peers: Peers)
    requires
        forall|i: int| 0 <= i < nodes.len() ==> peers.contains_key(#[trigger] nodes[i]),
    ensures
        changes(nodes, peers, peers) == Seq::<ActionView>::empty(),
    decreases nodes.len(),
{
    if nodes.len() > 0 {
        assert(nodes.last() == nodes[nodes.len() - 1]);
        assert forall|i: int| 0 <= i < nodes.drop_last().len() implies peers.contains_key(
            #[trigger] nodes.drop_last()[i],
        ) by {
            assert(nodes.drop_last()[i] == nodes[i]);
        }
        lemma_no_changes(nodes.drop_last(), peers);
        assert(changes(nodes, peers, peers) =~= Seq::<ActionView>::empty());
    }
}

proof fn lemma_no_additions(nodes: Seq<Seq<char>>, peers: Peers)
    requires
        forall|i: int| 0 <= i < nodes.len() ==> peers.contains_key(#[trigger] nodes[i]),
    ensures
        additions(nodes, peers, peers) == Seq::<ActionView>::empty(),
    decreases nodes.len(),
{
    if nodes.len() > 0 {
        assert(nodes.last() == nodes[nodes.len() - 1]);
        assert forall|i: int| 0 <= i < nodes.drop_last().len() implies peers.contains_key(
            #[trigger] nodes.drop_last()[i],
        ) by {
            assert(nodes.drop_last()[i] == nodes[i]);
        }
        lemma_no_additions(nodes.drop_last(), peers);
    }
}

/// The name of the node that an action concerns.
pub open spec fn concerned(a: ActionView) -> Seq<char> {
    match a {
        ActionView::Add(p) => p.node,
        ActionView::Remove(p) => p.node,
    }
}

/// Whether a peer is added at that position and at no other: what else concerns
/// its node are removals, which come before.
pub open spec fn sole_addition(actions: Seq<ActionView>, p: PeerView, i: int) -> bool {
    &&& 0 <= i < actions.len()
    &&& actions[i] == ActionView::Add(p)
    &&& forall|j: int|
        0 <= j < actions.len() && j != i && concerned(#[trigger] actions[j]) == p.node ==> j < i
            && actions[j] is Remove
}

/// Whether an action is what a node needs that is not up to date: the removal
/// of what is installed for it, or the addition of what is desired.
pub open spec fn needed(a: ActionView, installed: Peers, desired: Peers) -> bool {
    let n = concerned(a);
    &&& match a {
        ActionView::Add(p) => desired.contains_key(n) && p == desired[n],
        ActionView::Remove(p) => installed.contains_key(n) && p == installed[n],
    }
    &&& !(installed.contains_key(n) && desired.contains_key(n) && installed[n] == desired[n])
}

proof fn lemma_changes_of(
    nodes: Seq<Seq<char>>,
    installed: Peers,
    desired: Peers,
    n: Seq<char>,
)
    requires
        keyed(installed),
        keyed(desired),
        nodes.no_duplicates(),
        forall|i: int| 0 <= i < nodes.len() ==> installed.contains_key(#[trigger] nodes[i]),
    ensures
        forall|j: int|
            0 <= j < changes(nodes, installed, desired).len() ==> needed(
                #[trigger] changes(nodes, installed, desired)[j],
                installed,
                desired,
            ) && nodes.contains(concerned(changes(nodes, installed, desired)[j])),
        nodes.contains(n) && desired.contains_key(n) && desired[n] != installed[n] ==> exists|i: int|
            sole_addition(changes(nodes, installed, desired), desired[n], i),
        nodes.contains(n) && !desired.contains_key(n) ==> changes(
            nodes,
            installed,
            desired,
        ).contains(ActionView::Remove(installed[n])),
    decreases nodes.len(),
{
    if nodes.len() > 0 {
        let rest = nodes.drop_last();
        let k = nodes.last();
        assert(k == nodes[nodes.len() - 1]);
        assert forall|i: int| 0 <= i < rest.len() implies installed.contains_key(
            #[trigger] rest[i],
        ) by {
            assert(rest[i] == nodes[i]);
        }
        assert(rest.no_duplicates()) by {
            assert forall|i: int, j: int|
                0 <= i < rest.len() && 0 <= j < rest.len() && i != j implies rest[i] != rest[j] by {
                assert(nodes[i] != nodes[j]);
            }
        }
        lemma_changes_of(rest, installed, desired, n);
        let first = changes(rest, installed, desired);
        let mine = change_for(k, installed, desired);
        let all = changes(nodes, installed, desired);
        let m = first.len() as int;
        assert(!rest.contains(k)) by {
            if rest.contains(k) {
                assert(nodes[rest.index_of(k)] == nodes[nodes.len() - 1]);
            }
        }
        assert forall|j: int| 0 <= j < all.len() implies needed(
            #[trigger] all[j],
            installed,
            desired,
        ) && nodes.contains(concerned(all[j])) by {
            if j < m {
                assert(all[j] == first[j]);
                let at = rest.index_of(concerned(first[j]));
                assert(nodes[at] == rest[at]);
            } else {
                assert(all[j] == mine[j - m]);
            }
        }
        if nodes.contains(n) {
            let at = nodes.index_of(n);
            if n != k {
                assert(rest[at] == n);
            }
            if desired.contains_key(n) && desired[n] != installed[n] {
                let i = if n == k {
                    m + 1
                } else {
                    choose|i: int| sole_addition(first, desired[n], i)
                };
                if n != k {
                    assert(sole_addition(first, desired[n], i));
                }
                assert forall|j: int|
                    0 <= j < all.len() && j != i && concerned(#[trigger] all[j])
                        == desired[n].node implies j < i && all[j] is Remove by {
                    if j < m {
                        assert(all[j] == first[j]);
                        assert(rest.contains(concerned(first[j])));
                    } else {
                        assert(all[j] == mine[j - m]);
                    }
                }
                assert(sole_addition(all, desired[n], i));
            }
            if !desired.contains_key(n) {
                let gone = ActionView::Remove(installed[n]);
                if n == k {
                    assert(all[m] == mine[0]);
                } else {
                    assert(all[first.index_of(gone)] == gone);
                }
            }
        }
    }
}

proof fn lemma_additions_of(
    nodes: Seq<Seq<char>>,
    installed: Peers,
    desired: Peers,
    n: Seq<char>,
)
    requires
        keyed(desired),
        nodes.no_duplicates(),
        forall|i: int| 0 <= i < nodes.len() ==> desired.contains_key(#[trigger] nodes[i]),
    ensures
        forall|j: int|
            0 <= j < additions(nodes, installed, desired).len() ==> {
                let a = #[trigger] additions(nodes, installed, desired)[j];
                &&& needed(a, installed, desired)
                &&& nodes.contains(concerned(a))
                &&& !installed.contains_key(concerned(a))
            },
        nodes.contains(n) && !installed.contains_key(n) ==> exists|i: int|
            sole_addition(additions(nodes, installed, desired), desired[n], i),
    decreases nodes.len(),
{
    if nodes.len() > 0 {
        let rest = nodes.drop_last();
        let k = nodes.last();
        assert(k == nodes[nodes.len() - 1]);
        assert forall|i: int| 0 <= i < rest.len() implies desired.contains_key(
            #[trigger] rest[i],
        ) by {
            assert(rest[i] == nodes[i]);
        }
        assert(rest.no_duplicates()) by {
            assert forall|i: int, j: int|
                0 <= i < rest.len() && 0 <= j < rest.len() && i != j implies rest[i] != rest[j] by {
                assert(nodes[i] != nodes[j]);
            }
        }
        lemma_additions_of(rest, installed, desired, n);
        let first = additions(rest, installed, desired);
        let all = additions(nodes, installed, desired);
        let m = first.len() as int;
        assert(!rest.contains(k)) by {
            if rest.contains(k) {
                assert(nodes[rest.index_of(k)] == nodes[nodes.len() - 1]);
            }
        }
        assert forall|j: int| 0 <= j < all.len() implies needed(
            #[trigger] all[j],
            installed,
            desired,
        ) && nodes.contains(concerned(all[j])) && !installed.contains_key(concerned(all[j])) by {
            if j < m {
                assert(all[j] == first[j]);
                let at = rest.index_of(concerned(first[j]));
                assert(nodes[at] == rest[at]);
            }
        }
        if nodes.contains(n) && !installed.contains_key(n) {
            let at = nodes.index_of(n);
            if n != k {
                assert(rest[at] == n);
            }
            let i = if n == k {
                m
            } else {
                choose|i: int| sole_addition(first, desired[n], i)
            };
            if n != k {
                assert(sole_addition(first, desired[n], i));
            }
            assert forall|j: int|
                0 <= j < all.len() && j != i && concerned(#[trigger] all[j])
                    == desired[n].node implies j < i && all[j] is Remove by {
                if j < m {
                    assert(all[j] == first[j]);
                    assert(rest.contains(concerned(first[j])));
                }
            }
            assert(sole_addition(all, desired[n], i));
        }
    }
}

/// The difference holds what is needed and nothing else: each action is needed;
/// each peer that is desired and not installed as desired is added once; each
/// that is installed and not desired is removed.
pub proof fn law_reconcile_is_minimal(
    installed_nodes: Seq<Seq<char>>,
    desired_nodes: Seq<Seq<char>>,
    installed: Peers,
    desired: Peers,
    n: Seq<char>,
)
    requires
        keyed(installed),
        keyed(desired),
        lists(installed_nodes, installed),
        lists(desired_nodes, desired),
    ensures
        ({
            let actions = changes(installed_nodes, installed, desired) + additions(
                desired_nodes,
                installed,
                desired,
            );
            &&& forall|j: int|
                0 <= j < actions.len() ==> needed(#[trigger] actions[j], installed, desired)
            &&& desired.contains_key(n) && !(installed.contains_key(n) && installed[n]
                == desired[n]) ==> exists|i: int| sole_addition(actions, desired[n], i)
            &&& installed.contains_key(n) && !desired.contains_key(n) ==> actions.contains(
                ActionView::Remove(installed[n]),
            )
        }),
{
    assert forall|i: int| 0 <= i < installed_nodes.len() implies installed.contains_key(
        #[trigger] installed_nodes[i],
    ) by {
        assert(installed_nodes.contains(installed_nodes[i]));
    }
    assert forall|i: int| 0 <= i < desired_nodes.len() implies desired.contains_key(
        #[trigger] desired_nodes[i],
    ) by {
        assert(desired_nodes.contains(desired_nodes[i]));
    }
    lemma_changes_of(installed_nodes, installed, desired, n);
    lemma_additions_of(desired_nodes, installed, desired, n);
    let first = changes(installed_nodes, installed, desired);
    let second = additions(desired_nodes, installed, desired);
    let actions = first + second;
    let m = first.len() as int;
    assert(installed.contains_key(n) <==> installed_nodes.contains(n));
    assert(desired.contains_key(n) <==> desired_nodes.contains(n));
    assert forall|j: int| 0 <= j < actions.len() implies needed(
        #[trigger] actions[j],
        installed,
        desired,
    ) && installed.contains_key(concerned(actions[j])) == (j < m) by {
        if j < m {
            assert(actions[j] == first[j]);
        } else {
            assert(actions[j] == second[j - m]);
        }
    }
    if desired.contains_key(n) && !(installed.contains_key(n) && installed[n] == desired[n]) {
        let i = if installed.contains_key(n) {
            choose|i: int| sole_addition(first, desired[n], i)
        } else {
            m + choose|i: int| sole_addition(second, desired[n], i)
        };
        if installed.contains_key(n) {
            assert(sole_addition(first, desired[n], i));
        } else {
            assert(sole_addition(second, desired[n], i - m));
        }
        assert forall|j: int|
            0 <= j < actions.len() && j != i && concerned(#[trigger] actions[j])
                == desired[n].node implies j < i && actions[j] is Remove by {
            assert(installed.contains_key(concerned(actions[j])) == (j < m));
            if j < m {
                assert(actions[j] == first[j]);
            } else {
                assert(actions[j] == second[j - m]);
            }
        }
        assert(sole_addition(actions, desired[n], i));
    }
    if installed.contains_key(n) && !desired.contains_key(n) {
        let gone = ActionView::Remove(installed[n]);
        assert(actions[first.index_of(gone)] == gone);
    }
}

} // verus!
