//! What deleting a container from the bridge is for, and what every command
//! leaves behind: the host's namespace.

use vstd::prelude::*;

use crate::cni::delegate;
use crate::cni::error;
use crate::cni_bridge::command;
use crate::cni_bridge::config;
use crate::cni_bridge::contns;
use crate::cni_bridge::hostns;
use crate::cni_bridge::plan;
use crate::cni_bridge::wiring;
use crate::cni_bridge::wiring::Run;
use crate::netlink;
use crate::progress::Progress;

verus! {

/// What comes of a deletion.
pub open spec fn outcome(r: Run) -> command::Step {
    command::del_progress(r.args, r.conf, r.stdin, r.replies, r.answers)
}

/// Whether the answer at `k` is that to the request `q` of a deletion.
pub open spec fn asks(r: Run, k: int, q: netlink::RequestView) -> bool {
    0 <= k < r.replies.len() && command::del_progress(
        r.args,
        r.conf,
        r.stdin,
        r.replies.take(k),
        r.answers,
    ) == Progress::<command::QuestionView, Result<Seq<char>, error::ErrorView>>::Ask(
        command::QuestionView::Net(q),
    )
}

/// Whether a deletion was in the container's namespace after the answer at `k`.
pub open spec fn entered(r: Run, k: int) -> bool {
    &&& asks(r, k, netlink::RequestView::EnterNs)
    &&& asks(r, k - 1, netlink::RequestView::OpenNetns(r.args.netns))
    &&& !wiring::went_wrong(r.replies[k]) && !wiring::went_wrong(r.replies[k - 1])
}

/// Whether a deletion found the container's link, in the container's namespace
/// and under the name of the invocation.
pub open spec fn finds(r: Run, k: int, idx: u32) -> bool {
    &&& asks(r, k, netlink::RequestView::FindLink(r.args.ifname))
    &&& r.replies[k] == netlink::ReplyView::Link(Some(idx))
    &&& exists|j: int| j < k && #[trigger] entered(r, j)
}

proof fn lemma_at(r: Run, k: int)
    requires
        0 <= k <= r.replies.len(),
    ensures
        r.replies.take(k).len() == k,
        forall|i: int| 0 <= i < k ==> #[trigger] r.replies.take(k)[i] == r.replies[i],
{
}

/// A deletion deletes the container's link and no other: whatever it asks to
/// delete was found under the name of the invocation in the container's
/// namespace, and where the link is found there, its deletion is the next thing
/// that is asked.
pub proof fn law_only_the_own_link_is_deleted(r: Run, k: int, idx: u32)
    requires
        r.replies.len() <= usize::MAX,
    ensures
        asks(r, k, netlink::RequestView::DeleteLink(idx)) ==> finds(r, k - 1, idx),
        finds(r, k, idx) && k + 1 < r.replies.len() ==> asks(
            r,
            k + 1,
            netlink::RequestView::DeleteLink(idx),
        ),
{
    if 0 <= k < r.replies.len() {
        lemma_at(r, k);
        if k >= 1 {
            lemma_at(r, k - 1);
        }
        if k + 1 < r.replies.len() {
            lemma_at(r, k + 1);
        }
        if r.replies.len() > 2 {
            lemma_at(r, 1);
            lemma_at(r, 2);
            if asks(r, k, netlink::RequestView::DeleteLink(idx)) {
                assert(entered(r, 2));
            }
        }
    }
}

/// A deletion that has come to its end has had the addresses given back: the
/// address plugin of the configuration was run, with the variables and the input
/// of the invocation. Where nothing went wrong on the way, it has then looked for
/// the container's link in the container's namespace and gone back to the host's.
/// Without a namespace it asks for nothing else.
pub proof fn law_deletion_looks_for_the_link(r: Run)
    requires
        r.replies.len() <= usize::MAX,
        outcome(r) matches Progress::Done(_, n) && n == r.replies.len(),
    ensures
        delegate::delegation(r.conf.ipam, r.args, r.stdin, r.answers, 0) is Done,
        r.args.netns.len() == 0 ==> r.replies.len() == 0,
        r.args.netns.len() > 0 && (forall|i: int|
            0 <= i < r.replies.len() ==> !wiring::went_wrong(#[trigger] r.replies[i])) ==> {
            &&& exists|k: int| #[trigger]
                asks(r, k, netlink::RequestView::FindLink(r.args.ifname)) && exists|j: int|
                    j < k && #[trigger] entered(r, j)
            &&& asks(r, r.replies.len() - 1, netlink::RequestView::LeaveNs)
        },
{
    if r.args.netns.len() > 0 && (forall|i: int|
        0 <= i < r.replies.len() ==> !wiring::went_wrong(#[trigger] r.replies[i])) {
        let n = r.replies.len() as int;
        if n > 0 {
            assert(!wiring::went_wrong(r.replies[0]));
        }
        if n > 1 {
            assert(!wiring::went_wrong(r.replies[1]));
        }
        if n > 2 {
            assert(!wiring::went_wrong(r.replies[2]));
        }
        if n > 3 {
            assert(!wiring::went_wrong(r.replies[3]));
        }
        if n > 4 {
            assert(!wiring::went_wrong(r.replies[4]));
        }
        assert(n > 6);
        lemma_at(r, 1);
        lemma_at(r, 2);
        lemma_at(r, 5);
        lemma_at(r, n - 1);
        assert(entered(r, 2));
        assert(asks(r, 5, netlink::RequestView::FindLink(r.args.ifname)));
    }
}

/// Whoever works in a container's namespace goes back: the work that configures
/// a link, once it could begin there, ends with the request to leave, whatever
/// came of it.
pub proof fn law_configuring_ends_on_the_host(
    netns: Seq<char>,
    temp: Seq<char>,
    ifname: Seq<char>,
    p: plan::PlanView,
    default: bool,
    replies: Seq<netlink::ReplyView>,
    from: int,
)
    requires
        0 <= from,
        replies.len() <= usize::MAX,
        contns::container_progress(netns, temp, ifname, p, default, replies, from) matches
            Progress::Done(_, n) && from + 4 < n <= replies.len(),
    ensures
        ({
            let n = contns::container_progress(
                netns,
                temp,
                ifname,
                p,
                default,
                replies,
                from,
            )->Done_1;
            contns::container_progress(
                netns,
                temp,
                ifname,
                p,
                default,
                replies.take(n - 1),
                from,
            ) == Progress::<netlink::RequestView, Result<(), Seq<char>>>::Ask(
                netlink::RequestView::LeaveNs,
            )
        }),
{
    let n = contns::container_progress(netns, temp, ifname, p, default, replies, from)->Done_1;
    let cut = replies.take(n - 1);
    assert(cut.len() == n - 1);
    assert(forall|i: int| 0 <= i < n - 1 ==> #[trigger] cut[i] == replies[i]);
}

/// Whether an answer says that there is no link of the name that was looked for:
/// it gives none, or the kernel refused with the code for a missing device.
pub open spec fn says_absent(a: netlink::ReplyView) -> bool {
    a == netlink::ReplyView::Link(None) || (a matches netlink::ReplyView::Refused(code, _) && code
        == -19)
}

/// What is asked to make sure of a bridge is about the bridge of that name: it is
/// looked for, created where there is none, and given the size of packets that
/// was asked for, where one was. Where the kernel says that it is absent, its
/// creation is asked for.
pub proof fn law_bridge_is_the_named_one(
    name: Seq<char>,
    mtu: Option<u32>,
    replies: Seq<netlink::ReplyView>,
)
    ensures
        hostns::bridge_progress(name, mtu, replies, 0) matches Progress::Ask(q) ==> match q {
            netlink::RequestView::FindLink(n) => n == name,
            netlink::RequestView::AddBridge(n) => n == name && !(replies[0] matches
                netlink::ReplyView::Link(Some(_))),
            netlink::RequestView::SetMtu(_, m) => mtu == Some(m),
            netlink::RequestView::SetUp(_) => true,
            _ => false,
        },
        replies.len() == 1 && says_absent(replies[0]) ==> hostns::bridge_progress(
            name,
            mtu,
            replies,
            0,
        ) == Progress::<netlink::RequestView, Result<u32, Seq<char>>>::Ask(
            netlink::RequestView::AddBridge(name),
        ),
{
}

/// Each command of an invocation is carried out: adding and deleting as the
/// configuration says, which has to be readable; checking without doing anything.
pub proof fn law_commands_are_carried_out(
    args: crate::cni::env::ArgsView,
    stdin: Seq<char>,
    replies: Seq<netlink::ReplyView>,
    answers: Seq<delegate::AnswerView>,
)
    ensures
        ({
            let run = command::run_progress(args, stdin, replies, answers);
            &&& args.command == "ADD"@ ==> match config::conf(stdin) {
                Ok(c) => run == command::add_progress(args, c, stdin, replies, answers),
                Err(_) => run matches Progress::Done(Err(e), 0) && e.code == 6,
            }
            &&& args.command == "DEL"@ ==> match config::conf(stdin) {
                Ok(c) => run == command::del_progress(args, c, stdin, replies, answers),
                Err(_) => run matches Progress::Done(Err(e), 0) && e.code == 6,
            }
            &&& args.command == "CHECK"@ ==> (run matches Progress::Done(Ok(s), 0) && s.len() == 0)
            &&& args.command == "VERSION"@ ==> (run matches Progress::Done(Ok(_), 0))
            &&& args.command != "ADD"@ && args.command != "DEL"@ && args.command != "CHECK"@
                && args.command != "VERSION"@ ==> (run matches Progress::Done(Err(e), 0) && e.code
                == 4)
        }),
{
    crate::cni::plugin::lemma_commands_differ();
}

/// Whether an answer is a reason for work to fail: something went wrong, or the
/// link that was looked for is not there. What goes wrong with the size of packets
/// and with routes is no reason, nor is what goes wrong with leaving a namespace.
pub open spec fn is_reason(q: netlink::RequestView, a: netlink::ReplyView) -> bool {
    &&& !(q is SetMtu) && !(q is AddRoute) && !(q is LeaveNs)
    &&& wiring::went_wrong(a) || q is FindLink && !(a matches netlink::ReplyView::Link(Some(_)))
}

/// The request that was open before the answer at `k`, where one was.
pub open spec fn before<T>(
    work: spec_fn(Seq<netlink::ReplyView>) -> Progress<netlink::RequestView, T>,
    replies: Seq<netlink::ReplyView>,
    k: int,
) -> Option<netlink::RequestView> {
    match work(replies.take(k)) {
        Progress::Ask(q) => Some(q),
        Progress::Done(_, _) => None,
    }
}

/// Making sure of a bridge fails for a reason only.
pub proof fn law_bridge_fails_for_a_reason(
    name: Seq<char>,
    mtu: Option<u32>,
    replies: Seq<netlink::ReplyView>,
)
    requires
        replies.len() <= usize::MAX,
        hostns::bridge_progress(name, mtu, replies, 0) matches Progress::Done(Err(_), n) && n
            <= replies.len(),
    ensures
        ({
            let n = hostns::bridge_progress(name, mtu, replies, 0)->Done_1 as int;
            let q = before(
                |r: Seq<netlink::ReplyView>| hostns::bridge_progress(name, mtu, r, 0),
                replies,
                n - 1,
            );
            n > 0 && q is Some && is_reason(q->0, replies[n - 1])
        }),
{
    let n = hostns::bridge_progress(name, mtu, replies, 0)->Done_1 as int;
    let cut = replies.take(n - 1);
    assert(cut.len() == n - 1);
    assert(forall|i: int| 0 <= i < n - 1 ==> #[trigger] cut[i] == replies[i]);
}

/// Creating the pair of links fails for a reason only.
pub proof fn law_pair_fails_for_a_reason(
    host: Seq<char>,
    peer: Seq<char>,
    mtu: Option<u32>,
    replies: Seq<netlink::ReplyView>,
)
    requires
        replies.len() <= usize::MAX,
        hostns::veth_progress(host, peer, mtu, replies, 0) matches Progress::Done(Err(_), n) && n
            <= replies.len(),
    ensures
        ({
            let n = hostns::veth_progress(host, peer, mtu, replies, 0)->Done_1 as int;
            let q = before(
                |r: Seq<netlink::ReplyView>| hostns::veth_progress(host, peer, mtu, r, 0),
                replies,
                n - 1,
            );
            n > 0 && q is Some && is_reason(q->0, replies[n - 1])
        }),
{
    let n = hostns::veth_progress(host, peer, mtu, replies, 0)->Done_1 as int;
    let cut = replies.take(n - 1);
    assert(cut.len() == n - 1);
    assert(forall|i: int| 0 <= i < n - 1 ==> #[trigger] cut[i] == replies[i]);
}

/// Configuring the container's link fails for a reason only: a route that could
/// not be added is none.
pub proof fn law_configuring_fails_for_a_reason(
    temp: Seq<char>,
    ifname: Seq<char>,
    p: plan::PlanView,
    default: bool,
    replies: Seq<netlink::ReplyView>,
)
    requires
        replies.len() <= usize::MAX,
        contns::configure_progress(temp, ifname, p, default, replies, 0) matches Progress::Done(
            Err(_),
            n,
        ) && n <= replies.len(),
    ensures
        ({
            let n = contns::configure_progress(temp, ifname, p, default, replies, 0)->Done_1 as int;
            let q = before(
                |r: Seq<netlink::ReplyView>|
                    contns::configure_progress(temp, ifname, p, default, r, 0),
                replies,
                n - 1,
            );
            n > 0 && q is Some && is_reason(q->0, replies[n - 1])
        }),
{
    let n = contns::configure_progress(temp, ifname, p, default, replies, 0)->Done_1 as int;
    let cut = replies.take(n - 1);
    assert(cut.len() == n - 1);
    assert(forall|i: int| 0 <= i < n - 1 ==> #[trigger] cut[i] == replies[i]);
}

/// Making the host's end a port of the bridge fails for a reason only, and so does
/// moving the other end.
pub proof fn law_connecting_fails_for_a_reason(
    host: u32,
    bridge: u32,
    replies: Seq<netlink::ReplyView>,
)
    requires
        replies.len() <= usize::MAX,
    ensures
        hostns::attach_progress(host, bridge, replies, 0) matches Progress::Done(Err(_), n) ==> 0
            < n <= replies.len() && wiring::went_wrong(replies[n - 1]),
        hostns::move_progress(host, replies, 0) matches Progress::Done(Err(_), n) ==> n == 1
            && wiring::went_wrong(replies[0]),
{
}

/// Once the container is connected nothing fails any more: whatever comes of the
/// gateway's address and of forwarding, what the address plugin wrote is handed on.
pub proof fn law_gateway_never_fails(
    c: config::ConfView,
    res: crate::cni::result::ResultView,
    stdout: Seq<char>,
    bridge: u32,
    replies: Seq<netlink::ReplyView>,
    from: int,
)
    ensures
        command::gate_progress(c, res, stdout, bridge, replies, from) matches Progress::Done(
            r,
            _,
        ) ==> r == Ok::<Seq<char>, error::ErrorView>(stdout),
{
}

} // verus!
