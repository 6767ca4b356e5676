//! The commands of the bridge plugin.

use vstd::prelude::*;
use vstd::string::*;

use crate::cni::delegate;
use crate::cni::env;
use crate::cni::env::CniArgs;
use crate::cni::error;
use crate::cni::error::CniError;
use crate::cni::plugin;
use crate::cni::plugin::Verb;
use crate::cni::result;
use crate::cni::result::CniResult;
use crate::cni::version;
use crate::cni::version::VersionResult;
use crate::cni_bridge::config;
use crate::cni_bridge::config::BridgeConf;
use crate::cni_bridge::contns;
use crate::cni_bridge::hostns;
use crate::cni_bridge::plan;
use crate::decode;
use crate::ipv4;
use crate::netlink;
use crate::netlink::{Reply, Request};
use crate::number;
use crate::progress;
use crate::progress::Progress;
use crate::text;

verus! {

/// A question on the way: to the network configuration, or to the plugin that
/// manages the addresses.
#[derive(Debug, PartialEq, Eq)]
pub enum Question {
    Net(Request),
    Plugin(delegate::Question),
}

/// The model of `Question`.
pub enum QuestionView {
    Net(netlink::RequestView),
    Plugin(delegate::QuestionView),
}

impl View for Question {
    type V = QuestionView;

    open spec fn view(&self) -> QuestionView {
        match self {
            Question::Net(q) => QuestionView::Net(q@),
            Question::Plugin(q) => QuestionView::Plugin(q@),
        }
    }
}

/// The outcome of a command, or the next question.
pub type Step = Progress<QuestionView, Result<Seq<char>, error::ErrorView>>;

/// The progress of a command, by its model.
pub open spec fn command_view(p: Progress<Question, Result<String, CniError>>) -> Step {
    progress::progress_view(
        p,
        |q: Question| q@,
        |r: Result<String, CniError>| error::result_view(r, |s: String| s@),
    )
}

// ---------------------------------------------------------------------------
// Adding a container
// ---------------------------------------------------------------------------

/// A failure after the pair of links was created: the host's end, and with it
/// the pair, is deleted first.
pub open spec fn undone(
    e: error::ErrorView,
    host_idx: u32,
    replies: Seq<netlink::ReplyView>,
    from: int,
) -> Step {
    if from >= replies.len() {
        Progress::Ask(QuestionView::Net(netlink::RequestView::DeleteLink(host_idx)))
    } else {
        Progress::Done(Err(e), (from + 1) as usize)
    }
}

/// The prefix length that stands behind the slash of an address, or 24.
pub open spec fn written_prefix(address: Seq<char>) -> u8 {
    let parts = text::split(address, '/');
    if parts.len() > 1 && number::number(parts[1], 10, 255) is Ok {
        number::number(parts[1], 10, 255)->Ok_0 as u8
    } else {
        24
    }
}

/// The gateway of the first address, where it is readable.
pub open spec fn result_gateway(r: result::ResultView) -> Option<u32> {
    if r.ips.len() > 0 && r.ips[0].gateway is Some {
        ipv4::address(r.ips[0].gateway->0)
    } else {
        None
    }
}

/// The last part: the bridge gets the gateway's address and the host forwards
/// packets, where the configuration asks for a gateway and whatever comes of
/// it; the output of the IPAM plugin is handed on.
pub open spec fn gate_progress(
    c: config::ConfView,
    r: result::ResultView,
    stdout: Seq<char>,
    bridge_idx: u32,
    replies: Seq<netlink::ReplyView>,
    from: int,
) -> Step {
    if !c.is_gateway {
        Progress::Done(Ok(stdout), from as usize)
    } else {
        match result_gateway(r) {
            None => forward_progress(stdout, replies, from),
            Some(gw) => match hostns::gateway_progress(
                bridge_idx,
                gw,
                written_prefix(r.ips[0].address),
                replies,
                from,
            ) {
                Progress::Ask(q) => Progress::Ask(QuestionView::Net(q)),
                Progress::Done(_, next) => forward_progress(stdout, replies, next as int),
            },
        }
    }
}

/// Letting the host forward packets, whatever comes of it.
pub open spec fn forward_progress(
    stdout: Seq<char>,
    replies: Seq<netlink::ReplyView>,
    from: int,
) -> Step {
    if from >= replies.len() {
        Progress::Ask(QuestionView::Net(netlink::RequestView::EnableForwarding))
    } else {
        Progress::Done(Ok(stdout), (from + 1) as usize)
    }
}

/// The part after the pair of links exists: its container's end is moved into
/// the container's namespace and configured there, the host's end becomes a
/// port of the bridge. Each failure is undone.
pub open spec fn connect_progress(
    args: env::ArgsView,
    c: config::ConfView,
    r: result::ResultView,
    p: plan::PlanView,
    stdout: Seq<char>,
    bridge_idx: u32,
    host_idx: u32,
    peer_idx: u32,
    replies: Seq<netlink::ReplyView>,
    from: int,
) -> Step {
    if from >= replies.len() {
        Progress::Ask(QuestionView::Net(netlink::RequestView::OpenNetns(args.netns)))
    } else if let Some(t) = netlink::failure_of(replies[from]) {
        undone(error::detailed(5, "open netns"@, t), host_idx, replies, from + 1)
    } else {
        match hostns::move_progress(peer_idx, replies, from + 1) {
            Progress::Ask(q) => Progress::Ask(QuestionView::Net(q)),
            Progress::Done(Err(t), next) => undone(
                error::detailed(5, "move veth to netns"@, t),
                host_idx,
                replies,
                next as int,
            ),
            Progress::Done(Ok(_), next) => match contns::container_progress(
                args.netns,
                plan::temp_name(args.container_id),
                args.ifname,
                p,
                c.is_default_gateway,
                replies,
                next as int,
            ) {
                Progress::Ask(q) => Progress::Ask(QuestionView::Net(q)),
                Progress::Done(Err(t), next) => undone(
                    error::detailed(7, "configure container iface"@, t),
                    host_idx,
                    replies,
                    next as int,
                ),
                Progress::Done(Ok(_), next) => match hostns::attach_progress(
                    host_idx,
                    bridge_idx,
                    replies,
                    next as int,
                ) {
                    Progress::Ask(q) => Progress::Ask(QuestionView::Net(q)),
                    Progress::Done(Err(t), next) => undone(
                        error::detailed(5, "attach host veth"@, t),
                        host_idx,
                        replies,
                        next as int,
                    ),
                    Progress::Done(Ok(_), next) => gate_progress(
                        c,
                        r,
                        stdout,
                        bridge_idx,
                        replies,
                        next as int,
                    ),
                },
            },
        }
    }
}

/// What the IPAM plugin's output comes to: the result and the plan, or the
/// error.
pub open spec fn ipam_outcome(out: delegate::OutputView) -> Result<
    (result::ResultView, plan::PlanView),
    error::ErrorView,
> {
    if !out.success {
        Err(error::detailed(7, "ipam add failed"@, out.stdout))
    } else {
        match result::result(out.stdout) {
            Err(f) => Err(error::detailed(6, "parse ipam result"@, decode::fault_text(f))),
            Ok(r) => match plan::plan_of(r) {
                Err(t) => Err(error::detailed(7, "ipam plan"@, t)),
                Ok(p) => Ok((r, p)),
            },
        }
    }
}

/// The host's end of the pair of links, where it was created and found.
pub open spec fn created_host(replies: Seq<netlink::ReplyView>, from: int) -> Option<u32> {
    if from + 1 < replies.len() && netlink::failure_of(replies[from]) is None {
        match netlink::index_of(replies[from + 1]) {
            Ok(found) => found,
            Err(_) => None,
        }
    } else {
        None
    }
}

/// What comes of adding a container: the bridge is made sure of, the IPAM
/// plugin asked for an address, the pair of links created and connected.
pub open spec fn add_progress(
    args: env::ArgsView,
    c: config::ConfView,
    stdin: Seq<char>,
    replies: Seq<netlink::ReplyView>,
    answers: Seq<delegate::AnswerView>,
) -> Step {
    if replies.len() == 0 {
        Progress::Ask(QuestionView::Net(netlink::RequestView::Connect))
    } else if let Some(t) = netlink::failure_of(replies[0]) {
        Progress::Done(Err(error::detailed(5, "netlink"@, t)), 1)
    } else {
        match hostns::bridge_progress(c.bridge, c.mtu, replies, 1) {
            Progress::Ask(q) => Progress::Ask(QuestionView::Net(q)),
            Progress::Done(Err(t), next) => Progress::Done(
                Err(error::detailed(7, "ensure bridge"@, t)),
                next,
            ),
            Progress::Done(Ok(bridge_idx), next) => match delegate::delegation(
                c.ipam,
                args,
                stdin,
                answers,
                0,
            ) {
                Progress::Ask(q) => Progress::Ask(QuestionView::Plugin(q)),
                Progress::Done(Err(e), _) => Progress::Done(Err(e), next),
                Progress::Done(Ok(out), _) => match ipam_outcome(out) {
                    Err(e) => Progress::Done(Err(e), next),
                    Ok((r, p)) => match hostns::veth_progress(
                        plan::host_name(args.container_id),
                        plan::temp_name(args.container_id),
                        c.mtu,
                        replies,
                        next as int,
                    ) {
                        Progress::Ask(q) => Progress::Ask(QuestionView::Net(q)),
                        Progress::Done(Err(t), end) => match created_host(replies, next as int) {
                            Some(host_idx) => undone(
                                error::detailed(5, "create veth"@, t),
                                host_idx,
                                replies,
                                end as int,
                            ),
                            None => Progress::Done(
                                Err(error::detailed(5, "create veth"@, t)),
                                end,
                            ),
                        },
                        Progress::Done(Ok((host_idx, peer_idx)), next) => connect_progress(
                            args,
                            c,
                            r,
                            p,
                            out.stdout,
                            bridge_idx,
                            host_idx,
                            peer_idx,
                            replies,
                            next as int,
                        ),
                    },
                },
            },
        }
    }
}

fn undo(e: CniError, host_idx: u32, replies: &Vec<Reply>, from: usize) -> (p: Progress<
    Question,
    Result<String, CniError>,
>)
    ensures
        command_view(p) == undone(e@, host_idx, netlink::reply_views(replies@), from as int),
{
    match hostns::del_link(host_idx, replies, from) {
        Progress::Ask(q) => Progress::Ask(Question::Net(q)),
        Progress::Done(_, next) => Progress::Done(Err(e), next),
    }
}

fn created_link(replies: &Vec<Reply>, from: usize) -> (h: Option<u32>)
    ensures
        h == created_host(netlink::reply_views(replies@), from as int),
{
    let ghost views = netlink::reply_views(replies@);
    if from >= replies.len() || from + 1 >= replies.len() {
        return None;
    }
    assert(views[from as int] == replies@[from as int]@);
    assert(views[from + 1] == replies@[from + 1]@);
    if netlink::failure(&replies[from]).is_some() {
        return None;
    }
    match netlink::link_index(&replies[from + 1]) {
        Ok(found) => found,
        Err(_) => None,
    }
}

fn prefix_in(address: &str) -> (p: u8)
    ensures
        p == written_prefix(address@),
{
    let parts = text::split_text(address, '/');
    let ghost views = text::split(address@, '/');
    if parts.len() > 1 {
        assert(views[1] == parts@[1]@);
        if let Ok(n) = number::read_number(parts[1].as_str(), 10, 255) {
            proof {
                number::lemma_number_bound(views[1], 10, 255);
            }
            return n as u8;
        }
    }
    24
}

fn gateway_in(r: &CniResult) -> (g: Option<u32>)
    ensures
        g == result_gateway(r@),
{
    if r.ips.len() == 0 {
        return None;
    }
    assert(r@.ips[0] == r.ips@[0]@);
    match &r.ips[0].gateway {
        Some(g) => ipv4::parse_address(g.as_str()),
        None => None,
    }
}

fn forward(stdout: String, replies: &Vec<Reply>, from: usize) -> (p: Progress<
    Question,
    Result<String, CniError>,
>)
    ensures
        command_view(p) == forward_progress(
            stdout@,
            netlink::reply_views(replies@),
            from as int,
        ),
{
    if from >= replies.len() {
        Progress::Ask(Question::Net(Request::EnableForwarding))
    } else {
        Progress::Done(Ok(stdout), from + 1)
    }
}

fn gate(
    conf: &BridgeConf,
    ipam: &CniResult,
    stdout: String,
    bridge_idx: u32,
    replies: &Vec<Reply>,
    from: usize,
) -> (p: Progress<Question, Result<String, CniError>>)
    ensures
        command_view(p) == gate_progress(
            conf@,
            ipam@,
            stdout@,
            bridge_idx,
            netlink::reply_views(replies@),
            from as int,
        ),
{
    if !conf.is_gateway {
        return Progress::Done(Ok(stdout), from);
    }
    match gateway_in(ipam) {
        None => forward(stdout, replies, from),
        Some(gw) => {
            assert(ipam@.ips[0] == ipam.ips@[0]@);
            let prefix: u8 = prefix_in(ipam.ips[0].address.as_str());
            match hostns::set_bridge_gateway(bridge_idx, gw, prefix, replies, from) {
                Progress::Ask(q) => Progress::Ask(Question::Net(q)),
                Progress::Done(_, next) => forward(stdout, replies, next),
            }
        },
    }
}

fn connect(
    args: &CniArgs,
    conf: &BridgeConf,
    ipam: &CniResult,
    ipplan: &plan::IpPlan,
    stdout: String,
    bridge_idx: u32,
    host_idx: u32,
    peer_idx: u32,
    replies: &Vec<Reply>,
    from: usize,
) -> (p: Progress<Question, Result<String, CniError>>)
    ensures
        command_view(p) == connect_progress(
            args@,
            conf@,
            ipam@,
            ipplan@,
            stdout@,
            bridge_idx,
            host_idx,
            peer_idx,
            netlink::reply_views(replies@),
            from as int,
        ),
{
    if from >= replies.len() {
        return Progress::Ask(Question::Net(Request::OpenNetns(args.netns.clone())));
    }
    assert(netlink::reply_views(replies@)[from as int] == replies@[from as int]@);
    if let Some(t) = netlink::failure(&replies[from]) {
        return undo(
            CniError::new(5, "open netns").with_details(t.as_str()),
            host_idx,
            replies,
            from + 1,
        );
    }
    let at: usize = match hostns::move_to_netns(peer_idx, replies, from + 1) {
        Progress::Ask(q) => {
            return Progress::Ask(Question::Net(q));
        },
        Progress::Done(Err(t), next) => {
            return undo(
                CniError::new(5, "move veth to netns").with_details(t.as_str()),
                host_idx,
                replies,
                next,
            );
        },
        Progress::Done(Ok(_), next) => next,
    };
    let temp_cont = plan::temp_cont_name(args.container_id.as_str());
    let at: usize = match contns::configure_container_iface(
        args.netns.as_str(),
        temp_cont.as_str(),
        args.ifname.as_str(),
        ipplan,
        conf.is_default_gateway,
        replies,
        at,
    ) {
        Progress::Ask(q) => {
            return Progress::Ask(Question::Net(q));
        },
        Progress::Done(Err(t), next) => {
            return undo(
                CniError::new(7, "configure container iface").with_details(t.as_str()),
                host_idx,
                replies,
                next,
            );
        },
        Progress::Done(Ok(_), next) => next,
    };
    match hostns::attach_host_veth(host_idx, bridge_idx, conf.hairpin_mode, replies, at) {
        Progress::Ask(q) => Progress::Ask(Question::Net(q)),
        Progress::Done(Err(t), next) => undo(
            CniError::new(5, "attach host veth").with_details(t.as_str()),
            host_idx,
            replies,
            next,
        ),
        Progress::Done(Ok(_), next) => gate(conf, ipam, stdout, bridge_idx, replies, next),
    }
}

/// Adds a container, given the answers of the network configuration and of the
/// IPAM plugin so far.
pub fn cmd_add(
    args: &CniArgs,
    conf: &BridgeConf,
    stdin: &str,
    replies: &Vec<Reply>,
    answers: &Vec<delegate::Answer>,
) -> (p: Progress<Question, Result<String, CniError>>)
    ensures
        command_view(p) == add_progress(
            args@,
            conf@,
            stdin@,
            netlink::reply_views(replies@),
            delegate::answer_views(answers@),
        ),
{
    if replies.len() == 0 {
        return Progress::Ask(Question::Net(Request::Connect));
    }
    assert(netlink::reply_views(replies@)[0] == replies@[0]@);
    if let Some(t) = netlink::failure(&replies[0]) {
        return Progress::Done(Err(CniError::new(5, "netlink").with_details(t.as_str())), 1);
    }
    let (bridge_idx, at): (u32, usize) = match hostns::ensure_bridge(
        conf.bridge.as_str(),
        conf.mtu,
        replies,
        1,
    ) {
        Progress::Ask(q) => {
            return Progress::Ask(Question::Net(q));
        },
        Progress::Done(Err(t), next) => {
            return Progress::Done(
                Err(CniError::new(7, "ensure bridge").with_details(t.as_str())),
                next,
            );
        },
        Progress::Done(Ok(idx), next) => (idx, next),
    };
    let out = match delegate::run_delegate(conf.ipam.kind.as_str(), args, stdin, answers, 0) {
        Progress::Ask(q) => {
            return Progress::Ask(Question::Plugin(q));
        },
        Progress::Done(Err(e), _) => {
            return Progress::Done(Err(e), at);
        },
        Progress::Done(Ok(out), _) => out,
    };
    if !out.success {
        return Progress::Done(
            Err(CniError::new(7, "ipam add failed").with_details(out.stdout.as_str())),
            at,
        );
    }
    let ipam = match CniResult::parse(out.stdout.as_str()) {
        Ok(r) => r,
        Err(e) => {
            return Progress::Done(
                Err(CniError::new(6, "parse ipam result").with_details(e.message().as_str())),
                at,
            );
        },
    };
    let ipplan = match plan::ip_plan(&ipam) {
        Ok(p) => p,
        Err(t) => {
            return Progress::Done(
                Err(CniError::new(7, "ipam plan").with_details(t.as_str())),
                at,
            );
        },
    };
    let host_veth = plan::host_veth_name(args.container_id.as_str());
    let temp_cont = plan::temp_cont_name(args.container_id.as_str());
    match hostns::create_veth(host_veth.as_str(), temp_cont.as_str(), conf.mtu, replies, at) {
        Progress::Ask(q) => Progress::Ask(Question::Net(q)),
        Progress::Done(Err(t), end) => {
            let e = CniError::new(5, "create veth").with_details(t.as_str());
            match created_link(replies, at) {
                Some(host_idx) => undo(e, host_idx, replies, end),
                None => Progress::Done(Err(e), end),
            }
        },
        Progress::Done(Ok((host_idx, peer_idx)), next) => connect(
            args,
            conf,
            &ipam,
            &ipplan,
            out.stdout,
            bridge_idx,
            host_idx,
            peer_idx,
            replies,
            next,
        ),
    }
}

// ---------------------------------------------------------------------------
// Deleting a container
// ---------------------------------------------------------------------------

/// What comes of deleting a container: the IPAM plugin is asked to free the
/// address, the link is removed where a namespace is known, and it always
/// succeeds.
pub open spec fn del_progress(
    args: env::ArgsView,
    c: config::ConfView,
    stdin: Seq<char>,
    replies: Seq<netlink::ReplyView>,
    answers: Seq<delegate::AnswerView>,
) -> Step {
    match delegate::delegation(c.ipam, args, stdin, answers, 0) {
        Progress::Ask(q) => Progress::Ask(QuestionView::Plugin(q)),
        Progress::Done(_, _) => if args.netns.len() == 0 {
            Progress::Done(Ok(Seq::empty()), 0)
        } else {
            match contns::delete_progress(args.netns, args.ifname, replies, 0) {
                Progress::Ask(q) => Progress::Ask(QuestionView::Net(q)),
                Progress::Done(_, next) => Progress::Done(Ok(Seq::empty()), next),
            }
        },
    }
}

/// Deletes a container.
pub fn cmd_del(
    args: &CniArgs,
    conf: &BridgeConf,
    stdin: &str,
    replies: &Vec<Reply>,
    answers: &Vec<delegate::Answer>,
) -> (p: Progress<Question, Result<String, CniError>>)
    ensures
        command_view(p) == del_progress(
            args@,
            conf@,
            stdin@,
            netlink::reply_views(replies@),
            delegate::answer_views(answers@),
        ),
{
    match delegate::run_delegate(conf.ipam.kind.as_str(), args, stdin, answers, 0) {
        Progress::Ask(q) => {
            return Progress::Ask(Question::Plugin(q));
        },
        Progress::Done(_, _) => {},
    }
    if args.netns.as_str().is_empty() {
        return Progress::Done(Ok(String::new()), 0);
    }
    match contns::delete_container_iface(args.netns.as_str(), args.ifname.as_str(), replies, 0) {
        Progress::Ask(q) => Progress::Ask(Question::Net(q)),
        Progress::Done(_, next) => Progress::Done(Ok(String::new()), next),
    }
}

/// What comes of an invocation.
pub open spec fn run_progress(
    args: env::ArgsView,
    stdin: Seq<char>,
    replies: Seq<netlink::ReplyView>,
    answers: Seq<delegate::AnswerView>,
) -> Step {
    match plugin::verb_of(args.command) {
        Verb::Version => Progress::Done(Ok(version::supported_text()), 0),
        Verb::Check => Progress::Done(Ok(Seq::empty()), 0),
        Verb::Unknown => Progress::Done(Err(plugin::unknown_command_error(args.command)), 0),
        Verb::Add => match config::conf(stdin) {
            Err(f) => Progress::Done(
                Err(error::detailed(6, "decode config"@, decode::fault_text(f))),
                0,
            ),
            Ok(c) => add_progress(args, c, stdin, replies, answers),
        },
        Verb::Del => match config::conf(stdin) {
            Err(f) => Progress::Done(
                Err(error::detailed(6, "decode config"@, decode::fault_text(f))),
                0,
            ),
            Ok(c) => del_progress(args, c, stdin, replies, answers),
        },
    }
}

/// Carries out an invocation.
pub fn run(
    args: &CniArgs,
    stdin: &str,
    replies: &Vec<Reply>,
    answers: &Vec<delegate::Answer>,
) -> (p: Progress<Question, Result<String, CniError>>)
    ensures
        command_view(p) == run_progress(
            args@,
            stdin@,
            netlink::reply_views(replies@),
            delegate::answer_views(answers@),
        ),
{
    let verb = plugin::verb(args.command.as_str());
    match verb {
        Verb::Version => {
            return Progress::Done(Ok(VersionResult::supported().to_json()), 0);
        },
        Verb::Check => {
            return Progress::Done(Ok(String::new()), 0);
        },
        Verb::Unknown => {
            return Progress::Done(Err(plugin::unknown_command(args.command.as_str())), 0);
        },
        _ => {},
    }
    let conf = match BridgeConf::parse(stdin) {
        Ok(c) => c,
        Err(e) => {
            return Progress::Done(
                Err(CniError::new(6, "decode config").with_details(e.message().as_str())),
                0,
            );
        },
    };
    if let Verb::Add = verb {
        cmd_add(args, &conf, stdin, replies, answers)
    } else {
        cmd_del(args, &conf, stdin, replies, answers)
    }
}

// ---------------------------------------------------------------------------
// Laws
// ---------------------------------------------------------------------------

/// Where the creation of the pair of links starts, once the bridge is there.
pub open spec fn veth_start(c: config::ConfView, replies: Seq<netlink::ReplyView>) -> Option<int> {
    match hostns::bridge_progress(c.bridge, c.mtu, replies, 1) {
        Progress::Done(Ok(_), next) => Some(next as int),
        _ => None,
    }
}

proof fn lemma_connect_undone(
    args: env::ArgsView,
    c: config::ConfView,
    r: result::ResultView,
    p: plan::PlanView,
    stdout: Seq<char>,
    bridge_idx: u32,
    host_idx: u32,
    peer_idx: u32,
    replies: Seq<netlink::ReplyView>,
    from: int,
    n: int,
)
    requires
        0 <= from,
        replies.len() <= usize::MAX,
        connect_progress(
            args,
            c,
            r,
            p,
            stdout,
            bridge_idx,
            host_idx,
            peer_idx,
            replies,
            from,
        ) matches Progress::Done(Err(_), m) && m == n && n <= replies.len(),
    ensures
        from + 1 < n,
        connect_progress(
            args,
            c,
            r,
            p,
            stdout,
            bridge_idx,
            host_idx,
            peer_idx,
            replies.take(n - 1),
            from,
        ) == Progress::<QuestionView, Result<Seq<char>, error::ErrorView>>::Ask(
            QuestionView::Net(netlink::RequestView::DeleteLink(host_idx)),
        ),
{
    let cut = replies.take(n - 1);
    assert(from < replies.len());
    if netlink::failure_of(replies[from]) is None {
        let moved = hostns::move_progress(peer_idx, replies, from + 1);
        assert(moved is Done);
        if moved->Done_0 is Ok {
            let next = moved->Done_1 as int;
            let temp = plan::temp_name(args.container_id);
            let inside = contns::container_progress(
                args.netns,
                temp,
                args.ifname,
                p,
                c.is_default_gateway,
                replies,
                next,
            );
            assert(inside is Done);
            assert(inside->Done_1 <= n - 1);
            contns::lemma_container_stable(
                args.netns,
                temp,
                args.ifname,
                p,
                c.is_default_gateway,
                replies,
                next,
                n - 1,
            );
        }
    }
}

/// An addition that fails after the pair of links was created deletes it: the
/// last thing that was asked before the failure is to delete the host's end.
pub proof fn law_failed_add_leaves_no_link(
    args: env::ArgsView,
    c: config::ConfView,
    stdin: Seq<char>,
    replies: Seq<netlink::ReplyView>,
    answers: Seq<delegate::AnswerView>,
)
    requires
        replies.len() <= usize::MAX,
        add_progress(args, c, stdin, replies, answers) matches Progress::Done(Err(_), n) && {
            &&& n <= replies.len()
            &&& veth_start(c, replies) matches Some(at) && at + 1 < n && created_host(
                replies,
                at,
            ) is Some
        },
    ensures
        ({
            let n = add_progress(args, c, stdin, replies, answers)->Done_1;
            let host = created_host(replies, veth_start(c, replies)->0)->0;
            add_progress(args, c, stdin, replies.take(n - 1), answers) == Progress::<
                QuestionView,
                Result<Seq<char>, error::ErrorView>,
            >::Ask(QuestionView::Net(netlink::RequestView::DeleteLink(host)))
        }),
{
    let n = add_progress(args, c, stdin, replies, answers)->Done_1 as int;
    let cut = replies.take(n - 1);
    let at = veth_start(c, replies)->0;
    hostns::lemma_bridge_stable(c.bridge, c.mtu, replies, 1, n - 1);
    let host = plan::host_name(args.container_id);
    let temp = plan::temp_name(args.container_id);
    let out = delegate::delegation(c.ipam, args, stdin, answers, 0)->Done_0->Ok_0;
    let p = ipam_outcome(out)->Ok_0.1;
    let r = ipam_outcome(out)->Ok_0.0;
    let veth = hostns::veth_progress(host, temp, c.mtu, replies, at);
    assert(veth is Done);
    let after = veth->Done_1 as int;
    if veth->Done_0 is Ok {
        let (host_idx, peer_idx) = veth->Done_0->Ok_0;
        let bridge_idx = hostns::bridge_progress(c.bridge, c.mtu, replies, 1)->Done_0->Ok_0;
        lemma_connect_undone(
            args,
            c,
            r,
            p,
            out.stdout,
            bridge_idx,
            host_idx,
            peer_idx,
            replies,
            after,
            n,
        );
    }
    hostns::lemma_veth_stable(host, temp, c.mtu, replies, at, n - 1);
    assert(created_host(cut, at) == created_host(replies, at));
}

/// An addition that succeeds hands on what the IPAM plugin wrote.
pub proof fn law_add_relays_the_ipam_result(
    args: env::ArgsView,
    c: config::ConfView,
    stdin: Seq<char>,
    replies: Seq<netlink::ReplyView>,
    answers: Seq<delegate::AnswerView>,
)
    ensures
        add_progress(args, c, stdin, replies, answers) matches Progress::Done(Ok(s), _) ==> {
            &&& delegate::delegation(
                c.ipam,
                args,
                stdin,
                answers,
                0,
            ) matches Progress::Done(Ok(out), _) && out.success && out.stdout == s
            &&& result::result(s) is Ok
        },
{
}

/// Deleting never fails.
pub proof fn law_delete_always_succeeds(
    args: env::ArgsView,
    c: config::ConfView,
    stdin: Seq<char>,
    replies: Seq<netlink::ReplyView>,
    answers: Seq<delegate::AnswerView>,
)
    ensures
        del_progress(args, c, stdin, replies, answers) matches Progress::Done(r, _) ==> r is Ok,
{
}

} // verus!
