//! Masquerading of what containers send beyond the network.
//!
//! Without it, what a container sends to a host or beyond is not
//! source-translated, and answers do not find back. The rules have to be in
//! the backend that kube-proxy uses, otherwise they sit in tables that do not
//! see the traffic: it is the one whose listing shows the chains of
//! kube-proxy, else the one with more rules, else plain iptables.

use vstd::prelude::*;
use vstd::string::*;

use crate::netlink;
use crate::progress;
use crate::progress::{Invocation, Progress, Reply};
use crate::text;

verus! {

/// Makes sure of the masquerading rules with a concrete backend.
#[derive(Debug)]
pub struct IpMasq {
    backend: String,
}

// ---------------------------------------------------------------------------
// The rules
// ---------------------------------------------------------------------------

/// The masquerading rules of a network, in the order in which they are
/// appended: between containers there is none; from containers to the outside,
/// other than multicast, there is; from outside to the node's own containers
/// there is none; from outside to other nodes' containers there is.
pub open spec fn rules_of(n: Seq<char>, sn: Seq<char>) -> Seq<Seq<Seq<char>>> {
    seq![
        seq!["-s"@, n, "-d"@, n, "-j"@, "RETURN"@],
        seq![
            "-s"@,
            n,
            "!"@,
            "-d"@,
            "224.0.0.0/4"@,
            "-j"@,
            "MASQUERADE"@,
            "--random-fully"@,
        ],
        seq!["!"@, "-s"@, n, "-d"@, sn, "-j"@, "RETURN"@],
        seq!["!"@, "-s"@, n, "-d"@, n, "-j"@, "MASQUERADE"@, "--random-fully"@],
    ]
}

/// The texts of rules.
pub open spec fn rule_texts(v: Seq<Vec<String>>) -> Seq<Seq<Seq<char>>> {
    v.map_values(|r: Vec<String>| text::texts(r@))
}

/// The masquerading rules of a network, in the order in which they are
/// appended. First match wins, so an exemption comes before what it exempts
/// from.
pub fn masq_rules(n: &str, sn: &str) -> (v: Vec<Vec<String>>)
    ensures
        rule_texts(v@) == rules_of(n@, sn@),
{
    let r0 = vec![
        "-s".to_owned(),
        n.to_owned(),
        "-d".to_owned(),
        n.to_owned(),
        "-j".to_owned(),
        "RETURN".to_owned(),
    ];
    let r1 = vec![
        "-s".to_owned(),
        n.to_owned(),
        "!".to_owned(),
        "-d".to_owned(),
        "224.0.0.0/4".to_owned(),
        "-j".to_owned(),
        "MASQUERADE".to_owned(),
        "--random-fully".to_owned(),
    ];
    let r2 = vec![
        "!".to_owned(),
        "-s".to_owned(),
        n.to_owned(),
        "-d".to_owned(),
        sn.to_owned(),
        "-j".to_owned(),
        "RETURN".to_owned(),
    ];
    let r3 = vec![
        "!".to_owned(),
        "-s".to_owned(),
        n.to_owned(),
        "-d".to_owned(),
        n.to_owned(),
        "-j".to_owned(),
        "MASQUERADE".to_owned(),
        "--random-fully".to_owned(),
    ];
    proof {
        let want = rules_of(n@, sn@);
        assert(text::texts(r0@) =~= want[0]);
        assert(text::texts(r1@) =~= want[1]);
        assert(text::texts(r2@) =~= want[2]);
        assert(text::texts(r3@) =~= want[3]);
    }
    let v = vec![r0, r1, r2, r3];
    assert(rule_texts(v@) =~= rules_of(n@, sn@));
    v
}

// ---------------------------------------------------------------------------
// Choice of the backend
// ---------------------------------------------------------------------------

/// How many of the lines begin with `-A`: those are the rules.
pub open spec fn rule_count(lines: Seq<Seq<char>>) -> nat
    decreases lines.len(),
{
    if lines.len() == 0 {
        0
    } else {
        rule_count(lines.drop_last()) + (if text::begins_with(lines.last(), "-A"@) {
            1nat
        } else {
            0nat
        })
    }
}

/// Whether one of the lines names a chain of kube-proxy.
pub open spec fn names_kube(lines: Seq<Seq<char>>) -> bool {
    exists|i: int| 0 <= i < lines.len() && text::has_text(#[trigger] lines[i], "KUBE-"@)
}

/// What a listing of the nat table tells: whether it shows chains of
/// kube-proxy, and how many rules it has. A listing that failed tells nothing.
pub open spec fn signal_of(r: progress::ReplyView) -> (bool, nat) {
    match r {
        progress::ReplyView::Failed(_) => (false, 0),
        progress::ReplyView::Exited { success, stdout, .. } => if success {
            (names_kube(text::lines(stdout)), rule_count(text::lines(stdout)))
        } else {
            (false, 0)
        },
    }
}

/// What a listing of the nat table tells.
pub fn backend_signal(r: &Reply) -> (s: (bool, usize))
    ensures
        (s.0, s.1 as nat) == signal_of(r@),
{
    match r {
        Reply::Failed(_) => (false, 0),
        Reply::Exited { success, stdout, stderr: _ } => {
            if !*success {
                return (false, 0);
            }
            let lines = text::lines_of(stdout.as_str());
            let ghost all = text::lines(stdout@);
            let mut kube = false;
            let mut rules: usize = 0;
            let mut i: usize = 0;
            assert(all.take(0) =~= Seq::<Seq<char>>::empty());
            while i < lines.len()
                invariant
                    i <= lines@.len(),
                    all == text::lines(stdout@),
                    all == text::texts(lines@),
                    rules <= i,
                    rules == rule_count(all.take(i as int)),
                    kube == (exists|j: int|
                        0 <= j < i && text::has_text(#[trigger] all[j], "KUBE-"@)),
                decreases lines@.len() - i,
            {
                proof {
                    assert(all.take(i + 1).drop_last() =~= all.take(i as int));
                    assert(all.take(i + 1).last() == lines@[i as int]@);
                    assert(all[i as int] == lines@[i as int]@);
                }
                if text::contains_text(lines[i].as_str(), "KUBE-") {
                    kube = true;
                }
                if text::starts_with(lines[i].as_str(), "-A") {
                    rules = rules + 1;
                }
                i = i + 1;
            }
            assert(all.take(lines@.len() as int) =~= all);
            (kube, rules)
        },
    }
}

/// The backend that two listings speak for: the one that alone shows chains of
/// kube-proxy; otherwise the one with more rules, if it has any.
pub open spec fn chosen(nft: (bool, nat), legacy: (bool, nat)) -> Seq<char> {
    if nft.0 && !legacy.0 {
        "iptables-nft"@
    } else if legacy.0 && !nft.0 {
        "iptables-legacy"@
    } else if nft.1 >= legacy.1 && (nft.1 > 0 || nft.0) {
        "iptables-nft"@
    } else if legacy.1 > 0 || legacy.0 {
        "iptables-legacy"@
    } else {
        "iptables"@
    }
}

/// The listing of the nat table by a backend.
pub open spec fn listing(backend: Seq<char>) -> progress::InvocationView {
    progress::InvocationView { program: backend, args: seq!["-t"@, "nat"@, "-S"@] }
}

/// The choice of a backend: both are asked for a listing.
pub open spec fn detection(replies: Seq<progress::ReplyView>) -> Progress<
    progress::InvocationView,
    Seq<char>,
> {
    if replies.len() == 0 {
        Progress::Ask(listing("iptables-nft"@))
    } else if replies.len() == 1 {
        Progress::Ask(listing("iptables-legacy"@))
    } else {
        Progress::Done(chosen(signal_of(replies[0]), signal_of(replies[1])), 2)
    }
}

fn list_nat(backend: &str) -> (i: Invocation)
    ensures
        i@ == listing(backend@),
{
    let args = vec!["-t".to_owned(), "nat".to_owned(), "-S".to_owned()];
    assert(text::texts(args@) =~= seq!["-t"@, "nat"@, "-S"@]);
    Invocation { program: backend.to_owned(), args }
}

// ---------------------------------------------------------------------------
// Making sure of the rules
// ---------------------------------------------------------------------------

/// A command on the chain of outgoing packets, waiting for the table's lock.
pub open spec fn post_command(backend: Seq<char>, op: Seq<char>, rule: Seq<Seq<char>>) -> progress::InvocationView {
    progress::InvocationView {
        program: backend,
        args: seq!["--wait"@, "-t"@, "nat"@, op, "POSTROUTING"@] + rule,
    }
}

/// The failure of a command that could not be run.
pub open spec fn spawn_failure(backend: Seq<char>, op: Seq<char>, reason: Seq<char>) -> Seq<char> {
    netlink::within("spawn "@ + backend + " "@ + op, reason)
}

/// What came of a check: whether the rule is there.
pub open spec fn checked(backend: Seq<char>, r: progress::ReplyView) -> Result<bool, Seq<char>> {
    match r {
        progress::ReplyView::Failed(e) => Err(spawn_failure(backend, "-C"@, e)),
        progress::ReplyView::Exited { success, .. } => Ok(success),
    }
}

/// What came of an append.
pub open spec fn appended(
    backend: Seq<char>,
    rule: Seq<Seq<char>>,
    r: progress::ReplyView,
) -> Result<(), Seq<char>> {
    match r {
        progress::ReplyView::Failed(e) => Err(spawn_failure(backend, "-A"@, e)),
        progress::ReplyView::Exited { success, stderr, .. } => if success {
            Ok(())
        } else {
            Err(
                backend + " -A POSTROUTING "@ + text::joined(rule, " "@) + " failed: "@
                    + text::trimmed(stderr),
            )
        },
    }
}

/// The option that old backends lack.
pub open spec fn random_fully() -> Seq<char> {
    "--random-fully"@
}

/// A rule without the option that old backends lack.
pub open spec fn stripped(rule: Seq<Seq<char>>) -> Seq<Seq<char>> {
    rule.filter(|a: Seq<char>| a != random_fully())
}

/// Making sure of a rule: it is checked for and appended where it is absent.
/// Where that fails and the rule has the option that old backends lack, the
/// same is done without it.
pub open spec fn rule_progress(
    backend: Seq<char>,
    rule: Seq<Seq<char>>,
    replies: Seq<progress::ReplyView>,
    from: int,
) -> Progress<progress::InvocationView, Result<(), Seq<char>>> {
    if from >= replies.len() {
        Progress::Ask(post_command(backend, "-C"@, rule))
    } else {
        match checked(backend, replies[from]) {
            Err(e) => Progress::Done(Err(e), (from + 1) as usize),
            Ok(true) => Progress::Done(Ok(()), (from + 1) as usize),
            Ok(false) => if from + 1 >= replies.len() {
                Progress::Ask(post_command(backend, "-A"@, rule))
            } else {
                match appended(backend, rule, replies[from + 1]) {
                    Ok(_) => Progress::Done(Ok(()), (from + 2) as usize),
                    Err(e) => if rule.contains(random_fully()) {
                        retry_progress(backend, stripped(rule), replies, from + 2)
                    } else {
                        Progress::Done(Err(e), (from + 2) as usize)
                    },
                }
            },
        }
    }
}

/// Making sure of a rule once more, in its plain form.
pub open spec fn retry_progress(
    backend: Seq<char>,
    rule: Seq<Seq<char>>,
    replies: Seq<progress::ReplyView>,
    from: int,
) -> Progress<progress::InvocationView, Result<(), Seq<char>>> {
    if from >= replies.len() {
        Progress::Ask(post_command(backend, "-C"@, rule))
    } else {
        match checked(backend, replies[from]) {
            Err(e) => Progress::Done(Err(e), (from + 1) as usize),
            Ok(true) => Progress::Done(Ok(()), (from + 1) as usize),
            Ok(false) => if from + 1 >= replies.len() {
                Progress::Ask(post_command(backend, "-A"@, rule))
            } else {
                Progress::Done(
                    appended(backend, rule, replies[from + 1]),
                    (from + 2) as usize,
                )
            },
        }
    }
}

/// Making sure of rules in order, up to the first failure.
pub open spec fn rules_progress(
    backend: Seq<char>,
    rules: Seq<Seq<Seq<char>>>,
    replies: Seq<progress::ReplyView>,
    from: int,
) -> Progress<progress::InvocationView, Result<(), Seq<char>>>
    decreases rules.len(),
{
    if rules.len() == 0 {
        Progress::Done(Ok(()), from as usize)
    } else {
        match rule_progress(backend, rules[0], replies, from) {
            Progress::Ask(q) => Progress::Ask(q),
            Progress::Done(Err(e), next) => Progress::Done(Err(e), next),
            Progress::Done(Ok(_), next) => rules_progress(
                backend,
                rules.skip(1),
                replies,
                next as int,
            ),
        }
    }
}

/// A progress in text-worded errors, by its model.
pub open spec fn masq_view(p: Progress<Invocation, Result<(), String>>) -> Progress<
    progress::InvocationView,
    Result<(), Seq<char>>,
> {
    progress::progress_view(
        p,
        |q: Invocation| q@,
        |r: Result<(), String>| netlink::text_result(r, |u: ()| u),
    )
}

fn holds_option(rule: &Vec<String>) -> (r: bool)
    ensures
        r == text::texts(rule@).contains(random_fully()),
{
    let ghost all = text::texts(rule@);
    let mut i: usize = 0;
    while i < rule.len()
        invariant
            i <= rule@.len(),
            all == text::texts(rule@),
            forall|j: int| 0 <= j < i ==> all[j] != random_fully(),
        decreases rule@.len() - i,
    {
        assert(all[i as int] == rule@[i as int]@);
        if text::same(rule[i].as_str(), "--random-fully") {
            return true;
        }
        i = i + 1;
    }
    false
}

fn without_option(rule: &Vec<String>) -> (v: Vec<String>)
    ensures
        text::texts(v@) == stripped(text::texts(rule@)),
{
    let ghost all = text::texts(rule@);
    let ghost keep = |a: Seq<char>| a != random_fully();
    let mut v: Vec<String> = Vec::new();
    let mut i: usize = 0;
    proof {
        reveal(Seq::filter);
        assert(all.take(0) =~= Seq::<Seq<char>>::empty());
        assert(text::texts(v@) =~= Seq::<Seq<char>>::empty());
    }
    while i < rule.len()
        invariant
            i <= rule@.len(),
            all == text::texts(rule@),
            keep == (|a: Seq<char>| a != random_fully()),
            text::texts(v@) == all.take(i as int).filter(keep),
        decreases rule@.len() - i,
    {
        let ghost before = text::texts(v@);
        proof {
            reveal(Seq::filter);
            assert(all.take(i + 1).drop_last() =~= all.take(i as int));
            assert(all.take(i + 1).last() == rule@[i as int]@);
        }
        if !text::same(rule[i].as_str(), "--random-fully") {
            let one: String = rule[i].clone();
            v.push(one);
            assert(text::texts(v@) =~= before.push(rule@[i as int]@));
        }
        i = i + 1;
    }
    assert(all.take(rule@.len() as int) =~= all);
    v
}

impl IpMasq {
    /// The program that is run.
    pub closed spec fn program(&self) -> Seq<char> {
        self.backend@
    }

    /// An explicit backend.
    pub fn new(backend: &str) -> (m: IpMasq)
        ensures
            m.program() == backend@,
    {
        IpMasq { backend: backend.to_owned() }
    }

    /// Picks the backend that matches kube-proxy, from the listings that were
    /// asked for so far.
    pub fn detect(replies: &Vec<Reply>) -> (p: Progress<Invocation, IpMasq>)
        ensures
            progress::progress_view(p, |q: Invocation| q@, |m: IpMasq| m.program()) == detection(
                progress::reply_views(replies@),
            ),
    {
        if replies.len() == 0 {
            return Progress::Ask(list_nat("iptables-nft"));
        }
        if replies.len() == 1 {
            return Progress::Ask(list_nat("iptables-legacy"));
        }
        let ghost views = progress::reply_views(replies@);
        assert(views[0] == replies@[0]@ && views[1] == replies@[1]@);
        let (nft_kube, nft_rules): (bool, usize) = backend_signal(&replies[0]);
        let (legacy_kube, legacy_rules): (bool, usize) = backend_signal(&replies[1]);
        let backend = if nft_kube && !legacy_kube {
            "iptables-nft"
        } else if legacy_kube && !nft_kube {
            "iptables-legacy"
        } else if nft_rules >= legacy_rules && (nft_rules > 0 || nft_kube) {
            "iptables-nft"
        } else if legacy_rules > 0 || legacy_kube {
            "iptables-legacy"
        } else {
            "iptables"
        };
        Progress::Done(IpMasq::new(backend), 2)
    }

    /// The program that is run.
    pub fn backend(&self) -> (s: &str)
        ensures
            s@ == self.program(),
    {
        self.backend.as_str()
    }

    fn command(&self, op: &str, rule: &Vec<String>) -> (i: Invocation)
        ensures
            i@ == post_command(self.program(), op@, text::texts(rule@)),
    {
        let mut args: Vec<String> = vec![
            "--wait".to_owned(),
            "-t".to_owned(),
            "nat".to_owned(),
            op.to_owned(),
            "POSTROUTING".to_owned(),
        ];
        let ghost head = seq!["--wait"@, "-t"@, "nat"@, op@, "POSTROUTING"@];
        assert(text::texts(args@) =~= head);
        let mut more = text::copy_texts(rule);
        let ghost tail = more@;
        args.append(&mut more);
        assert(text::texts(args@) =~= head + text::texts(tail));
        Invocation { program: self.backend.clone(), args }
    }

    fn not_run(&self, op: &str, reason: &str) -> (s: String)
        ensures
            s@ == spawn_failure(self.program(), op@, reason@),
    {
        let mut context = text::join3("spawn ", self.backend.as_str(), " ");
        context.append(op);
        netlink::in_context(context.as_str(), reason)
    }

    fn rule_exists(&self, r: &Reply) -> (b: Result<bool, String>)
        ensures
            netlink::text_result(b, |b: bool| b) == checked(self.program(), r@),
    {
        match r {
            Reply::Failed(e) => Err(self.not_run("-C", e.as_str())),
            Reply::Exited { success, stdout: _, stderr: _ } => Ok(*success),
        }
    }

    fn append(&self, rule: &Vec<String>, r: &Reply) -> (u: Result<(), String>)
        ensures
            netlink::text_result(u, |u: ()| u) == appended(
                self.program(),
                text::texts(rule@),
                r@,
            ),
    {
        match r {
            Reply::Failed(e) => Err(self.not_run("-A", e.as_str())),
            Reply::Exited { success, stdout: _, stderr } => if *success {
                Ok(())
            } else {
                let mut s = text::join3(
                    self.backend.as_str(),
                    " -A POSTROUTING ",
                    text::join(rule, " ").as_str(),
                );
                s.append(" failed: ");
                s.append(text::trim(stderr.as_str()).as_str());
                Err(s)
            },
        }
    }

    fn retry_rule(&self, rule: &Vec<String>, replies: &Vec<Reply>, from: usize) -> (p: Progress<
        Invocation,
        Result<(), String>,
    >)
        ensures
            masq_view(p) == retry_progress(
                self.program(),
                text::texts(rule@),
                progress::reply_views(replies@),
                from as int,
            ),
    {
        let ghost views = progress::reply_views(replies@);
        if from >= replies.len() {
            return Progress::Ask(self.command("-C", rule));
        }
        assert(views[from as int] == replies@[from as int]@);
        match self.rule_exists(&replies[from]) {
            Err(e) => {
                return Progress::Done(Err(e), from + 1);
            },
            Ok(true) => {
                return Progress::Done(Ok(()), from + 1);
            },
            Ok(false) => {},
        }
        if from + 1 >= replies.len() {
            return Progress::Ask(self.command("-A", rule));
        }
        assert(views[from + 1] == replies@[from + 1]@);
        Progress::Done(self.append(rule, &replies[from + 1]), from + 2)
    }

    /// Makes sure of one rule.
    pub fn ensure_rule(&self, rule: &Vec<String>, replies: &Vec<Reply>, from: usize) -> (p:
        Progress<Invocation, Result<(), String>>)
        ensures
            masq_view(p) == rule_progress(
                self.program(),
                text::texts(rule@),
                progress::reply_views(replies@),
                from as int,
            ),
    {
        let ghost views = progress::reply_views(replies@);
        if from >= replies.len() {
            return Progress::Ask(self.command("-C", rule));
        }
        assert(views[from as int] == replies@[from as int]@);
        match self.rule_exists(&replies[from]) {
            Err(e) => {
                return Progress::Done(Err(e), from + 1);
            },
            Ok(true) => {
                return Progress::Done(Ok(()), from + 1);
            },
            Ok(false) => {},
        }
        if from + 1 >= replies.len() {
            return Progress::Ask(self.command("-A", rule));
        }
        assert(views[from + 1] == replies@[from + 1]@);
        match self.append(rule, &replies[from + 1]) {
            Ok(_) => Progress::Done(Ok(()), from + 2),
            Err(e) => if holds_option(rule) {
                let plain = without_option(rule);
                self.retry_rule(&plain, replies, from + 2)
            } else {
                Progress::Done(Err(e), from + 2)
            },
        }
    }

    /// Makes sure of every masquerading rule of a network and a subnet.
    pub fn ensure(&self, network: &str, subnet: &str, replies: &Vec<Reply>) -> (p: Progress<
        Invocation,
        Result<(), String>,
    >)
        ensures
            masq_view(p) == rules_progress(
                self.program(),
                rules_of(network@, subnet@),
                progress::reply_views(replies@),
                0,
            ),
    {
        let rules = masq_rules(network, subnet);
        let ghost all = rules_of(network@, subnet@);
        let ghost views = progress::reply_views(replies@);
        let mut at: usize = 0;
        let mut i: usize = 0;
        assert(all.skip(0) =~= all);
        while i < rules.len()
            invariant
                i <= rules@.len(),
                all == rules_of(network@, subnet@),
                all == rule_texts(rules@),
                views == progress::reply_views(replies@),
                rules_progress(self.program(), all, views, 0) == rules_progress(
                    self.program(),
                    all.skip(i as int),
                    views,
                    at as int,
                ),
            decreases rules@.len() - i,
        {
            assert(all.skip(i as int)[0] == text::texts(rules@[i as int]@));
            assert(all.skip(i as int).skip(1) =~= all.skip(i + 1));
            match self.ensure_rule(&rules[i], replies, at) {
                Progress::Ask(q) => {
                    return Progress::Ask(q);
                },
                Progress::Done(Err(e), next) => {
                    return Progress::Done(Err(e), next);
                },
                Progress::Done(Ok(_), next) => {
                    at = next;
                },
            }
            i = i + 1;
        }
        Progress::Done(Ok(()), at)
    }
}

// ---------------------------------------------------------------------------
// Laws
// ---------------------------------------------------------------------------

/// A packet by its two addresses.
pub struct Packet {
    pub src: u32,
    pub dst: u32,
}

/// Whether a packet meets the conditions of a rule. `inside` says which
/// addresses a written network holds.
pub open spec fn meets(
    rule: Seq<Seq<char>>,
    inside: spec_fn(Seq<char>, u32) -> bool,
    p: Packet,
) -> bool
    decreases rule.len(),
{
    if rule.len() >= 3 && rule[0] == "!"@ && rule[1] == "-s"@ {
        !inside(rule[2], p.src) && meets(rule.skip(3), inside, p)
    } else if rule.len() >= 3 && rule[0] == "!"@ && rule[1] == "-d"@ {
        !inside(rule[2], p.dst) && meets(rule.skip(3), inside, p)
    } else if rule.len() >= 2 && rule[0] == "-s"@ {
        inside(rule[1], p.src) && meets(rule.skip(2), inside, p)
    } else if rule.len() >= 2 && rule[0] == "-d"@ {
        inside(rule[1], p.dst) && meets(rule.skip(2), inside, p)
    } else {
        true
    }
}

/// What a rule does with a packet that meets it.
pub open spec fn target(rule: Seq<Seq<char>>) -> Option<Seq<char>>
    decreases rule.len(),
{
    if rule.len() < 2 {
        None
    } else if rule[0] == "-j"@ {
        Some(rule[1])
    } else {
        target(rule.skip(1))
    }
}

/// What becomes of a packet: the first rule that it meets decides.
pub open spec fn verdict(
    rules: Seq<Seq<Seq<char>>>,
    inside: spec_fn(Seq<char>, u32) -> bool,
    p: Packet,
) -> Option<Seq<char>>
    decreases rules.len(),
{
    if rules.len() == 0 {
        None
    } else if meets(rules[0], inside, p) {
        target(rules[0])
    } else {
        verdict(rules.skip(1), inside, p)
    }
}

proof fn lemma_options_differ()
    ensures
        "!"@ != "-s"@,
        "!"@ != "-d"@,
        "!"@ != "-j"@,
        "-s"@ != "-d"@,
        "-s"@ != "-j"@,
        "-d"@ != "-j"@,
{
    reveal_strlit("!");
    reveal_strlit("-s");
    reveal_strlit("-d");
    reveal_strlit("-j");
    assert("!"@.len() == 1 && "-s"@.len() == 2 && "-d"@.len() == 2 && "-j"@.len() == 2);
    assert("-s"@[1] == 's' && "-d"@[1] == 'd' && "-j"@[1] == 'j');
}

proof fn lemma_rule_from_to(
    rule: Seq<Seq<char>>,
    a: Seq<char>,
    b: Seq<char>,
    t: Seq<char>,
    inside: spec_fn(Seq<char>, u32) -> bool,
    p: Packet,
)
    requires
        rule.len() >= 6,
        rule.take(6) == seq!["-s"@, a, "-d"@, b, "-j"@, t],
        a != "-j"@,
        b != "-j"@,
    ensures
        meets(rule, inside, p) == (inside(a, p.src) && inside(b, p.dst)),
        target(rule) == Some(t),
{
    lemma_options_differ();
    let head = rule.take(6);
    assert(rule[0] == head[0] && rule[1] == head[1] && rule[2] == head[2] && rule[3] == head[3]
        && rule[4] == head[4] && rule[5] == head[5]);
    reveal_with_fuel(meets, 3);
    reveal_with_fuel(target, 6);
}

proof fn lemma_rule_from_not_to(
    rule: Seq<Seq<char>>,
    a: Seq<char>,
    b: Seq<char>,
    t: Seq<char>,
    inside: spec_fn(Seq<char>, u32) -> bool,
    p: Packet,
)
    requires
        rule.len() >= 7,
        rule.take(7) == seq!["-s"@, a, "!"@, "-d"@, b, "-j"@, t],
        a != "-j"@,
        b != "-j"@,
    ensures
        meets(rule, inside, p) == (inside(a, p.src) && !inside(b, p.dst)),
        target(rule) == Some(t),
{
    lemma_options_differ();
    let head = rule.take(7);
    assert(rule[0] == head[0] && rule[1] == head[1] && rule[2] == head[2] && rule[3] == head[3]
        && rule[4] == head[4] && rule[5] == head[5] && rule[6] == head[6]);
    reveal_with_fuel(meets, 3);
    reveal_with_fuel(target, 7);
}

proof fn lemma_rule_not_from_to(
    rule: Seq<Seq<char>>,
    a: Seq<char>,
    b: Seq<char>,
    t: Seq<char>,
    inside: spec_fn(Seq<char>, u32) -> bool,
    p: Packet,
)
    requires
        rule.len() >= 7,
        rule.take(7) == seq!["!"@, "-s"@, a, "-d"@, b, "-j"@, t],
        a != "-j"@,
        b != "-j"@,
    ensures
        meets(rule, inside, p) == (!inside(a, p.src) && inside(b, p.dst)),
        target(rule) == Some(t),
{
    lemma_options_differ();
    let head = rule.take(7);
    assert(rule[0] == head[0] && rule[1] == head[1] && rule[2] == head[2] && rule[3] == head[3]
        && rule[4] == head[4] && rule[5] == head[5] && rule[6] == head[6]);
    reveal_with_fuel(meets, 3);
    reveal_with_fuel(target, 7);
}

/// What the rules do with a packet, whichever addresses the networks hold:
/// between containers nothing is masqueraded; from a container to the outside
/// all is, other than multicast; from outside to the node's own containers
/// nothing is; from outside to other containers all is.
pub proof fn law_exemptions_come_first(
    n: Seq<char>,
    sn: Seq<char>,
    inside: spec_fn(Seq<char>, u32) -> bool,
    p: Packet,
)
    requires
        n != "-j"@,
        sn != "-j"@,
    ensures
        verdict(rules_of(n, sn), inside, p) == (if inside(n, p.src) {
            if inside(n, p.dst) {
                Some("RETURN"@)
            } else if !inside("224.0.0.0/4"@, p.dst) {
                Some("MASQUERADE"@)
            } else {
                None
            }
        } else {
            if inside(sn, p.dst) {
                Some("RETURN"@)
            } else if inside(n, p.dst) {
                Some("MASQUERADE"@)
            } else {
                None
            }
        }),
{
    let rules = rules_of(n, sn);
    reveal_strlit("224.0.0.0/4");
    reveal_strlit("-j");
    assert("224.0.0.0/4"@ != "-j"@) by {
        assert("224.0.0.0/4"@.len() == 11 && "-j"@.len() == 2);
    }
    assert(rules[0].take(6) =~= seq!["-s"@, n, "-d"@, n, "-j"@, "RETURN"@]);
    assert(rules[1].take(7) =~= seq![
        "-s"@,
        n,
        "!"@,
        "-d"@,
        "224.0.0.0/4"@,
        "-j"@,
        "MASQUERADE"@,
    ]);
    assert(rules[2].take(7) =~= seq!["!"@, "-s"@, n, "-d"@, sn, "-j"@, "RETURN"@]);
    assert(rules[3].take(7) =~= seq!["!"@, "-s"@, n, "-d"@, n, "-j"@, "MASQUERADE"@]);
    lemma_rule_from_to(rules[0], n, n, "RETURN"@, inside, p);
    lemma_rule_from_not_to(rules[1], n, "224.0.0.0/4"@, "MASQUERADE"@, inside, p);
    lemma_rule_not_from_to(rules[2], n, sn, "RETURN"@, inside, p);
    lemma_rule_not_from_to(rules[3], n, n, "MASQUERADE"@, inside, p);
    reveal_with_fuel(verdict, 5);
    let r1 = rules.skip(1);
    let r2 = r1.skip(1);
    let r3 = r2.skip(1);
    assert(r1[0] == rules[1] && r2[0] == rules[2] && r3[0] == rules[3]);
    assert(r3.skip(1).len() == 0);
}

/// Rules that are all found by their checks are left alone: making sure of
/// them asks for nothing but the checks, and succeeds.
pub proof fn law_present_rules_are_left_alone(
    backend: Seq<char>,
    rules: Seq<Seq<Seq<char>>>,
    replies: Seq<progress::ReplyView>,
    from: int,
)
    requires
        0 <= from,
        from + rules.len() <= replies.len() <= usize::MAX,
        forall|i: int|
            from <= i < from + rules.len() ==> checked(backend, #[trigger] replies[i]) == Ok::<
                bool,
                Seq<char>,
            >(true),
    ensures
        rules_progress(backend, rules, replies, from) == Progress::<
            progress::InvocationView,
            Result<(), Seq<char>>,
        >::Done(Ok(()), (from + rules.len()) as usize),
    decreases rules.len(),
{
    if rules.len() > 0 {
        assert(checked(backend, replies[from]) == Ok::<bool, Seq<char>>(true));
        law_present_rules_are_left_alone(backend, rules.skip(1), replies, from + 1);
    }
}

// ---------------------------------------------------------------------------
// The chain of outgoing packets
// ---------------------------------------------------------------------------

/// A rule, by its arguments.
pub type Rule = Seq<Seq<char>>;

/// The chain after a command, and whether the command succeeds, where `accepts`
/// says which rules the backend takes. Commands that are not used change nothing
/// and fail.
pub open spec fn command(
    chain: Seq<Rule>,
    accepts: spec_fn(Rule) -> bool,
    q: progress::InvocationView,
) -> (Seq<Rule>, bool) {
    let op = q.args[3];
    let r = q.args.skip(5);
    if op == "-C"@ {
        (chain, chain.contains(r))
    } else if op == "-A"@ && accepts(r) {
        (chain.push(r), true)
    } else {
        (chain, false)
    }
}

/// Whether an answer is the one that a chain gives to a command.
pub open spec fn answers(
    chain: Seq<Rule>,
    accepts: spec_fn(Rule) -> bool,
    q: progress::InvocationView,
    r: progress::ReplyView,
) -> bool {
    r matches progress::ReplyView::Exited { success, .. } && success == command(
        chain,
        accepts,
        q,
    ).1
}

/// The chain after the commands that the answers up to position `k` belong to.
pub open spec fn chain_after(
    backend: Seq<char>,
    rules: Seq<Rule>,
    chain: Seq<Rule>,
    accepts: spec_fn(Rule) -> bool,
    replies: Seq<progress::ReplyView>,
    from: int,
    k: int,
) -> Seq<Rule>
    decreases k - from,
{
    if k <= from {
        chain
    } else {
        let before = chain_after(backend, rules, chain, accepts, replies, from, k - 1);
        match rules_progress(backend, rules, replies.take(k - 1), from) {
            Progress::Ask(q) => command(before, accepts, q).0,
            Progress::Done(_, _) => before,
        }
    }
}

/// Whether the answer at a position is that of the chain, as it is by then, to
/// the next command of a run.
pub open spec fn answered_at(
    backend: Seq<char>,
    rules: Seq<Rule>,
    chain: Seq<Rule>,
    accepts: spec_fn(Rule) -> bool,
    replies: Seq<progress::ReplyView>,
    from: int,
    k: int,
) -> bool {
    rules_progress(backend, rules, replies.take(k), from) matches Progress::Ask(q) && answers(
        chain_after(backend, rules, chain, accepts, replies, from, k),
        accepts,
        q,
        replies[k],
    )
}

/// Whether the answers from a position on are those of a chain to the commands
/// of a run, each to the next command.
pub open spec fn answered(
    backend: Seq<char>,
    rules: Seq<Rule>,
    chain: Seq<Rule>,
    accepts: spec_fn(Rule) -> bool,
    replies: Seq<progress::ReplyView>,
    from: int,
) -> bool {
    forall|k: int|
        from <= k < replies.len() ==> #[trigger] answered_at(
            backend,
            rules,
            chain,
            accepts,
            replies,
            from,
            k,
        )
}

/// A chain with a rule: as it is where it has the rule, otherwise with the rule
/// at its end; where the backend does not take the rule, the same with its
/// plain form, if it has one. Nothing where neither is taken.
pub open spec fn with_rule(
    chain: Seq<Rule>,
    rule: Rule,
    accepts: spec_fn(Rule) -> bool,
) -> Option<Seq<Rule>> {
    if chain.contains(rule) {
        Some(chain)
    } else if accepts(rule) {
        Some(chain.push(rule))
    } else if !rule.contains(random_fully()) {
        None
    } else if chain.contains(stripped(rule)) {
        Some(chain)
    } else if accepts(stripped(rule)) {
        Some(chain.push(stripped(rule)))
    } else {
        None
    }
}

/// A chain with rules: the missing ones stand at its end, in order.
pub open spec fn with_rules(
    chain: Seq<Rule>,
    rules: Seq<Rule>,
    accepts: spec_fn(Rule) -> bool,
) -> Option<Seq<Rule>>
    decreases rules.len(),
{
    if rules.len() == 0 {
        Some(chain)
    } else {
        match with_rule(chain, rules[0], accepts) {
            None => None,
            Some(more) => with_rules(more, rules.skip(1), accepts),
        }
    }
}

/// Whether a chain has a rule, if only in its plain form.
pub open spec fn present(chain: Seq<Rule>, rule: Rule) -> bool {
    chain.contains(rule) || (rule.contains(random_fully()) && chain.contains(stripped(rule)))
}

/// How many commands it takes to make sure of a rule.
spec fn commands_for(chain: Seq<Rule>, rule: Rule, accepts: spec_fn(Rule) -> bool) -> int {
    if chain.contains(rule) {
        1
    } else if accepts(rule) || !rule.contains(random_fully()) {
        2
    } else if chain.contains(stripped(rule)) {
        3
    } else {
        4
    }
}

proof fn lemma_command_parts(backend: Seq<char>, op: Seq<char>, rule: Rule)
    ensures
        post_command(backend, op, rule).args[3] == op,
        post_command(backend, op, rule).args.skip(5) == rule,
        "-C"@ != "-A"@,
{
    reveal_strlit("-C");
    reveal_strlit("-A");
    assert("-C"@[1] == 'C' && "-A"@[1] == 'A');
    assert(post_command(backend, op, rule).args.skip(5) =~= rule);
}

/// The part of a run that makes sure of its first rule.
proof fn lemma_first_rule(
    backend: Seq<char>,
    rules: Seq<Rule>,
    chain: Seq<Rule>,
    accepts: spec_fn(Rule) -> bool,
    replies: Seq<progress::ReplyView>,
    from: int,
)
    requires
        rules.len() > 0,
        0 <= from <= replies.len() <= usize::MAX,
        answered(backend, rules, chain, accepts, replies, from),
    ensures
        ({
            let n = commands_for(chain, rules[0], accepts);
            let p = rule_progress(backend, rules[0], replies, from);
            if replies.len() < from + n {
                p is Ask
            } else {
                &&& p matches Progress::Done(r, next)
                &&& next == from + n
                &&& r is Ok <==> with_rule(chain, rules[0], accepts) is Some
                &&& forall|j: int|
                    from + n <= j <= replies.len() ==> rule_progress(
                        backend,
                        rules[0],
                        #[trigger] replies.take(j),
                        from,
                    ) == p
                &&& r is Ok ==> chain_after(
                    backend,
                    rules,
                    chain,
                    accepts,
                    replies,
                    from,
                    from + n,
                ) == with_rule(chain, rules[0], accepts)->0
            }
        }),
{
    let rule = rules[0];
    let plain = stripped(rule);
    let len = replies.len();
    lemma_command_parts(backend, "-C"@, rule);
    lemma_command_parts(backend, "-A"@, rule);
    lemma_command_parts(backend, "-C"@, plain);
    lemma_command_parts(backend, "-A"@, plain);
    if from < len {
        let t1 = replies.take(from + 1);
        assert(t1[from] == replies[from]);
        assert(answered_at(backend, rules, chain, accepts, replies, from, from));
        assert(chain_after(backend, rules, chain, accepts, replies, from, from + 1) == chain);
        if !chain.contains(rule) && from + 1 < len {
            let t2 = replies.take(from + 2);
            assert(t2[from] == replies[from] && t2[from + 1] == replies[from + 1]);
            assert(answered_at(backend, rules, chain, accepts, replies, from, from + 1));
            let second = chain_after(backend, rules, chain, accepts, replies, from, from + 2);
            assert(accepts(rule) ==> second == chain.push(rule));
            if !accepts(rule) && rule.contains(random_fully()) && from + 2 < len {
                let t3 = replies.take(from + 3);
                assert(t3[from] == replies[from] && t3[from + 1] == replies[from + 1] && t3[from
                    + 2] == replies[from + 2]);
                assert(second == chain);
                assert(answered_at(backend, rules, chain, accepts, replies, from, from + 2));
                let third = chain_after(backend, rules, chain, accepts, replies, from, from + 3);
                assert(third == chain);
                if !chain.contains(plain) && from + 3 < len {
                    assert(answered_at(backend, rules, chain, accepts, replies, from, from + 3));
                    let fourth = chain_after(
                        backend,
                        rules,
                        chain,
                        accepts,
                        replies,
                        from,
                        from + 4,
                    );
                    assert(accepts(plain) ==> fourth == chain.push(plain));
                }
            }
        }
    }
    let n = commands_for(chain, rule, accepts);
    if len >= from + n {
        let p = rule_progress(backend, rule, replies, from);
        assert forall|j: int| from + n <= j <= len implies rule_progress(
            backend,
            rule,
            #[trigger] replies.take(j),
            from,
        ) == p by {
            let cut = replies.take(j);
            assert(cut[from] == replies[from]);
            assert(n > 1 ==> cut[from + 1] == replies[from + 1]);
            assert(n > 2 ==> cut[from + 2] == replies[from + 2]);
            assert(n > 3 ==> cut[from + 3] == replies[from + 3]);
        }
    }
}

proof fn lemma_run_shift(
    backend: Seq<char>,
    rules: Seq<Rule>,
    chain: Seq<Rule>,
    more: Seq<Rule>,
    accepts: spec_fn(Rule) -> bool,
    replies: Seq<progress::ReplyView>,
    from: int,
    next: int,
    k: int,
)
    requires
        rules.len() > 0,
        from <= next <= k <= replies.len(),
        chain_after(backend, rules, chain, accepts, replies, from, next) == more,
        forall|j: int|
            next <= j < k ==> rules_progress(backend, rules, #[trigger] replies.take(j), from)
                == rules_progress(backend, rules.skip(1), replies.take(j), next),
    ensures
        chain_after(backend, rules, chain, accepts, replies, from, k) == chain_after(
            backend,
            rules.skip(1),
            more,
            accepts,
            replies,
            next,
            k,
        ),
    decreases k - next,
{
    if k > next {
        lemma_run_shift(backend, rules, chain, more, accepts, replies, from, next, k - 1);
        assert(rules_progress(backend, rules, replies.take(k - 1), from) == rules_progress(
            backend,
            rules.skip(1),
            replies.take(k - 1),
            next,
        ));
    }
}

/// Making sure of rules, from the first command to the last: with the answers
/// of a chain the run ends after at most four commands for each rule. It
/// succeeds exactly where the backend takes each missing rule, if only in its
/// plain form, and the chain then is the old one with the missing rules at its
/// end, in order.
pub proof fn law_ensure_run(
    backend: Seq<char>,
    rules: Seq<Rule>,
    chain: Seq<Rule>,
    accepts: spec_fn(Rule) -> bool,
    replies: Seq<progress::ReplyView>,
    from: int,
)
    requires
        0 <= from <= replies.len() <= usize::MAX,
        answered(backend, rules, chain, accepts, replies, from),
    ensures
        match rules_progress(backend, rules, replies, from) {
            Progress::Ask(_) => replies.len() - from < 4 * rules.len(),
            Progress::Done(r, n) => {
                &&& n == replies.len()
                &&& r is Ok <==> with_rules(chain, rules, accepts) is Some
                &&& r is Ok ==> chain_after(
                    backend,
                    rules,
                    chain,
                    accepts,
                    replies,
                    from,
                    n as int,
                ) == with_rules(chain, rules, accepts)->0
            },
        },
    decreases rules.len(),
{
    if rules.len() == 0 {
        if from < replies.len() {
            assert(answered_at(backend, rules, chain, accepts, replies, from, from));
        }
    } else {
        lemma_first_rule(backend, rules, chain, accepts, replies, from);
        let n = commands_for(chain, rules[0], accepts);
        let next = from + n;
        let rest = rules.skip(1);
        if next <= replies.len() {
            let p = rule_progress(backend, rules[0], replies, from);
            assert(replies.take(replies.len() as int) =~= replies);
            match with_rule(chain, rules[0], accepts) {
                None => {
                    if next < replies.len() {
                        assert(answered_at(backend, rules, chain, accepts, replies, from, next));
                        assert(rule_progress(backend, rules[0], replies.take(next), from) == p);
                    }
                },
                Some(more) => {
                    assert forall|j: int| next <= j <= replies.len() implies rules_progress(
                        backend,
                        rules,
                        #[trigger] replies.take(j),
                        from,
                    ) == rules_progress(backend, rest, replies.take(j), next) by {
                        assert(rule_progress(backend, rules[0], replies.take(j), from) == p);
                    }
                    assert forall|k: int| next <= k < replies.len() implies #[trigger] answered_at(
                        backend,
                        rest,
                        more,
                        accepts,
                        replies,
                        next,
                        k,
                    ) by {
                        assert(answered_at(backend, rules, chain, accepts, replies, from, k));
                        lemma_run_shift(
                            backend,
                            rules,
                            chain,
                            more,
                            accepts,
                            replies,
                            from,
                            next,
                            k,
                        );
                        assert(rules_progress(backend, rules, replies.take(k), from)
                            == rules_progress(backend, rest, replies.take(k), next));
                    }
                    law_ensure_run(backend, rest, more, accepts, replies, next);
                    lemma_run_shift(
                        backend,
                        rules,
                        chain,
                        more,
                        accepts,
                        replies,
                        from,
                        next,
                        replies.len() as int,
                    );
                    assert(rules_progress(backend, rules, replies, from) == rules_progress(
                        backend,
                        rest,
                        replies,
                        next,
                    ));
                },
            }
        }
    }
}

proof fn lemma_with_rule(chain: Seq<Rule>, rule: Rule, accepts: spec_fn(Rule) -> bool)
    requires
        with_rule(chain, rule, accepts) is Some,
    ensures
        chain.is_prefix_of(with_rule(chain, rule, accepts)->0),
        present(with_rule(chain, rule, accepts)->0, rule),
{
    let more = with_rule(chain, rule, accepts)->0;
    if more.len() > chain.len() {
        assert(more[chain.len() as int] == more.last());
    }
}

proof fn lemma_prefix_holds(a: Seq<Rule>, b: Seq<Rule>, r: Rule)
    requires
        a.is_prefix_of(b),
        a.contains(r),
    ensures
        b.contains(r),
{
    assert(b[a.index_of(r)] == a[a.index_of(r)]);
}

proof fn lemma_with_rules(
    chain: Seq<Rule>,
    rules: Seq<Rule>,
    accepts: spec_fn(Rule) -> bool,
    end: Seq<Rule>,
)
    requires
        with_rules(chain, rules, accepts) is Some,
        with_rules(chain, rules, accepts)->0.is_prefix_of(end),
    ensures
        chain.is_prefix_of(end),
        forall|i: int|
            0 <= i < rules.len() ==> present(end, #[trigger] rules[i]) && with_rule(
                end,
                rules[i],
                accepts,
            ) == Some(end),
    decreases rules.len(),
{
    if rules.len() > 0 {
        let rule = rules[0];
        let rest = rules.skip(1);
        let more = with_rule(chain, rule, accepts)->0;
        lemma_with_rule(chain, rule, accepts);
        lemma_with_rules(more, rest, accepts, end);
        if more.contains(rule) {
            lemma_prefix_holds(more, end, rule);
        }
        if more.contains(stripped(rule)) {
            lemma_prefix_holds(more, end, stripped(rule));
        }
        assert(!more.contains(rule) ==> !accepts(rule)) by {
            if !chain.contains(rule) && accepts(rule) {
                assert(more[chain.len() as int] == rule);
            }
        }
        assert forall|i: int| 0 <= i < rules.len() implies present(end, #[trigger] rules[i])
            && with_rule(end, rules[i], accepts) == Some(end) by {
            if i > 0 {
                assert(rest[i - 1] == rules[i]);
            }
        }
    }
}

proof fn lemma_all_there(chain: Seq<Rule>, rules: Seq<Rule>, accepts: spec_fn(Rule) -> bool)
    requires
        forall|i: int|
            0 <= i < rules.len() ==> with_rule(chain, #[trigger] rules[i], accepts) == Some(chain),
    ensures
        with_rules(chain, rules, accepts) == Some(chain),
    decreases rules.len(),
{
    if rules.len() > 0 {
        assert(with_rule(chain, rules[0], accepts) == Some(chain));
        let rest = rules.skip(1);
        assert forall|i: int| 0 <= i < rest.len() implies with_rule(
            chain,
            #[trigger] rest[i],
            accepts,
        ) == Some(chain) by {
            assert(rest[i] == rules[i + 1]);
        }
        lemma_all_there(chain, rest, accepts);
    }
}

/// Where making sure of rules succeeds, the chain begins with the old one and
/// has each rule, if only in its plain form; and making sure of them again
/// succeeds and changes nothing.
pub proof fn law_ensured_rules_are_there(
    chain: Seq<Rule>,
    rules: Seq<Rule>,
    accepts: spec_fn(Rule) -> bool,
)
    requires
        with_rules(chain, rules, accepts) is Some,
    ensures
        ({
            let end = with_rules(chain, rules, accepts)->0;
            &&& chain.is_prefix_of(end)
            &&& forall|i: int| 0 <= i < rules.len() ==> present(end, #[trigger] rules[i])
            &&& with_rules(end, rules, accepts) == Some(end)
        }),
{
    let end = with_rules(chain, rules, accepts)->0;
    lemma_with_rules(chain, rules, accepts, end);
    lemma_all_there(end, rules, accepts);
}

proof fn lemma_append_all(chain: Seq<Rule>, rules: Seq<Rule>, accepts: spec_fn(Rule) -> bool)
    requires
        rules.no_duplicates(),
        forall|i: int|
            0 <= i < rules.len() ==> accepts(#[trigger] rules[i]) && !chain.contains(rules[i]),
    ensures
        with_rules(chain, rules, accepts) == Some(chain + rules),
    decreases rules.len(),
{
    if rules.len() == 0 {
        assert(chain + rules =~= chain);
    } else {
        let rule = rules[0];
        let rest = rules.skip(1);
        let more = chain.push(rule);
        assert(accepts(rule) && !chain.contains(rule));
        assert forall|i: int| 0 <= i < rest.len() implies accepts(#[trigger] rest[i])
            && !more.contains(rest[i]) by {
            assert(rest[i] == rules[i + 1]);
            if more.contains(rest[i]) {
                let k = more.index_of(rest[i]);
                if k < chain.len() {
                    assert(chain[k] == rest[i]);
                }
            }
        }
        assert(rest.no_duplicates()) by {
            assert forall|i: int, j: int|
                0 <= i < rest.len() && 0 <= j < rest.len() && i != j implies rest[i] != rest[j] by {
                assert(rest[i] == rules[i + 1] && rest[j] == rules[j + 1]);
            }
        }
        lemma_append_all(more, rest, accepts);
        assert(more + rest =~= chain + rules);
    }
}

/// A chain that has none of the masquerading rules gets all of them, in their
/// order, from a backend that takes them: each exemption before what it exempts
/// from.
pub proof fn law_missing_rules_are_appended_in_order(
    chain: Seq<Rule>,
    n: Seq<char>,
    sn: Seq<char>,
    accepts: spec_fn(Rule) -> bool,
)
    requires
        forall|i: int|
            0 <= i < 4 ==> accepts(#[trigger] rules_of(n, sn)[i]) && !chain.contains(
                rules_of(n, sn)[i],
            ),
    ensures
        with_rules(chain, rules_of(n, sn), accepts) == Some(chain + rules_of(n, sn)),
{
    let rules = rules_of(n, sn);
    lemma_options_differ();
    assert(rules[0].len() == 6 && rules[1].len() == 8 && rules[2].len() == 7 && rules[3].len()
        == 8);
    assert(rules[1][0] == "-s"@ && rules[3][0] == "!"@);
    lemma_append_all(chain, rules, accepts);
}

/// The lines of a listing that succeeded.
pub open spec fn listed(r: progress::ReplyView) -> Seq<Seq<char>> {
    match r {
        progress::ReplyView::Exited { success: true, stdout, .. } => text::lines(stdout),
        _ => Seq::empty(),
    }
}

/// Whether kube-proxy has chains among the lines of a listing.
pub open spec fn kube_uses(lines: Seq<Seq<char>>) -> bool {
    exists|i: int| 0 <= i < lines.len() && text::has_text(#[trigger] lines[i], "KUBE-"@)
}

/// The lines of a listing that append a rule.
pub open spec fn rules_among(lines: Seq<Seq<char>>) -> Seq<Seq<char>> {
    lines.filter(|l: Seq<char>| text::begins_with(l, "-A"@))
}

proof fn lemma_rule_count(lines: Seq<Seq<char>>)
    ensures
        rule_count(lines) == rules_among(lines).len(),
    decreases lines.len(),
{
    reveal(Seq::filter);
    if lines.len() > 0 {
        lemma_rule_count(lines.drop_last());
    }
}

/// The backend is the one that kube-proxy uses: where only one of the two shows
/// its chains, that one; otherwise the one with more rules, the newer one where
/// they have as many; and plain iptables where neither shows anything.
pub proof fn law_backend_follows_kube_proxy(nft: progress::ReplyView, legacy: progress::ReplyView)
    ensures
        detection(Seq::empty()) matches Progress::Ask(q) && q.program == "iptables-nft"@ && q.args
            == seq!["-t"@, "nat"@, "-S"@],
        detection(seq![nft]) matches Progress::Ask(q) && q.program == "iptables-legacy"@ && q.args
            == seq!["-t"@, "nat"@, "-S"@],
        ({
            let a = listed(nft);
            let b = listed(legacy);
            let more = rules_among(a).len() - rules_among(b).len();
            &&& detection(seq![nft, legacy]) matches Progress::Done(backend, 2)
            &&& kube_uses(a) && !kube_uses(b) ==> backend == "iptables-nft"@
            &&& kube_uses(b) && !kube_uses(a) ==> backend == "iptables-legacy"@
            &&& kube_uses(a) == kube_uses(b) && more > 0 ==> backend == "iptables-nft"@
            &&& kube_uses(a) == kube_uses(b) && more < 0 ==> backend == "iptables-legacy"@
            &&& kube_uses(a) && kube_uses(b) && more == 0 ==> backend == "iptables-nft"@
            &&& !kube_uses(a) && !kube_uses(b) && more == 0 ==> backend == if rules_among(a).len()
                > 0 {
                "iptables-nft"@
            } else {
                "iptables"@
            }
        }),
{
    lemma_rule_count(listed(nft));
    lemma_rule_count(listed(legacy));
    assert(listed(nft).len() == 0 ==> !kube_uses(listed(nft)) && rule_count(listed(nft)) == 0);
    assert(listed(legacy).len() == 0 ==> !kube_uses(listed(legacy)) && rule_count(listed(legacy))
        == 0);
    let two = seq![nft, legacy];
    assert(two[0] == nft && two[1] == legacy);
}

} // verus!
