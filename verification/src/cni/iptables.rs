//! The nat table, through the command line of iptables.

use vstd::prelude::*;
use vstd::string::*;

use crate::cni::error;
use crate::cni::error::CniError;
use crate::progress;
use crate::progress::{Invocation, Progress, Reply};
use crate::text;

verus! {

/// A thin layer over the iptables command line, pinned to the backend (nft or
/// legacy) that holds the active rules of kube-proxy. All operations concern
/// the `nat` table.
#[derive(Debug)]
pub struct Iptables {
    backend: String,
}

/// An operation on the nat table.
#[derive(Debug, PartialEq, Eq)]
pub enum NatOp {
    /// Create a chain if it is absent.
    EnsureChain(String),
    /// Append a rule to a chain if it is absent.
    EnsureRule(String, Vec<String>),
    /// Delete a rule; it may be absent.
    DeleteRule(String, Vec<String>),
    /// Flush and delete a chain; it may be absent.
    RemoveChain(String),
}

/// The model of `NatOp`.
pub enum NatOpView {
    EnsureChain(Seq<char>),
    EnsureRule(Seq<char>, Seq<Seq<char>>),
    DeleteRule(Seq<char>, Seq<Seq<char>>),
    RemoveChain(Seq<char>),
}

impl View for NatOp {
    type V = NatOpView;

    open spec fn view(&self) -> NatOpView {
        match self {
            NatOp::EnsureChain(c) => NatOpView::EnsureChain(c@),
            NatOp::EnsureRule(c, r) => NatOpView::EnsureRule(c@, text::texts(r@)),
            NatOp::DeleteRule(c, r) => NatOpView::DeleteRule(c@, text::texts(r@)),
            NatOp::RemoveChain(c) => NatOpView::RemoveChain(c@),
        }
    }
}

/// The models of operations.
pub open spec fn op_views(v: Seq<NatOp>) -> Seq<NatOpView> {
    v.map_values(|o: NatOp| o@)
}

// ---------------------------------------------------------------------------
// Choice of the backend
// ---------------------------------------------------------------------------

/// The listing of the nat table by a backend.
pub open spec fn listing(backend: Seq<char>) -> progress::InvocationView {
    progress::InvocationView { program: backend, args: seq!["-t"@, "nat"@, "-S"@] }
}

/// Whether a listing shows the chains of kube-proxy.
pub open spec fn shows_kube(r: progress::ReplyView) -> bool {
    r matches progress::ReplyView::Exited { success, stdout, .. } && success && text::has_text(
        stdout,
        "KUBE-"@,
    )
}

/// The choice of a backend: nft and legacy are asked for a listing, in this
/// order, and the first whose listing shows the chains of kube-proxy is
/// taken; plain iptables where neither does.
pub open spec fn detection(replies: Seq<progress::ReplyView>) -> Progress<
    progress::InvocationView,
    Seq<char>,
> {
    if replies.len() == 0 {
        Progress::Ask(listing("iptables-nft"@))
    } else if shows_kube(replies[0]) {
        Progress::Done("iptables-nft"@, 1)
    } else if replies.len() == 1 {
        Progress::Ask(listing("iptables-legacy"@))
    } else if shows_kube(replies[1]) {
        Progress::Done("iptables-legacy"@, 2)
    } else {
        Progress::Done("iptables"@, 2)
    }
}

fn list_nat(backend: &str) -> (i: Invocation)
    ensures
        i@ == listing(backend@),
{
    let args = vec!["-t".to_owned(), "nat".to_owned(), "-S".to_owned()];
    assert(text::texts(args@) =~= seq!["-t"@, "nat"@, "-S"@]);
    Invocation { program: backend.to_owned(), args }
}

fn kube_listed(r: &Reply) -> (b: bool)
    ensures
        b == shows_kube(r@),
{
    match r {
        Reply::Exited { success, stdout, stderr: _ } => *success && text::contains_text(
            stdout.as_str(),
            "KUBE-",
        ),
        Reply::Failed(_) => false,
    }
}

// ---------------------------------------------------------------------------
// Operations
// ---------------------------------------------------------------------------

/// A command on a chain of the nat table, waiting for the table's lock.
pub open spec fn nat_command(
    backend: Seq<char>,
    op: Seq<char>,
    chain: Seq<char>,
    rule: Seq<Seq<char>>,
) -> progress::InvocationView {
    progress::InvocationView {
        program: backend,
        args: seq!["--wait"@, "-t"@, "nat"@, op, chain] + rule,
    }
}

/// The error of a command that could not be run.
pub open spec fn exec_error(backend: Seq<char>, reason: Seq<char>) -> error::ErrorView {
    error::detailed(7, "exec "@ + backend, reason)
}

/// Creating a chain. That it exists already is no failure.
pub open spec fn chain_progress(
    backend: Seq<char>,
    chain: Seq<char>,
    replies: Seq<progress::ReplyView>,
    from: int,
) -> Progress<progress::InvocationView, Result<(), error::ErrorView>> {
    if from >= replies.len() {
        Progress::Ask(nat_command(backend, "-N"@, chain, Seq::empty()))
    } else {
        Progress::Done(
            match replies[from] {
                progress::ReplyView::Failed(e) => Err(exec_error(backend, e)),
                progress::ReplyView::Exited { success, stderr, .. } => if success || text::has_text(
                    stderr,
                    "exists"@,
                ) {
                    Ok(())
                } else {
                    Err(error::detailed(7, "create chain "@ + chain, stderr))
                },
            },
            (from + 1) as usize,
        )
    }
}

/// Appending a rule that is absent: a check, and an append where the check
/// does not find the rule.
pub open spec fn rule_progress(
    backend: Seq<char>,
    chain: Seq<char>,
    rule: Seq<Seq<char>>,
    replies: Seq<progress::ReplyView>,
    from: int,
) -> Progress<progress::InvocationView, Result<(), error::ErrorView>> {
    if from >= replies.len() {
        Progress::Ask(nat_command(backend, "-C"@, chain, rule))
    } else {
        match replies[from] {
            progress::ReplyView::Failed(e) => Progress::Done(
                Err(exec_error(backend, e)),
                (from + 1) as usize,
            ),
            progress::ReplyView::Exited { success, .. } => if success {
                Progress::Done(Ok(()), (from + 1) as usize)
            } else if from + 1 >= replies.len() {
                Progress::Ask(nat_command(backend, "-A"@, chain, rule))
            } else {
                Progress::Done(
                    match replies[from + 1] {
                        progress::ReplyView::Failed(e) => Err(exec_error(backend, e)),
                        progress::ReplyView::Exited { success, stderr, .. } => if success {
                            Ok(())
                        } else {
                            Err(error::detailed(7, "append rule to "@ + chain, stderr))
                        },
                    },
                    (from + 2) as usize,
                )
            },
        }
    }
}

/// Deleting a rule. Whatever comes of it, it is no failure.
pub open spec fn delete_progress(
    backend: Seq<char>,
    chain: Seq<char>,
    rule: Seq<Seq<char>>,
    replies: Seq<progress::ReplyView>,
    from: int,
) -> Progress<progress::InvocationView, Result<(), error::ErrorView>> {
    if from >= replies.len() {
        Progress::Ask(nat_command(backend, "-D"@, chain, rule))
    } else {
        Progress::Done(Ok(()), (from + 1) as usize)
    }
}

/// Flushing a chain and deleting it. Whatever comes of it, it is no failure.
pub open spec fn remove_progress(
    backend: Seq<char>,
    chain: Seq<char>,
    replies: Seq<progress::ReplyView>,
    from: int,
) -> Progress<progress::InvocationView, Result<(), error::ErrorView>> {
    if from >= replies.len() {
        Progress::Ask(nat_command(backend, "-F"@, chain, Seq::empty()))
    } else if from + 1 >= replies.len() {
        Progress::Ask(nat_command(backend, "-X"@, chain, Seq::empty()))
    } else {
        Progress::Done(Ok(()), (from + 2) as usize)
    }
}

/// One operation.
pub open spec fn op_progress(
    backend: Seq<char>,
    op: NatOpView,
    replies: Seq<progress::ReplyView>,
    from: int,
) -> Progress<progress::InvocationView, Result<(), error::ErrorView>> {
    match op {
        NatOpView::EnsureChain(chain) => chain_progress(backend, chain, replies, from),
        NatOpView::EnsureRule(chain, rule) => rule_progress(backend, chain, rule, replies, from),
        NatOpView::DeleteRule(chain, rule) => delete_progress(backend, chain, rule, replies, from),
        NatOpView::RemoveChain(chain) => remove_progress(backend, chain, replies, from),
    }
}

/// Operations in order, up to the first that fails.
pub open spec fn ops_progress(
    backend: Seq<char>,
    ops: Seq<NatOpView>,
    replies: Seq<progress::ReplyView>,
    from: int,
) -> Progress<progress::InvocationView, Result<(), error::ErrorView>>
    decreases ops.len(),
{
    if ops.len() == 0 {
        Progress::Done(Ok(()), from as usize)
    } else {
        match op_progress(backend, ops[0], replies, from) {
            Progress::Ask(q) => Progress::Ask(q),
            Progress::Done(Err(e), next) => Progress::Done(Err(e), next),
            Progress::Done(Ok(_), next) => ops_progress(
                backend,
                ops.skip(1),
                replies,
                next as int,
            ),
        }
    }
}

/// The progress of an operation by its model.
pub open spec fn nat_view(p: Progress<Invocation, Result<(), CniError>>) -> Progress<
    progress::InvocationView,
    Result<(), error::ErrorView>,
> {
    progress::progress_view(
        p,
        |q: Invocation| q@,
        |r: Result<(), CniError>| error::result_view(r, |u: ()| u),
    )
}

impl Iptables {
    /// The program that is run.
    pub closed spec fn program(&self) -> Seq<char> {
        self.backend@
    }

    /// Picks the backend whose nat table holds the chains of kube-proxy, or
    /// plain iptables, from the listings that were asked for so far.
    pub fn detect(replies: &Vec<Reply>) -> (p: Progress<Invocation, Iptables>)
        ensures
            progress::progress_view(p, |q: Invocation| q@, |i: Iptables| i.program()) == detection(
                progress::reply_views(replies@),
            ),
    {
        let ghost views = progress::reply_views(replies@);
        if replies.len() == 0 {
            return Progress::Ask(list_nat("iptables-nft"));
        }
        assert(views[0] == replies@[0]@);
        if kube_listed(&replies[0]) {
            return Progress::Done(Iptables { backend: "iptables-nft".to_owned() }, 1);
        }
        if replies.len() == 1 {
            return Progress::Ask(list_nat("iptables-legacy"));
        }
        assert(views[1] == replies@[1]@);
        if kube_listed(&replies[1]) {
            return Progress::Done(Iptables { backend: "iptables-legacy".to_owned() }, 2);
        }
        Progress::Done(Iptables { backend: "iptables".to_owned() }, 2)
    }

    /// An explicit backend, where detection is not needed.
    pub fn with_backend(backend: &str) -> (i: Iptables)
        ensures
            i.program() == backend@,
    {
        Iptables { backend: backend.to_owned() }
    }

    fn command(&self, op: &str, chain: &str, rule: &Vec<String>) -> (i: Invocation)
        ensures
            i@ == nat_command(self.program(), op@, chain@, text::texts(rule@)),
    {
        let mut args: Vec<String> = vec![
            "--wait".to_owned(),
            "-t".to_owned(),
            "nat".to_owned(),
            op.to_owned(),
            chain.to_owned(),
        ];
        let ghost head = seq!["--wait"@, "-t"@, "nat"@, op@, chain@];
        assert(text::texts(args@) =~= head);
        let mut more = text::copy_texts(rule);
        let ghost tail = more@;
        args.append(&mut more);
        assert(text::texts(args@) =~= head + text::texts(tail));
        Invocation { program: self.backend.clone(), args }
    }

    fn exec_failure(&self, reason: &str) -> (e: CniError)
        ensures
            e@ == exec_error(self.program(), reason@),
    {
        CniError::new(7, text::join2("exec ", self.backend.as_str()).as_str()).with_details(reason)
    }

    /// Creates a nat chain if it is absent.
    pub fn ensure_chain(&self, chain: &str, replies: &Vec<Reply>, from: usize) -> (p: Progress<
        Invocation,
        Result<(), CniError>,
    >)
        ensures
            nat_view(p) == chain_progress(
                self.program(),
                chain@,
                progress::reply_views(replies@),
                from as int,
            ),
    {
        if from >= replies.len() {
            let none: Vec<String> = Vec::new();
            assert(text::texts(none@) =~= Seq::<Seq<char>>::empty());
            return Progress::Ask(self.command("-N", chain, &none));
        }
        assert(progress::reply_views(replies@)[from as int] == replies@[from as int]@);
        let r = match &replies[from] {
            Reply::Failed(e) => Err(self.exec_failure(e.as_str())),
            Reply::Exited { success, stdout: _, stderr } => if *success || text::contains_text(
                stderr.as_str(),
                "exists",
            ) {
                Ok(())
            } else {
                Err(
                    CniError::new(7, text::join2("create chain ", chain).as_str()).with_details(
                        stderr.as_str(),
                    ),
                )
            },
        };
        Progress::Done(r, from + 1)
    }

    /// Appends a rule to a nat chain if it is absent: a check, then an append.
    pub fn ensure_rule(
        &self,
        chain: &str,
        rule: &Vec<String>,
        replies: &Vec<Reply>,
        from: usize,
    ) -> (p: Progress<Invocation, Result<(), CniError>>)
        ensures
            nat_view(p) == rule_progress(
                self.program(),
                chain@,
                text::texts(rule@),
                progress::reply_views(replies@),
                from as int,
            ),
    {
        if from >= replies.len() {
            return Progress::Ask(self.command("-C", chain, rule));
        }
        let ghost views = progress::reply_views(replies@);
        assert(views[from as int] == replies@[from as int]@);
        match &replies[from] {
            Reply::Failed(e) => {
                return Progress::Done(Err(self.exec_failure(e.as_str())), from + 1);
            },
            Reply::Exited { success, stdout: _, stderr: _ } => {
                if *success {
                    return Progress::Done(Ok(()), from + 1);
                }
            },
        }
        if from + 1 >= replies.len() {
            return Progress::Ask(self.command("-A", chain, rule));
        }
        assert(views[from + 1] == replies@[from + 1]@);
        let r = match &replies[from + 1] {
            Reply::Failed(e) => Err(self.exec_failure(e.as_str())),
            Reply::Exited { success, stdout: _, stderr } => if *success {
                Ok(())
            } else {
                Err(
                    CniError::new(7, text::join2("append rule to ", chain).as_str()).with_details(
                        stderr.as_str(),
                    ),
                )
            },
        };
        Progress::Done(r, from + 2)
    }

    /// Deletes a rule. A missing rule is fine.
    pub fn delete_rule(
        &self,
        chain: &str,
        rule: &Vec<String>,
        replies: &Vec<Reply>,
        from: usize,
    ) -> (p: Progress<Invocation, Result<(), CniError>>)
        ensures
            nat_view(p) == delete_progress(
                self.program(),
                chain@,
                text::texts(rule@),
                progress::reply_views(replies@),
                from as int,
            ),
    {
        if from >= replies.len() {
            Progress::Ask(self.command("-D", chain, rule))
        } else {
            Progress::Done(Ok(()), from + 1)
        }
    }

    /// Flushes and deletes a chain. A missing chain is fine.
    pub fn flush_delete_chain(&self, chain: &str, replies: &Vec<Reply>, from: usize) -> (p:
        Progress<Invocation, Result<(), CniError>>)
        ensures
            nat_view(p) == remove_progress(
                self.program(),
                chain@,
                progress::reply_views(replies@),
                from as int,
            ),
    {
        let none: Vec<String> = Vec::new();
        assert(text::texts(none@) =~= Seq::<Seq<char>>::empty());
        if from >= replies.len() {
            Progress::Ask(self.command("-F", chain, &none))
        } else if from + 1 >= replies.len() {
            Progress::Ask(self.command("-X", chain, &none))
        } else {
            Progress::Done(Ok(()), from + 2)
        }
    }

    /// Performs one operation.
    pub fn perform(&self, op: &NatOp, replies: &Vec<Reply>, from: usize) -> (p: Progress<
        Invocation,
        Result<(), CniError>,
    >)
        ensures
            nat_view(p) == op_progress(
                self.program(),
                op@,
                progress::reply_views(replies@),
                from as int,
            ),
    {
        match op {
            NatOp::EnsureChain(chain) => self.ensure_chain(chain.as_str(), replies, from),
            NatOp::EnsureRule(chain, rule) => self.ensure_rule(chain.as_str(), rule, replies, from),
            NatOp::DeleteRule(chain, rule) => self.delete_rule(chain.as_str(), rule, replies, from),
            NatOp::RemoveChain(chain) => self.flush_delete_chain(chain.as_str(), replies, from),
        }
    }

    /// Performs operations in order, up to the first that fails.
    pub fn perform_all(&self, ops: &Vec<NatOp>, replies: &Vec<Reply>, from: usize) -> (p: Progress<
        Invocation,
        Result<(), CniError>,
    >)
        ensures
            nat_view(p) == ops_progress(
                self.program(),
                op_views(ops@),
                progress::reply_views(replies@),
                from as int,
            ),
    {
        let ghost plan = op_views(ops@);
        let ghost views = progress::reply_views(replies@);
        let mut at: usize = from;
        let mut i: usize = 0;
        assert(plan.skip(0) =~= plan);
        while i < ops.len()
            invariant
                i <= ops@.len(),
                plan == op_views(ops@),
                views == progress::reply_views(replies@),
                ops_progress(self.program(), plan, views, from as int) == ops_progress(
                    self.program(),
                    plan.skip(i as int),
                    views,
                    at as int,
                ),
            decreases ops@.len() - i,
        {
            assert(plan.skip(i as int)[0] == ops@[i as int]@);
            assert(plan.skip(i as int).skip(1) =~= plan.skip(i + 1));
            match self.perform(&ops[i], replies, at) {
                Progress::Ask(q) => {
                    return Progress::Ask(q);
                },
                Progress::Done(Err(e), next) => {
                    return Progress::Done(Err(e), next);
                },
                Progress::Done(Ok(_), next) => {
                    at = next;
                },
            }
            i = i + 1;
        }
        Progress::Done(Ok(()), at)
    }
}

// ---------------------------------------------------------------------------
// Laws
// ---------------------------------------------------------------------------

/// Whether a listing that succeeded shows chains of kube-proxy.
pub open spec fn kube_uses(r: progress::ReplyView) -> bool {
    match r {
        progress::ReplyView::Exited { success: true, stdout, .. } => text::has_text(
            stdout,
            "KUBE-"@,
        ),
        _ => false,
    }
}

/// The backend is one that kube-proxy uses, where one of the two shows its
/// chains, with the newer one first; plain iptables is taken only where neither
/// does. A backend is taken only once it was asked for its rules.
pub proof fn law_backend_follows_kube_proxy(replies: Seq<progress::ReplyView>)
    ensures
        match detection(replies) {
            Progress::Ask(q) => {
                &&& q.args == seq!["-t"@, "nat"@, "-S"@]
                &&& replies.len() == 0 && q.program == "iptables-nft"@ || replies.len() == 1
                    && !kube_uses(replies[0]) && q.program == "iptables-legacy"@
            },
            Progress::Done(backend, n) => {
                &&& 1 <= n <= replies.len()
                &&& n == 1 <==> kube_uses(replies[0])
                &&& n <= 2
                &&& backend == if kube_uses(replies[0]) {
                    "iptables-nft"@
                } else if kube_uses(replies[1]) {
                    "iptables-legacy"@
                } else {
                    "iptables"@
                }
            },
        },
{
}

} // verus!
