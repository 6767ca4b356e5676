//! Work that needs answers from outside.
//!
//! A function of this kind takes the answers that have come in so far and
//! says what to ask next, or that it is done. It starts at a position in the
//! list of answers; when it is done it says at which position what comes
//! after it goes on.

use vstd::prelude::*;
use vstd::string::*;

use crate::text;

verus! {

/// What is known after the answers so far: the next question, or the outcome
/// and the position after the last answer that was used.
#[derive(Debug)]
pub enum Progress<Q, T> {
    Ask(Q),
    Done(T, usize),
}

/// The model of a progress.
pub open spec fn progress_view<Q, T, QV, TV>(
    p: Progress<Q, T>,
    question: spec_fn(Q) -> QV,
    outcome: spec_fn(T) -> TV,
) -> Progress<QV, TV> {
    match p {
        Progress::Ask(q) => Progress::Ask(question(q)),
        Progress::Done(t, next) => Progress::Done(outcome(t), next),
    }
}

/// A program to run, with its arguments.
#[derive(Debug, PartialEq, Eq)]
pub struct Invocation {
    pub program: String,
    pub args: Vec<String>,
}

/// The model of `Invocation`.
pub struct InvocationView {
    pub program: Seq<char>,
    pub args: Seq<Seq<char>>,
}

impl View for Invocation {
    type V = InvocationView;

    open spec fn view(&self) -> InvocationView {
        InvocationView { program: self.program@, args: text::texts(self.args@) }
    }
}

/// What came of running a program: it could not be run, or it ended.
#[derive(Debug)]
pub enum Reply {
    Failed(String),
    Exited { success: bool, stdout: String, stderr: String },
}

/// The model of `Reply`.
pub enum ReplyView {
    Failed(Seq<char>),
    Exited { success: bool, stdout: Seq<char>, stderr: Seq<char> },
}

impl View for Reply {
    type V = ReplyView;

    open spec fn view(&self) -> ReplyView {
        match self {
            Reply::Failed(e) => ReplyView::Failed(e@),
            Reply::Exited { success, stdout, stderr } => ReplyView::Exited {
                success: *success,
                stdout: stdout@,
                stderr: stderr@,
            },
        }
    }
}

/// The models of answers.
pub open spec fn reply_views(v: Seq<Reply>) -> Seq<ReplyView> {
    v.map_values(|r: Reply| r@)
}

/// Whether work takes its answers in turn: where it ends, it has asked once for
/// each answer from a position on up to the end, and later answers change
/// nothing.
pub open spec fn in_turn<Q, T, R>(
    work: spec_fn(Seq<R>) -> Progress<Q, T>,
    replies: Seq<R>,
    from: int,
) -> bool {
    work(replies) matches Progress::Done(_, next) ==> {
        &&& from <= next <= replies.len()
        &&& forall|j: int| next <= j <= replies.len() ==> work(#[trigger] replies.take(j)) == work(
            replies,
        )
        &&& forall|j: int| from <= j < next ==> work(#[trigger] replies.take(j)) is Ask
    }
}

} // verus!
