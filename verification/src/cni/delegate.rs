//! Running another plugin.

use vstd::prelude::*;
use vstd::string::*;

use crate::cni::env;
use crate::cni::env::CniArgs;
use crate::cni::error;
use crate::cni::error::CniError;
use crate::progress;
use crate::progress::Progress;
use crate::text;

verus! {

/// What the delegate wrote on its standard output, and whether it succeeded.
#[derive(Debug, PartialEq, Eq)]
pub struct DelegateOutput {
    pub stdout: String,
    pub success: bool,
}

/// The model of `DelegateOutput`.
pub struct OutputView {
    pub stdout: Seq<char>,
    pub success: bool,
}

impl View for DelegateOutput {
    type V = OutputView;

    open spec fn view(&self) -> OutputView {
        OutputView { stdout: self.stdout@, success: self.success }
    }
}

/// A question on the way to a delegate's output.
#[derive(Debug, PartialEq, Eq)]
pub enum Question {
    /// Whether there is an executable file of that path.
    IsExecutable(String),
    /// Run a program with these additional variables and this text on its
    /// standard input.
    Run { program: String, env: Vec<(String, String)>, stdin: String },
}

/// The model of `Question`.
pub enum QuestionView {
    IsExecutable(Seq<char>),
    Run { program: Seq<char>, env: Seq<(Seq<char>, Seq<char>)>, stdin: Seq<char> },
}

/// The models of variables.
pub open spec fn variables(v: Seq<(String, String)>) -> Seq<(Seq<char>, Seq<char>)> {
    v.map_values(|e: (String, String)| (e.0@, e.1@))
}

impl View for Question {
    type V = QuestionView;

    open spec fn view(&self) -> QuestionView {
        match self {
            Question::IsExecutable(p) => QuestionView::IsExecutable(p@),
            Question::Run { program, env, stdin } => QuestionView::Run {
                program: program@,
                env: variables(env@),
                stdin: stdin@,
            },
        }
    }
}

/// An answer to a question.
#[derive(Debug)]
pub enum Answer {
    /// Whether there is an executable file.
    Executable(bool),
    /// The program could not be started.
    NotStarted(String),
    /// The end of the program could not be awaited.
    Lost(String),
    /// The program ended.
    Ended { stdout: String, success: bool },
}

/// The model of `Answer`.
pub enum AnswerView {
    Executable(bool),
    NotStarted(Seq<char>),
    Lost(Seq<char>),
    Ended { stdout: Seq<char>, success: bool },
}

impl View for Answer {
    type V = AnswerView;

    open spec fn view(&self) -> AnswerView {
        match self {
            Answer::Executable(b) => AnswerView::Executable(*b),
            Answer::NotStarted(e) => AnswerView::NotStarted(e@),
            Answer::Lost(e) => AnswerView::Lost(e@),
            Answer::Ended { stdout, success } => AnswerView::Ended {
                stdout: stdout@,
                success: *success,
            },
        }
    }
}

/// The models of answers.
pub open spec fn answer_views(v: Seq<Answer>) -> Seq<AnswerView> {
    v.map_values(|a: Answer| a@)
}

// ---------------------------------------------------------------------------
// The search for the program
// ---------------------------------------------------------------------------

/// The path of `name` in `dir`. An absolute name stands for itself, as does
/// one in no directory.
pub open spec fn joined_path(dir: Seq<char>, name: Seq<char>) -> Seq<char> {
    if dir.len() == 0 || (name.len() > 0 && name[0] == '/') {
        name
    } else if dir.last() == '/' {
        dir + name
    } else {
        dir + seq!['/'] + name
    }
}

/// The path of `name` in `dir`.
pub fn join_path(dir: &str, name: &str) -> (p: String)
    ensures
        p@ == joined_path(dir@, name@),
{
    let d = text::chars(dir);
    let n = text::chars(name);
    if d.len() == 0 || (n.len() > 0 && n[0] == '/') {
        return name.to_owned();
    }
    let mut p = dir.to_owned();
    if d[d.len() - 1] != '/' {
        p.push('/');
    }
    p.append(name);
    assert(dir@.push('/') + name@ =~= dir@ + seq!['/'] + name@);
    p
}

/// The paths at which `name` is looked for: in each directory of the list
/// that is not empty, in order.
pub open spec fn places(dirs: Seq<Seq<char>>, name: Seq<char>) -> Seq<Seq<char>>
    decreases dirs.len(),
{
    if dirs.len() == 0 {
        Seq::empty()
    } else if dirs[0].len() == 0 {
        places(dirs.skip(1), name)
    } else {
        seq![joined_path(dirs[0], name)] + places(dirs.skip(1), name)
    }
}

/// The search through the directories: the first path at which there is an
/// executable file.
pub open spec fn search(
    dirs: Seq<Seq<char>>,
    name: Seq<char>,
    answers: Seq<AnswerView>,
    from: int,
) -> Progress<QuestionView, Option<Seq<char>>>
    decreases dirs.len(),
{
    if dirs.len() == 0 {
        Progress::Done(None, from as usize)
    } else if dirs[0].len() == 0 {
        search(dirs.skip(1), name, answers, from)
    } else if from >= answers.len() {
        Progress::Ask(QuestionView::IsExecutable(joined_path(dirs[0], name)))
    } else if answers[from] == AnswerView::Executable(true) {
        Progress::Done(Some(joined_path(dirs[0], name)), (from + 1) as usize)
    } else {
        search(dirs.skip(1), name, answers, from + 1)
    }
}

fn find_in_path(name: &str, cni_path: &str, answers: &Vec<Answer>, from: usize) -> (p: Progress<
    Question,
    Option<String>,
>)
    ensures
        progress::progress_view(p, |q: Question| q@, |o: Option<String>| text::opt_text(o))
            == search(text::split(cni_path@, ':'), name@, answer_views(answers@), from as int),
{
    let dirs = text::split_text(cni_path, ':');
    let ghost all = text::split(cni_path@, ':');
    let ghost views = answer_views(answers@);
    let mut at: usize = from;
    let mut i: usize = 0;
    assert(all.skip(0) =~= all);
    while i < dirs.len()
        invariant
            i <= dirs@.len(),
            all == text::split(cni_path@, ':'),
            all == text::texts(dirs@),
            views == answer_views(answers@),
            search(all, name@, views, from as int) == search(
                all.skip(i as int),
                name@,
                views,
                at as int,
            ),
        decreases dirs@.len() - i,
    {
        assert(all.skip(i as int)[0] == dirs@[i as int]@);
        assert(all.skip(i as int).skip(1) =~= all.skip(i + 1));
        if !dirs[i].as_str().is_empty() {
            let place = join_path(dirs[i].as_str(), name);
            if at >= answers.len() {
                return Progress::Ask(Question::IsExecutable(place));
            }
            assert(views[at as int] == answers@[at as int]@);
            if let Answer::Executable(true) = &answers[at] {
                return Progress::Done(Some(place), at + 1);
            }
            at = at + 1;
        }
        i = i + 1;
    }
    Progress::Done(None, at)
}

// ---------------------------------------------------------------------------
// The run
// ---------------------------------------------------------------------------

/// What `format!("{:?}")` of the standard library writes for a text.
pub uninterp spec fn debug_form(s: Seq<char>) -> Seq<char>;

/// `<str as Debug>::fmt` of the standard library: the text between quotation
/// marks, with escapes.
#[verifier::external_body]
pub(crate) fn debug_text(s: &str) -> (r: String)
    ensures
        r@ == debug_form(s@),
{
    format!("{s:?}")
}

/// The variables that a delegate gets: those of the invocation.
pub open spec fn delegate_env(a: env::ArgsView) -> Seq<(Seq<char>, Seq<char>)> {
    seq![
        ("CNI_COMMAND"@, a.command),
        ("CNI_CONTAINERID"@, a.container_id),
        ("CNI_NETNS"@, a.netns),
        ("CNI_IFNAME"@, a.ifname),
        ("CNI_ARGS"@, a.args),
        ("CNI_PATH"@, a.path),
    ]
}

/// What comes of running the plugin `name`: it is looked for in the
/// directories of the invocation's path and run with the invocation's
/// variables. Failures of its own are no errors; that it is not found, not
/// started or lost is.
pub open spec fn delegation(
    name: Seq<char>,
    args: env::ArgsView,
    stdin: Seq<char>,
    answers: Seq<AnswerView>,
    from: int,
) -> Progress<QuestionView, Result<OutputView, error::ErrorView>> {
    match search(text::split(args.path, ':'), name, answers, from) {
        Progress::Ask(q) => Progress::Ask(q),
        Progress::Done(None, next) => Progress::Done(
            Err(
                error::error(
                    5,
                    "delegate plugin "@ + debug_form(name) + " not found in CNI_PATH"@,
                ),
            ),
            next,
        ),
        Progress::Done(Some(program), next) => if next >= answers.len() {
            Progress::Ask(QuestionView::Run { program, env: delegate_env(args), stdin })
        } else {
            Progress::Done(
                match answers[next as int] {
                    AnswerView::Ended { stdout, success } => Ok(OutputView { stdout, success }),
                    AnswerView::NotStarted(e) => Err(
                        error::detailed(5, "exec delegate "@ + name + " failed"@, e),
                    ),
                    AnswerView::Lost(e) => Err(error::detailed(5, "wait for delegate"@, e)),
                    AnswerView::Executable(_) => Err(error::error(5, "wait for delegate"@)),
                },
                (next + 1) as usize,
            )
        },
    }
}

/// The progress of a delegate's run, by its model.
pub open spec fn run_view(p: Progress<Question, Result<DelegateOutput, CniError>>) -> Progress<
    QuestionView,
    Result<OutputView, error::ErrorView>,
> {
    progress::progress_view(
        p,
        |q: Question| q@,
        |r: Result<DelegateOutput, CniError>| error::result_view(r, |o: DelegateOutput| o@),
    )
}

fn env_of(args: &CniArgs) -> (v: Vec<(String, String)>)
    ensures
        variables(v@) == delegate_env(args@),
{
    let v = vec![
        ("CNI_COMMAND".to_owned(), args.command.clone()),
        ("CNI_CONTAINERID".to_owned(), args.container_id.clone()),
        ("CNI_NETNS".to_owned(), args.netns.clone()),
        ("CNI_IFNAME".to_owned(), args.ifname.clone()),
        ("CNI_ARGS".to_owned(), args.args.clone()),
        ("CNI_PATH".to_owned(), args.path.clone()),
    ];
    assert(variables(v@) =~= delegate_env(args@));
    v
}

/// Finds the plugin `name` in the path of the invocation and runs it with the
/// same variables and the given text on its standard input. It is an error
/// only where the plugin was not found or could not be run.
pub fn run_delegate(
    name: &str,
    args: &CniArgs,
    stdin_json: &str,
    answers: &Vec<Answer>,
    from: usize,
) -> (p: Progress<Question, Result<DelegateOutput, CniError>>)
    ensures
        run_view(p) == delegation(name@, args@, stdin_json@, answer_views(answers@), from as int),
{
    match find_in_path(name, args.path.as_str(), answers, from) {
        Progress::Ask(q) => Progress::Ask(q),
        Progress::Done(None, next) => {
            let msg = text::join3(
                "delegate plugin ",
                debug_text(name).as_str(),
                " not found in CNI_PATH",
            );
            Progress::Done(Err(CniError::new(5, msg.as_str())), next)
        },
        Progress::Done(Some(program), next) => {
            if next >= answers.len() {
                return Progress::Ask(
                    Question::Run { program, env: env_of(args), stdin: stdin_json.to_owned() },
                );
            }
            assert(answer_views(answers@)[next as int] == answers@[next as int]@);
            let r = match &answers[next] {
                Answer::Ended { stdout, success } => Ok(
                    DelegateOutput { stdout: stdout.clone(), success: *success },
                ),
                Answer::NotStarted(e) => Err(
                    CniError::new(
                        5,
                        text::join3("exec delegate ", name, " failed").as_str(),
                    ).with_details(e.as_str()),
                ),
                Answer::Lost(e) => Err(
                    CniError::new(5, "wait for delegate").with_details(e.as_str()),
                ),
                Answer::Executable(_) => Err(CniError::new(5, "wait for delegate")),
            };
            Progress::Done(r, next + 1)
        },
    }
}

/// Whether an environment has these variables: each has the value that is given
/// last for its name.
pub open spec fn carries(
    vars: Seq<(Seq<char>, Seq<char>)>,
    environment: Map<Seq<char>, String>,
) -> bool {
    forall|i: int|
        0 <= i < vars.len() && is_last(vars, i) ==> environment.contains_key(
            (#[trigger] vars[i]).0,
        ) && environment[vars[i].0]@ == vars[i].1
}

/// Whether no later variable has the same name.
pub open spec fn is_last(vars: Seq<(Seq<char>, Seq<char>)>, i: int) -> bool {
    forall|j: int| i < j < vars.len() ==> (#[trigger] vars[j]).0 != vars[i].0
}

/// Whether a plugin that is run with these variables sees an invocation: what it
/// reads from any environment that has them is that invocation, in every part.
pub open spec fn conveys(vars: Seq<(Seq<char>, Seq<char>)>, args: env::ArgsView) -> bool {
    forall|environment: Map<Seq<char>, String>| #[trigger]
        carries(vars, environment) && args.command.len() > 0 ==> env::args_of(environment) == Ok::<
            env::ArgsView,
            error::ErrorView,
        >(args)
}

proof fn lemma_variable_names()
    ensures
        "CNI_COMMAND"@.len() == 11,
        "CNI_CONTAINERID"@.len() == 15,
        "CNI_NETNS"@.len() == 9,
        "CNI_IFNAME"@.len() == 10,
        "CNI_ARGS"@ != "CNI_PATH"@,
        "CNI_ARGS"@.len() == 8,
        "CNI_PATH"@.len() == 8,
{
    reveal_strlit("CNI_COMMAND");
    reveal_strlit("CNI_CONTAINERID");
    reveal_strlit("CNI_NETNS");
    reveal_strlit("CNI_IFNAME");
    reveal_strlit("CNI_ARGS");
    reveal_strlit("CNI_PATH");
    assert("CNI_ARGS"@[4] == 'A' && "CNI_PATH"@[4] == 'P');
}

proof fn lemma_conveys(args: env::ArgsView)
    ensures
        conveys(delegate_env(args), args),
{
    lemma_variable_names();
    let vars = delegate_env(args);
    assert forall|i: int| 0 <= i < vars.len() implies #[trigger] is_last(vars, i) by {}
    assert forall|environment: Map<Seq<char>, String>| #[trigger]
        carries(vars, environment) && args.command.len() > 0 implies env::args_of(environment)
        == Ok::<env::ArgsView, error::ErrorView>(args) by {
        assert(environment[vars[0].0]@ == args.command);
        assert(environment[vars[1].0]@ == args.container_id);
        assert(environment[vars[2].0]@ == args.netns);
        assert(environment[vars[3].0]@ == args.ifname);
        assert(environment[vars[4].0]@ == args.args);
        assert(environment[vars[5].0]@ == args.path);
    }
}

/// Whatever is asked on the way to a delegate's output is a path in the list
/// of places, or the run of the program at one of them. The program gets the
/// given text, and variables from which it reads the same invocation.
pub proof fn law_delegate_is_run_from_the_path(
    name: Seq<char>,
    args: env::ArgsView,
    stdin: Seq<char>,
    answers: Seq<AnswerView>,
    from: int,
)
    ensures
        delegation(name, args, stdin, answers, from) matches Progress::Ask(q) ==> {
            let dirs = text::split(args.path, ':');
            match q {
                QuestionView::IsExecutable(p) => places(dirs, name).contains(p),
                QuestionView::Run { program, env, stdin: given } => places(dirs, name).contains(
                    program,
                ) && conveys(env, args) && given == stdin,
            }
        },
{
    lemma_search_places(text::split(args.path, ':'), name, answers, from);
    lemma_conveys(args);
}

/// A place is where its directory and the name lead: it starts with the
/// directory, it ends with the name, and there is one slash between the two.
pub proof fn law_places_lead_to_the_name(dir: Seq<char>, name: Seq<char>)
    requires
        dir.len() > 0,
        name.len() > 0,
        name[0] != '/',
    ensures
        ({
            let p = joined_path(dir, name);
            let slash = p.len() - name.len() - 1;
            &&& 0 <= slash
            &&& p.skip(slash + 1) == name
            &&& p[slash] == '/'
            &&& dir.is_prefix_of(p)
            &&& p.take(slash + 1) == dir || p.take(slash) == dir
            &&& p.take(slash + 1) == dir <==> dir.last() == '/'
        }),
{
    let p = joined_path(dir, name);
    let slash = p.len() - name.len() - 1;
    assert(p.skip(slash + 1) =~= name);
    if dir.last() == '/' {
        assert(p.take(slash + 1) =~= dir);
        assert(p[slash] == dir[dir.len() - 1]);
    } else {
        assert(p.take(slash) =~= dir);
        assert(p.take(slash + 1).last() == '/');
    }
}

/// What comes of a delegate's run is what it wrote and whether it succeeded, as
/// it ended: nothing else gives an output, and where the delegate was run and
/// ended, its output is what comes of it. A delegate that was not found, not
/// started or lost is an error of code 5.
pub proof fn law_delegate_output_is_handed_back(
    name: Seq<char>,
    args: env::ArgsView,
    stdin: Seq<char>,
    answers: Seq<AnswerView>,
    from: int,
    k: int,
)
    requires
        0 <= from <= answers.len() <= usize::MAX,
        0 <= k < answers.len(),
    ensures
        match delegation(name, args, stdin, answers, from) {
            Progress::Done(Ok(out), next) => {
                &&& from < next <= answers.len()
                &&& answers[next - 1] == (AnswerView::Ended {
                    stdout: out.stdout,
                    success: out.success,
                })
                &&& delegation(name, args, stdin, answers.take(next - 1), from) matches
                    Progress::Ask(QuestionView::Run { .. })
            },
            Progress::Done(Err(e), _) => e.code == 5,
            Progress::Ask(_) => true,
        },
        delegation(name, args, stdin, answers.take(k), from) matches Progress::Ask(
            QuestionView::Run { .. },
        ) ==> (delegation(name, args, stdin, answers, from) matches Progress::Done(Ok(_), _)) == (
        answers[k] is Ended) && (answers[k] matches AnswerView::Ended { stdout: out, success }
            ==> delegation(name, args, stdin, answers, from)->Done_0->Ok_0 == OutputView {
            stdout: out,
            success,
        }),
{
    let dirs = text::split(args.path, ':');
    lemma_search_in_turn(dirs, name, answers, from);
    lemma_search_extends(dirs, name, answers, from, k);
    lemma_search_places(dirs, name, answers.take(k), from);
    if let Progress::Done(Some(_), next) = search(dirs, name, answers, from) {
        if next < answers.len() {
            let cut = answers.take(next as int);
            assert(search(dirs, name, cut, from) == search(dirs, name, answers, from));
        }
    }
}

proof fn lemma_search_extends(
    dirs: Seq<Seq<char>>,
    name: Seq<char>,
    answers: Seq<AnswerView>,
    from: int,
    k: int,
)
    requires
        0 <= from,
        0 <= k <= answers.len() <= usize::MAX,
    ensures
        search(dirs, name, answers.take(k), from) matches Progress::Done(found, next) ==> search(
            dirs,
            name,
            answers,
            from,
        ) == search(dirs, name, answers.take(k), from) && (found is Some ==> next <= k),
    decreases dirs.len(),
{
    if dirs.len() > 0 {
        if dirs[0].len() == 0 {
            lemma_search_extends(dirs.skip(1), name, answers, from, k);
        } else if from < k {
            assert(answers.take(k)[from] == answers[from]);
            lemma_search_extends(dirs.skip(1), name, answers, from + 1, k);
        }
    }
}

proof fn lemma_search_in_turn(
    dirs: Seq<Seq<char>>,
    name: Seq<char>,
    answers: Seq<AnswerView>,
    from: int,
)
    requires
        0 <= from,
        answers.len() <= usize::MAX,
    ensures
        search(dirs, name, answers, from) matches Progress::Done(found, next) ==> {
            &&& from <= answers.len() ==> from <= next <= answers.len()
            &&& found is Some ==> from < next <= answers.len()
            &&& found is None && next > from && from <= answers.len() ==> !(answers[next - 1]
                == AnswerView::Executable(true))
            &&& from <= next <= answers.len() ==> search(
                dirs,
                name,
                answers.take(next as int),
                from,
            ) == search(dirs, name, answers, from)
        },
    decreases dirs.len(),
{
    if dirs.len() > 0 {
        if dirs[0].len() == 0 {
            lemma_search_in_turn(dirs.skip(1), name, answers, from);
        } else if from < answers.len() {
            lemma_search_in_turn(dirs.skip(1), name, answers, from + 1);
        }
    }
}

proof fn lemma_search_places(
    dirs: Seq<Seq<char>>,
    name: Seq<char>,
    answers: Seq<AnswerView>,
    from: int,
)
    ensures
        match search(dirs, name, answers, from) {
            Progress::Ask(QuestionView::IsExecutable(p)) => places(dirs, name).contains(p),
            Progress::Ask(_) => false,
            Progress::Done(Some(p), _) => places(dirs, name).contains(p),
            Progress::Done(None, _) => true,
        },
    decreases dirs.len(),
{
    if dirs.len() > 0 {
        lemma_search_places(dirs.skip(1), name, answers, from);
        lemma_search_places(dirs.skip(1), name, answers, from + 1);
        let rest = places(dirs.skip(1), name);
        if dirs[0].len() > 0 {
            let all = places(dirs, name);
            assert(all[0] == joined_path(dirs[0], name));
            assert forall|p: Seq<char>| rest.contains(p) implies all.contains(p) by {
                let i = rest.index_of(p);
                assert(all[i + 1] == p);
            }
        }
    }
}

/// Whether the answers tell the truth about which of the places hold an
/// executable file.
pub open spec fn truthful(
    places: Seq<Seq<char>>,
    answers: Seq<AnswerView>,
    from: int,
    executables: Set<Seq<char>>,
) -> bool {
    forall|i: int|
        0 <= i < places.len() && from + i < answers.len() ==> answers[from + i]
            == AnswerView::Executable(executables.contains(#[trigger] places[i]))
}

/// What is found is the executable file in the first directory that has one:
/// no place before it has one, and nothing is found only where no place has
/// one.
pub proof fn law_the_first_executable_is_found(
    dirs: Seq<Seq<char>>,
    name: Seq<char>,
    answers: Seq<AnswerView>,
    from: int,
    executables: Set<Seq<char>>,
)
    requires
        0 <= from,
        answers.len() <= usize::MAX,
        truthful(places(dirs, name), answers, from, executables),
    ensures
        match search(dirs, name, answers, from) {
            Progress::Done(Some(p), next) => {
                let at = next - from - 1;
                &&& 0 <= at < places(dirs, name).len()
                &&& p == places(dirs, name)[at]
                &&& executables.contains(p)
                &&& forall|i: int|
                    0 <= i < at ==> !executables.contains(#[trigger] places(dirs, name)[i])
            },
            Progress::Done(None, _) => forall|i: int|
                0 <= i < places(dirs, name).len() ==> !executables.contains(
                    #[trigger] places(dirs, name)[i],
                ),
            Progress::Ask(_) => answers.len() < from + places(dirs, name).len(),
        },
    decreases dirs.len(),
{
    if dirs.len() > 0 {
        let rest = places(dirs.skip(1), name);
        let all = places(dirs, name);
        if dirs[0].len() == 0 {
            law_the_first_executable_is_found(dirs.skip(1), name, answers, from, executables);
        } else if from < answers.len() {
            assert(all[0] == joined_path(dirs[0], name));
            assert(answers[from + 0] == AnswerView::Executable(executables.contains(all[0])));
            assert(forall|i: int| 0 <= i < rest.len() ==> #[trigger] rest[i] == all[i + 1]);
            assert forall|i: int|
                0 <= i < rest.len() && from + 1 + i < answers.len() implies answers[from + 1 + i]
                == AnswerView::Executable(executables.contains(#[trigger] rest[i])) by {
                assert(answers[from + (i + 1)] == AnswerView::Executable(
                    executables.contains(all[i + 1]),
                ));
            }
            law_the_first_executable_is_found(dirs.skip(1), name, answers, from + 1, executables);
            assert forall|i: int|
                1 <= i < all.len() implies #[trigger] all[i] == rest[i - 1] by {}
        }
    }
}

} // verus!
