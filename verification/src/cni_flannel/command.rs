//! The commands of the flannel plugin.

use vstd::prelude::*;
use vstd::string::*;

use crate::cni::config;
use crate::cni::delegate::{Answer, Question};
use crate::cni::delegate as runner;
use crate::cni::env;
use crate::cni::env::CniArgs;
use crate::cni::error;
use crate::cni::error::CniError;
use crate::cni::plugin;
use crate::cni::plugin::Verb;
use crate::cni::version;
use crate::cni::version::VersionResult;
use crate::cni_flannel::delegate;
use crate::cni_flannel::delegate::FlannelConf;
use crate::cni_flannel::subnetenv;
use crate::cni_flannel::subnetenv::SubnetEnv;
use crate::decode;
use crate::json;
use crate::json::Json;
use crate::progress;
use crate::progress::Progress;
use crate::text;

verus! {

/// The file that the daemon writes.
pub const SUBNET_ENV_PATH: &'static str = "/run/flannel/subnet.env";

/// What stands in for the subnet when a container is deleted without one.
pub open spec fn placeholder() -> subnetenv::EnvView {
    subnetenv::EnvView { network: ""@, subnet: ""@, mtu: 0, ipmasq: false }
}

/// The subnet to work with. Deleting has to work without one: what it holds is
/// irrelevant to the teardown. Otherwise its absence means to try again.
pub open spec fn chosen_env(env: Option<subnetenv::EnvView>, command: Seq<char>) -> Result<
    subnetenv::EnvView,
    error::ErrorView,
> {
    match env {
        Some(e) => Ok(e),
        None => if command == "DEL"@ {
            Ok(placeholder())
        } else {
            Err(
                error::error(
                    11,
                    "failed to read /run/flannel/subnet.env (flanneld not ready?)"@,
                ),
            )
        },
    }
}

/// The type of the delegate: that of its configuration, a bridge where it is
/// no text.
pub open spec fn delegate_type(members: Map<Seq<char>, Json>) -> Seq<char> {
    match members["type"@] {
        Json::Text(s) => s,
        _ => "bridge"@,
    }
}

/// The delegate's type and its configuration as JSON text.
pub open spec fn resolved(
    stdin: Seq<char>,
    env: Option<subnetenv::EnvView>,
    command: Seq<char>,
) -> Result<(Seq<char>, Seq<char>), error::ErrorView> {
    match delegate::conf(stdin) {
        Err(f) => Err(
            error::detailed(6, "failed to decode network config"@, decode::fault_text(f)),
        ),
        Ok(c) => match chosen_env(env, command) {
            Err(e) => Err(e),
            Ok(env) => {
                let members = delegate::delegate_members(c, env);
                Ok((delegate_type(members), json::json_printed(Json::Object(members))))
            },
        },
    }
}

/// The model of an optional subnet.
pub open spec fn opt_env(e: Option<SubnetEnv>) -> Option<subnetenv::EnvView> {
    match e {
        Some(e) => Some(e@),
        None => None,
    }
}

/// The delegate's type and its configuration as JSON text, from the plugin's
/// own configuration and the subnet, if it is known.
pub fn resolve_delegate(stdin: &str, env: Option<SubnetEnv>, command: &str) -> (r: Result<
    (String, String),
    CniError,
>)
    ensures
        error::result_view(r, |t: (String, String)| (t.0@, t.1@)) == resolved(
            stdin@,
            opt_env(env),
            command@,
        ),
        r matches Ok(t) ==> {
            let members = delegate::delegate_members(
                delegate::conf(stdin@)->Ok_0,
                chosen_env(opt_env(env), command@)->Ok_0,
            );
            json::plain(Json::Object(members), json::MAX_DEPTH as nat) ==> config::net_conf(t.1@)
                == config::net_conf_of(Json::Object(members))
        },
{
    let conf = match FlannelConf::parse(stdin) {
        Ok(c) => c,
        Err(e) => {
            return Err(
                CniError::new(6, "failed to decode network config").with_details(
                    e.message().as_str(),
                ),
            );
        },
    };
    let env = match env {
        Some(e) => e,
        None => if text::same(command, "DEL") {
            SubnetEnv {
                network: "".to_owned(),
                subnet: "".to_owned(),
                mtu: 0,
                ipmasq: false,
            }
        } else {
            return Err(
                CniError::new(
                    11,
                    "failed to read /run/flannel/subnet.env (flanneld not ready?)",
                ),
            );
        },
    };
    let d = delegate::build_delegate(&conf, &env);
    proof {
        delegate::law_defaults_are_filled(conf@, env@);
        delegate::lemma_type_is_set(conf@, env@);
    }
    let dtype = match json::member(&d, "type") {
        Some(t) => match t.as_str() {
            Some(s) => s.to_owned(),
            None => "bridge".to_owned(),
        },
        None => "bridge".to_owned(),
    };
    let json = json::print_json(&d);
    Ok((dtype, json))
}

/// The subnet in the file's text, where there is one and it is readable.
pub open spec fn env_in(file: Option<Seq<char>>) -> Option<subnetenv::EnvView> {
    match file {
        Some(s) => match subnetenv::env_of(s) {
            Ok(e) => Some(e),
            Err(_) => None,
        },
        None => None,
    }
}

/// The delegate's type and its configuration, with the subnet out of the
/// file's text.
pub fn delegate_json(stdin: &str, file: &Option<String>, command: &str) -> (r: Result<
    (String, String),
    CniError,
>)
    ensures
        error::result_view(r, |t: (String, String)| (t.0@, t.1@)) == resolved(
            stdin@,
            env_in(text::opt_text(*file)),
            command@,
        ),
{
    let env = match file {
        Some(s) => match SubnetEnv::parse(s.as_str()) {
            Ok(e) => Some(e),
            Err(_) => None,
        },
        None => None,
    };
    resolve_delegate(stdin, env, command)
}

/// What comes of an invocation: the delegate's output and success are handed
/// on.
pub open spec fn run_progress(
    args: env::ArgsView,
    stdin: Seq<char>,
    file: Option<Seq<char>>,
    answers: Seq<runner::AnswerView>,
) -> Progress<runner::QuestionView, Result<(Seq<char>, bool), error::ErrorView>> {
    match plugin::verb_of(args.command) {
        Verb::Version => Progress::Done(Ok((version::supported_text(), true)), 0),
        Verb::Unknown => Progress::Done(Err(plugin::unknown_command_error(args.command)), 0),
        _ => match resolved(stdin, env_in(file), args.command) {
            Err(e) => Progress::Done(Err(e), 0),
            Ok((dtype, djson)) => match runner::delegation(dtype, args, djson, answers, 0) {
                Progress::Ask(q) => Progress::Ask(q),
                Progress::Done(Err(e), next) => Progress::Done(Err(e), next),
                Progress::Done(Ok(out), next) => Progress::Done(
                    Ok((out.stdout, out.success)),
                    next,
                ),
            },
        },
    }
}

/// The progress of an invocation, by its model.
pub open spec fn run_view(p: Progress<Question, Result<(String, bool), CniError>>) -> Progress<
    runner::QuestionView,
    Result<(Seq<char>, bool), error::ErrorView>,
> {
    progress::progress_view(
        p,
        |q: Question| q@,
        |r: Result<(String, bool), CniError>|
            error::result_view(r, |t: (String, bool)| (t.0@, t.1)),
    )
}

/// Carries out an invocation, given the text of the subnet file where it could
/// be read.
pub fn run(args: &CniArgs, stdin: &str, file: &Option<String>, answers: &Vec<Answer>) -> (p:
    Progress<Question, Result<(String, bool), CniError>>)
    ensures
        run_view(p) == run_progress(
            args@,
            stdin@,
            text::opt_text(*file),
            runner::answer_views(answers@),
        ),
{
    match plugin::verb(args.command.as_str()) {
        Verb::Version => {
            return Progress::Done(Ok((VersionResult::supported().to_json(), true)), 0);
        },
        Verb::Unknown => {
            return Progress::Done(Err(plugin::unknown_command(args.command.as_str())), 0);
        },
        _ => {},
    }
    match delegate_json(stdin, file, args.command.as_str()) {
        Err(e) => Progress::Done(Err(e), 0),
        Ok((dtype, djson)) => match runner::run_delegate(
            dtype.as_str(),
            args,
            djson.as_str(),
            answers,
            0,
        ) {
            Progress::Ask(q) => Progress::Ask(q),
            Progress::Done(Err(e), next) => Progress::Done(Err(e), next),
            Progress::Done(Ok(out), next) => Progress::Done(Ok((out.stdout, out.success)), next),
        },
    }
}

/// Without the daemon's file a container can be deleted and nothing else: any
/// other command is to be tried again. With it every command has a delegate.
pub proof fn law_only_deleting_works_without_the_daemon(
    stdin: Seq<char>,
    env: Option<subnetenv::EnvView>,
    command: Seq<char>,
)
    requires
        delegate::conf(stdin) is Ok,
    ensures
        resolved(stdin, env, command) is Ok <==> env is Some || command == "DEL"@,
        resolved(stdin, env, command) matches Err(e) ==> e.code == 11,
{
}

/// The plugin hands over and hands back: for every command but that for the
/// version the delegate of the configuration is run, with the variables of the
/// invocation, and what it wrote and whether it succeeded is what the plugin
/// reports.
pub proof fn law_delegate_is_run_and_relayed(
    args: env::ArgsView,
    stdin: Seq<char>,
    file: Option<Seq<char>>,
    answers: Seq<runner::AnswerView>,
    s: Seq<char>,
    success: bool,
    n: usize,
)
    requires
        args.command != "VERSION"@,
        run_progress(args, stdin, file, answers) == Progress::<
            runner::QuestionView,
            Result<(Seq<char>, bool), error::ErrorView>,
        >::Done(Ok((s, success)), n),
    ensures
        args.command == "ADD"@ || args.command == "DEL"@ || args.command == "CHECK"@,
        exists|kind: Seq<char>, told: Seq<char>| #[trigger]
            is_delegate(stdin, file, args.command, kind, told) && runner::delegation(
                kind,
                args,
                told,
                answers,
                0,
            ) == Progress::<runner::QuestionView, Result<runner::OutputView, error::ErrorView>>::Done(
                Ok(runner::OutputView { success, stdout: s }),
                n,
            ),
{
    plugin::lemma_commands_differ();
    let c = delegate::conf(stdin)->Ok_0;
    let e = chosen_env(env_in(file), args.command)->Ok_0;
    let members = delegate::delegate_members(c, e);
    let (kind, told) = resolved(stdin, env_in(file), args.command)->Ok_0;
    delegate::lemma_type_is_set(c, e);
    assert(is_delegate(stdin, file, args.command, kind, told));
}

/// Whether a plugin and its input are those that a configuration hands over to:
/// the input is the user's configuration for it as the daemon's file completes
/// it, and the plugin is the one that the input names.
pub open spec fn is_delegate(
    stdin: Seq<char>,
    file: Option<Seq<char>>,
    command: Seq<char>,
    kind: Seq<char>,
    told: Seq<char>,
) -> bool {
    exists|c: delegate::ConfView, e: subnetenv::EnvView|
        {
            let members = #[trigger] delegate::delegate_members(c, e);
            &&& delegate::conf(stdin) == Ok::<delegate::ConfView, decode::Fault>(c)
            &&& match file {
                Some(s) => subnetenv::env_of(s) == Ok::<subnetenv::EnvView, Seq<char>>(e)
                    || subnetenv::env_of(s) is Err && command == "DEL"@,
                None => command == "DEL"@,
            }
            &&& told == json::json_printed(Json::Object(members))
            &&& members.contains_key("type"@)
            &&& members["type"@] == Json::Text(kind) || !(members["type"@] is Text) && kind
                == "bridge"@
        }
}

/// What goes wrong: the command is none that is known, the configuration is not
/// readable, the daemon has not written its file yet, which is to be tried again
/// and does not concern deleting, or the delegate could not be run.
pub proof fn law_handing_over_fails_for_a_reason(
    args: env::ArgsView,
    stdin: Seq<char>,
    file: Option<Seq<char>>,
    answers: Seq<runner::AnswerView>,
    e: error::ErrorView,
    n: usize,
)
    requires
        run_progress(args, stdin, file, answers) == Progress::<
            runner::QuestionView,
            Result<(Seq<char>, bool), error::ErrorView>,
        >::Done(Err(e), n),
    ensures
        ({
            ||| e.code == 4 && args.command != "ADD"@ && args.command != "DEL"@ && args.command
                != "CHECK"@ && args.command != "VERSION"@
            ||| e.code == 6 && delegate::conf(stdin) is Err
            ||| e.code == 11 && args.command != "DEL"@ && !(file matches Some(s)
                && subnetenv::env_of(s) is Ok)
            ||| exists|kind: Seq<char>, told: Seq<char>| #[trigger]
                is_delegate(stdin, file, args.command, kind, told) && runner::delegation(
                    kind,
                    args,
                    told,
                    answers,
                    0,
                ) == Progress::<
                    runner::QuestionView,
                    Result<runner::OutputView, error::ErrorView>,
                >::Done(Err(e), n)
        }),
{
    plugin::lemma_commands_differ();
    if let Ok((kind, told)) = resolved(stdin, env_in(file), args.command) {
        let c = delegate::conf(stdin)->Ok_0;
        let env = chosen_env(env_in(file), args.command)->Ok_0;
        let members = delegate::delegate_members(c, env);
        delegate::lemma_type_is_set(c, env);
        assert(is_delegate(stdin, file, args.command, kind, told));
    }
}

} // verus!
