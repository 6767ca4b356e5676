//! The invocation of a plugin, as its environment variables give it.

use vstd::prelude::*;
use vstd::string::*;

use crate::cni::error;
use crate::cni::error::CniError;
use crate::text_map::TextMap;

verus! {

/// The CNI invocation, parsed from environment variables.
#[derive(Debug)]
pub struct CniArgs {
    pub command: String,
    pub container_id: String,
    pub netns: String,
    pub ifname: String,
    pub args: String,
    pub path: String,
}

/// The model of `CniArgs`.
pub struct ArgsView {
    pub command: Seq<char>,
    pub container_id: Seq<char>,
    pub netns: Seq<char>,
    pub ifname: Seq<char>,
    pub args: Seq<char>,
    pub path: Seq<char>,
}

impl View for CniArgs {
    type V = ArgsView;

    open spec fn view(&self) -> ArgsView {
        ArgsView {
            command: self.command@,
            container_id: self.container_id@,
            netns: self.netns@,
            ifname: self.ifname@,
            args: self.args@,
            path: self.path@,
        }
    }
}

impl Clone for CniArgs {
    fn clone(&self) -> (a: CniArgs)
        ensures
            a@ == self@,
    {
        CniArgs {
            command: self.command.clone(),
            container_id: self.container_id.clone(),
            netns: self.netns.clone(),
            ifname: self.ifname.clone(),
            args: self.args.clone(),
            path: self.path.clone(),
        }
    }
}

/// The value of a variable, empty where it is not set.
pub open spec fn variable(env: Map<Seq<char>, String>, name: Seq<char>) -> Seq<char> {
    if env.contains_key(name) {
        env[name]@
    } else {
        Seq::empty()
    }
}

fn get(env: &TextMap<String>, name: &str) -> (s: String)
    ensures
        s@ == variable(env@, name@),
{
    match env.get(name) {
        Some(v) => v.clone(),
        None => String::new(),
    }
}

/// The invocation that an environment stands for: the command has to be set
/// and not empty, the rest may be absent.
pub open spec fn args_of(env: Map<Seq<char>, String>) -> Result<ArgsView, error::ErrorView> {
    if variable(env, "CNI_COMMAND"@).len() == 0 {
        Err(error::error(4, "CNI_COMMAND missing"@))
    } else {
        Ok(
            ArgsView {
                command: variable(env, "CNI_COMMAND"@),
                container_id: variable(env, "CNI_CONTAINERID"@),
                netns: variable(env, "CNI_NETNS"@),
                ifname: variable(env, "CNI_IFNAME"@),
                args: variable(env, "CNI_ARGS"@),
                path: variable(env, "CNI_PATH"@),
            },
        )
    }
}

impl CniArgs {
    /// The invocation that an environment stands for.
    pub fn from_map(env: &TextMap<String>) -> (r: Result<CniArgs, CniError>)
        ensures
            error::result_view(r, |a: CniArgs| a@) == args_of(env@),
    {
        let command = get(env, "CNI_COMMAND");
        if command.as_str().is_empty() {
            return Err(CniError::new(4, "CNI_COMMAND missing"));
        }
        Ok(
            CniArgs {
                command,
                container_id: get(env, "CNI_CONTAINERID"),
                netns: get(env, "CNI_NETNS"),
                ifname: get(env, "CNI_IFNAME"),
                args: get(env, "CNI_ARGS"),
                path: get(env, "CNI_PATH"),
            },
        )
    }
}

} // verus!
