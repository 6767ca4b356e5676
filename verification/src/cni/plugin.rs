//! What the plugins' programs have in common: the choice by command, and what
//! is printed in the end.

use vstd::prelude::*;
use vstd::string::*;

use crate::cni::error;
use crate::cni::error::CniError;
use crate::json;
use crate::text;

verus! {

/// What a plugin is asked to do.
#[derive(Debug, Clone, Copy, PartialEq, Eq, Structural)]
pub enum Verb {
    Version,
    Add,
    Del,
    Check,
    Unknown,
}

/// The meaning of a command.
pub open spec fn verb_of(command: Seq<char>) -> Verb {
    if command == "VERSION"@ {
        Verb::Version
    } else if command == "ADD"@ {
        Verb::Add
    } else if command == "DEL"@ {
        Verb::Del
    } else if command == "CHECK"@ {
        Verb::Check
    } else {
        Verb::Unknown
    }
}

/// The meaning of a command.
pub fn verb(command: &str) -> (v: Verb)
    ensures
        v == verb_of(command@),
{
    if text::same(command, "VERSION") {
        Verb::Version
    } else if text::same(command, "ADD") {
        Verb::Add
    } else if text::same(command, "DEL") {
        Verb::Del
    } else if text::same(command, "CHECK") {
        Verb::Check
    } else {
        Verb::Unknown
    }
}

/// The error of a command that no plugin knows.
pub open spec fn unknown_command_error(command: Seq<char>) -> error::ErrorView {
    error::error(4, "unknown CNI_COMMAND "@ + command)
}

/// The error of a command that no plugin knows.
pub fn unknown_command(command: &str) -> (e: CniError)
    ensures
        e@ == unknown_command_error(command@),
{
    CniError::new(4, text::join2("unknown CNI_COMMAND ", command).as_str())
}

/// What a plugin prints on standard output, and whether it succeeds.
#[derive(Debug)]
pub struct Report {
    pub stdout: String,
    pub success: bool,
}

/// A result, with the success that it reports, as what the plugin prints: the
/// error is printed as JSON and is a failure.
pub fn report(r: Result<(String, bool), CniError>) -> (out: Report)
    ensures
        match r {
            Ok(ok) => out.stdout@ == ok.0@ && out.success == ok.1,
            Err(e) => out.stdout@ == json::doc_text(error::error_doc(e@)) && !out.success,
        },
{
    match r {
        Ok((stdout, success)) => Report { stdout, success },
        Err(e) => Report { stdout: e.to_json(), success: false },
    }
}

/// The commands that the plugins know are four.
pub proof fn lemma_commands_differ()
    ensures
        "ADD"@ != "DEL"@ && "ADD"@ != "CHECK"@ && "ADD"@ != "VERSION"@,
        "DEL"@ != "CHECK"@ && "DEL"@ != "VERSION"@ && "CHECK"@ != "VERSION"@,
{
    reveal_strlit("ADD");
    reveal_strlit("DEL");
    reveal_strlit("CHECK");
    reveal_strlit("VERSION");
    assert("ADD"@[0] == 'A' && "DEL"@[0] == 'D' && "CHECK"@[0] == 'C' && "VERSION"@[0] == 'V');
}

} // verus!
