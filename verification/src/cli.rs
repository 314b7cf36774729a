//! The terminal client's command line: which mode the flags ask for, and
//! what pipe mode sends.
use vstd::prelude::*;
use crate::asr::trimmed;
use crate::text::trim;

verus! {

/// How the client runs.
#[derive(Debug, Clone, Copy, PartialEq, Eq, Structural)]
pub enum RunMode {
    /// The full-screen chat.
    Interactive,
    /// Read one message from stdin, write the reply to stdout.
    Pipe,
    /// Only one of `--stdin` / `--stdout` was given.
    Invalid,
}

/// The mode for the `--stdin` and `--stdout` flags: pipe mode needs both,
/// neither means the interactive chat, one alone is an error.
pub fn run_mode(stdin: bool, stdout: bool) -> (m: RunMode)
    ensures
        (stdin && stdout) ==> m == RunMode::Pipe,
        (!stdin && !stdout) ==> m == RunMode::Interactive,
        (stdin != stdout) ==> m == RunMode::Invalid,
{
    if stdin || stdout {
        if stdin && stdout {
            RunMode::Pipe
        } else {
            RunMode::Invalid
        }
    } else {
        RunMode::Interactive
    }
}

/// The message pipe mode sends for what was read from stdin: the input
/// without surrounding whitespace; nothing when that is empty.
pub fn pipe_message(input: &str) -> (r: Option<String>)
    ensures
        trim(input@).len() == 0 ==> r is None,
        trim(input@).len() > 0 ==> (r matches Some(m) && m@ == trim(input@)),
{
    let m = trimmed(input);
    if m.as_str().unicode_len() == 0 {
        None
    } else {
        Some(m)
    }
}

} // verus!
