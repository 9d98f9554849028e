//! The dispatcher: one interpreter step. A tokenized line either names
//! a builtin (`exit`, `cd`, `pwd`), names an external program to spawn,
//! or carries no command at all; the step decides which, mutates the
//! directory state where `cd` asks for it, and hands the caller the
//! action to perform.

use vstd::prelude::*;
use crate::messages::farewell;
use crate::messages::farewell_text;
use crate::state::ShellState;
use crate::state::or_unknown;
use crate::state::spec_cd_target;
use crate::state::spec_or_dot;
use crate::state::spec_or_unknown;
use crate::tokenize::CommandLine;
use crate::tokenize::preprocess;
use crate::tokenize::spec_parse;
use crate::tokenize::str_eq;

verus! {

/// What one interpreter step asks the caller to do. Everything the
/// library cannot do itself — terminating the process, changing the
/// real working directory, printing, spawning — is returned as data.
pub enum Action {
    /// The line carried no command; proceed to the next prompt.
    Nothing,
    /// Print the farewell once and terminate the process with success.
    Exit { farewell: String },
    /// Attempt to change the working directory to `target`; on failure
    /// report a diagnostic and continue (the state's `oldpwd` already
    /// holds its snapshot either way).
    ChangeDir { target: String },
    /// Print the working directory's display string.
    PrintWorkingDir { display: String },
    /// Spawn `name` with `args` as an external program, waiting for it
    /// in the foreground unless `background` is set.
    Spawn { name: String, args: Vec<String>, background: bool },
}

/// The fixed builtin set: `exit`, `cd` and `pwd`, matched by exact,
/// case-sensitive equality.
pub open spec fn is_builtin_name(n: Seq<char>) -> bool {
    n == "exit"@ || n == "cd"@ || n == "pwd"@
}

/// Whether `name` is one of the builtins that run inside the
/// interpreter process.
pub fn is_builtin(name: &str) -> (r: bool)
    ensures
        r == is_builtin_name(name@),
{
    str_eq(name, "exit") || str_eq(name, "cd") || str_eq(name, "pwd")
}

/// One step of the interpreter loop: tokenizes `line` and decides what
/// to do with it. `home` and `current` are the operating system's
/// readings of the home and current directories, taken by the caller
/// for this iteration; `current` feeds both the `cd` snapshot and the
/// `pwd` display. Only `cd` mutates the state. A line with an empty
/// name (blank or fully commented) is a no-op, never an attempt to run
/// the empty string; `exit` is recognized from the name alone,
/// regardless of trailing tokens.
pub fn step(
    state: &mut ShellState,
    line: &str,
    home: Option<String>,
    current: Option<String>,
) -> (a: Action)
    ensures
        ({
            let r = spec_parse(line@);
            let before = old(state)@;
            let after = final(state)@;
            &&& (r.name.len() == 0 ==> a == Action::Nothing && after == before)
            &&& (r.name == "exit"@ ==> (a matches Action::Exit { farewell } && farewell@
                == farewell_text()) && after == before)
            &&& (r.name == "cd"@ ==> (a matches Action::ChangeDir { target } && target@
                == spec_cd_target(r.args, home.deep_view(), before.oldpwd)) && after.oldpwd
                == Some(spec_or_dot(current.deep_view())) && after.cwd == before.cwd)
            &&& (r.name == "pwd"@ ==> (a matches Action::PrintWorkingDir { display } && display@
                == spec_or_unknown(current.deep_view())) && after == before)
            &&& (r.name.len() > 0 && !is_builtin_name(r.name) ==> (a matches Action::Spawn {
                name,
                args,
                background,
            } && name@ == r.name && args.deep_view() == r.args && background == r.background)
                && after == before)
        }),
{
    proof {
        reveal_strlit("exit");
        reveal_strlit("cd");
        reveal_strlit("pwd");
    }
    let cmdline = preprocess(line);
    let CommandLine { cmd, args, bg } = cmdline;
    if cmd.as_str().is_empty() {
        Action::Nothing
    } else if str_eq(cmd.as_str(), "exit") {
        Action::Exit { farewell: farewell() }
    } else if str_eq(cmd.as_str(), "cd") {
        let target = state.cd_prepare(&args, home, current);
        Action::ChangeDir { target }
    } else if str_eq(cmd.as_str(), "pwd") {
        Action::PrintWorkingDir { display: or_unknown(current) }
    } else {
        Action::Spawn { name: cmd, args, background: bg }
    }
}

} // verus!
