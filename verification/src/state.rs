//! The interpreter's directory state: the last observed working
//! directory and the previous working directory (OLDPWD), together with
//! the `cd` target resolution and its snapshot rule.

use vstd::prelude::*;
use vstd::string::StringExecFns;
use crate::tokenize::str_eq;

verus! {

/// The model of the shell state: the last observed working directory
/// (as a display string) and the previous working directory, `None`
/// while no value is known.
pub struct SpecShellState {
    pub cwd: Seq<char>,
    pub oldpwd: Option<Seq<char>>,
}

/// Process-lifetime directory state. `cwd` mirrors the operating
/// system's working directory as last observed; `oldpwd` is the
/// directory recorded immediately before the most recent
/// directory-changing attempt, or the environment's value before the
/// first one, or `None` where neither exists.
pub struct ShellState {
    pub cwd: String,
    pub oldpwd: Option<String>,
}

impl View for ShellState {
    type V = SpecShellState;

    open spec fn view(&self) -> SpecShellState {
        SpecShellState { cwd: self.cwd@, oldpwd: self.oldpwd.deep_view() }
    }
}

/// The value an optional directory reading falls back from: the reading
/// itself, or `"."` where none is available.
pub open spec fn spec_or_dot(v: Option<Seq<char>>) -> Seq<char> {
    match v {
        Some(s) => s,
        None => "."@,
    }
}

/// The directory `cd` resolves to, by precedence: no argument means the
/// home directory (`"."` where it cannot be determined); the argument
/// `-` means the previous working directory (`"."` where unset); any
/// other argument is taken literally as a path.
pub open spec fn spec_cd_target(
    args: Seq<Seq<char>>,
    home: Option<Seq<char>>,
    oldpwd: Option<Seq<char>>,
) -> Seq<char> {
    if args.len() == 0 {
        spec_or_dot(home)
    } else if args[0] == "-"@ {
        spec_or_dot(oldpwd)
    } else {
        args[0]
    }
}

/// The string shown for an optional reading, with the sentinel `"???"`
/// where the reading failed: the display form of the working directory
/// and of the user name.
pub open spec fn spec_or_unknown(v: Option<Seq<char>>) -> Seq<char> {
    match v {
        Some(s) => s,
        None => "???"@,
    }
}

/// Turns an optional reading (a working directory, a user name) into
/// its display string, `"???"` where the reading failed.
pub fn or_unknown(v: Option<String>) -> (r: String)
    ensures
        r@ == spec_or_unknown(v.deep_view()),
{
    match v {
        Some(s) => s,
        None => String::from_str("???"),
    }
}

impl ShellState {
    /// A fresh state: no working directory observed yet, and the
    /// previous working directory taken from the environment, where it
    /// has one.
    pub fn new(initial_oldpwd: Option<String>) -> (s: ShellState)
        ensures
            s@.cwd == spec_or_unknown(None),
            s@.oldpwd == initial_oldpwd.deep_view(),
    {
        ShellState { cwd: String::from_str("???"), oldpwd: initial_oldpwd }
    }

    /// Records the working directory as the operating system reports
    /// it, in display form. Recomputed every loop iteration so that a
    /// directory change shows in the next prompt.
    pub fn observe_cwd(&mut self, current: Option<String>)
        ensures
            final(self)@.cwd == spec_or_unknown(current.deep_view()),
            final(self)@.oldpwd == old(self)@.oldpwd,
    {
        self.cwd = or_unknown(current);
    }

    /// Resolves the target of a `cd` and snapshots the current
    /// directory into `oldpwd`. The target is resolved against the
    /// previous working directory *before* the snapshot, and the
    /// snapshot happens unconditionally — even if the caller's
    /// subsequent directory change fails, `oldpwd` keeps the snapshot.
    pub fn cd_prepare(&mut self, args: &Vec<String>, home: Option<String>, current: Option<String>) -> (target: String)
        ensures
            target@ == spec_cd_target(args.deep_view(), home.deep_view(), old(self)@.oldpwd),
            final(self)@.oldpwd == Some(spec_or_dot(current.deep_view())),
            final(self)@.cwd == old(self)@.cwd,
    {
        let target = if args.len() == 0 {
            match home {
                Some(h) => h,
                None => String::from_str("."),
            }
        } else if str_eq(args[0].as_str(), "-") {
            match &self.oldpwd {
                Some(o) => o.clone(),
                None => String::from_str("."),
            }
        } else {
            args[0].clone()
        };
        self.oldpwd = Some(
            match current {
                Some(c) => c,
                None => String::from_str("."),
            },
        );
        target
    }
}

/// Changing to a directory and then to `-` restores the starting
/// directory, and leaves the first target recorded as the previous
/// working directory: starting in directory `a`, after `cd b` (with the
/// snapshot observing `a`) the previous working directory is `a` and
/// the target is `b`; after a following `cd -` (with the snapshot
/// observing `b`) the target is `a` and the previous working directory
/// is `b`.
pub proof fn lemma_cd_dash_round_trip(
    a: Seq<char>,
    b: Seq<char>,
    home: Option<Seq<char>>,
    prior: Option<Seq<char>>,
)
    requires
        b != "-"@,
    ensures
        spec_cd_target(seq![b], home, prior) == b,
        spec_or_dot(Some(a)) == a,
        spec_cd_target(seq!["-"@], home, Some(a)) == a,
        spec_or_dot(Some(b)) == b,
{
}

} // verus!
