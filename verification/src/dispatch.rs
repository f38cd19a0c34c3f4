//! The two-tier policy by which a single command is run: first as an
//! applet of the restricted binary, then, in elevated mode only, as a
//! program of the system search path. The library decides; the caller
//! starts the processes and reports how each ended.

use vstd::prelude::*;
use crate::errors::ShellError;
use crate::tokens::{copy_strings, strings_view};

verus! {

/// The execution mode of the session.
#[derive(Clone, Copy, Debug, PartialEq, Eq, Structural)]
pub enum Mode {
    Restricted,
    Elevated,
}

/// How an attempt to run a program ended.
#[derive(Clone, Copy, Debug, PartialEq, Eq, Structural)]
pub enum Outcome {
    /// It ran and exited with success.
    Succeeded,
    /// It ran and exited with a failure status.
    Failed,
    /// It could not be started.
    NotLaunched,
}

/// Where a dispatch stands.
#[derive(Clone, Copy, Debug, PartialEq, Eq, Structural)]
pub enum Dispatch {
    /// The applet is to be run, or is running.
    Applet,
    /// The system program is to be run, or is running.
    System,
    /// The command has run; nothing more is to be started.
    Completed,
    /// The command could not be run; nothing more is to be started.
    Rejected(ShellError),
}

/// A program to start, with its arguments.
#[derive(Clone, Debug)]
pub struct Invocation {
    pub program: String,
    pub args: Vec<String>,
}

impl View for Invocation {
    type V = (Seq<char>, Seq<Seq<char>>);

    open spec fn view(&self) -> (Seq<char>, Seq<Seq<char>>) {
        (self.program@, strings_view(self.args@))
    }
}

/// Toggling the mode.
pub open spec fn other_mode(mode: Mode) -> Mode {
    match mode {
        Mode::Restricted => Mode::Elevated,
        Mode::Elevated => Mode::Restricted,
    }
}

/// The state that follows `state` once the program it ran has ended with
/// `outcome`. Any outcome of the applet but success counts as its failure.
/// Of the system program only a failure to start is reported.
pub open spec fn step(mode: Mode, state: Dispatch, outcome: Outcome) -> Dispatch {
    match state {
        Dispatch::Applet => if outcome == Outcome::Succeeded {
            Dispatch::Completed
        } else if mode == Mode::Elevated {
            Dispatch::System
        } else {
            Dispatch::Rejected(ShellError::AppletNotFound)
        },
        Dispatch::System => if outcome == Outcome::NotLaunched {
            Dispatch::Rejected(ShellError::CommandNotFound)
        } else {
            Dispatch::Completed
        },
        done => done,
    }
}

/// Whether nothing more is to be started.
pub open spec fn is_done(state: Dispatch) -> bool {
    state != Dispatch::Applet && state != Dispatch::System
}

/// The result that a state stands for; success while it is still open.
pub open spec fn result_of(state: Dispatch) -> Result<(), ShellError> {
    match state {
        Dispatch::Rejected(e) => Err(e),
        _ => Ok(()),
    }
}

/// The result of a whole dispatch in which the applet ends with `applet`
/// and the system program, if it is run at all, with `system`.
pub open spec fn dispatch_result(mode: Mode, applet: Outcome, system: Outcome) -> Result<
    (),
    ShellError,
> {
    result_of(step(mode, step(mode, Dispatch::Applet, applet), system))
}

/// What is to be started in `state` for the command `cmd` with `args`:
/// the applet binary with the command name in front of the arguments, or
/// the command itself; nothing once the dispatch is done.
pub open spec fn invocation_of(
    state: Dispatch,
    cmd: Seq<char>,
    args: Seq<Seq<char>>,
    applet_path: Seq<char>,
) -> Option<(Seq<char>, Seq<Seq<char>>)> {
    match state {
        Dispatch::Applet => Some((applet_path, seq![cmd] + args)),
        Dispatch::System => Some((cmd, args)),
        _ => None,
    }
}

/// The other mode.
pub fn toggle_mode(mode: Mode) -> (next: Mode)
    ensures
        next == other_mode(mode),
{
    match mode {
        Mode::Restricted => Mode::Elevated,
        Mode::Elevated => Mode::Restricted,
    }
}

/// The state in which every dispatch starts.
pub fn start_dispatch() -> (state: Dispatch)
    ensures
        state == Dispatch::Applet,
{
    Dispatch::Applet
}

/// Takes a dispatch on by one step: `outcome` says how the program that
/// was started in `state` has ended.
pub fn advance(mode: Mode, state: Dispatch, outcome: Outcome) -> (next: Dispatch)
    ensures
        next == step(mode, state, outcome),
{
    match state {
        Dispatch::Applet => match outcome {
            Outcome::Succeeded => Dispatch::Completed,
            _ => match mode {
                Mode::Elevated => Dispatch::System,
                Mode::Restricted => Dispatch::Rejected(ShellError::AppletNotFound),
            },
        },
        Dispatch::System => match outcome {
            Outcome::NotLaunched => Dispatch::Rejected(ShellError::CommandNotFound),
            _ => Dispatch::Completed,
        },
        done => done,
    }
}

/// The result of a dispatch that is done; `None` while a program is still
/// to be run.
pub fn dispatch_outcome(state: Dispatch) -> (result: Option<Result<(), ShellError>>)
    ensures
        is_done(state) ==> result == Some(result_of(state)),
        !is_done(state) ==> result is None,
{
    match state {
        Dispatch::Applet => None,
        Dispatch::System => None,
        Dispatch::Completed => Some(Ok(())),
        Dispatch::Rejected(e) => Some(Err(e)),
    }
}

/// The program to start in `state`, if any.
pub fn invocation(state: Dispatch, cmd: &str, args: &Vec<String>, applet_path: &str) -> (inv:
    Option<Invocation>)
    ensures
        match invocation_of(state, cmd@, strings_view(args@), applet_path@) {
            Some(expected) => inv is Some && inv->Some_0@ == expected,
            None => inv is None,
        },
{
    match state {
        Dispatch::Applet => {
            let mut argv: Vec<String> = Vec::new();
            argv.push(cmd.to_owned());
            assert(strings_view(argv@) =~= seq![cmd@]);
            copy_strings(args, &mut argv);
            Some(Invocation { program: applet_path.to_owned(), args: argv })
        },
        Dispatch::System => {
            let mut argv: Vec<String> = Vec::new();
            assert(strings_view(argv@) =~= Seq::<Seq<char>>::empty());
            copy_strings(args, &mut argv);
            assert(Seq::<Seq<char>>::empty() + strings_view(args@) =~= strings_view(args@));
            Some(Invocation { program: cmd.to_owned(), args: argv })
        },
        _ => None,
    }
}

/// In restricted mode a dispatch never reaches the system search path:
/// after the applet it is done, with success or with `AppletNotFound`.
pub proof fn restricted_never_falls_back(state: Dispatch, outcome: Outcome)
    requires
        state != Dispatch::System,
    ensures
        step(Mode::Restricted, state, outcome) != Dispatch::System,
        state == Dispatch::Applet && outcome != Outcome::Succeeded ==> step(
            Mode::Restricted,
            state,
            outcome,
        ) == Dispatch::Rejected(ShellError::AppletNotFound),
{
}

/// In restricted mode a command that the applet set cannot run is
/// rejected as `AppletNotFound`, whatever the system would have done.
pub proof fn restricted_failure_is_applet_not_found(applet: Outcome, system: Outcome)
    requires
        applet != Outcome::Succeeded,
    ensures
        dispatch_result(Mode::Restricted, applet, system) == Err::<(), ShellError>(
            ShellError::AppletNotFound,
        ),
{
}

/// In elevated mode a command that the applet set cannot run and the
/// system can launch succeeds; one that the system cannot launch either is
/// not found.
pub proof fn elevated_falls_back(applet: Outcome, system: Outcome)
    requires
        applet != Outcome::Succeeded,
    ensures
        step(Mode::Elevated, Dispatch::Applet, applet) == Dispatch::System,
        system != Outcome::NotLaunched ==> dispatch_result(Mode::Elevated, applet, system) == Ok::<
            (),
            ShellError,
        >(()),
        system == Outcome::NotLaunched ==> dispatch_result(Mode::Elevated, applet, system)
            == Err::<(), ShellError>(ShellError::CommandNotFound),
{
}

/// Success of the applet ends the dispatch in either mode.
pub proof fn applet_success_is_final(mode: Mode, system: Outcome)
    ensures
        step(mode, Dispatch::Applet, Outcome::Succeeded) == Dispatch::Completed,
        dispatch_result(mode, Outcome::Succeeded, system) == Ok::<(), ShellError>(()),
{
}

/// A dispatch is done after two steps at most.
pub proof fn dispatch_ends(mode: Mode, first: Outcome, second: Outcome)
    ensures
        is_done(step(mode, step(mode, Dispatch::Applet, first), second)),
{
}

} // verus!
