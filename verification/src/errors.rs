//! The ways in which resolving or running a command line can fail.

use vstd::prelude::*;

verus! {

/// A failure that is reported to the user; none of them ends the session.
#[derive(Clone, Copy, Debug, PartialEq, Eq, Structural)]
pub enum ShellError {
    /// Alias substitution did not come to an end within the allowed depth.
    AliasCycle,
    /// The restricted applet set could not run the command, and the
    /// session is in restricted mode.
    AppletNotFound,
    /// Neither the applet set nor the system search path could launch the
    /// command.
    CommandNotFound,
    /// A stage of a pipeline failed to start or exited with a failure.
    PipelineFailure,
}

} // verus!
