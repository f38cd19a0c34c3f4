use bakashell::dispatch::{
    advance, dispatch_outcome, invocation, start_dispatch, toggle_mode, Dispatch, Mode, Outcome,
};
use bakashell::errors::ShellError;

fn words_of(items: &[&str]) -> Vec<String> {
    items.iter().map(|s| s.to_string()).collect()
}

#[test]
fn dispatch_starts_with_the_applet() {
    assert_eq!(start_dispatch(), Dispatch::Applet);
    let inv = invocation(Dispatch::Applet, "ls", &words_of(&["-al", "x"]), "/usr/bin/busybox").unwrap();
    assert_eq!(inv.program, "/usr/bin/busybox");
    assert_eq!(inv.args, words_of(&["ls", "-al", "x"]));
}

#[test]
fn applet_success_completes_in_both_modes() {
    assert_eq!(advance(Mode::Restricted, Dispatch::Applet, Outcome::Succeeded), Dispatch::Completed);
    assert_eq!(advance(Mode::Elevated, Dispatch::Applet, Outcome::Succeeded), Dispatch::Completed);
}

#[test]
fn restricted_mode_never_tries_the_system() {
    for outcome in [Outcome::Failed, Outcome::NotLaunched] {
        let next = advance(Mode::Restricted, Dispatch::Applet, outcome);
        assert_eq!(next, Dispatch::Rejected(ShellError::AppletNotFound));
        assert_eq!(dispatch_outcome(next), Some(Err(ShellError::AppletNotFound)));
        assert!(invocation(next, "ls", &words_of(&[]), "/usr/bin/busybox").is_none());
    }
}

#[test]
fn elevated_mode_falls_back_to_the_system() {
    for outcome in [Outcome::Failed, Outcome::NotLaunched] {
        let next = advance(Mode::Elevated, Dispatch::Applet, outcome);
        assert_eq!(next, Dispatch::System);
        assert_eq!(dispatch_outcome(next), None);
        let inv = invocation(next, "git", &words_of(&["status", "-s"]), "/usr/bin/busybox").unwrap();
        assert_eq!(inv.program, "git");
        assert_eq!(inv.args, words_of(&["status", "-s"]));
        let done = advance(Mode::Elevated, next, Outcome::Succeeded);
        assert_eq!(done, Dispatch::Completed);
        assert_eq!(dispatch_outcome(done), Some(Ok(())));
    }
}

#[test]
fn system_program_that_runs_and_fails_is_no_error() {
    assert_eq!(advance(Mode::Elevated, Dispatch::System, Outcome::Failed), Dispatch::Completed);
}

#[test]
fn system_program_that_cannot_start_is_not_found() {
    let done = advance(Mode::Elevated, Dispatch::System, Outcome::NotLaunched);
    assert_eq!(done, Dispatch::Rejected(ShellError::CommandNotFound));
    assert_eq!(dispatch_outcome(done), Some(Err(ShellError::CommandNotFound)));
}

#[test]
fn finished_dispatch_stays_as_it_is() {
    for mode in [Mode::Restricted, Mode::Elevated] {
        for outcome in [Outcome::Succeeded, Outcome::Failed, Outcome::NotLaunched] {
            assert_eq!(advance(mode, Dispatch::Completed, outcome), Dispatch::Completed);
            assert_eq!(
                advance(mode, Dispatch::Rejected(ShellError::AppletNotFound), outcome),
                Dispatch::Rejected(ShellError::AppletNotFound)
            );
        }
    }
    assert!(invocation(Dispatch::Completed, "ls", &words_of(&[]), "/bb").is_none());
}

#[test]
fn toggle_mode_switches_both_ways() {
    assert_eq!(toggle_mode(Mode::Restricted), Mode::Elevated);
    assert_eq!(toggle_mode(Mode::Elevated), Mode::Restricted);
}
