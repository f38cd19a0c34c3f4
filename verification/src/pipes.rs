//! Building the pipeline of a line with several stages. Every stage runs
//! as an applet of the restricted binary; stages without tokens are left
//! out.

use vstd::prelude::*;
use crate::dispatch::Outcome;
use crate::errors::ShellError;
use crate::tokens::{stages_view, strings_view};

verus! {

/// A `duct` expression: a command, or commands joined by pipes, not yet
/// started.
#[verifier::external_type_specification]
#[verifier::external_body]
pub struct ExExpression(duct::Expression);

/// The commands of an expression in the order of the pipeline, each as the
/// program followed by its arguments.
pub uninterp spec fn pipeline_commands(e: duct::Expression) -> Seq<Seq<Seq<char>>>;

/// Calls `duct::cmd`, which makes the expression of one command from a
/// program and its arguments: here the applet binary, and the stage's
/// tokens as its arguments.
#[verifier::external_body]
fn applet_command(applet_path: &str, tokens: &Vec<String>) -> (e: duct::Expression)
    ensures
        pipeline_commands(e) == seq![seq![applet_path@] + strings_view(tokens@)],
{
    duct::cmd(applet_path, tokens)
}

/// Calls `duct::Expression::pipe`, which makes the expression that feeds
/// the output of `left` to `right`: its commands are those of `left`
/// followed by those of `right`.
#[verifier::external_body]
fn pipe_into(left: &duct::Expression, right: duct::Expression) -> (e: duct::Expression)
    ensures
        pipeline_commands(e) == pipeline_commands(*left) + pipeline_commands(right),
{
    left.pipe(right)
}

/// The commands that the first `n` stages contribute to the pipeline: for
/// each stage that has tokens, the applet binary followed by them.
pub open spec fn applet_stages_upto(
    stages: Seq<Seq<Seq<char>>>,
    applet_path: Seq<char>,
    n: nat,
) -> Seq<Seq<Seq<char>>>
    decreases n,
{
    if n == 0 {
        Seq::empty()
    } else {
        let before = applet_stages_upto(stages, applet_path, (n - 1) as nat);
        if stages[n - 1].len() == 0 {
            before
        } else {
            before.push(seq![applet_path] + stages[n - 1])
        }
    }
}

/// The commands of the pipeline that `stages` describe.
pub open spec fn applet_stages(stages: Seq<Seq<Seq<char>>>, applet_path: Seq<char>) -> Seq<
    Seq<Seq<char>>,
> {
    applet_stages_upto(stages, applet_path, stages.len())
}

/// Whether every stage is without tokens.
pub open spec fn all_empty(stages: Seq<Seq<Seq<char>>>) -> bool {
    forall|i: int| 0 <= i < stages.len() ==> (#[trigger] stages[i]).len() == 0
}

/// Builds the pipeline of `commands`: the stages that have tokens, in
/// their order, each run through the applet binary and piped into the
/// next. Where no stage has a token there is nothing to run.
pub fn build_pipeline(commands: &Vec<Vec<String>>, applet_path: &str) -> (pipeline: Option<
    duct::Expression,
>)
    ensures
        match pipeline {
            Some(e) => pipeline_commands(e) == applet_stages(stages_view(commands@), applet_path@)
                && !all_empty(stages_view(commands@)),
            None => all_empty(stages_view(commands@)),
        },
{
    let ghost stages = stages_view(commands@);
    let mut pipeline: Option<duct::Expression> = None;
    let mut i: usize = 0;
    while i < commands.len()
        invariant
            stages == stages_view(commands@),
            i <= commands@.len(),
            match pipeline {
                Some(e) => pipeline_commands(e) == applet_stages_upto(
                    stages,
                    applet_path@,
                    i as nat,
                ) && exists|k: int| 0 <= k < i && (#[trigger] stages[k]).len() > 0,
                None => forall|k: int| 0 <= k < i ==> (#[trigger] stages[k]).len() == 0,
            },
            pipeline is None ==> applet_stages_upto(stages, applet_path@, i as nat).len() == 0,
        decreases commands@.len() - i,
    {
        let tokens: &Vec<String> = &commands[i];
        assert(stages[i as int] == strings_view(tokens@));
        if tokens.len() > 0 {
            let stage = applet_command(applet_path, tokens);
            pipeline = match pipeline {
                None => {
                    assert(Seq::<Seq<Seq<char>>>::empty().push(
                        seq![applet_path@] + stages[i as int],
                    ) =~= seq![seq![applet_path@] + stages[i as int]]);
                    Some(stage)
                },
                Some(before) => {
                    assert(pipeline_commands(before).push(seq![applet_path@] + stages[i as int])
                        =~= pipeline_commands(before) + seq![
                        seq![applet_path@] + stages[i as int],
                    ]);
                    Some(pipe_into(&before, stage))
                },
            };
        }
        i = i + 1;
    }
    pipeline
}

/// What a pipeline comes to. `run` is `None` where nothing was started,
/// which is a success; else it says how the whole pipeline ended, and
/// anything but success is a pipeline failure.
pub fn pipeline_result(run: Option<Outcome>) -> (result: Result<(), ShellError>)
    ensures
        result == match run {
            None => Ok::<(), ShellError>(()),
            Some(Outcome::Succeeded) => Ok::<(), ShellError>(()),
            Some(_) => Err::<(), ShellError>(ShellError::PipelineFailure),
        },
{
    match run {
        None => Ok(()),
        Some(Outcome::Succeeded) => Ok(()),
        Some(_) => Err(ShellError::PipelineFailure),
    }
}

/// Stages without tokens contribute nothing: a stage list in which every
/// stage is empty describes no command at all.
pub proof fn empty_stages_build_nothing(stages: Seq<Seq<Seq<char>>>, applet_path: Seq<char>, n: nat)
    requires
        all_empty(stages),
        n <= stages.len(),
    ensures
        applet_stages_upto(stages, applet_path, n).len() == 0,
    decreases n,
{
    if n > 0 {
        empty_stages_build_nothing(stages, applet_path, (n - 1) as nat);
    }
}

/// Every command of a pipeline starts with the applet binary and carries
/// the tokens of a stage that has some.
pub proof fn every_stage_runs_the_applet(
    stages: Seq<Seq<Seq<char>>>,
    applet_path: Seq<char>,
    n: nat,
)
    requires
        n <= stages.len(),
    ensures
        applet_stages_upto(stages, applet_path, n).len() <= n,
        forall|k: int|
            0 <= k < applet_stages_upto(stages, applet_path, n).len() ==> {
                let command = #[trigger] applet_stages_upto(stages, applet_path, n)[k];
                command.len() >= 2 && command[0] == applet_path
            },
    decreases n,
{
    if n > 0 {
        every_stage_runs_the_applet(stages, applet_path, (n - 1) as nat);
    }
}

} // verus!
