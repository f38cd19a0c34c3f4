//! From a line of text to what is to be run: every stage's tokens pass
//! through alias substitution and then through wildcard expansion, in that
//! order.

use vstd::prelude::*;
use crate::alias::{alias_expansion, expand_alias, expansion_is_final, AliasTable, MAX_ALIAS_DEPTH};
use crate::errors::ShellError;
use crate::globbing::{
    all_literal,
    expand_globs,
    expansion,
    is_expansion_of,
    is_unmatched,
    unmatched_expansion_unchanged,
};
use crate::tokens::{
    contains_pipe,
    copy_strings,
    has_pipe,
    split_stages,
    split_words,
    stages,
    stages_view,
    strings_view,
    words,
};

verus! {

/// What a line asks for.
#[derive(Debug)]
pub enum Route {
    /// The line holds no token.
    Nothing,
    /// One command: its name and its arguments.
    Command(Vec<String>),
    /// Several stages joined by pipes; a stage may be without tokens.
    Pipeline(Vec<Vec<String>>),
}

/// Whether alias substitution on `tokens` comes to an end.
pub open spec fn resolvable(tokens: Seq<Seq<char>>, table: Map<Seq<char>, Seq<char>>) -> bool {
    alias_expansion(tokens, table) is Some
}

/// The tokens of a stage after alias substitution and then wildcard
/// expansion under the given outcomes of the lookups.
pub open spec fn resolution(
    tokens: Seq<Seq<char>>,
    table: Map<Seq<char>, Seq<char>>,
    outcomes: Seq<Option<Seq<Seq<char>>>>,
) -> Option<Seq<Seq<char>>> {
    match alias_expansion(tokens, table) {
        Some(expanded) => Some(expansion(expanded, outcomes)),
        None => None,
    }
}

/// Whether `out` is what `tokens` resolve to under some outcome of the
/// lookups.
pub open spec fn is_resolution_of(
    out: Seq<Seq<char>>,
    tokens: Seq<Seq<char>>,
    table: Map<Seq<char>, Seq<char>>,
) -> bool {
    resolvable(tokens, table) && is_expansion_of(out, alias_expansion(tokens, table)->Some_0)
}

/// Whether every stage is resolvable.
pub open spec fn all_resolvable(
    stages: Seq<Seq<Seq<char>>>,
    table: Map<Seq<char>, Seq<char>>,
) -> bool {
    forall|i: int| 0 <= i < stages.len() ==> resolvable(#[trigger] stages[i], table)
}

/// Whether `out` holds, stage by stage, what `stages` resolve to.
pub open spec fn are_resolutions_of(
    out: Seq<Seq<Seq<char>>>,
    stages: Seq<Seq<Seq<char>>>,
    table: Map<Seq<char>, Seq<char>>,
) -> bool {
    out.len() == stages.len() && forall|i: int|
        0 <= i < out.len() ==> is_resolution_of(#[trigger] out[i], stages[i], table)
}

/// Resolves the tokens of one stage: alias substitution on the leading
/// token, then wildcard expansion of what that gave. Fails only where the
/// aliases do not come to an end.
pub fn resolve_stage(tokens: &Vec<String>, aliases: &AliasTable) -> (result: Result<
    Vec<String>,
    ShellError,
>)
    ensures
        resolvable(strings_view(tokens@), aliases@) ==> result is Ok && is_resolution_of(
            strings_view(result->Ok_0@),
            strings_view(tokens@),
            aliases@,
        ),
        resolvable(strings_view(tokens@), aliases@) && all_literal(
            alias_expansion(strings_view(tokens@), aliases@)->Some_0,
        ) ==> strings_view(result->Ok_0@) == alias_expansion(
            strings_view(tokens@),
            aliases@,
        )->Some_0,
        !resolvable(strings_view(tokens@), aliases@) ==> result == Err::<Vec<String>, ShellError>(
            ShellError::AliasCycle,
        ),
{
    let mut owned: Vec<String> = Vec::new();
    assert(strings_view(owned@) =~= Seq::<Seq<char>>::empty());
    copy_strings(tokens, &mut owned);
    assert(strings_view(owned@) =~= strings_view(tokens@));
    match expand_alias(owned, aliases) {
        Ok(expanded) => Ok(expand_globs(expanded)),
        Err(e) => Err(e),
    }
}

/// Resolves every stage of a pipeline, in order. Fails where a stage is
/// not resolvable.
pub fn resolve_stages(stages: &Vec<Vec<String>>, aliases: &AliasTable) -> (result: Result<
    Vec<Vec<String>>,
    ShellError,
>)
    ensures
        all_resolvable(stages_view(stages@), aliases@) ==> result is Ok && are_resolutions_of(
            stages_view(result->Ok_0@),
            stages_view(stages@),
            aliases@,
        ),
        !all_resolvable(stages_view(stages@), aliases@) ==> result == Err::<
            Vec<Vec<String>>,
            ShellError,
        >(ShellError::AliasCycle),
{
    let mut out: Vec<Vec<String>> = Vec::new();
    let mut i: usize = 0;
    while i < stages.len()
        invariant
            i <= stages@.len(),
            out@.len() == i,
            forall|k: int|
                0 <= k < i ==> resolvable(#[trigger] stages_view(stages@)[k], aliases@),
            forall|k: int|
                0 <= k < i ==> is_resolution_of(
                    #[trigger] stages_view(out@)[k],
                    stages_view(stages@)[k],
                    aliases@,
                ),
        decreases stages@.len() - i,
    {
        assert(stages_view(stages@)[i as int] == strings_view(stages@[i as int]@));
        match resolve_stage(&stages[i], aliases) {
            Ok(resolved) => {
                proof {
                    let grown = stages_view(out@.push(resolved));
                    assert forall|k: int| 0 <= k < i + 1 implies is_resolution_of(
                        #[trigger] grown[k],
                        stages_view(stages@)[k],
                        aliases@,
                    ) by {
                        if k < i {
                            assert(grown[k] == stages_view(out@)[k]);
                        }
                    }
                }
                out.push(resolved);
            },
            Err(e) => {
                return Err(e);
            },
        }
        i = i + 1;
    }
    Ok(out)
}

/// Reads a line and says what it asks for. A line with a `|` is a
/// pipeline of its resolved stages; any other line is the single command
/// that its tokens resolve to, or nothing where there is no token.
pub fn route_line(line: &str, aliases: &AliasTable) -> (result: Result<Route, ShellError>)
    ensures
        match result {
            Ok(Route::Pipeline(resolved)) => has_pipe(line@) && are_resolutions_of(
                stages_view(resolved@),
                stages(line@),
                aliases@,
            ),
            Ok(Route::Command(resolved)) => !has_pipe(line@) && resolved@.len() > 0
                && is_resolution_of(strings_view(resolved@), words(line@), aliases@),
            Ok(Route::Nothing) => !has_pipe(line@) && is_resolution_of(
                Seq::<Seq<char>>::empty(),
                words(line@),
                aliases@,
            ),
            Err(e) => e == ShellError::AliasCycle,
        },
        result is Err <==> if has_pipe(line@) {
            !all_resolvable(stages(line@), aliases@)
        } else {
            !resolvable(words(line@), aliases@)
        },
{
    if contains_pipe(line) {
        let parts: Vec<Vec<String>> = split_stages(line);
        match resolve_stages(&parts, aliases) {
            Ok(resolved) => Ok(Route::Pipeline(resolved)),
            Err(e) => Err(e),
        }
    } else {
        let tokens: Vec<String> = split_words(line);
        match resolve_stage(&tokens, aliases) {
            Ok(resolved) => {
                if resolved.len() == 0 {
                    assert(strings_view(resolved@) =~= Seq::<Seq<char>>::empty());
                    Ok(Route::Nothing)
                } else {
                    Ok(Route::Command(resolved))
                }
            },
            Err(e) => Err(e),
        }
    }
}

/// Wildcard expansion comes after alias substitution and works on what
/// that gave. Where every lookup is unmatched, the resolution of a stage is
/// its alias expansion, as if the wildcard step had been left out.
pub proof fn unmatched_resolution_is_alias_expansion(
    tokens: Seq<Seq<char>>,
    table: Map<Seq<char>, Seq<char>>,
    outcomes: Seq<Option<Seq<Seq<char>>>>,
)
    requires
        resolvable(tokens, table),
        outcomes.len() == alias_expansion(tokens, table)->Some_0.len(),
        forall|i: int| 0 <= i < outcomes.len() ==> is_unmatched(#[trigger] outcomes[i]),
    ensures
        resolution(tokens, table, outcomes) == alias_expansion(tokens, table),
{
    unmatched_expansion_unchanged(alias_expansion(tokens, table)->Some_0, outcomes);
}

/// The command name of a resolved stage that needed no wildcard expansion
/// is never an alias: there is nothing left to substitute.
pub proof fn resolved_command_is_no_alias(tokens: Seq<Seq<char>>, table: Map<Seq<char>, Seq<char>>)
    requires
        resolvable(tokens, table),
    ensures
        !crate::alias::leads_with_alias(alias_expansion(tokens, table)->Some_0, table),
{
    expansion_is_final(tokens, table, MAX_ALIAS_DEPTH as nat);
}

} // verus!
