//! Wildcard expansion of argument tokens against the file system.

use vstd::prelude::*;
use crate::tokens::strings_view;

verus! {

/// The error that `glob` gives for a malformed pattern.
#[verifier::external_type_specification]
#[verifier::external_body]
pub struct ExPatternError(glob::PatternError);

/// The error that `glob` gives for a path it could not read.
#[verifier::external_type_specification]
#[verifier::external_body]
pub struct ExGlobError(glob::GlobError);

/// The characters that make a token a pattern.
pub open spec fn is_wildcard(c: char) -> bool {
    c == '*' || c == '?' || c == '['
}

/// Whether a token holds a wildcard character.
pub open spec fn has_wildcard(s: Seq<char>) -> bool {
    exists|i: int| 0 <= i < s.len() && is_wildcard(#[trigger] s[i])
}

/// Whether no token of `args` holds a wildcard character.
pub open spec fn all_literal(args: Seq<Seq<char>>) -> bool {
    forall|i: int| 0 <= i < args.len() ==> !has_wildcard(#[trigger] args[i])
}

/// What looking a pattern up has given: the pattern was malformed, or it
/// matched these paths, in the order in which they were found.
#[derive(Debug)]
pub enum GlobOutcome {
    BadPattern,
    Paths(Vec<String>),
}

impl View for GlobOutcome {
    type V = Option<Seq<Seq<char>>>;

    open spec fn view(&self) -> Option<Seq<Seq<char>>> {
        match self {
            GlobOutcome::BadPattern => None,
            GlobOutcome::Paths(paths) => Some(strings_view(paths@)),
        }
    }
}

/// Whether an outcome leaves the token as it is: a malformed pattern, or
/// no match.
pub open spec fn is_unmatched(outcome: Option<Seq<Seq<char>>>) -> bool {
    outcome is None || outcome->Some_0.len() == 0
}

/// What takes the place of one token: the matches of a pattern that has
/// any, else the token itself.
pub open spec fn token_expansion(token: Seq<char>, outcome: Option<Seq<Seq<char>>>) -> Seq<
    Seq<char>,
> {
    if has_wildcard(token) && !is_unmatched(outcome) {
        outcome->Some_0
    } else {
        seq![token]
    }
}

/// The expansions of the first `n` tokens, one after the other, where
/// `outcomes[i]` is what the lookup of `args[i]` gave.
pub open spec fn expansion_upto(
    args: Seq<Seq<char>>,
    outcomes: Seq<Option<Seq<Seq<char>>>>,
    n: nat,
) -> Seq<Seq<char>>
    decreases n,
{
    if n == 0 {
        Seq::empty()
    } else {
        expansion_upto(args, outcomes, (n - 1) as nat) + token_expansion(
            args[n - 1],
            outcomes[n - 1],
        )
    }
}

/// The expansion of a whole argument vector under the given outcomes.
pub open spec fn expansion(args: Seq<Seq<char>>, outcomes: Seq<Option<Seq<Seq<char>>>>) -> Seq<
    Seq<char>,
> {
    expansion_upto(args, outcomes, args.len())
}

/// Whether `out` is an expansion of `args` under some outcome of the
/// lookups.
pub open spec fn is_expansion_of(out: Seq<Seq<char>>, args: Seq<Seq<char>>) -> bool {
    exists|outcomes: Seq<Option<Seq<Seq<char>>>>|
        outcomes.len() == args.len() && out == #[trigger] expansion(args, outcomes)
}

/// The paths among the entries of a lookup that could be read.
pub open spec fn readable_paths(entries: Seq<Result<String, glob::GlobError>>) -> Seq<Seq<char>>
    decreases entries.len(),
{
    if entries.len() == 0 {
        Seq::empty()
    } else {
        let before = readable_paths(entries.drop_last());
        match entries.last() {
            Ok(path) => before.push(path@),
            Err(_) => before,
        }
    }
}

/// Calls `glob::glob` on the pattern and walks the iterator it returns to
/// its end, turning each path into text. Nothing is claimed of the result:
/// it depends on the files that exist when the call is made.
#[verifier::external_body]
fn glob_lookup(pattern: &str) -> (found: Result<
    Vec<Result<String, glob::GlobError>>,
    glob::PatternError,
>) {
    match glob::glob(pattern) {
        Ok(paths) => Ok(paths.map(|entry| entry.map(|p| p.to_string_lossy().into_owned())).collect()),
        Err(e) => Err(e),
    }
}

/// Tells whether a token holds `*`, `?` or `[`.
pub fn token_has_wildcard(token: &str) -> (r: bool)
    ensures
        r == has_wildcard(token@),
{
    let n: usize = token.unicode_len();
    let mut i: usize = 0;
    while i < n
        invariant
            n == token@.len(),
            i <= n,
            forall|k: int| 0 <= k < i ==> !is_wildcard(#[trigger] token@[k]),
        decreases n - i,
    {
        let c: char = token.get_char(i);
        if c == '*' || c == '?' || c == '[' {
            return true;
        }
        i = i + 1;
    }
    false
}

/// Keeps the paths that could be read and drops the entries that could not.
fn classify(found: Result<Vec<Result<String, glob::GlobError>>, glob::PatternError>) -> (outcome:
    GlobOutcome)
    ensures
        match found {
            Ok(entries) => outcome@ == Some(readable_paths(entries@)),
            Err(_) => outcome@ is None,
        },
{
    match found {
        Err(_) => GlobOutcome::BadPattern,
        Ok(entries) => {
            let mut paths: Vec<String> = Vec::new();
            let mut i: usize = 0;
            assert(entries@.take(0) =~= Seq::<Result<String, glob::GlobError>>::empty());
            while i < entries.len()
                invariant
                    i <= entries@.len(),
                    strings_view(paths@) == readable_paths(entries@.take(i as int)),
                decreases entries@.len() - i,
            {
                proof {
                    assert(entries@.take(i + 1).drop_last() =~= entries@.take(i as int));
                    assert(entries@.take(i + 1).last() == entries@[i as int]);
                }
                match &entries[i] {
                    Ok(path) => {
                        let kept: String = path.clone();
                        assert(strings_view(paths@.push(kept)) =~= strings_view(paths@).push(
                            kept@,
                        ));
                        paths.push(kept);
                    },
                    Err(_) => {},
                }
                i = i + 1;
            }
            assert(entries@.take(i as int) =~= entries@);
            GlobOutcome::Paths(paths)
        },
    }
}

/// Replaces one token by what its lookup gave: by the paths where the
/// token is a pattern and any were found, else by the token itself.
pub fn expand_token(token: String, outcome: GlobOutcome) -> (out: Vec<String>)
    ensures
        strings_view(out@) == token_expansion(token@, outcome@),
{
    let pattern: bool = token_has_wildcard(token.as_str());
    match outcome {
        GlobOutcome::Paths(paths) => {
            if pattern && paths.len() > 0 {
                return paths;
            }
        },
        GlobOutcome::BadPattern => {},
    }
    let mut out: Vec<String> = Vec::new();
    assert(strings_view(out@.push(token)) =~= seq![token@]);
    out.push(token);
    out
}

/// Where no token is a pattern, the expansion is the argument vector
/// itself, whatever the lookups would give.
pub proof fn literal_tokens_unchanged(args: Seq<Seq<char>>, outcomes: Seq<Option<Seq<Seq<char>>>>)
    requires
        all_literal(args),
    ensures
        expansion(args, outcomes) == args,
{
    lemma_kept_prefix(args, outcomes, args.len());
    assert(args.take(args.len() as int) =~= args);
}

/// A pattern that is malformed or matches nothing stands for itself.
pub proof fn unmatched_pattern_kept(token: Seq<char>, outcome: Option<Seq<Seq<char>>>)
    requires
        is_unmatched(outcome),
    ensures
        token_expansion(token, outcome) == seq![token],
{
}

/// Where every lookup is unmatched, the expansion is the argument vector
/// itself.
pub proof fn unmatched_expansion_unchanged(
    args: Seq<Seq<char>>,
    outcomes: Seq<Option<Seq<Seq<char>>>>,
)
    requires
        outcomes.len() == args.len(),
        forall|i: int| 0 <= i < outcomes.len() ==> is_unmatched(#[trigger] outcomes[i]),
    ensures
        expansion(args, outcomes) == args,
{
    lemma_kept_prefix(args, outcomes, args.len());
    assert(args.take(args.len() as int) =~= args);
}

/// An expansion never has fewer tokens than the argument vector.
pub proof fn expansion_keeps_every_token(
    args: Seq<Seq<char>>,
    outcomes: Seq<Option<Seq<Seq<char>>>>,
    n: nat,
)
    requires
        n <= args.len(),
    ensures
        expansion_upto(args, outcomes, n).len() >= n,
    decreases n,
{
    if n > 0 {
        expansion_keeps_every_token(args, outcomes, (n - 1) as nat);
    }
}

proof fn lemma_kept_prefix(args: Seq<Seq<char>>, outcomes: Seq<Option<Seq<Seq<char>>>>, n: nat)
    requires
        n <= args.len(),
        forall|i: int|
            0 <= i < n ==> !has_wildcard(#[trigger] args[i]) || (i < outcomes.len()
                && is_unmatched(outcomes[i])),
    ensures
        expansion_upto(args, outcomes, n) == args.take(n as int),
    decreases n,
{
    if n == 0 {
        assert(args.take(0) =~= Seq::<Seq<char>>::empty());
    } else {
        lemma_kept_prefix(args, outcomes, (n - 1) as nat);
        assert(!has_wildcard(args[n - 1]) || is_unmatched(outcomes[n - 1]));
        assert(args.take(n as int) =~= args.take(n - 1) + seq![args[n - 1]]);
    }
}

/// Expands the wildcard patterns among `args`. A token that holds `*`, `?`
/// or `[` is looked up in the file system and replaced by the paths that
/// match it, in the order in which the lookup gives them; where the pattern
/// is malformed or nothing matches, it stays. Other tokens stay where they
/// are.
pub fn expand_globs(args: Vec<String>) -> (out: Vec<String>)
    ensures
        is_expansion_of(strings_view(out@), strings_view(args@)),
        all_literal(strings_view(args@)) ==> strings_view(out@) == strings_view(args@),
        out@.len() >= args@.len(),
{
    let ghost tokens = strings_view(args@);
    let mut out: Vec<String> = Vec::new();
    let ghost mut outcomes: Seq<Option<Seq<Seq<char>>>> = Seq::empty();
    let mut i: usize = 0;
    assert(strings_view(out@) =~= Seq::<Seq<char>>::empty());
    while i < args.len()
        invariant
            tokens == strings_view(args@),
            i <= args@.len(),
            outcomes.len() == i,
            strings_view(out@) == expansion_upto(tokens, outcomes, i as nat),
        decreases args@.len() - i,
    {
        let token: String = args[i].clone();
        assert(token@ == tokens[i as int]);
        let ghost mut seen: Option<Seq<Seq<char>>> = None;
        let mut pieces: Vec<String> = if token_has_wildcard(token.as_str()) {
            let outcome: GlobOutcome = classify(glob_lookup(token.as_str()));
            proof {
                seen = outcome@;
            }
            expand_token(token, outcome)
        } else {
            let mut kept: Vec<String> = Vec::new();
            assert(strings_view(kept@.push(token)) =~= seq![token@]);
            kept.push(token);
            kept
        };
        proof {
            let grown = outcomes.push(seen);
            assert(grown.take(outcomes.len() as int) =~= outcomes);
            lemma_outcomes_prefix(tokens, outcomes, grown, i as nat);
            assert(strings_view(out@ + pieces@) =~= strings_view(out@) + strings_view(pieces@));
            outcomes = grown;
        }
        out.append(&mut pieces);
        i = i + 1;
    }
    proof {
        assert(strings_view(out@) == expansion(tokens, outcomes));
        expansion_keeps_every_token(tokens, outcomes, tokens.len());
        if all_literal(tokens) {
            literal_tokens_unchanged(tokens, outcomes);
        }
    }
    out
}

/// The expansion of the first `n` tokens reads only the first `n` outcomes.
proof fn lemma_outcomes_prefix(
    args: Seq<Seq<char>>,
    short: Seq<Option<Seq<Seq<char>>>>,
    long: Seq<Option<Seq<Seq<char>>>>,
    n: nat,
)
    requires
        n <= short.len() <= long.len(),
        long.take(short.len() as int) == short,
    ensures
        expansion_upto(args, long, n) == expansion_upto(args, short, n),
    decreases n,
{
    if n > 0 {
        lemma_outcomes_prefix(args, short, long, (n - 1) as nat);
        assert(long[n - 1] == long.take(short.len() as int)[n - 1]);
    }
}

} // verus!
