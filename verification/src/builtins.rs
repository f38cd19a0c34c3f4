//! The commands that the shell handles itself, recognised from a trimmed
//! line before anything is resolved or run.

use vstd::prelude::*;
use crate::completion::starts_with;
use crate::tokens::{split_words, strings_view, words};

verus! {

/// A command of the shell itself.
#[derive(Debug, PartialEq, Eq)]
pub enum Builtin {
    /// Leave the shell.
    Exit,
    /// Change the working directory to this target.
    ChangeDir(String),
    /// Print the aliases.
    ListAliases,
    /// Define an alias for each of these arguments.
    DefineAliases(Vec<String>),
    /// Switch between restricted and elevated mode.
    ToggleMode,
    /// Clear the screen.
    Clear,
    /// Hand the following lines to the system shell.
    Shell,
}

/// Which builtin a line is, if any.
#[derive(Clone, Copy, Debug, PartialEq, Eq, Structural)]
pub enum BuiltinKind {
    Exit,
    ChangeDir,
    Alias,
    ToggleMode,
    Clear,
    Shell,
    Other,
}

/// The kind of a trimmed line. `cd` and `alias` are known by the way the
/// line begins, the others by the whole line.
pub open spec fn builtin_kind(line: Seq<char>) -> BuiltinKind {
    if line == "sh"@ {
        BuiltinKind::Shell
    } else if line == "exit"@ {
        BuiltinKind::Exit
    } else if "cd"@.is_prefix_of(line) {
        BuiltinKind::ChangeDir
    } else if "alias"@.is_prefix_of(line) {
        BuiltinKind::Alias
    } else if line == "admin"@ {
        BuiltinKind::ToggleMode
    } else if line == "clear"@ {
        BuiltinKind::Clear
    } else {
        BuiltinKind::Other
    }
}

/// Where `cd` goes: to its first argument, or to the root where it has
/// none.
pub open spec fn cd_target(line: Seq<char>) -> Seq<char> {
    if words(line).len() > 1 {
        words(line)[1]
    } else {
        "/"@
    }
}

/// `s` without the double quotes at its front.
pub open spec fn strip_front(s: Seq<char>) -> Seq<char>
    decreases s.len(),
{
    if s.len() > 0 && s[0] == '"' {
        strip_front(s.drop_first())
    } else {
        s
    }
}

/// `s` without the double quotes at its end.
pub open spec fn strip_back(s: Seq<char>) -> Seq<char>
    decreases s.len(),
{
    if s.len() > 0 && s.last() == '"' {
        strip_back(s.drop_last())
    } else {
        s
    }
}

/// `s` without the double quotes at either end.
pub open spec fn trim_quotes(s: Seq<char>) -> Seq<char> {
    strip_back(strip_front(s))
}

/// Tells whether two pieces of text are the same.
pub fn same_text(a: &str, b: &str) -> (r: bool)
    ensures
        r == (a@ == b@),
{
    if a.unicode_len() != b.unicode_len() {
        return false;
    }
    let r: bool = starts_with(a, b);
    proof {
        if r {
            assert(a@ =~= b@);
        }
    }
    r
}

/// Removes the double quotes at both ends of `text`.
pub fn trim_quotes_of(text: &str) -> (out: String)
    ensures
        out@ == trim_quotes(text@),
{
    let n: usize = text.unicode_len();
    let mut a: usize = 0;
    assert(text@.skip(0) =~= text@);
    while a < n && text.get_char(a) == '"'
        invariant
            n == text@.len(),
            a <= n,
            strip_front(text@) == strip_front(text@.skip(a as int)),
        decreases n - a,
    {
        assert(text@.skip(a as int).drop_first() =~= text@.skip(a + 1));
        a = a + 1;
    }
    let ghost front = text@.skip(a as int);
    assert(strip_front(text@) == front);
    let mut b: usize = n;
    assert(text@.subrange(a as int, n as int) =~= front);
    while b > a && text.get_char(b - 1) == '"'
        invariant
            n == text@.len(),
            a <= b <= n,
            strip_back(front) == strip_back(text@.subrange(a as int, b as int)),
        decreases b,
    {
        assert(text@.subrange(a as int, b as int).drop_last() =~= text@.subrange(
            a as int,
            b - 1,
        ));
        b = b - 1;
    }
    text.substring_char(a, b).to_owned()
}

/// Reads one argument of `alias`: the name before the first `=`, and the
/// value behind it without the double quotes around it. `None` where the
/// argument holds no `=`.
pub fn parse_alias_arg(arg: &str) -> (parsed: Option<(String, String)>)
    ensures
        match parsed {
            Some((name, value)) => {
                &&& name@.len() < arg@.len()
                &&& name@ == arg@.take(name@.len() as int)
                &&& !name@.contains('=')
                &&& arg@[name@.len() as int] == '='
                &&& value@ == trim_quotes(arg@.skip(name@.len() as int + 1))
            },
            None => !arg@.contains('='),
        },
{
    let n: usize = arg.unicode_len();
    let mut k: usize = 0;
    while k < n && arg.get_char(k) != '='
        invariant
            n == arg@.len(),
            k <= n,
            forall|j: int| 0 <= j < k ==> arg@[j] != '=',
        decreases n - k,
    {
        k = k + 1;
    }
    if k == n {
        return None;
    }
    let name: String = arg.substring_char(0, k).to_owned();
    let value: String = trim_quotes_of(arg.substring_char(k + 1, n));
    proof {
        assert(arg@.subrange(0, k as int) =~= arg@.take(k as int));
        assert(arg@.subrange(k + 1, n as int) =~= arg@.skip(k + 1));
    }
    Some((name, value))
}

/// Recognises the builtin that a trimmed line asks for; `None` where the
/// line is a command or a pipeline.
pub fn parse_builtin(line: &str) -> (found: Option<Builtin>)
    ensures
        match found {
            Some(Builtin::Shell) => builtin_kind(line@) == BuiltinKind::Shell,
            Some(Builtin::Exit) => builtin_kind(line@) == BuiltinKind::Exit,
            Some(Builtin::ChangeDir(target)) => builtin_kind(line@) == BuiltinKind::ChangeDir
                && target@ == cd_target(line@),
            Some(Builtin::ListAliases) => builtin_kind(line@) == BuiltinKind::Alias && words(
                line@,
            ).len() <= 1,
            Some(Builtin::DefineAliases(args)) => builtin_kind(line@) == BuiltinKind::Alias
                && words(line@).len() > 1 && strings_view(args@) == words(line@).drop_first(),
            Some(Builtin::ToggleMode) => builtin_kind(line@) == BuiltinKind::ToggleMode,
            Some(Builtin::Clear) => builtin_kind(line@) == BuiltinKind::Clear,
            None => builtin_kind(line@) == BuiltinKind::Other,
        },
{
    if same_text(line, "sh") {
        Some(Builtin::Shell)
    } else if same_text(line, "exit") {
        Some(Builtin::Exit)
    } else if starts_with(line, "cd") {
        let args: Vec<String> = split_words(line);
        let target: String = if args.len() > 1 {
            assert(strings_view(args@)[1] == args@[1]@);
            args[1].clone()
        } else {
            "/".to_owned()
        };
        Some(Builtin::ChangeDir(target))
    } else if starts_with(line, "alias") {
        let mut args: Vec<String> = split_words(line);
        if args.len() <= 1 {
            Some(Builtin::ListAliases)
        } else {
            let ghost all = strings_view(args@);
            let _command: String = args.remove(0);
            assert(strings_view(args@) =~= all.drop_first());
            Some(Builtin::DefineAliases(args))
        }
    } else if same_text(line, "admin") {
        Some(Builtin::ToggleMode)
    } else if same_text(line, "clear") {
        Some(Builtin::Clear)
    } else {
        None
    }
}

/// Stripping quotes leaves no quote at either end.
pub proof fn trimmed_has_no_outer_quotes(s: Seq<char>)
    ensures
        trim_quotes(s).len() > 0 ==> trim_quotes(s)[0] != '"' && trim_quotes(s).last() != '"',
        trim_quotes(s).len() <= s.len(),
{
    lemma_strip_front(s);
    lemma_strip_back(strip_front(s));
}

proof fn lemma_strip_front(s: Seq<char>)
    ensures
        strip_front(s).len() <= s.len(),
        strip_front(s).len() > 0 ==> strip_front(s)[0] != '"',
        exists|k: int| 0 <= k <= s.len() && strip_front(s) == #[trigger] s.skip(k),
    decreases s.len(),
{
    if s.len() > 0 && s[0] == '"' {
        lemma_strip_front(s.drop_first());
        let k = choose|k: int|
            0 <= k <= s.drop_first().len() && strip_front(s.drop_first())
                == #[trigger] s.drop_first().skip(k);
        assert(s.drop_first().skip(k) =~= s.skip(k + 1));
    } else {
        assert(s.skip(0) =~= s);
    }
}

proof fn lemma_strip_back(s: Seq<char>)
    ensures
        strip_back(s).len() <= s.len(),
        strip_back(s).len() > 0 ==> strip_back(s).last() != '"' && strip_back(s)[0] == s[0],
    decreases s.len(),
{
    if s.len() > 0 && s.last() == '"' {
        lemma_strip_back(s.drop_last());
    }
}

} // verus!
