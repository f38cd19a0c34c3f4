//! Alias substitution on the leading token of an argument vector.

use vstd::prelude::*;
use vstd::hash_map::StringHashMap;
use crate::errors::ShellError;
use crate::tokens::{pairs_view, split_words, strings_view, words};

verus! {

/// The largest number of substitutions made on one argument vector.
pub const MAX_ALIAS_DEPTH: usize = 32;

/// The session's aliases: command names and their replacement text. The
/// names are also kept in the order in which they were first defined.
pub struct AliasTable {
    map: StringHashMap<String>,
    names: Vec<String>,
}

impl View for AliasTable {
    type V = Map<Seq<char>, Seq<char>>;

    closed spec fn view(&self) -> Map<Seq<char>, Seq<char>> {
        Map::new(|k: Seq<char>| self.map@.contains_key(k), |k: Seq<char>| self.map@[k]@)
    }
}

/// Whether `pairs` lists the table: every alias once, with its text, and
/// nothing else.
pub open spec fn is_listing(
    pairs: Seq<(Seq<char>, Seq<char>)>,
    table: Map<Seq<char>, Seq<char>>,
) -> bool {
    &&& forall|i: int, j: int| 0 <= i < j < pairs.len() ==> pairs[i].0 != pairs[j].0
    &&& forall|i: int|
        0 <= i < pairs.len() ==> table.contains_key((#[trigger] pairs[i]).0) && table[pairs[i].0]
            == pairs[i].1
    &&& forall|k: Seq<char>|
        table.contains_key(k) ==> exists|i: int| 0 <= i < pairs.len() && (#[trigger] pairs[i]).0 == k
}

impl AliasTable {
    /// The names are those of the aliases, each once.
    pub closed spec fn wf(&self) -> bool {
        &&& forall|i: int, j: int|
            0 <= i < j < self.names@.len() ==> self.names@[i]@ != self.names@[j]@
        &&& forall|i: int|
            0 <= i < self.names@.len() ==> self.map@.contains_key((#[trigger] self.names@[i])@)
        &&& forall|k: Seq<char>|
            self.map@.contains_key(k) ==> exists|i: int|
                0 <= i < self.names@.len() && (#[trigger] self.names@[i])@ == k
    }

    /// A table without aliases.
    pub fn new() -> (table: AliasTable)
        ensures
            table.wf(),
            table@ == Map::<Seq<char>, Seq<char>>::empty(),
    {
        let table = AliasTable { map: StringHashMap::new(), names: Vec::new() };
        assert(table@ =~= Map::<Seq<char>, Seq<char>>::empty());
        table
    }

    /// Defines `name`, replacing an earlier definition of it.
    pub fn insert(&mut self, name: String, body: String)
        requires
            old(self).wf(),
        ensures
            final(self).wf(),
            final(self)@ == old(self)@.insert(name@, body@),
    {
        let ghost before = self@;
        let ghost old_names = self.names@;
        let ghost key = name@;
        let ghost text = body@;
        if !self.map.contains_key(name.as_str()) {
            let copy: String = name.clone();
            self.names.push(copy);
            assert(self.names@[old_names.len() as int]@ == key);
        }
        self.map.insert(name, body);
        assert(self@ =~= before.insert(key, text));
        proof {
            assert forall|i: int| 0 <= i < old_names.len() implies self.names@[i] == old_names[i] by {}
            assert forall|k: Seq<char>| self.map@.contains_key(k) implies exists|i: int|
                0 <= i < self.names@.len() && (#[trigger] self.names@[i])@ == k by {
                if k != key {
                    let i = choose|i: int| 0 <= i < old_names.len() && (#[trigger] old_names[i])@ == k;
                    assert(self.names@[i]@ == k);
                } else if old_names.len() < self.names@.len() {
                    assert(self.names@[old_names.len() as int]@ == k);
                } else {
                    let i = choose|i: int| 0 <= i < old_names.len() && (#[trigger] old_names[i])@ == k;
                    assert(self.names@[i]@ == k);
                }
            }
        }
    }

    /// The replacement text of `name`, if it is an alias.
    pub fn get(&self, name: &str) -> (body: Option<&String>)
        ensures
            match body {
                Some(b) => self@.contains_key(name@) && b@ == self@[name@],
                None => !self@.contains_key(name@),
            },
    {
        self.map.get(name)
    }

    /// Whether `name` is an alias.
    pub fn contains(&self, name: &str) -> (found: bool)
        ensures
            found == self@.contains_key(name@),
    {
        self.map.contains_key(name)
    }

    /// The aliases with their replacement text, in the order in which the
    /// names were first defined.
    pub fn entries(&self) -> (out: Vec<(String, String)>)
        requires
            self.wf(),
        ensures
            is_listing(pairs_view(out@), self@),
    {
        let mut out: Vec<(String, String)> = Vec::new();
        let mut i: usize = 0;
        while i < self.names.len()
            invariant
                self.wf(),
                i <= self.names@.len(),
                out@.len() == i,
                forall|k: int|
                    0 <= k < i ==> (#[trigger] out@[k]).0@ == self.names@[k]@ && out@[k].1@
                        == self@[self.names@[k]@],
            decreases self.names@.len() - i,
        {
            let name: &String = &self.names[i];
            assert(self.map@.contains_key(self.names@[i as int]@));
            match self.map.get(name.as_str()) {
                Some(body) => {
                    out.push((name.clone(), body.clone()));
                },
                None => {
                    assert(false);
                },
            }
            i = i + 1;
        }
        proof {
            let pairs = pairs_view(out@);
            assert forall|k: int| 0 <= k < pairs.len() implies (#[trigger] pairs[k]).0
                == self.names@[k]@ && pairs[k].1 == self@[self.names@[k]@] by {
                assert(pairs[k] == (out@[k].0@, out@[k].1@));
            }
            assert forall|key: Seq<char>| self@.contains_key(key) implies exists|k: int|
                0 <= k < pairs.len() && (#[trigger] pairs[k]).0 == key by {
                let k = choose|k: int| 0 <= k < self.names@.len() && (#[trigger] self.names@[k])@ == key;
                assert(pairs[k].0 == key);
            }
        }
        out
    }
}

/// One substitution: the words of the alias body take the place of the
/// leading token, and the other arguments follow them.
pub open spec fn substitute(args: Seq<Seq<char>>, body: Seq<char>) -> Seq<Seq<char>> {
    words(body) + args.drop_first()
}

/// Whether the leading token of `args` is an alias.
pub open spec fn leads_with_alias(args: Seq<Seq<char>>, table: Map<Seq<char>, Seq<char>>) -> bool {
    args.len() > 0 && table.contains_key(args[0])
}

/// Substitution repeated until the leading token is no alias, with at most
/// `depth` substitutions; `None` where that is not enough.
pub open spec fn expand_within(
    args: Seq<Seq<char>>,
    table: Map<Seq<char>, Seq<char>>,
    depth: nat,
) -> Option<Seq<Seq<char>>>
    decreases depth,
{
    if !leads_with_alias(args, table) {
        Some(args)
    } else if depth == 0 {
        None
    } else {
        expand_within(substitute(args, table[args[0]]), table, (depth - 1) as nat)
    }
}

/// The alias expansion of `args`.
pub open spec fn alias_expansion(args: Seq<Seq<char>>, table: Map<Seq<char>, Seq<char>>) -> Option<
    Seq<Seq<char>>,
> {
    expand_within(args, table, MAX_ALIAS_DEPTH as nat)
}

/// Replaces the leading token by the words of `body`.
pub fn apply_alias(args: &Vec<String>, body: &str) -> (out: Vec<String>)
    requires
        args@.len() > 0,
    ensures
        strings_view(out@) == substitute(strings_view(args@), body@),
{
    let mut out: Vec<String> = split_words(body);
    let ghost head = strings_view(out@);
    let mut k: usize = 1;
    assert(strings_view(args@).subrange(1, 1) =~= Seq::<Seq<char>>::empty());
    while k < args.len()
        invariant
            1 <= k <= args@.len(),
            strings_view(out@) == head + strings_view(args@).subrange(1, k as int),
        decreases args@.len() - k,
    {
        let item: String = args[k].clone();
        proof {
            assert(strings_view(out@.push(item)) =~= strings_view(out@) + seq![item@]);
            assert(strings_view(args@).subrange(1, k as int) + seq![item@] =~= strings_view(
                args@,
            ).subrange(1, k as int + 1));
        }
        out.push(item);
        k = k + 1;
    }
    assert(strings_view(args@).subrange(1, k as int) =~= strings_view(args@).drop_first());
    out
}

/// Rewrites the leading command name through the alias table, again and
/// again until it is no alias. Fails where `MAX_ALIAS_DEPTH` substitutions
/// still leave an alias in front, as happens when aliases refer to each
/// other in a circle.
pub fn expand_alias(cmd_parts: Vec<String>, aliases: &AliasTable) -> (result: Result<
    Vec<String>,
    ShellError,
>)
    ensures
        match alias_expansion(strings_view(cmd_parts@), aliases@) {
            Some(expanded) => result is Ok && strings_view(result->Ok_0@) == expanded,
            None => result == Err::<Vec<String>, ShellError>(ShellError::AliasCycle),
        },
{
    let ghost start = strings_view(cmd_parts@);
    let ghost goal = alias_expansion(start, aliases@);
    let mut current: Vec<String> = cmd_parts;
    let mut used: usize = 0;
    loop
        invariant
            used <= MAX_ALIAS_DEPTH,
            start == strings_view(cmd_parts@),
            goal == alias_expansion(start, aliases@),
            expand_within(strings_view(current@), aliases@, (MAX_ALIAS_DEPTH - used) as nat)
                == goal,
        decreases MAX_ALIAS_DEPTH - used,
    {
        if current.len() == 0 {
            return Ok(current);
        }
        assert(strings_view(current@)[0] == current@[0]@);
        let next: Vec<String> = match aliases.get(current[0].as_str()) {
            None => {
                return Ok(current);
            },
            Some(body) => {
                if used == MAX_ALIAS_DEPTH {
                    return Err(ShellError::AliasCycle);
                }
                apply_alias(&current, body.as_str())
            },
        };
        current = next;
        used = used + 1;
    }
}

/// An argument vector without tokens is its own expansion.
pub proof fn expansion_of_nothing(table: Map<Seq<char>, Seq<char>>)
    ensures
        alias_expansion(Seq::<Seq<char>>::empty(), table) == Some(Seq::<Seq<char>>::empty()),
{
}

/// Where the command name is no alias, the expansion is the argument
/// vector itself.
pub proof fn expansion_without_alias(args: Seq<Seq<char>>, table: Map<Seq<char>, Seq<char>>)
    requires
        !leads_with_alias(args, table),
    ensures
        alias_expansion(args, table) == Some(args),
{
}

/// What an expansion yields never starts with an alias.
pub proof fn expansion_is_final(args: Seq<Seq<char>>, table: Map<Seq<char>, Seq<char>>, depth: nat)
    ensures
        expand_within(args, table, depth) is Some ==> !leads_with_alias(
            expand_within(args, table, depth)->Some_0,
            table,
        ),
    decreases depth,
{
    if leads_with_alias(args, table) && depth > 0 {
        expansion_is_final(substitute(args, table[args[0]]), table, (depth - 1) as nat);
    }
}

/// Aliases whose bodies are single names that lead back to the first one
/// have no expansion: following `a -> b`, `b -> a` never ends.
pub proof fn two_cycle_has_no_expansion(
    a: Seq<char>,
    b: Seq<char>,
    rest: Seq<Seq<char>>,
    table: Map<Seq<char>, Seq<char>>,
    depth: nat,
)
    requires
        table.contains_key(a),
        table.contains_key(b),
        words(table[a]) == seq![b],
        words(table[b]) == seq![a],
    ensures
        expand_within(seq![a] + rest, table, depth) is None,
        expand_within(seq![b] + rest, table, depth) is None,
    decreases depth,
{
    if depth > 0 {
        two_cycle_has_no_expansion(a, b, rest, table, (depth - 1) as nat);
        assert((seq![a] + rest).drop_first() =~= rest);
        assert((seq![b] + rest).drop_first() =~= rest);
        assert((seq![a] + rest)[0] == a);
        assert((seq![b] + rest)[0] == b);
    }
}

} // verus!
