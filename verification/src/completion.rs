//! Candidates for completing the word under the cursor: the names of
//! commands, aliases and files that start with what has been typed.

use vstd::prelude::*;
use vstd::string::StringSliceAdditionalSpecFns;
use crate::tokens::{pairs_view, strings_view};

verus! {

/// A completion: what is shown, and what is put into the line.
#[derive(Clone, Debug, PartialEq, Eq)]
pub struct Candidate {
    pub display: String,
    pub replacement: String,
}

impl View for Candidate {
    type V = (Seq<char>, Seq<char>);

    open spec fn view(&self) -> (Seq<char>, Seq<char>) {
        (self.display@, self.replacement@)
    }
}

/// Views of a vector of candidates.
pub open spec fn candidates_view(v: Seq<Candidate>) -> Seq<(Seq<char>, Seq<char>)> {
    v.map_values(|c: Candidate| c@)
}

/// The position at which the word that ends at `pos` begins: just behind
/// the last space before `pos`, or the start of the line.
pub open spec fn word_start_of(bytes: Seq<u8>, pos: int) -> int
    decreases pos,
{
    if pos <= 0 {
        0
    } else if bytes[pos - 1] == 0x20u8 {
        pos
    } else {
        word_start_of(bytes, pos - 1)
    }
}

/// The pairs among the first `n` whose name starts with `prefix`, in
/// their order.
pub open spec fn matching_upto(pairs: Seq<(Seq<char>, Seq<char>)>, prefix: Seq<char>, n: nat) -> Seq<
    (Seq<char>, Seq<char>),
>
    decreases n,
{
    if n == 0 {
        Seq::empty()
    } else {
        let before = matching_upto(pairs, prefix, (n - 1) as nat);
        if prefix.is_prefix_of(pairs[n - 1].0) {
            before.push(pairs[n - 1])
        } else {
            before
        }
    }
}

/// The pairs whose name starts with `prefix`, in their order.
pub open spec fn matching(pairs: Seq<(Seq<char>, Seq<char>)>, prefix: Seq<char>) -> Seq<
    (Seq<char>, Seq<char>),
> {
    matching_upto(pairs, prefix, pairs.len())
}

/// Each name as a pair with itself.
pub open spec fn doubled(names: Seq<Seq<char>>) -> Seq<(Seq<char>, Seq<char>)> {
    names.map_values(|n: Seq<char>| (n, n))
}

/// Whether file names are offered for a prefix: where it begins like a
/// path, or names something that exists.
pub open spec fn offers_files(prefix: Seq<char>, present: bool) -> bool {
    present || (prefix.len() > 0 && (prefix[0] == '.' || prefix[0] == '/'))
}

/// Whether the input ends in a backslash and so goes on in the next line.
pub open spec fn continues(input: Seq<char>) -> bool {
    input.len() > 0 && input.last() == '\\'
}

/// Finds where the word that ends at byte `pos` of `line` begins.
pub fn word_start(line: &str, pos: usize) -> (start: usize)
    requires
        pos <= line.spec_bytes().len(),
    ensures
        start == word_start_of(line.spec_bytes(), pos as int),
        start <= pos,
        start == 0 || line.spec_bytes()[start - 1] == 0x20u8,
        forall|k: int| start <= k < pos ==> line.spec_bytes()[k] != 0x20u8,
{
    let bytes: &[u8] = line.as_bytes();
    let mut start: usize = pos;
    while start > 0 && bytes[start - 1] != 0x20u8
        invariant
            bytes@ == line.spec_bytes(),
            start <= pos <= bytes@.len(),
            word_start_of(bytes@, start as int) == word_start_of(bytes@, pos as int),
            forall|k: int| start <= k < pos ==> bytes@[k] != 0x20u8,
        decreases start,
    {
        start = start - 1;
    }
    start
}

/// Tells whether `text` starts with `prefix`.
pub fn starts_with(text: &str, prefix: &str) -> (r: bool)
    ensures
        r == prefix@.is_prefix_of(text@),
{
    let n: usize = prefix.unicode_len();
    if n > text.unicode_len() {
        return false;
    }
    let mut i: usize = 0;
    while i < n
        invariant
            n == prefix@.len(),
            n <= text@.len(),
            i <= n,
            forall|k: int| 0 <= k < i ==> prefix@[k] == text@[k],
        decreases n - i,
    {
        if prefix.get_char(i) != text.get_char(i) {
            assert(prefix@[i as int] != text@.subrange(0, n as int)[i as int]);
            return false;
        }
        i = i + 1;
    }
    assert(prefix@ =~= text@.subrange(0, n as int));
    true
}

/// The aliases whose name starts with `prefix`: the name is shown and the
/// replacement text is put in.
pub fn alias_candidates(aliases: &Vec<(String, String)>, prefix: &str) -> (out: Vec<Candidate>)
    ensures
        candidates_view(out@) == matching(pairs_view(aliases@), prefix@),
{
    let mut out: Vec<Candidate> = Vec::new();
    let mut i: usize = 0;
    assert(candidates_view(out@) =~= Seq::<(Seq<char>, Seq<char>)>::empty());
    while i < aliases.len()
        invariant
            i <= aliases@.len(),
            candidates_view(out@) == matching_upto(pairs_view(aliases@), prefix@, i as nat),
        decreases aliases@.len() - i,
    {
        assert(pairs_view(aliases@)[i as int] == (aliases@[i as int].0@, aliases@[i as int].1@));
        if starts_with(aliases[i].0.as_str(), prefix) {
            let c = Candidate { display: aliases[i].0.clone(), replacement: aliases[i].1.clone() };
            assert(candidates_view(out@.push(c)) =~= candidates_view(out@).push(c@));
            out.push(c);
        }
        i = i + 1;
    }
    out
}

/// The names that start with `prefix`, each shown and put in as it is.
/// This serves for command names and for file names.
pub fn name_candidates(names: &Vec<String>, prefix: &str) -> (out: Vec<Candidate>)
    ensures
        candidates_view(out@) == matching(doubled(strings_view(names@)), prefix@),
{
    let mut out: Vec<Candidate> = Vec::new();
    let mut i: usize = 0;
    assert(candidates_view(out@) =~= Seq::<(Seq<char>, Seq<char>)>::empty());
    while i < names.len()
        invariant
            i <= names@.len(),
            candidates_view(out@) == matching_upto(
                doubled(strings_view(names@)),
                prefix@,
                i as nat,
            ),
        decreases names@.len() - i,
    {
        assert(doubled(strings_view(names@))[i as int] == (names@[i as int]@, names@[i as int]@));
        if starts_with(names[i].as_str(), prefix) {
            let c = Candidate { display: names[i].clone(), replacement: names[i].clone() };
            assert(candidates_view(out@.push(c)) =~= candidates_view(out@).push(c@));
            out.push(c);
        }
        i = i + 1;
    }
    out
}

/// Tells whether file names are to be offered for `prefix`; `present`
/// says whether the prefix names something in the file system.
pub fn wants_files(prefix: &str, present: bool) -> (r: bool)
    ensures
        r == offers_files(prefix@, present),
{
    if present {
        return true;
    }
    if prefix.unicode_len() == 0 {
        return false;
    }
    let c: char = prefix.get_char(0);
    c == '.' || c == '/'
}

/// Tells whether the input ends in a backslash.
pub fn is_incomplete(input: &str) -> (r: bool)
    ensures
        r == continues(input@),
{
    let n: usize = input.unicode_len();
    n > 0 && input.get_char(n - 1) == '\\'
}

/// The order of text by code points, shorter text first where one is the
/// start of the other.
pub open spec fn text_le(a: Seq<char>, b: Seq<char>) -> bool
    decreases a.len(),
{
    if a.len() == 0 {
        true
    } else if b.len() == 0 {
        false
    } else if a[0] as u32 != b[0] as u32 {
        (a[0] as u32) < (b[0] as u32)
    } else {
        text_le(a.drop_first(), b.drop_first())
    }
}

/// `sorted` with `c` put in behind the last pair whose name is not
/// greater than that of `c`.
pub open spec fn insert_sorted(
    sorted: Seq<(Seq<char>, Seq<char>)>,
    c: (Seq<char>, Seq<char>),
) -> Seq<(Seq<char>, Seq<char>)>
    decreases sorted.len(),
{
    if sorted.len() == 0 {
        seq![c]
    } else if text_le(sorted.last().0, c.0) {
        sorted.push(c)
    } else {
        insert_sorted(sorted.drop_last(), c).push(sorted.last())
    }
}

/// The first `n` pairs in the order of their names; pairs of the same
/// name stay in the order in which they came.
pub open spec fn sorted_upto(items: Seq<(Seq<char>, Seq<char>)>, n: nat) -> Seq<
    (Seq<char>, Seq<char>),
>
    decreases n,
{
    if n == 0 {
        Seq::empty()
    } else {
        insert_sorted(sorted_upto(items, (n - 1) as nat), items[n - 1])
    }
}

/// The pairs in the order of their names.
pub open spec fn sorted_by_display(items: Seq<(Seq<char>, Seq<char>)>) -> Seq<
    (Seq<char>, Seq<char>),
> {
    sorted_upto(items, items.len())
}

/// Whether the names of `items` ascend.
pub open spec fn ascending(items: Seq<(Seq<char>, Seq<char>)>) -> bool {
    forall|i: int, j: int| 0 <= i < j < items.len() ==> text_le(items[i].0, items[j].0)
}

/// What is offered for `prefix`, before sorting: the commands, then the
/// aliases, then the files where files are offered.
pub open spec fn offered(
    prefix: Seq<char>,
    commands: Seq<Seq<char>>,
    aliases: Seq<(Seq<char>, Seq<char>)>,
    files: Seq<Seq<char>>,
    present: bool,
) -> Seq<(Seq<char>, Seq<char>)> {
    matching(doubled(commands), prefix) + matching(aliases, prefix) + if offers_files(
        prefix,
        present,
    ) {
        matching(doubled(files), prefix)
    } else {
        Seq::empty()
    }
}

/// Compares two pieces of text by code points.
pub fn text_before_or_equal(a: &str, b: &str) -> (r: bool)
    ensures
        r == text_le(a@, b@),
{
    let n: usize = a.unicode_len();
    let m: usize = b.unicode_len();
    let mut i: usize = 0;
    assert(a@.skip(0) =~= a@ && b@.skip(0) =~= b@);
    while i < n && i < m
        invariant
            n == a@.len(),
            m == b@.len(),
            i <= n,
            i <= m,
            text_le(a@, b@) == text_le(a@.skip(i as int), b@.skip(i as int)),
        decreases n - i,
    {
        let x: u32 = a.get_char(i) as u32;
        let y: u32 = b.get_char(i) as u32;
        if x != y {
            return x < y;
        }
        assert(a@.skip(i as int).drop_first() =~= a@.skip(i + 1));
        assert(b@.skip(i as int).drop_first() =~= b@.skip(i + 1));
        i = i + 1;
    }
    i == n
}

proof fn lemma_insert_at(
    sorted: Seq<(Seq<char>, Seq<char>)>,
    c: (Seq<char>, Seq<char>),
    j: int,
)
    requires
        0 <= j <= sorted.len(),
        forall|k: int| j <= k < sorted.len() ==> !text_le(sorted[k].0, c.0),
        j > 0 ==> text_le(sorted[j - 1].0, c.0),
    ensures
        insert_sorted(sorted, c) == sorted.insert(j, c),
    decreases sorted.len(),
{
    if sorted.len() == 0 {
        assert(sorted.insert(0, c) =~= seq![c]);
    } else if j == sorted.len() {
        assert(sorted.insert(j, c) =~= sorted.push(c));
    } else {
        let rest = sorted.drop_last();
        lemma_insert_at(rest, c, j);
        assert(rest.insert(j, c).push(sorted.last()) =~= sorted.insert(j, c));
    }
}

/// Puts candidates in the order of what they show. Candidates that show
/// the same stay in the order in which they came.
pub fn sort_candidates(items: &Vec<Candidate>) -> (out: Vec<Candidate>)
    ensures
        candidates_view(out@) == sorted_by_display(candidates_view(items@)),
{
    let mut out: Vec<Candidate> = Vec::new();
    let mut i: usize = 0;
    assert(candidates_view(out@) =~= Seq::<(Seq<char>, Seq<char>)>::empty());
    while i < items.len()
        invariant
            i <= items@.len(),
            out@.len() == i,
            candidates_view(out@) == sorted_upto(candidates_view(items@), i as nat),
        decreases items@.len() - i,
    {
        let c = Candidate {
            display: items[i].display.clone(),
            replacement: items[i].replacement.clone(),
        };
        assert(c@ == candidates_view(items@)[i as int]);
        let mut j: usize = out.len();
        while j > 0 && !text_before_or_equal(out[j - 1].display.as_str(), c.display.as_str())
            invariant
                j <= out@.len(),
                forall|k: int|
                    j <= k < out@.len() ==> !text_le((#[trigger] out@[k]).display@, c.display@),
            decreases j,
        {
            j = j - 1;
        }
        proof {
            let sorted = candidates_view(out@);
            assert forall|k: int| j <= k < sorted.len() implies !text_le(sorted[k].0, c@.0) by {
                assert(sorted[k] == out@[k]@);
            }
            if j > 0 {
                assert(sorted[j - 1] == out@[j - 1]@);
            }
            lemma_insert_at(sorted, c@, j as int);
            assert(candidates_view(out@.insert(j as int, c)) =~= sorted.insert(j as int, c@));
        }
        out.insert(j, c);
        i = i + 1;
    }
    out
}

/// The candidates for a word that begins with `prefix`: the commands and
/// the aliases that start with it, and the files too where the prefix
/// begins like a path or `present` says that it names something that
/// exists; all in the order of what they show.
pub fn complete(
    prefix: &str,
    commands: &Vec<String>,
    aliases: &Vec<(String, String)>,
    files: &Vec<String>,
    present: bool,
) -> (out: Vec<Candidate>)
    ensures
        candidates_view(out@) == sorted_by_display(
            offered(
                prefix@,
                strings_view(commands@),
                pairs_view(aliases@),
                strings_view(files@),
                present,
            ),
        ),
{
    let mut found: Vec<Candidate> = name_candidates(commands, prefix);
    let mut more: Vec<Candidate> = alias_candidates(aliases, prefix);
    assert(candidates_view(found@ + more@) =~= candidates_view(found@) + candidates_view(more@));
    found.append(&mut more);
    if wants_files(prefix, present) {
        let mut names: Vec<Candidate> = name_candidates(files, prefix);
        assert(candidates_view(found@ + names@) =~= candidates_view(found@) + candidates_view(
            names@,
        ));
        found.append(&mut names);
    } else {
        assert(candidates_view(found@) + Seq::<(Seq<char>, Seq<char>)>::empty() =~= candidates_view(
            found@,
        ));
    }
    sort_candidates(&found)
}

/// The order of text is total.
pub proof fn text_le_total(a: Seq<char>, b: Seq<char>)
    ensures
        text_le(a, b) || text_le(b, a),
    decreases a.len(),
{
    if a.len() > 0 && b.len() > 0 && a[0] as u32 == b[0] as u32 {
        text_le_total(a.drop_first(), b.drop_first());
    }
}

/// The order of text is transitive.
pub proof fn text_le_transitive(a: Seq<char>, b: Seq<char>, c: Seq<char>)
    requires
        text_le(a, b),
        text_le(b, c),
    ensures
        text_le(a, c),
    decreases a.len(),
{
    if a.len() > 0 && b.len() > 0 && c.len() > 0 && a[0] as u32 == b[0] as u32 && b[0] as u32
        == c[0] as u32 {
        text_le_transitive(a.drop_first(), b.drop_first(), c.drop_first());
    }
}

proof fn lemma_insert_keeps_order(sorted: Seq<(Seq<char>, Seq<char>)>, c: (Seq<char>, Seq<char>))
    requires
        ascending(sorted),
    ensures
        ascending(insert_sorted(sorted, c)),
        insert_sorted(sorted, c).len() == sorted.len() + 1,
        insert_sorted(sorted, c).to_multiset() == sorted.to_multiset().insert(c),
        forall|k: int|
            0 <= k < insert_sorted(sorted, c).len() ==> insert_sorted(sorted, c)[k] == c || exists|
                m: int,
            |
                0 <= m < sorted.len() && insert_sorted(sorted, c)[k] == sorted[m],
    decreases sorted.len(),
{
    broadcast use vstd::seq_lib::to_multiset_build;

    let result = insert_sorted(sorted, c);
    if sorted.len() == 0 {
        assert(seq![c] =~= Seq::<(Seq<char>, Seq<char>)>::empty().push(c));
        assert(sorted =~= Seq::<(Seq<char>, Seq<char>)>::empty());
    } else if text_le(sorted.last().0, c.0) {
        assert forall|i: int, j: int| 0 <= i < j < result.len() implies text_le(
            result[i].0,
            result[j].0,
        ) by {
            if j == sorted.len() && i < sorted.len() - 1 {
                text_le_transitive(sorted[i].0, sorted.last().0, c.0);
            }
        }
        assert forall|k: int| 0 <= k < result.len() implies result[k] == c || exists|m: int|
            0 <= m < sorted.len() && result[k] == sorted[m] by {
            if k < sorted.len() {
                assert(result[k] == sorted[k]);
            }
        }
    } else {
        let rest = sorted.drop_last();
        let last = sorted.last();
        assert(ascending(rest));
        lemma_insert_keeps_order(rest, c);
        let inner = insert_sorted(rest, c);
        text_le_total(last.0, c.0);
        assert forall|k: int| 0 <= k < inner.len() implies text_le(inner[k].0, last.0) by {
            if inner[k] != c {
                let m = choose|m: int| 0 <= m < rest.len() && inner[k] == rest[m];
                assert(rest[m] == sorted[m]);
            }
        }
        assert forall|k: int| 0 <= k < result.len() implies result[k] == c || exists|m: int|
            0 <= m < sorted.len() && result[k] == sorted[m] by {
            if k < inner.len() {
                if inner[k] != c {
                    let m = choose|m: int| 0 <= m < rest.len() && inner[k] == rest[m];
                    assert(rest[m] == sorted[m]);
                }
            } else {
                assert(result[k] == sorted[sorted.len() - 1]);
            }
        }
        assert(sorted =~= rest.push(last));
        assert(rest.to_multiset().insert(c).insert(last) =~= rest.to_multiset().insert(
            last,
        ).insert(c));
    }
}

/// Sorting gives the same candidates, each as often as before, with
/// their names in ascending order.
pub proof fn sorting_orders_and_keeps(items: Seq<(Seq<char>, Seq<char>)>, n: nat)
    requires
        n <= items.len(),
    ensures
        ascending(sorted_upto(items, n)),
        sorted_upto(items, n).len() == n,
        sorted_upto(items, n).to_multiset() == items.take(n as int).to_multiset(),
    decreases n,
{
    broadcast use vstd::seq_lib::to_multiset_build;

    if n == 0 {
        assert(items.take(0) =~= Seq::<(Seq<char>, Seq<char>)>::empty());
    } else {
        sorting_orders_and_keeps(items, (n - 1) as nat);
        lemma_insert_keeps_order(sorted_upto(items, (n - 1) as nat), items[n - 1]);
        assert(items.take(n as int) =~= items.take(n - 1).push(items[n - 1]));
    }
}

/// A candidate is offered only for a name that starts with the prefix,
/// and no more candidates are offered than there are names.
pub proof fn matching_only_matches(pairs: Seq<(Seq<char>, Seq<char>)>, prefix: Seq<char>, n: nat)
    requires
        n <= pairs.len(),
    ensures
        matching_upto(pairs, prefix, n).len() <= n,
        forall|k: int|
            0 <= k < matching_upto(pairs, prefix, n).len() ==> prefix.is_prefix_of(
                (#[trigger] matching_upto(pairs, prefix, n)[k]).0,
            ),
    decreases n,
{
    if n > 0 {
        matching_only_matches(pairs, prefix, (n - 1) as nat);
    }
}

} // verus!
