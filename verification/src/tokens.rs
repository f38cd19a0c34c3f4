//! Line syntax: stages separated by `|`, tokens separated by whitespace.
//! There is no quoting and no escaping.

use vstd::prelude::*;

verus! {

/// The character that separates the stages of a pipeline.
pub open spec fn is_pipe(c: char) -> bool {
    c == '|'
}

/// Unicode white space, the separator between tokens.
pub open spec fn is_space(c: char) -> bool {
    let n = c as u32;
    ||| 0x09 <= n <= 0x0d
    ||| n == 0x20
    ||| n == 0x85
    ||| n == 0xa0
    ||| n == 0x1680
    ||| 0x2000 <= n <= 0x200a
    ||| n == 0x2028
    ||| n == 0x2029
    ||| n == 0x202f
    ||| n == 0x205f
    ||| n == 0x3000
}

/// Length of the longest prefix of `s` that holds no white space.
pub open spec fn word_len(s: Seq<char>) -> nat
    decreases s.len(),
{
    if s.len() == 0 || is_space(s[0]) {
        0
    } else {
        1 + word_len(s.drop_first())
    }
}

/// The maximal runs of non-space characters of `s`, left to right.
pub open spec fn words(s: Seq<char>) -> Seq<Seq<char>>
    decreases s.len(),
{
    if s.len() == 0 {
        Seq::empty()
    } else if is_space(s[0]) {
        words(s.drop_first())
    } else {
        let n = word_len(s);
        if 0 < n <= s.len() {
            seq![s.take(n as int)] + words(s.skip(n as int))
        } else {
            Seq::empty()
        }
    }
}

/// Length of the longest prefix of `s` that holds no `|`.
pub open spec fn segment_len(s: Seq<char>) -> nat
    decreases s.len(),
{
    if s.len() == 0 || is_pipe(s[0]) {
        0
    } else {
        1 + segment_len(s.drop_first())
    }
}

/// The pieces of `s` between its `|` characters. There is always one piece
/// more than there are separators; pieces may be empty.
pub open spec fn segments(s: Seq<char>) -> Seq<Seq<char>>
    decreases s.len(),
{
    let n = segment_len(s);
    if n < s.len() {
        seq![s.take(n as int)] + segments(s.skip(n as int + 1))
    } else {
        seq![s]
    }
}

/// The stages of a line: each segment split into its words.
pub open spec fn stages(s: Seq<char>) -> Seq<Seq<Seq<char>>> {
    segments(s).map_values(|seg: Seq<char>| words(seg))
}

/// Whether a line holds a pipe separator.
pub open spec fn has_pipe(s: Seq<char>) -> bool {
    exists|i: int| 0 <= i < s.len() && is_pipe(#[trigger] s[i])
}

/// Views of a vector of strings.
pub open spec fn strings_view(v: Seq<String>) -> Seq<Seq<char>> {
    v.map_values(|s: String| s@)
}

/// Views of a vector of token vectors.
pub open spec fn stages_view(v: Seq<Vec<String>>) -> Seq<Seq<Seq<char>>> {
    v.map_values(|t: Vec<String>| strings_view(t@))
}

/// Views of a vector of pairs of strings.
pub open spec fn pairs_view(v: Seq<(String, String)>) -> Seq<(Seq<char>, Seq<char>)> {
    v.map_values(|p: (String, String)| (p.0@, p.1@))
}

pub fn char_is_space(c: char) -> (r: bool)
    ensures
        r == is_space(c),
{
    let n: u32 = c as u32;
    (0x09 <= n && n <= 0x0d) || n == 0x20 || n == 0x85 || n == 0xa0 || n == 0x1680 || (0x2000 <= n
        && n <= 0x200a) || n == 0x2028 || n == 0x2029 || n == 0x202f || n == 0x205f || n == 0x3000
}

/// The leading word ends at the first white space, or at the end of the
/// text where there is none.
pub proof fn word_len_in_bounds(s: Seq<char>)
    ensures
        word_len(s) <= s.len(),
        forall|k: int| 0 <= k < word_len(s) ==> !is_space(#[trigger] s[k]),
        word_len(s) < s.len() ==> is_space(s[word_len(s) as int]),
    decreases s.len(),
{
    if s.len() == 0 || is_space(s[0]) {
    } else {
        let t = s.drop_first();
        word_len_in_bounds(t);
        assert forall|k: int| 0 <= k < word_len(s) implies !is_space(#[trigger] s[k]) by {
            if k > 0 {
                assert(s[k] == t[k - 1]);
            }
        }
        if word_len(s) < s.len() {
            assert(s[word_len(s) as int] == t[word_len(t) as int]);
        }
    }
}

/// A run of `n` non-space characters that ends at a space or at the end of
/// `s` is the leading word of `s`.
proof fn lemma_word_len_is(s: Seq<char>, n: int)
    requires
        0 <= n <= s.len(),
        forall|k: int| 0 <= k < n ==> !is_space(#[trigger] s[k]),
        n < s.len() ==> is_space(s[n]),
    ensures
        word_len(s) == n,
    decreases s.len(),
{
    if n == 0 {
    } else {
        let t = s.drop_first();
        assert forall|k: int| 0 <= k < n - 1 implies !is_space(#[trigger] t[k]) by {
            assert(t[k] == s[k + 1]);
        }
        lemma_word_len_is(t, n - 1);
    }
}

/// The leading segment ends at the first `|`, or at the end of the text
/// where there is none.
pub proof fn segment_len_in_bounds(s: Seq<char>)
    ensures
        segment_len(s) <= s.len(),
        forall|k: int| 0 <= k < segment_len(s) ==> !is_pipe(#[trigger] s[k]),
        segment_len(s) < s.len() ==> is_pipe(s[segment_len(s) as int]),
    decreases s.len(),
{
    if s.len() == 0 || is_pipe(s[0]) {
    } else {
        let t = s.drop_first();
        segment_len_in_bounds(t);
        assert forall|k: int| 0 <= k < segment_len(s) implies !is_pipe(#[trigger] s[k]) by {
            if k > 0 {
                assert(s[k] == t[k - 1]);
            }
        }
        if segment_len(s) < s.len() {
            assert(s[segment_len(s) as int] == t[segment_len(t) as int]);
        }
    }
}

proof fn lemma_segment_len_is(s: Seq<char>, n: int)
    requires
        0 <= n <= s.len(),
        forall|k: int| 0 <= k < n ==> !is_pipe(#[trigger] s[k]),
        n < s.len() ==> is_pipe(s[n]),
    ensures
        segment_len(s) == n,
    decreases s.len(),
{
    if n == 0 {
    } else {
        let t = s.drop_first();
        assert forall|k: int| 0 <= k < n - 1 implies !is_pipe(#[trigger] t[k]) by {
            assert(t[k] == s[k + 1]);
        }
        lemma_segment_len_is(t, n - 1);
    }
}

/// Whether `w` has at least one character and holds no white space.
pub open spec fn is_token(w: Seq<char>) -> bool {
    w.len() > 0 && forall|k: int| 0 <= k < w.len() ==> !is_space(#[trigger] w[k])
}

/// Every word of a text is a token.
pub proof fn words_are_tokens(s: Seq<char>)
    ensures
        forall|i: int| 0 <= i < words(s).len() ==> is_token(#[trigger] words(s)[i]),
    decreases s.len(),
{
    if s.len() == 0 {
        assert(words(s).len() == 0);
    } else if is_space(s[0]) {
        words_are_tokens(s.drop_first());
        assert(words(s) == words(s.drop_first()));
    } else {
        word_len_in_bounds(s);
        let n = word_len(s) as int;
        words_are_tokens(s.skip(n));
        assert(words(s) == seq![s.take(n)] + words(s.skip(n)));
        assert forall|i: int| 0 <= i < words(s).len() implies is_token(#[trigger] words(s)[i]) by {
            if i == 0 {
                assert(words(s)[0] == s.take(n));
                assert(is_token(s.take(n)));
            } else {
                assert(words(s)[i] == words(s.skip(n))[i - 1]);
            }
        }
    }
}

/// No segment holds a `|`, and there is always at least one segment.
pub proof fn segments_hold_no_pipe(s: Seq<char>)
    ensures
        segments(s).len() >= 1,
        forall|i: int| 0 <= i < segments(s).len() ==> !has_pipe(#[trigger] segments(s)[i]),
    decreases s.len(),
{
    segment_len_in_bounds(s);
    let n = segment_len(s) as int;
    if n < s.len() {
        segments_hold_no_pipe(s.skip(n + 1));
        assert forall|i: int| 0 <= i < segments(s).len() implies !has_pipe(
            #[trigger] segments(s)[i],
        ) by {
            if i == 0 {
                assert(segments(s)[0] == s.take(n));
                assert(!has_pipe(s.take(n)));
            } else {
                assert(segments(s)[i] == segments(s.skip(n + 1))[i - 1]);
            }
        }
    } else {
        assert(segments(s) =~= seq![s]);
    }
}

/// Text without a `|` is a single segment.
pub proof fn text_without_pipe_is_one_segment(s: Seq<char>)
    requires
        !has_pipe(s),
    ensures
        segments(s) == seq![s],
        stages(s) == seq![words(s)],
{
    segment_len_in_bounds(s);
    assert(stages(s) =~= seq![words(s)]);
}

/// Appends a copy of each string of `items` to `into`.
pub fn copy_strings(items: &Vec<String>, into: &mut Vec<String>)
    ensures
        strings_view(final(into)@) == strings_view(old(into)@) + strings_view(items@),
{
    let ghost before = strings_view(into@);
    let mut k: usize = 0;
    assert(strings_view(items@).take(0) =~= Seq::<Seq<char>>::empty());
    while k < items.len()
        invariant
            k <= items@.len(),
            strings_view(into@) == before + strings_view(items@).take(k as int),
        decreases items@.len() - k,
    {
        let item: String = items[k].clone();
        proof {
            assert(strings_view(into@.push(item)) =~= strings_view(into@).push(item@));
            assert(strings_view(items@).take(k as int).push(item@) =~= strings_view(items@).take(
                k as int + 1,
            ));
        }
        into.push(item);
        k = k + 1;
    }
    assert(strings_view(items@).take(k as int) =~= strings_view(items@));
}

/// Splits a piece of text into its white-space separated tokens.
pub fn split_words(text: &str) -> (out: Vec<String>)
    ensures
        strings_view(out@) == words(text@),
{
    let n: usize = text.unicode_len();
    let mut out: Vec<String> = Vec::new();
    let mut i: usize = 0;
    assert(text@.skip(0) =~= text@);
    assert(strings_view(out@) =~= Seq::<Seq<char>>::empty());
    while i < n
        invariant
            n == text@.len(),
            i <= n,
            strings_view(out@) + words(text@.skip(i as int)) == words(text@),
        decreases n - i,
    {
        let ghost rest = text@.skip(i as int);
        let c: char = text.get_char(i);
        if char_is_space(c) {
            proof {
                assert(rest.drop_first() =~= text@.skip(i + 1));
            }
            i = i + 1;
        } else {
            let mut j: usize = i + 1;
            while j < n && !char_is_space(text.get_char(j))
                invariant
                    n == text@.len(),
                    i < j <= n,
                    forall|k: int| i <= k < j ==> !is_space(#[trigger] text@[k]),
                decreases n - j,
            {
                j = j + 1;
            }
            let word: String = text.substring_char(i, j).to_owned();
            proof {
                assert forall|k: int| 0 <= k < j - i implies !is_space(#[trigger] rest[k]) by {
                    assert(rest[k] == text@[i + k]);
                }
                lemma_word_len_is(rest, j - i);
                assert(rest.take(j - i) =~= text@.subrange(i as int, j as int));
                assert(rest.skip(j - i) =~= text@.skip(j as int));
                assert(strings_view(out@.push(word)) =~= strings_view(out@) + seq![word@]);
                assert(words(rest) == seq![word@] + words(text@.skip(j as int)));
            }
            out.push(word);
            i = j;
        }
    }
    proof {
        assert(words(text@.skip(n as int)) =~= Seq::<Seq<char>>::empty());
    }
    out
}

/// Splits a line at each `|` and every piece into its tokens.
pub fn split_stages(line: &str) -> (out: Vec<Vec<String>>)
    ensures
        stages_view(out@) == stages(line@),
        out@.len() >= 1,
{
    let n: usize = line.unicode_len();
    let mut out: Vec<Vec<String>> = Vec::new();
    let mut i: usize = 0;
    assert(line@.skip(0) =~= line@);
    assert(stages_view(out@) =~= Seq::<Seq<Seq<char>>>::empty());
    loop
        invariant
            n == line@.len(),
            i <= n,
            stages_view(out@) + stages(line@.skip(i as int)) == stages(line@),
        decreases n - i,
    {
        let ghost rest = line@.skip(i as int);
        let mut j: usize = i;
        while j < n && line.get_char(j) != '|'
            invariant
                n == line@.len(),
                i <= j <= n,
                forall|k: int| i <= k < j ==> !is_pipe(#[trigger] line@[k]),
            decreases n - j,
        {
            j = j + 1;
        }
        let stage: Vec<String> = split_words(line.substring_char(i, j));
        proof {
            assert forall|k: int| 0 <= k < j - i implies !is_pipe(#[trigger] rest[k]) by {
                assert(rest[k] == line@[i + k]);
            }
            lemma_segment_len_is(rest, j - i);
            assert(rest.take(j - i) =~= line@.subrange(i as int, j as int));
            assert(stages_view(out@.push(stage)) =~= stages_view(out@) + seq![
                strings_view(stage@),
            ]);
        }
        out.push(stage);
        if j == n {
            proof {
                assert(rest.take(j - i) =~= rest);
                assert(stages(rest) =~= seq![words(rest)]);
            }
            return out;
        }
        proof {
            assert(rest.skip(j - i + 1) =~= line@.skip(j + 1));
            assert(stages(rest) =~= seq![words(rest.take(j - i))] + stages(line@.skip(j + 1)));
        }
        i = j + 1;
    }
}

/// Tells whether a line holds a pipe separator, that is whether it has more
/// than one stage.
pub fn contains_pipe(line: &str) -> (r: bool)
    ensures
        r == has_pipe(line@),
        r == (segments(line@).len() > 1),
{
    let n: usize = line.unicode_len();
    let mut j: usize = 0;
    while j < n && line.get_char(j) != '|'
        invariant
            n == line@.len(),
            j <= n,
            forall|k: int| 0 <= k < j ==> !is_pipe(#[trigger] line@[k]),
        decreases n - j,
    {
        j = j + 1;
    }
    proof {
        lemma_segment_len_is(line@, j as int);
        if j < n {
            assert(is_pipe(line@[j as int]));
            let rest = line@.skip(j as int + 1);
            assert(segments(rest).len() >= 1);
            assert(segments(line@) == seq![line@.take(j as int)] + segments(rest));
        }
    }
    j < n
}

} // verus!
