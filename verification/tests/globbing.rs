use bakashell::globbing::{expand_globs, expand_token, token_has_wildcard, GlobOutcome};

fn toks(items: &[&str]) -> Vec<String> {
    items.iter().map(|s| s.to_string()).collect()
}

#[test]
fn literal_tokens_pass_through() {
    let args = toks(&["ls", "-al", "/tmp", "a.b", "x]y", "{a,b}", "~"]);
    assert_eq!(expand_globs(args.clone()), args);
}

#[test]
fn empty_vector_expands_to_itself() {
    assert_eq!(expand_globs(toks(&[])), toks(&[]));
}

#[test]
fn pattern_without_match_stays_literal() {
    let args = toks(&["/no_such_directory_here_0193/*.nothing"]);
    assert_eq!(expand_globs(args.clone()), args);
}

#[test]
fn unmatched_patterns_keep_their_position() {
    let args = toks(&["ls", "/no_such_directory_here_0193/?", "-l", "/no_such_directory_here_0193/[ab]", "end"]);
    assert_eq!(expand_globs(args.clone()), args);
}

#[test]
fn malformed_pattern_stays_literal() {
    let args = toks(&["echo", "a[", "***", "[!"]);
    assert_eq!(expand_globs(args.clone()), args);
}

#[test]
fn matching_pattern_is_replaced_by_the_paths() {
    assert_eq!(expand_globs(toks(&["ls", "/us[r]", "-d"])), toks(&["ls", "/usr", "-d"]));
    assert_eq!(expand_globs(toks(&["/usr/bin/en?"])), toks(&["/usr/bin/env"]));
}

#[test]
fn matches_come_in_a_fixed_order() {
    let first = expand_globs(toks(&["/usr/*"]));
    let second = expand_globs(toks(&["/usr/*"]));
    assert_eq!(first, second);
    assert!(first.len() > 1);
    let mut sorted = first.clone();
    sorted.sort();
    assert_eq!(first, sorted);
    assert!(first.iter().all(|p| !p.contains('*')));
}

#[test]
fn token_has_wildcard_knows_the_three_characters() {
    assert!(token_has_wildcard("*.rs"));
    assert!(token_has_wildcard("file?"));
    assert!(token_has_wildcard("x[ab]"));
    assert!(token_has_wildcard("end*"));
    assert!(!token_has_wildcard("plain.txt"));
    assert!(!token_has_wildcard("x]y"));
    assert!(!token_has_wildcard(""));
}

#[test]
fn expand_token_takes_the_paths_of_a_pattern() {
    let out = expand_token("*.txt".to_string(), GlobOutcome::Paths(toks(&["a.txt", "b.txt"])));
    assert_eq!(out, toks(&["a.txt", "b.txt"]));
}

#[test]
fn expand_token_keeps_a_pattern_without_match() {
    assert_eq!(expand_token("*.txt".to_string(), GlobOutcome::Paths(toks(&[]))), toks(&["*.txt"]));
}

#[test]
fn expand_token_keeps_a_malformed_pattern() {
    assert_eq!(expand_token("a[".to_string(), GlobOutcome::BadPattern), toks(&["a["]));
}

#[test]
fn expand_token_keeps_a_literal_token() {
    let out = expand_token("plain".to_string(), GlobOutcome::Paths(toks(&["other"])));
    assert_eq!(out, toks(&["plain"]));
}
