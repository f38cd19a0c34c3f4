use bakashell::alias::{expand_alias, AliasTable};
use bakashell::errors::ShellError;
use bakashell::globbing::expand_globs;
use bakashell::resolve::{resolve_stage, resolve_stages, route_line, Route};
use bakashell::tokens::split_words;

fn list(items: &[&str]) -> Vec<String> {
    items.iter().map(|s| s.to_string()).collect()
}

fn session_aliases() -> AliasTable {
    let mut t = AliasTable::new();
    t.insert("ll".to_string(), "ls -al".to_string());
    t.insert("help".to_string(), "/usr/bin/busybox".to_string());
    t.insert("a".to_string(), "b".to_string());
    t.insert("b".to_string(), "a".to_string());
    t
}

#[test]
fn alias_then_unmatched_wildcard() {
    let aliases = session_aliases();
    let line = "ll /no_such_directory_here_0193/*.none";
    let expected = list(&["ls", "-al", "/no_such_directory_here_0193/*.none"]);
    assert_eq!(resolve_stage(&split_words(line), &aliases), Ok(expected.clone()));
    let in_sequence = expand_globs(expand_alias(split_words(line), &aliases).unwrap());
    assert_eq!(in_sequence, expected);
}

#[test]
fn wildcards_in_an_alias_body_are_expanded() {
    let mut aliases = AliasTable::new();
    aliases.insert("lsu".to_string(), "ls /us[r]".to_string());
    assert_eq!(resolve_stage(&list(&["lsu", "-d"]), &aliases), Ok(list(&["ls", "/usr", "-d"])));
}

#[test]
fn alias_names_are_matched_before_expansion() {
    let mut aliases = AliasTable::new();
    aliases.insert("/usr".to_string(), "never".to_string());
    assert_eq!(resolve_stage(&list(&["/us[r]"]), &aliases), Ok(list(&["/usr"])));
}

#[test]
fn stage_with_an_alias_cycle_is_rejected() {
    let aliases = session_aliases();
    assert_eq!(resolve_stage(&list(&["a", "x"]), &aliases), Err(ShellError::AliasCycle));
}

#[test]
fn stages_are_resolved_one_by_one() {
    let aliases = session_aliases();
    let stages = vec![list(&["ll", "x"]), list(&[]), list(&["wc", "-l"])];
    let expected = vec![list(&["ls", "-al", "x"]), list(&[]), list(&["wc", "-l"])];
    assert_eq!(resolve_stages(&stages, &aliases), Ok(expected));
    let bad = vec![list(&["ll"]), list(&["b"])];
    assert_eq!(resolve_stages(&bad, &aliases), Err(ShellError::AliasCycle));
}

#[test]
fn line_without_pipe_is_a_command() {
    let aliases = session_aliases();
    match route_line("ll  -h", &aliases) {
        Ok(Route::Command(argv)) => assert_eq!(argv, list(&["ls", "-al", "-h"])),
        other => panic!("unexpected route: {:?}", other),
    }
}

#[test]
fn line_with_pipe_is_a_pipeline() {
    let aliases = session_aliases();
    match route_line("ll | | wc -l", &aliases) {
        Ok(Route::Pipeline(stages)) => {
            assert_eq!(stages, vec![list(&["ls", "-al"]), list(&[]), list(&["wc", "-l"])])
        }
        other => panic!("unexpected route: {:?}", other),
    }
}

#[test]
fn blank_line_is_nothing() {
    let aliases = session_aliases();
    assert!(matches!(route_line("   ", &aliases), Ok(Route::Nothing)));
    assert!(matches!(route_line("", &aliases), Ok(Route::Nothing)));
}

#[test]
fn line_with_an_alias_cycle_is_rejected() {
    let aliases = session_aliases();
    assert!(matches!(route_line("a", &aliases), Err(ShellError::AliasCycle)));
    assert!(matches!(route_line("ls | b", &aliases), Err(ShellError::AliasCycle)));
}
