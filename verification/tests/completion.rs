use bakashell::completion::{
    alias_candidates, complete, is_incomplete, name_candidates, sort_candidates, starts_with,
    text_before_or_equal, wants_files, word_start, Candidate,
};

fn names(items: &[&str]) -> Vec<String> {
    items.iter().map(|s| s.to_string()).collect()
}

fn candidate(display: &str, replacement: &str) -> Candidate {
    Candidate { display: display.to_string(), replacement: replacement.to_string() }
}

#[test]
fn word_start_is_behind_the_last_space() {
    assert_eq!(word_start("ls -al fo", 9), 7);
    assert_eq!(word_start("ls -al fo", 6), 3);
    assert_eq!(word_start("ls -al fo", 3), 3);
    assert_eq!(word_start("ls -al fo", 2), 0);
    assert_eq!(word_start("ls", 0), 0);
    assert_eq!(word_start("", 0), 0);
}

#[test]
fn word_start_counts_bytes() {
    let line = "é日 本x";
    assert_eq!(word_start(line, line.len()), 6);
    assert_eq!(word_start(line, 5), 0);
    assert_eq!(word_start("a\tb", 3), 0);
}

#[test]
fn starts_with_compares_from_the_front() {
    assert!(starts_with("alias", "al"));
    assert!(starts_with("alias", ""));
    assert!(starts_with("alias", "alias"));
    assert!(!starts_with("alias", "aliases"));
    assert!(!starts_with("alias", "li"));
    assert!(!starts_with("", "a"));
    assert!(starts_with("日本語", "日本"));
}

#[test]
fn name_candidates_keep_the_order_of_the_names() {
    let commands = names(&["cd", "exit", "alias", "admin", "clear", "sh"]);
    assert_eq!(
        name_candidates(&commands, "a"),
        vec![candidate("alias", "alias"), candidate("admin", "admin")]
    );
    assert_eq!(name_candidates(&commands, "c"), vec![candidate("cd", "cd"), candidate("clear", "clear")]);
    assert_eq!(name_candidates(&commands, "x"), Vec::<Candidate>::new());
    assert_eq!(name_candidates(&commands, "").len(), 6);
}

#[test]
fn alias_candidates_put_in_the_replacement() {
    let aliases = vec![
        ("ll".to_string(), "ls -al".to_string()),
        ("help".to_string(), "/usr/bin/busybox".to_string()),
        ("la".to_string(), "ls -a".to_string()),
    ];
    assert_eq!(
        alias_candidates(&aliases, "l"),
        vec![candidate("ll", "ls -al"), candidate("la", "ls -a")]
    );
    assert_eq!(alias_candidates(&aliases, "he"), vec![candidate("help", "/usr/bin/busybox")]);
    assert_eq!(alias_candidates(&aliases, "ls"), Vec::<Candidate>::new());
}

#[test]
fn wants_files_for_paths_and_existing_names() {
    assert!(wants_files("./x", false));
    assert!(wants_files("/etc", false));
    assert!(wants_files(".", false));
    assert!(wants_files("src", true));
    assert!(wants_files("", true));
    assert!(!wants_files("src", false));
    assert!(!wants_files("", false));
    assert!(!wants_files("a/b", false));
}

#[test]
fn is_incomplete_looks_at_the_last_character() {
    assert!(is_incomplete("echo a \\"));
    assert!(is_incomplete("\\"));
    assert!(!is_incomplete("echo a"));
    assert!(!is_incomplete("echo \\ a"));
    assert!(!is_incomplete(""));
}

#[test]
fn text_order_agrees_with_the_standard_library() {
    let samples = ["", "a", "ab", "abc", "b", "B", "a b", "é", "z", "日本", "~", "aa", "a\u{10ffff}"];
    for x in samples.iter() {
        for y in samples.iter() {
            assert_eq!(text_before_or_equal(x, y), x <= y);
        }
    }
}

#[test]
fn sort_candidates_orders_by_what_is_shown() {
    let items = vec![
        candidate("ll", "1"),
        candidate("cd", "2"),
        candidate("ll", "3"),
        candidate("alias", "4"),
        candidate("cd", "5"),
        candidate("", "6"),
    ];
    let expected = vec![
        candidate("", "6"),
        candidate("alias", "4"),
        candidate("cd", "2"),
        candidate("cd", "5"),
        candidate("ll", "1"),
        candidate("ll", "3"),
    ];
    assert_eq!(sort_candidates(&items), expected);
    let mut by_std = items.clone();
    by_std.sort_by(|a, b| a.display.cmp(&b.display));
    assert_eq!(sort_candidates(&items), by_std);
    assert_eq!(sort_candidates(&Vec::new()), Vec::<Candidate>::new());
}

#[test]
fn complete_offers_commands_aliases_and_files() {
    let commands = names(&["cd", "exit", "alias", "admin", "clear", "sh"]);
    let aliases = vec![
        ("ll".to_string(), "ls -al".to_string()),
        ("cls".to_string(), "clear".to_string()),
    ];
    let files = names(&["Cargo.toml", "src", "clean.sh"]);
    assert_eq!(
        complete("c", &commands, &aliases, &files, false),
        vec![candidate("cd", "cd"), candidate("clear", "clear"), candidate("cls", "clear")]
    );
    assert_eq!(
        complete("cl", &commands, &aliases, &files, true),
        vec![candidate("clean.sh", "clean.sh"), candidate("clear", "clear"), candidate("cls", "clear")]
    );
    assert_eq!(complete("./", &commands, &aliases, &names(&["./a", "b"]), false), vec![candidate("./a", "./a")]);
    assert_eq!(complete("zz", &commands, &aliases, &files, true), Vec::<Candidate>::new());
}
