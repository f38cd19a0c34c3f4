use bakashell::alias::{apply_alias, expand_alias, AliasTable, MAX_ALIAS_DEPTH};
use bakashell::errors::ShellError;

fn argv(items: &[&str]) -> Vec<String> {
    items.iter().map(|s| s.to_string()).collect()
}

fn table(pairs: &[(&str, &str)]) -> AliasTable {
    let mut t = AliasTable::new();
    for (name, body) in pairs.iter() {
        t.insert(name.to_string(), body.to_string());
    }
    t
}

#[test]
fn alias_is_replaced_and_arguments_follow() {
    let t = table(&[("ll", "ls -al")]);
    assert_eq!(expand_alias(argv(&["ll", "-h"]), &t), Ok(argv(&["ls", "-al", "-h"])));
}

#[test]
fn alias_cycle_is_an_error() {
    let t = table(&[("a", "b"), ("b", "a")]);
    assert_eq!(expand_alias(argv(&["a"]), &t), Err(ShellError::AliasCycle));
    assert_eq!(expand_alias(argv(&["b", "x"]), &t), Err(ShellError::AliasCycle));
}

#[test]
fn alias_to_itself_is_an_error() {
    let t = table(&[("ls", "ls --color")]);
    assert_eq!(expand_alias(argv(&["ls"]), &t), Err(ShellError::AliasCycle));
}

#[test]
fn empty_vector_is_unchanged() {
    let t = table(&[("ll", "ls -al")]);
    assert_eq!(expand_alias(argv(&[]), &t), Ok(argv(&[])));
}

#[test]
fn unknown_command_is_unchanged() {
    let t = table(&[("ll", "ls -al")]);
    assert_eq!(expand_alias(argv(&["cat", "ll"]), &t), Ok(argv(&["cat", "ll"])));
}

#[test]
fn only_the_leading_token_is_an_alias() {
    let t = table(&[("ll", "ls -al")]);
    assert_eq!(expand_alias(argv(&["echo", "ll", "ll"]), &t), Ok(argv(&["echo", "ll", "ll"])));
}

#[test]
fn aliases_are_followed_through() {
    let t = table(&[("a", "b x"), ("b", "c  y"), ("c", "d")]);
    assert_eq!(expand_alias(argv(&["a", "z"]), &t), Ok(argv(&["d", "y", "x", "z"])));
}

#[test]
fn alias_with_empty_body_drops_the_name() {
    let t = table(&[("nop", "  "), ("ll", "ls -al")]);
    assert_eq!(expand_alias(argv(&["nop", "ll", "x"]), &t), Ok(argv(&["ls", "-al", "x"])));
    assert_eq!(expand_alias(argv(&["nop"]), &t), Ok(argv(&[])));
}

#[test]
fn chain_of_the_allowed_depth_expands() {
    assert_eq!(MAX_ALIAS_DEPTH, 32);
    let mut t = AliasTable::new();
    let mut i: usize = 0;
    while i < 32 {
        t.insert(format!("n{}", i), format!("n{}", i + 1));
        i += 1;
    }
    assert_eq!(expand_alias(argv(&["n0", "arg"]), &t), Ok(argv(&["n32", "arg"])));
}

#[test]
fn chain_longer_than_the_allowed_depth_fails() {
    let mut t = AliasTable::new();
    let mut i: usize = 0;
    while i < 33 {
        t.insert(format!("n{}", i), format!("n{}", i + 1));
        i += 1;
    }
    assert_eq!(expand_alias(argv(&["n0", "arg"]), &t), Err(ShellError::AliasCycle));
    assert_eq!(expand_alias(argv(&["n1", "arg"]), &t), Ok(argv(&["n33", "arg"])));
}

#[test]
fn table_lookup_and_redefinition() {
    let mut t = AliasTable::new();
    assert!(!t.contains("ll"));
    assert_eq!(t.get("ll"), None);
    t.insert("ll".to_string(), "ls -al".to_string());
    assert!(t.contains("ll"));
    assert_eq!(t.get("ll"), Some(&"ls -al".to_string()));
    t.insert("ll".to_string(), "ls -l".to_string());
    assert_eq!(t.get("ll"), Some(&"ls -l".to_string()));
    assert_eq!(expand_alias(argv(&["ll"]), &t), Ok(argv(&["ls", "-l"])));
}

#[test]
fn apply_alias_puts_the_body_in_front() {
    assert_eq!(apply_alias(&argv(&["ll", "-h", "x"]), " ls  -al "), argv(&["ls", "-al", "-h", "x"]));
    assert_eq!(apply_alias(&argv(&["ll"]), ""), argv(&[]));
}

#[test]
fn entries_list_every_alias_once() {
    let mut t = AliasTable::new();
    assert_eq!(t.entries(), Vec::<(String, String)>::new());
    t.insert("ll".to_string(), "ls -al".to_string());
    t.insert("help".to_string(), "/usr/bin/busybox".to_string());
    t.insert("ll".to_string(), "ls -l".to_string());
    assert_eq!(
        t.entries(),
        vec![
            ("ll".to_string(), "ls -l".to_string()),
            ("help".to_string(), "/usr/bin/busybox".to_string()),
        ]
    );
}
