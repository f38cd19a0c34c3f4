use bakashell::builtins::{parse_alias_arg, parse_builtin, same_text, trim_quotes_of, Builtin};

fn args_of(items: &[&str]) -> Vec<String> {
    items.iter().map(|s| s.to_string()).collect()
}

#[test]
fn whole_line_builtins_are_recognised() {
    assert_eq!(parse_builtin("exit"), Some(Builtin::Exit));
    assert_eq!(parse_builtin("admin"), Some(Builtin::ToggleMode));
    assert_eq!(parse_builtin("clear"), Some(Builtin::Clear));
    assert_eq!(parse_builtin("sh"), Some(Builtin::Shell));
}

#[test]
fn whole_line_builtins_take_no_arguments() {
    assert_eq!(parse_builtin("exit now"), None);
    assert_eq!(parse_builtin("admin on"), None);
    assert_eq!(parse_builtin("sh -c ls"), None);
    assert_eq!(parse_builtin("ls -al"), None);
    assert_eq!(parse_builtin(""), None);
}

#[test]
fn cd_goes_to_its_first_argument() {
    assert_eq!(parse_builtin("cd /tmp"), Some(Builtin::ChangeDir("/tmp".to_string())));
    assert_eq!(parse_builtin("cd  a  b"), Some(Builtin::ChangeDir("a".to_string())));
}

#[test]
fn cd_without_argument_goes_to_the_root() {
    assert_eq!(parse_builtin("cd"), Some(Builtin::ChangeDir("/".to_string())));
    assert_eq!(parse_builtin("cdrom"), Some(Builtin::ChangeDir("/".to_string())));
}

#[test]
fn alias_alone_lists() {
    assert_eq!(parse_builtin("alias"), Some(Builtin::ListAliases));
}

#[test]
fn alias_with_arguments_defines() {
    assert_eq!(
        parse_builtin("alias ll=ls  x=y z"),
        Some(Builtin::DefineAliases(args_of(&["ll=ls", "x=y", "z"])))
    );
}

#[test]
fn alias_argument_is_split_at_the_first_equals_sign() {
    assert_eq!(parse_alias_arg("ll=ls"), Some(("ll".to_string(), "ls".to_string())));
    assert_eq!(parse_alias_arg("a=b=c"), Some(("a".to_string(), "b=c".to_string())));
    assert_eq!(parse_alias_arg("=x"), Some(("".to_string(), "x".to_string())));
    assert_eq!(parse_alias_arg("x="), Some(("x".to_string(), "".to_string())));
}

#[test]
fn alias_value_loses_its_quotes() {
    assert_eq!(parse_alias_arg("g=\"grep\""), Some(("g".to_string(), "grep".to_string())));
    assert_eq!(parse_alias_arg("g=\"\"a\"b\""), Some(("g".to_string(), "a\"b".to_string())));
    assert_eq!(parse_alias_arg("g=\"\"\""), Some(("g".to_string(), "".to_string())));
}

#[test]
fn alias_argument_without_equals_sign_is_invalid() {
    assert_eq!(parse_alias_arg("ll"), None);
    assert_eq!(parse_alias_arg(""), None);
}

#[test]
fn trim_quotes_of_agrees_with_the_standard_library() {
    for text in ["", "\"", "\"\"", "a", "\"a", "a\"", "\"a\"b\"", "\"\"x\"\"", "'a'"] {
        assert_eq!(trim_quotes_of(text), text.trim_matches('"'));
    }
}

#[test]
fn same_text_compares_whole_strings() {
    assert!(same_text("exit", "exit"));
    assert!(same_text("", ""));
    assert!(!same_text("exit", "exi"));
    assert!(!same_text("exi", "exit"));
    assert!(!same_text("exit", "exiT"));
}
