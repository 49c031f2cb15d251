use devgpt::blacklist::{blacklist_request, parse_blacklist, BlacklistError};
use devgpt::config::{as_paths, Config};
use devgpt::text::{chars_of, contains_ignoring_case, contains_infix, same_text};

#[test]
fn blacklist_answer_is_read() {
    assert_eq!(
        parse_blacklist(r#"["node_modules", "dist", "build"]"#),
        Ok(vec!["node_modules".to_string(), "dist".to_string(), "build".to_string()])
    );
    assert_eq!(parse_blacklist("[]"), Ok(vec![]));
}

#[test]
fn blacklist_answer_must_be_a_list_of_strings() {
    assert_eq!(parse_blacklist("node_modules, dist"), Err(BlacklistError::NotAPathList));
    assert_eq!(parse_blacklist("Here: [\"dist\"]"), Err(BlacklistError::NotAPathList));
    assert_eq!(parse_blacklist("[1, 2]"), Err(BlacklistError::NotAPathList));
}

#[test]
fn blacklist_request_lists_entries() {
    let r = blacklist_request(&vec!["app.js".to_string(), "dist".to_string()]);
    assert_eq!(r, "[\n  \"app.js\",\n  \"dist\"\n]");
    assert_eq!(blacklist_request(&vec![]), "[]");
}

#[test]
fn config_defaults_and_paths() {
    let c = Config::default();
    assert!(c.project_dir.is_none());
    assert!(c.project_summary.is_empty());
    let v = vec!["a/b".to_string(), "c".to_string()];
    assert_eq!(as_paths(&v), vec!["a/b", "c"]);
}

#[test]
fn text_helpers() {
    assert!(contains_infix("abcdef", "cde"));
    assert!(!contains_infix("abcdef", "ce"));
    assert!(contains_infix("abc", ""));
    assert!(!contains_infix("ab", "abc"));
    assert!(contains_ignoring_case("HelloWorld", "LOWO"));
    assert!(!contains_infix("HelloWorld", "LOWO"));
    assert!(same_text("ä", "ä"));
    assert!(!same_text("a", "A"));
    assert_eq!(chars_of("añb"), vec!['a', 'ñ', 'b']);
}
