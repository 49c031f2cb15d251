use devgpt::ctags::{Ctag, CtagsOutput, RecordKind};

fn foo() -> Ctag {
    Ctag {
        record_kind: RecordKind::Tag { kind: "function".to_string() },
        name: Some("Foo".to_string()),
        path: Some("src/foo.rs".to_string()),
        pattern: None,
        parser_name: Some("Rust".to_string()),
        scope: None,
        scope_kind: None,
        line: Some(10),
    }
}

#[test]
fn record_serialises_in_canonical_form() {
    assert_eq!(
        foo().to_json(),
        "{\"_type\":\"tag\",\"name\":\"Foo\",\"path\":\"src/foo.rs\",\"pattern\":null,\"parser_name\":\"Rust\",\"kind\":\"function\",\"scope\":null,\"scope_kind\":null,\"line\":10}"
    );
}

#[test]
fn ptag_serialises_without_kind() {
    let p = Ctag {
        record_kind: RecordKind::PseudoTag,
        name: Some("JSON_OUTPUT_VERSION".to_string()),
        path: Some("0.0".to_string()),
        pattern: Some("in development".to_string()),
        parser_name: None,
        scope: None,
        scope_kind: None,
        line: None,
    };
    assert_eq!(
        p.to_json(),
        "{\"_type\":\"ptag\",\"name\":\"JSON_OUTPUT_VERSION\",\"path\":\"0.0\",\"pattern\":\"in development\",\"parser_name\":null,\"kind\":null,\"scope\":null,\"scope_kind\":null,\"line\":null}"
    );
}

#[test]
fn strings_are_escaped() {
    let mut t = foo();
    t.pattern = Some("/^a \"b\"\\\n\t\u{1}$/".to_string());
    let j = t.to_json();
    assert!(j.contains("\"pattern\":\"/^a \\\"b\\\"\\\\\\n\\t\\u0001$/\""));
}

#[test]
fn catalog_serialises_as_array() {
    assert_eq!(CtagsOutput(vec![]).to_json(), "[]");
    let c = CtagsOutput(vec![foo(), foo()]);
    let one = foo().to_json();
    assert_eq!(c.to_json(), format!("[{one},{one}]"));
}

#[test]
fn line_numbers_are_decimal() {
    let mut t = foo();
    t.line = Some(4_294_967_295);
    assert!(t.to_json().ends_with("\"line\":4294967295}"));
    t.line = Some(0);
    assert!(t.to_json().ends_with("\"line\":0}"));
}
