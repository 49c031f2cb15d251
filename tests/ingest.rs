use devgpt::ctags::{CtagsOutput, RecordKind};
use devgpt::ingest::{IngestError, RawTag};

fn raw(record_type: &str, name: &str, kind: Option<&str>) -> RawTag {
    RawTag {
        record_type: record_type.to_string(),
        name: Some(name.to_string()),
        path: Some("src/lib.rs".to_string()),
        pattern: None,
        parser_name: None,
        kind: kind.map(|k| k.to_string()),
        scope: None,
        scope_kind: None,
        line: Some(3),
    }
}

#[test]
fn tag_without_kind_is_refused() {
    let r = CtagsOutput::ingest(&vec![Some(raw("tag", "Foo", None))]);
    assert_eq!(r.err(), Some(IngestError::MissingField { line: 0 }));
}

#[test]
fn ptag_without_kind_is_taken() {
    let r = CtagsOutput::ingest(&vec![Some(raw("ptag", "Foo", None))]).unwrap();
    assert_eq!(r.len(), 1);
    assert!(r.0[0].is_ptag());
    assert_eq!(r.0[0].name.as_deref(), Some("Foo"));
}

#[test]
fn tag_with_kind_is_taken() {
    let r = CtagsOutput::ingest(&vec![Some(raw("tag", "Foo", Some("function"))), Some(raw("ptag", "P", None))]).unwrap();
    assert_eq!(r.len(), 2);
    match &r.0[0].record_kind {
        RecordKind::Tag { kind } => assert_eq!(kind, "function"),
        RecordKind::PseudoTag => panic!("expected a tag"),
    }
    assert_eq!(r.0[0].line, Some(3));
}

#[test]
fn undecodable_line_is_malformed() {
    let r = CtagsOutput::ingest(&vec![Some(raw("tag", "a", Some("f"))), None, Some(raw("tag", "b", None))]);
    assert_eq!(r.err(), Some(IngestError::MalformedRecord { line: 1 }));
}

#[test]
fn unknown_record_type_is_malformed() {
    let r = CtagsOutput::ingest(&vec![Some(raw("tags", "a", Some("f")))]);
    assert_eq!(r.err(), Some(IngestError::MalformedRecord { line: 0 }));
}

#[test]
fn first_fault_decides_the_error() {
    let r = CtagsOutput::ingest(&vec![Some(raw("tag", "a", None)), None]);
    assert_eq!(r.err(), Some(IngestError::MissingField { line: 0 }));
}

#[test]
fn no_lines_give_an_empty_catalog() {
    assert!(CtagsOutput::ingest(&vec![]).unwrap().is_empty());
}
