use devgpt::classify::{parse_answer, repair_for, ClassifyError, ClassifyStep, RecordClassification, Repair};
use devgpt::ctags::{Ctag, CtagsOutput, RecordKind};

fn record(name: &str, kind: &str, line: u32) -> Ctag {
    Ctag {
        record_kind: RecordKind::Tag { kind: kind.to_string() },
        name: Some(name.to_string()),
        path: None,
        pattern: None,
        parser_name: None,
        scope: None,
        scope_kind: None,
        line: Some(line),
    }
}

/// Runs the repair loop of one record against a model that answers from the
/// prompt and the number of the attempt.
fn classify(t: &Ctag, model: &dyn Fn(&str, u32) -> String, max_attempts: u32) -> Option<bool> {
    let prompt = t.to_json();
    let mut c = RecordClassification::new(max_attempts);
    let mut attempt = 0;
    loop {
        let answer = model(&prompt, attempt);
        match c.on_answer(&answer) {
            ClassifyStep::Verdict { matches } => return Some(matches),
            ClassifyStep::Failed => return None,
            ClassifyStep::Retry { attempt: a, .. } => attempt = a,
        }
    }
}

#[test]
fn classifier_keeps_the_matching_record() {
    let c = CtagsOutput(vec![record("Foo", "function", 10), record("bar", "struct", 50)]);
    let first = c.0[0].to_json();
    let model = move |prompt: &str, _attempt: u32| if prompt == first { "true".to_string() } else { "false".to_string() };
    let outcomes: Vec<Option<bool>> = c.0.iter().map(|t| classify(t, &model, 5)).collect();
    let r = c.collect_matches(&outcomes).unwrap();
    assert_eq!(r.len(), 1);
    assert_eq!(r.0[0].name.as_deref(), Some("Foo"));
}

#[test]
fn answers_parse_only_as_lowercase_literals() {
    assert_eq!(parse_answer("true"), Some(true));
    assert_eq!(parse_answer("false"), Some(false));
    assert_eq!(parse_answer("True"), None);
    assert_eq!(parse_answer(" true"), None);
    assert_eq!(parse_answer("yes"), None);
}

#[test]
fn capitalised_answers_ask_for_lowercase() {
    assert_eq!(repair_for("True"), Repair::Lowercase);
    assert_eq!(repair_for("FALSE"), Repair::Lowercase);
    assert_eq!(repair_for("maybe"), Repair::Boolean);
    assert_eq!(repair_for("Yes"), Repair::Boolean);
    assert_ne!(Repair::Lowercase.instruction(), Repair::Boolean.instruction());
}

#[test]
fn repair_loop_retries_then_decides() {
    let t = record("Foo", "function", 1);
    let model = |_p: &str, attempt: u32| if attempt == 0 { "True".to_string() } else { "true".to_string() };
    assert_eq!(classify(&t, &model, 5), Some(true));
    let mut c = RecordClassification::new(3);
    assert_eq!(c.on_answer("True"), ClassifyStep::Retry { repair: Repair::Lowercase, attempt: 1 });
    assert_eq!(c.on_answer("nope"), ClassifyStep::Retry { repair: Repair::Boolean, attempt: 2 });
    assert_eq!(c.on_answer("false"), ClassifyStep::Verdict { matches: false });
}

#[test]
fn repair_loop_gives_up_after_its_attempts() {
    let mut c = RecordClassification::new(2);
    assert_eq!(c.on_answer("?"), ClassifyStep::Retry { repair: Repair::Boolean, attempt: 1 });
    assert_eq!(c.on_answer("?"), ClassifyStep::Failed);
}

#[test]
fn a_failed_record_fails_the_run() {
    let c = CtagsOutput(vec![record("a", "f", 1), record("b", "f", 2), record("c", "f", 3)]);
    assert_eq!(c.collect_matches(&vec![Some(true), None, None]).err(), Some(ClassifyError::ClassificationFailed { record: 1 }));
    let r = c.collect_matches(&vec![Some(false), Some(true), Some(true)]).unwrap();
    assert_eq!(r.len(), 2);
}
