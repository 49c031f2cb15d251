use devgpt::ctags::{Ctag, CtagsOutput, RecordKind};
use devgpt::search::{AgentTurn, FilterRequest, Notice, Operation, Role, SearchSession, ToolCall, ToolInvocation, FINDER_PROMPT};

fn record(name: &str, kind: &str, path: &str, line: u32) -> Ctag {
    Ctag {
        record_kind: RecordKind::Tag { kind: kind.to_string() },
        name: Some(name.to_string()),
        path: Some(path.to_string()),
        pattern: None,
        parser_name: None,
        scope: None,
        scope_kind: None,
        line: Some(line),
    }
}

fn catalog() -> CtagsOutput {
    CtagsOutput(vec![record("Foo", "function", "src/foo.rs", 10), record("bar", "struct", "src/bar.rs", 50)])
}

fn invocation(name: &str) -> ToolInvocation {
    ToolInvocation { name: name.to_string(), arguments: "{}".to_string() }
}

fn call(request: FilterRequest) -> AgentTurn {
    AgentTurn::Call { content: None, invocation: invocation("op"), call: ToolCall::Request { request } }
}

fn text() -> AgentTurn {
    AgentTurn::Text { content: Some("thinking".to_string()) }
}

fn names(c: &CtagsOutput) -> Vec<String> {
    c.0.iter().map(|t| t.name.clone().unwrap()).collect()
}

#[test]
fn kind_search_then_stop_gives_the_answer() {
    let mut s = SearchSession::new("where is bar?", 50);
    let n = s.step(&catalog(), call(FilterRequest::FindByKind { kind: "struct".to_string() }));
    assert_eq!(n, Notice::SearchResult);
    assert_eq!(names(&s.accumulated), vec!["bar".to_string()]);
    let n = s.step(&catalog(), call(FilterRequest::StopSearching { predicate_path: Some(vec!["src/bar.rs".to_string()]) }));
    assert_eq!(n, Notice::SearchResult);
    assert!(s.is_done());
    assert!(s.terminated);
    assert_eq!(s.answer, Some(vec!["src/bar.rs".to_string()]));
}

#[test]
fn kind_search_adds_to_an_earlier_name_search() {
    let mut s = SearchSession::new("where is bar?", 50);
    s.step(&catalog(), call(FilterRequest::FindByName { name: "foo".to_string() }));
    assert_eq!(names(&s.accumulated), vec!["Foo".to_string()]);
    s.step(&catalog(), call(FilterRequest::FindByKind { kind: "struct".to_string() }));
    assert_eq!(names(&s.accumulated), vec!["Foo".to_string(), "bar".to_string()]);
    s.step(&catalog(), call(FilterRequest::StopSearching { predicate_path: Some(vec!["src/bar.rs".to_string()]) }));
    assert_eq!(s.answer, Some(vec!["src/bar.rs".to_string()]));
}

#[test]
fn other_searches_replace_the_result() {
    let mut s = SearchSession::new("where is bar?", 50);
    s.step(&catalog(), call(FilterRequest::FindByKind { kind: "".to_string() }));
    assert_eq!(s.accumulated.len(), 2);
    s.step(&catalog(), call(FilterRequest::FindByPath { path: "src/foo.rs".to_string() }));
    assert_eq!(names(&s.accumulated), vec!["Foo".to_string()]);
    s.step(&catalog(), call(FilterRequest::FindByLineRange { from: 40, to: 60 }));
    assert_eq!(names(&s.accumulated), vec!["bar".to_string()]);
    s.step(&catalog(), call(FilterRequest::FindByLineRange { from: 60, to: 40 }));
    assert!(s.accumulated.is_empty());
}

#[test]
fn name_search_twice_equals_once() {
    let mut once = SearchSession::new("where is bar?", 50);
    once.step(&catalog(), call(FilterRequest::FindByName { name: "x".to_string() }));
    let mut twice = SearchSession::new("where is bar?", 50);
    twice.step(&catalog(), call(FilterRequest::FindByName { name: "x".to_string() }));
    twice.step(&catalog(), call(FilterRequest::FindByName { name: "x".to_string() }));
    assert_eq!(names(&once.accumulated), names(&twice.accumulated));
}

#[test]
fn repairs_do_not_end_the_search() {
    let mut s = SearchSession::new("where is bar?", 50);
    assert_eq!(s.step(&catalog(), AgentTurn::Call { content: None, invocation: invocation("open_file"), call: ToolCall::Unknown }), Notice::FunctionNotFound);
    let n = s.step(&catalog(), AgentTurn::Call { content: None, invocation: invocation("find_by_kind"), call: ToolCall::Unparseable { operation: Operation::FindByKind } });
    assert_eq!(n, Notice::CouldNotParse { operation: Operation::FindByKind });
    assert_eq!(s.step(&catalog(), text()), Notice::Silent);
    assert!(!s.is_done());
    assert_eq!(s.turns, 3);
}

#[test]
fn stop_without_match_answers_none() {
    let mut s = SearchSession::new("where is bar?", 50);
    s.step(&catalog(), call(FilterRequest::StopSearching { predicate_path: None }));
    assert!(s.is_done());
    assert_eq!(s.answer, None);
    assert_eq!(s.step(&catalog(), text()), Notice::Silent);
    assert_eq!(s.turns, 1);
}

#[test]
fn turn_ceiling_ends_the_search() {
    let mut s = SearchSession::new("q", 2);
    s.step(&catalog(), text());
    assert!(!s.is_done());
    s.step(&catalog(), text());
    assert!(s.is_done());
    assert!(!s.terminated);
    assert_eq!(s.step(&catalog(), call(FilterRequest::FindByName { name: "Foo".to_string() })), Notice::Silent);
    assert!(s.accumulated.is_empty());
}

#[test]
fn operations_by_name() {
    assert_eq!(Operation::from_name("find_by_name"), Some(Operation::FindByName));
    assert_eq!(Operation::from_name("find_by_path"), Some(Operation::FindByPath));
    assert_eq!(Operation::from_name("find_by_kind"), Some(Operation::FindByKind));
    assert_eq!(Operation::from_name("find_by_line_range"), Some(Operation::FindByLineRange));
    assert_eq!(Operation::from_name("stop_searching"), Some(Operation::StopSearching));
    assert_eq!(Operation::from_name("find_name"), None);
    assert_eq!(Operation::FindByLineRange.name(), "find_by_line_range");
}

#[test]
fn notice_messages() {
    let c = catalog();
    assert_eq!(Notice::Silent.message(&c), None);
    assert_eq!(Notice::FunctionNotFound.message(&c), Some("function not found".to_string()));
    assert_eq!(
        Notice::CouldNotParse { operation: Operation::FindByName }.message(&c),
        Some("could not parse find_by_name arguments".to_string())
    );
    assert_eq!(Notice::SearchResult.message(&CtagsOutput(vec![])), Some("search result: []".to_string()));
    assert_eq!(Notice::SearchResult.message(&c), Some(format!("search result: {}", c.to_json())));
}

#[test]
fn conversation_records_turns_and_notices() {
    let mut s = SearchSession::new("where is bar?", 50);
    assert_eq!(s.history.len(), 2);
    assert_eq!(s.history[0].role, Role::System);
    assert_eq!(s.history[0].content.as_deref(), Some(FINDER_PROMPT));
    assert_eq!(s.history[1].role, Role::User);
    assert_eq!(s.history[1].content.as_deref(), Some("where is bar?"));

    s.step(&catalog(), text());
    assert_eq!(s.history.len(), 3);
    assert_eq!(s.history[2].role, Role::Assistant);
    assert_eq!(s.history[2].content.as_deref(), Some("thinking"));

    s.step(&catalog(), call(FilterRequest::FindByKind { kind: "struct".to_string() }));
    assert_eq!(s.history.len(), 5);
    assert_eq!(s.history[3].role, Role::Assistant);
    assert_eq!(s.history[3].function_call.as_ref().map(|f| f.name.as_str()), Some("op"));
    assert_eq!(s.history[4].role, Role::System);
    assert_eq!(s.history[4].content, Some(format!("search result: {}", s.accumulated.to_json())));

    let n = s.step(&catalog(), AgentTurn::Call { content: None, invocation: invocation("find_name"), call: ToolCall::Unknown });
    assert_eq!(n, Notice::FunctionNotFound);
    assert_eq!(s.history[6].content.as_deref(), Some("function not found"));
}
