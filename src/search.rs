use vstd::prelude::*;
use crate::ctags::{by_kind, by_line_range, by_name, by_path, lemma_reversed_range_is_empty, Ctag, CtagsOutput};
use crate::json::catalog_json;
use crate::text::same_text;

verus! {

/// The operations a search agent may call, under the names it calls them by.
#[derive(Debug, PartialEq, Eq, Structural, Clone, Copy)]
pub enum Operation {
    FindByName,
    FindByPath,
    FindByKind,
    FindByLineRange,
    StopSearching,
}

pub open spec fn operation_name(op: Operation) -> Seq<char> {
    match op {
        Operation::FindByName => "find_by_name"@,
        Operation::FindByPath => "find_by_path"@,
        Operation::FindByKind => "find_by_kind"@,
        Operation::FindByLineRange => "find_by_line_range"@,
        Operation::StopSearching => "stop_searching"@,
    }
}

/// The operation called `name`, if any.
pub open spec fn operation_named(name: Seq<char>) -> Option<Operation> {
    if name == "find_by_name"@ {
        Some(Operation::FindByName)
    } else if name == "find_by_path"@ {
        Some(Operation::FindByPath)
    } else if name == "find_by_kind"@ {
        Some(Operation::FindByKind)
    } else if name == "find_by_line_range"@ {
        Some(Operation::FindByLineRange)
    } else if name == "stop_searching"@ {
        Some(Operation::StopSearching)
    } else {
        None
    }
}

impl Operation {
    pub fn name(&self) -> (r: &'static str)
        ensures
            r@ == operation_name(*self),
    {
        match self {
            Operation::FindByName => "find_by_name",
            Operation::FindByPath => "find_by_path",
            Operation::FindByKind => "find_by_kind",
            Operation::FindByLineRange => "find_by_line_range",
            Operation::StopSearching => "stop_searching",
        }
    }

    /// Looks an operation up by the name a tool call gives.
    pub fn from_name(name: &str) -> (r: Option<Operation>)
        ensures
            r == operation_named(name@),
    {
        if same_text(name, "find_by_name") {
            Some(Operation::FindByName)
        } else if same_text(name, "find_by_path") {
            Some(Operation::FindByPath)
        } else if same_text(name, "find_by_kind") {
            Some(Operation::FindByKind)
        } else if same_text(name, "find_by_line_range") {
            Some(Operation::FindByLineRange)
        } else if same_text(name, "stop_searching") {
            Some(Operation::StopSearching)
        } else {
            None
        }
    }
}

/// An operation together with arguments that fit its schema.
#[derive(Debug)]
pub enum FilterRequest {
    FindByName { name: String },
    FindByPath { path: String },
    FindByKind { kind: String },
    FindByLineRange { from: u32, to: u32 },
    /// Ends the search; `None` when the agent found no match.
    StopSearching { predicate_path: Option<Vec<String>> },
}

/// A tool call of the agent, after its name was looked up and its arguments
/// were validated against the operation's schema.
#[derive(Debug)]
pub enum ToolCall {
    /// The name is not that of an operation.
    Unknown,
    /// The arguments do not fit the schema of `operation`.
    Unparseable { operation: Operation },
    Request { request: FilterRequest },
}

/// Who wrote a message of the conversation.
#[derive(Debug, PartialEq, Eq, Structural, Clone, Copy)]
pub enum Role {
    System,
    User,
    Assistant,
}

/// A tool call as the agent wrote it: the operation's name and its JSON
/// arguments.
#[derive(Debug)]
pub struct ToolInvocation {
    pub name: String,
    pub arguments: String,
}

/// One message of the conversation with the agent.
#[derive(Debug)]
pub struct ChatMessage {
    pub role: Role,
    pub content: Option<String>,
    pub function_call: Option<ToolInvocation>,
}

/// One response of the agent.
#[derive(Debug)]
pub enum AgentTurn {
    /// No tool call. The search goes on.
    Text { content: Option<String> },
    /// A tool call, as written (`invocation`) and as looked up and validated
    /// (`call`).
    Call { content: Option<String>, invocation: ToolInvocation, call: ToolCall },
}

/// What the controller appends to the conversation after a turn.
#[derive(Debug, PartialEq, Eq, Structural, Clone, Copy)]
pub enum Notice {
    /// Nothing: the turn held no tool call, or the search was already over.
    Silent,
    /// "function not found"
    FunctionNotFound,
    /// "could not parse <operation> arguments"
    CouldNotParse { operation: Operation },
    /// "search result: " followed by the accumulated result.
    SearchResult,
}

/// The text of a notice, given the accumulated result.
pub open spec fn notice_text(notice: Notice, acc: Seq<Ctag>) -> Option<Seq<char>> {
    match notice {
        Notice::Silent => None,
        Notice::FunctionNotFound => Some("function not found"@),
        Notice::CouldNotParse { operation } => Some(
            "could not parse "@ + operation_name(operation) + " arguments"@,
        ),
        Notice::SearchResult => Some("search result: "@ + catalog_json(acc)),
    }
}

impl Notice {
    /// The system message the notice stands for, if any.
    pub fn message(&self, accumulated: &CtagsOutput) -> (r: Option<String>)
        ensures
            match r {
                Some(m) => notice_text(*self, accumulated@) == Some(m@),
                None => notice_text(*self, accumulated@) is None,
            },
    {
        match self {
            Notice::Silent => None,
            Notice::FunctionNotFound => Some(String::from_str("function not found")),
            Notice::CouldNotParse { operation } => {
                let mut m = String::from_str("could not parse ");
                m.append(operation.name());
                m.append(" arguments");
                Some(m)
            },
            Notice::SearchResult => {
                let mut m = String::from_str("search result: ");
                let listing = accumulated.to_json();
                m.append(listing.as_str());
                Some(m)
            },
        }
    }
}

/// The state of one search: the conversation so far, the accumulated result,
/// the final answer once the agent stopped, and the count of turns against a
/// ceiling.
#[derive(Debug)]
pub struct SearchSession {
    pub history: Vec<ChatMessage>,
    pub accumulated: CtagsOutput,
    pub terminated: bool,
    pub answer: Option<Vec<String>>,
    pub turns: u64,
    pub max_turns: u64,
}

pub open spec fn paths_of(v: Option<Vec<String>>) -> Option<Seq<Seq<char>>> {
    match v {
        Some(p) => Some(p@.map_values(|s: String| s@)),
        None => None,
    }
}

/// The accumulated result after `request`, run against the full catalog
/// `full`: the name, path and line-range searches replace it, the kind search
/// adds to it, and stopping leaves it as it is.
pub open spec fn next_accumulated(acc: Seq<Ctag>, full: Seq<Ctag>, request: FilterRequest) -> Seq<Ctag> {
    match request {
        FilterRequest::FindByName { name } => full.filter(by_name(name@)),
        FilterRequest::FindByPath { path } => full.filter(by_path(path@)),
        FilterRequest::FindByKind { kind } => acc + full.filter(by_kind(kind@)),
        FilterRequest::FindByLineRange { from, to } => full.filter(by_line_range(from, to)),
        FilterRequest::StopSearching { .. } => acc,
    }
}

/// The system prompt that opens every search: the agent's task and the
/// operations it may call.
pub const FINDER_PROMPT: &'static str = "You search a code repository for the files that answer the user's request. \
     You cannot read the files: you can only query a catalog of the symbols extracted from them. \
     find_by_name, find_by_path and find_by_line_range replace the current search result with the \
     records they find; find_by_kind adds the records it finds to the current result. Every call \
     searches the whole catalog. When you know the answer, call stop_searching with the paths of \
     the files, or with none if nothing matches.";

/// The notice a turn calls for.
pub open spec fn notice_for(turn: AgentTurn) -> Notice {
    match turn {
        AgentTurn::Text { .. } => Notice::Silent,
        AgentTurn::Call { call, .. } => match call {
            ToolCall::Unknown => Notice::FunctionNotFound,
            ToolCall::Unparseable { operation } => Notice::CouldNotParse { operation },
            ToolCall::Request { .. } => Notice::SearchResult,
        },
    }
}

/// The accumulated result after a turn: only a validated request changes it.
pub open spec fn accumulated_after(acc: Seq<Ctag>, full: Seq<Ctag>, turn: AgentTurn) -> Seq<Ctag> {
    match turn {
        AgentTurn::Call { call: ToolCall::Request { request }, .. } => next_accumulated(acc, full, request),
        _ => acc,
    }
}

/// The turn is a validated call of `stop_searching`; its answer.
pub open spec fn stop_answer(turn: AgentTurn) -> Option<Option<Seq<Seq<char>>>> {
    match turn {
        AgentTurn::Call {
            call: ToolCall::Request { request: FilterRequest::StopSearching { predicate_path } },
            ..
        } => Some(paths_of(predicate_path)),
        _ => None,
    }
}

/// The agent's own message, as the conversation records it.
pub open spec fn reply_message(turn: AgentTurn) -> ChatMessage {
    match turn {
        AgentTurn::Text { content } => ChatMessage { role: Role::Assistant, content, function_call: None },
        AgentTurn::Call { content, invocation, .. } => ChatMessage {
            role: Role::Assistant,
            content,
            function_call: Some(invocation),
        },
    }
}

/// `m` is a system message whose text is `text`.
pub open spec fn is_system_text(m: ChatMessage, text: Seq<char>) -> bool {
    &&& m.role == Role::System
    &&& m.function_call is None
    &&& m.content matches Some(c) && c@ == text
}

/// The conversation after a turn: the agent's message, then the notice's
/// system message when the notice has a text.
pub open spec fn history_after(
    old_history: Seq<ChatMessage>,
    new_history: Seq<ChatMessage>,
    turn: AgentTurn,
    notice_message: Option<Seq<char>>,
) -> bool {
    &&& new_history.take(old_history.len() as int) == old_history
    &&& new_history[old_history.len() as int] == reply_message(turn)
    &&& match notice_message {
        Some(t) => new_history.len() == old_history.len() + 2 && is_system_text(new_history.last(), t),
        None => new_history.len() == old_history.len() + 1,
    }
}

impl SearchSession {
    /// A fresh search for `query` that gives up after `max_turns` agent turns:
    /// the conversation holds the system prompt and the query.
    pub fn new(query: &str, max_turns: u64) -> (r: SearchSession)
        ensures
            r.history@.len() == 2,
            is_system_text(r.history@[0], FINDER_PROMPT@),
            r.history@[1].role == Role::User,
            r.history@[1].content matches Some(c) && c@ == query@,
            r.history@[1].function_call is None,
            r.accumulated@.len() == 0,
            !r.terminated,
            r.answer is None,
            r.turns == 0,
            r.max_turns == max_turns,
    {
        let mut history: Vec<ChatMessage> = Vec::new();
        history.push(
            ChatMessage {
                role: Role::System,
                content: Some(String::from_str(FINDER_PROMPT)),
                function_call: None,
            },
        );
        history.push(
            ChatMessage { role: Role::User, content: Some(String::from_str(query)), function_call: None },
        );
        SearchSession {
            history,
            accumulated: CtagsOutput(Vec::new()),
            terminated: false,
            answer: None,
            turns: 0,
            max_turns,
        }
    }

    pub open spec fn done(&self) -> bool {
        self.terminated || self.turns >= self.max_turns
    }

    /// Whether the search is over: the agent stopped it, or the turn ceiling
    /// was reached (the answer is then `None`).
    pub fn is_done(&self) -> (r: bool)
        ensures
            r == self.done(),
    {
        self.terminated || self.turns >= self.max_turns
    }

    /// Runs a validated request against the full catalog.
    fn apply(&mut self, catalog: &CtagsOutput, request: FilterRequest)
        ensures
            final(self).accumulated@ == next_accumulated(old(self).accumulated@, catalog@, request),
            final(self).history == old(self).history,
            final(self).turns == old(self).turns,
            final(self).max_turns == old(self).max_turns,
            match request {
                FilterRequest::StopSearching { predicate_path } => {
                    &&& final(self).terminated
                    &&& paths_of(final(self).answer) == paths_of(predicate_path)
                },
                _ => {
                    &&& final(self).terminated == old(self).terminated
                    &&& final(self).answer == old(self).answer
                },
            },
    {
        match request {
            FilterRequest::FindByName { name } => {
                self.accumulated = catalog.filter_by_name(name.as_str());
            },
            FilterRequest::FindByPath { path } => {
                self.accumulated = catalog.filter_by_path(path.as_str());
            },
            FilterRequest::FindByKind { kind } => {
                let found = catalog.filter_by_kind(kind.as_str());
                self.accumulated.extend(found);
            },
            FilterRequest::FindByLineRange { from, to } => {
                self.accumulated = catalog.filter_by_line_range(from, to);
            },
            FilterRequest::StopSearching { predicate_path } => {
                self.answer = predicate_path;
                self.terminated = true;
            },
        }
    }

    /// Handles one agent turn against `catalog`, the full catalog as freshly
    /// extracted: records the agent's message, runs a validated request, and
    /// appends the notice the turn calls for. Only `stop_searching` ends the
    /// search (or the turn ceiling).
    pub fn step(&mut self, catalog: &CtagsOutput, turn: AgentTurn) -> (notice: Notice)
        ensures
            old(self).done() ==> *final(self) == *old(self) && notice == Notice::Silent,
            !old(self).done() ==> {
                &&& notice == notice_for(turn)
                &&& final(self).turns == old(self).turns + 1
                &&& final(self).max_turns == old(self).max_turns
                &&& final(self).accumulated@ == accumulated_after(
                    old(self).accumulated@,
                    catalog@,
                    turn,
                )
                &&& match stop_answer(turn) {
                    Some(a) => final(self).terminated && paths_of(final(self).answer) == a,
                    None => !final(self).terminated && final(self).answer == old(self).answer,
                }
                &&& history_after(
                    old(self).history@,
                    final(self).history@,
                    turn,
                    notice_text(notice, final(self).accumulated@),
                )
            },
    {
        if self.is_done() {
            return Notice::Silent;
        }
        self.turns = self.turns + 1;
        let ghost old_history = self.history@;
        let notice = match turn {
            AgentTurn::Text { content } => {
                self.history.push(ChatMessage { role: Role::Assistant, content, function_call: None });
                Notice::Silent
            },
            AgentTurn::Call { content, invocation, call } => {
                self.history.push(
                    ChatMessage { role: Role::Assistant, content, function_call: Some(invocation) },
                );
                match call {
                    ToolCall::Unknown => Notice::FunctionNotFound,
                    ToolCall::Unparseable { operation } => Notice::CouldNotParse { operation },
                    ToolCall::Request { request } => {
                        self.apply(catalog, request);
                        Notice::SearchResult
                    },
                }
            },
        };
        if let Some(text) = notice.message(&self.accumulated) {
            self.history.push(ChatMessage { role: Role::System, content: Some(text), function_call: None });
        }
        proof {
            assert(self.history@.take(old_history.len() as int) =~= old_history);
        }
        notice
    }
}

impl CtagsOutput {
    /// Appends the records of `more`, in their order.
    pub fn extend(&mut self, more: CtagsOutput)
        ensures
            final(self)@ == old(self)@ + more@,
    {
        let mut more = more;
        self.0.append(&mut more.0);
    }
}

/// Running the same name search twice in a row leaves the accumulated result
/// as running it once does.
pub proof fn lemma_find_by_name_idempotent(acc: Seq<Ctag>, full: Seq<Ctag>, name: String)
    ensures
        next_accumulated(
            next_accumulated(acc, full, FilterRequest::FindByName { name }),
            full,
            FilterRequest::FindByName { name },
        ) == next_accumulated(acc, full, FilterRequest::FindByName { name }),
{
}

/// A line-range search whose start lies past its end leaves the accumulated
/// result empty, whatever it held before.
pub proof fn lemma_reversed_range_clears(acc: Seq<Ctag>, full: Seq<Ctag>, from: u32, to: u32)
    requires
        from > to,
    ensures
        next_accumulated(acc, full, FilterRequest::FindByLineRange { from, to }) == Seq::<Ctag>::empty(),
{
    lemma_reversed_range_is_empty(full, from, to);
}

/// A kind search keeps what earlier searches accumulated and adds the
/// records of the full catalog whose kind matches.
pub proof fn lemma_find_by_kind_extends(acc: Seq<Ctag>, full: Seq<Ctag>, kind: String)
    ensures
        next_accumulated(acc, full, FilterRequest::FindByKind { kind }).take(acc.len() as int)
            == acc,
        next_accumulated(acc, full, FilterRequest::FindByKind { kind }).skip(acc.len() as int)
            == full.filter(by_kind(kind@)),
{
    let r = next_accumulated(acc, full, FilterRequest::FindByKind { kind });
    assert(r.take(acc.len() as int) =~= acc);
    assert(r.skip(acc.len() as int) =~= full.filter(by_kind(kind@)));
}

} // verus!
