use serde_json::Value;
use zeroclaw::message::ChatMessage;
use zeroclaw::sessions::history::{HistoryRequest, SessionsHistoryTool};
use zeroclaw::sessions::list::{SessionMetadata, SessionsListTool};
use zeroclaw::sessions::run::{
    format_completed_sessions, AwaitAction, AwaitRun, SessionPollState,
};
use zeroclaw::sessions::send::SessionsSendTool;
use zeroclaw::sessions::waiting::{AwaitRequest, SessionsAwaitTool};
use zeroclaw::sessions::{
    has_completion_marker, holds_completion_marker, validate_session_id,
};
use zeroclaw::tool::{MissingParameter, Refusal, ToolOperation, ToolResult};

const SECOND: u128 = 1_000_000_000;

fn json(text: &str) -> Value {
    serde_json::from_str(text).unwrap()
}

/// An in-memory store of sessions, in the order of their first message.
struct Store {
    sessions: Vec<(String, Vec<ChatMessage>)>,
}

impl Store {
    fn empty() -> Store {
        Store { sessions: Vec::new() }
    }

    fn seeded() -> Store {
        let mut store = Store::empty();
        store.append("telegram__alice", ChatMessage::user("Hello from Alice"));
        store.append("telegram__alice", ChatMessage::assistant("Hi Alice, how can I help?"));
        store.append("discord__bob", ChatMessage::user("Hey from Bob"));
        store
    }

    fn append(&mut self, id: &str, message: ChatMessage) {
        match self.sessions.iter_mut().find(|(key, _)| key == id) {
            Some((_, messages)) => messages.push(message),
            None => self.sessions.push((id.to_string(), vec![message])),
        }
    }

    fn load(&self, id: &str) -> Vec<ChatMessage> {
        match self.sessions.iter().find(|(key, _)| key == id) {
            Some((_, messages)) => messages.clone(),
            None => Vec::new(),
        }
    }

    fn list(&self) -> Vec<SessionMetadata> {
        self.sessions
            .iter()
            .map(|(key, messages)| SessionMetadata {
                key: key.clone(),
                message_count: messages.len(),
                last_activity: "2024-01-02 03:04:05 UTC".to_string(),
            })
            .collect()
    }
}

fn list(store: &Store, args: &str) -> ToolResult {
    SessionsListTool::new(()).execute(&json(args), &store.list())
}

fn history(store: &Store, args: &str) -> Result<ToolResult, MissingParameter> {
    let tool = SessionsHistoryTool::new((), ());
    match tool.prepare(Ok(()), &json(args)) {
        Ok(request) => Ok(tool.answer(&request, &store.load(&request.session_id))),
        Err(Refusal::Answered(result)) => Ok(result),
        Err(Refusal::Missing(parameter)) => Err(parameter),
    }
}

fn send(store: &mut Store, args: &str) -> Result<ToolResult, MissingParameter> {
    let tool = SessionsSendTool::new((), ());
    match tool.prepare(Ok(()), &json(args)) {
        Ok(request) => {
            store.append(&request.session_id, request.message.clone());
            Ok(tool.answer(&request, Ok(())))
        }
        Err(Refusal::Answered(result)) => Ok(result),
        Err(Refusal::Missing(parameter)) => Err(parameter),
    }
}

/// Runs the tool on a clock that only moves while the run sleeps; `tick` is
/// called after each sleep with the seconds since the start.
fn wait(
    store: &mut Store,
    args: &str,
    tick: fn(&mut Store, u128),
) -> Result<(ToolResult, u128), MissingParameter> {
    let tool = SessionsAwaitTool::new((), ());
    let request = match tool.prepare(Ok(()), &json(args)) {
        Ok(request) => request,
        Err(Refusal::Answered(result)) => return Ok((result, 0)),
        Err(Refusal::Missing(parameter)) => return Err(parameter),
    };
    let start = 77 * SECOND;
    let mut now = start;
    let mut run = AwaitRun::begin(request, now);
    loop {
        match run.action() {
            AwaitAction::Load { session_id } => run.loaded(store.load(&session_id), now),
            AwaitAction::Sleep { secs } => {
                now += secs as u128 * SECOND;
                tick(store, (now - start) / SECOND);
                run.slept(now);
            }
            AwaitAction::Reply { result } => return Ok((result, (now - start) / SECOND)),
        }
    }
}

fn idle(_: &mut Store, _: u128) {}

// sessions_list

#[test]
fn list_empty_sessions() {
    let result = list(&Store::empty(), "{}");
    assert!(result.success);
    assert!(result.output.contains("No active sessions"));
    assert_eq!(result.output, "No active sessions found.");
    assert_eq!(result.error, None);
}

#[test]
fn list_sessions_shows_all() {
    let result = list(&Store::seeded(), "{}");
    assert!(result.success);
    assert!(result.output.contains("2 session(s)"));
    assert!(result.output.contains("telegram__alice"));
    assert!(result.output.contains("discord__bob"));
    assert_eq!(
        result.output,
        "Found 2 session(s):\n\
         - telegram__alice: channel=telegram, messages=2, last_activity=2024-01-02 03:04:05 UTC\n\
         - discord__bob: channel=discord, messages=1, last_activity=2024-01-02 03:04:05 UTC\n"
    );
}

#[test]
fn list_sessions_respects_limit() {
    let result = list(&Store::seeded(), r#"{"limit": 1}"#);
    assert!(result.success);
    assert!(result.output.contains("1 session(s)"));
    assert!(result.output.contains("telegram__alice"));
    assert!(!result.output.contains("discord__bob"));
}

#[test]
fn list_sessions_extracts_channel() {
    let result = list(&Store::seeded(), "{}");
    assert!(result.output.contains("channel=telegram"));
    assert!(result.output.contains("channel=discord"));
}

#[test]
fn list_limit_must_be_an_unsigned_integer() {
    for args in [r#"{"limit": -1}"#, r#"{"limit": "1"}"#, r#"{"limit": 1.0}"#, "[1]", "null"] {
        assert!(list(&Store::seeded(), args).output.contains("Found 2 session(s)"), "{args}");
    }
    assert_eq!(list(&Store::seeded(), r#"{"limit": 0}"#).output, "Found 0 session(s):\n");
}

#[test]
fn list_shows_fifty_sessions_by_default() {
    let mut store = Store::empty();
    for i in 0..60 {
        store.append(&format!("c__{i}"), ChatMessage::user("x"));
    }
    assert!(list(&store, "{}").output.starts_with("Found 50 session(s):\n"));
}

#[test]
fn list_tool_name_and_schema() {
    let tool = SessionsListTool::new(());
    assert_eq!(tool.name(), "sessions_list");
    assert!(tool.parameters_schema()["properties"]["limit"].is_object());
    assert_eq!(
        tool.parameters_schema(),
        json(
            r#"{"type": "object", "properties": {"limit": {"type": "integer",
                "description": "Max sessions to return (default: 50)"}}}"#
        )
    );
    assert!(tool.description().starts_with("List all active conversation sessions"));
}

// sessions_history

#[test]
fn history_empty_session() {
    let result = history(&Store::empty(), r#"{"session_id": "nonexistent"}"#).unwrap();
    assert!(result.success);
    assert!(result.output.contains("No messages found"));
    assert_eq!(result.output, "No messages found for session 'nonexistent'.");
}

#[test]
fn history_returns_messages() {
    let result = history(&Store::seeded(), r#"{"session_id": "telegram__alice"}"#).unwrap();
    assert!(result.success);
    assert!(result.output.contains("showing 2/2 messages"));
    assert!(result.output.contains("[user] Hello from Alice"));
    assert!(result.output.contains("[assistant] Hi Alice"));
    assert_eq!(
        result.output,
        "Session 'telegram__alice': showing 2/2 messages\n\
         [user] Hello from Alice\n[assistant] Hi Alice, how can I help?\n"
    );
}

#[test]
fn history_respects_limit() {
    let result =
        history(&Store::seeded(), r#"{"session_id": "telegram__alice", "limit": 1}"#).unwrap();
    assert!(result.success);
    assert!(result.output.contains("showing 1/2 messages"));
    // Should show only the last message
    assert!(result.output.contains("[assistant]"));
    assert!(!result.output.contains("[user] Hello from Alice"));
}

#[test]
fn history_shows_twenty_messages_by_default() {
    let mut store = Store::empty();
    for i in 0..25 {
        store.append("s", ChatMessage::user(&format!("m{i}.")));
    }
    let result = history(&store, r#"{"session_id": "s"}"#).unwrap();
    assert!(result.output.starts_with("Session 's': showing 20/25 messages\n[user] m5.\n"));
    assert!(result.output.ends_with("[user] m24.\n"));
    let result = history(&store, r#"{"session_id": "s", "limit": 0}"#).unwrap();
    assert_eq!(result.output, "Session 's': showing 0/25 messages\n");
}

#[test]
fn history_missing_session_id() {
    let result = history(&Store::empty(), "{}");
    assert!(result.is_err());
    assert!(result.unwrap_err().message().contains("session_id"));
    let result = history(&Store::empty(), r#"{"session_id": 5}"#);
    assert_eq!(result.unwrap_err().message(), "Missing 'session_id' parameter");
}

#[test]
fn history_rejects_empty_session_id() {
    let result = history(&Store::empty(), r#"{"session_id": "   "}"#).unwrap();
    assert!(!result.success);
    assert!(result.error.unwrap().contains("Invalid"));
}

#[test]
fn history_tool_name_and_schema() {
    let tool = SessionsHistoryTool::new((), ());
    assert_eq!(tool.name(), "sessions_history");
    let schema = tool.parameters_schema();
    assert!(schema["properties"]["session_id"].is_object());
    assert!(schema["required"]
        .as_array()
        .unwrap()
        .contains(&Value::String("session_id".to_string())));
    assert_eq!(
        schema,
        json(
            r#"{"type": "object", "properties": {
                "session_id": {"type": "string",
                    "description": "The session ID to read history from (e.g. telegram__user123)"},
                "limit": {"type": "integer",
                    "description": "Max messages to return, from most recent (default: 20)"}},
                "required": ["session_id"]}"#
        )
    );
    assert_eq!(tool.operation(), ToolOperation::Read);
    assert!(tool.description().ends_with("Returns the last N messages."));
}

#[test]
fn tools_keep_their_backend_and_policy() {
    let list = SessionsListTool::new("store");
    assert_eq!(list.backend, "store");
    let history = SessionsHistoryTool::new("store", "policy");
    assert_eq!((history.backend, history.security), ("store", "policy"));
    let send = SessionsSendTool::new("store", "policy");
    assert_eq!((send.backend, send.security), ("store", "policy"));
    let wait = SessionsAwaitTool::new("store", "policy");
    assert_eq!((wait.backend, wait.security), ("store", "policy"));
}

#[test]
fn denied_calls_are_answered_with_the_reason() {
    let denied = || Err::<(), String>("read-only mode".to_string());
    let answer = |refusal: Refusal| match refusal {
        Refusal::Answered(result) => (result.success, result.output, result.error),
        Refusal::Missing(parameter) => panic!("{}", parameter.message()),
    };
    let expected = (false, String::new(), Some("read-only mode".to_string()));
    let args = json("{}");
    let refusal = SessionsHistoryTool::new((), ()).prepare(denied(), &args).unwrap_err();
    assert_eq!(answer(refusal), expected);
    let refusal = SessionsSendTool::new((), ()).prepare(denied(), &args).unwrap_err();
    assert_eq!(answer(refusal), expected);
    let refusal = SessionsAwaitTool::new((), ()).prepare(denied(), &args).unwrap_err();
    assert_eq!(answer(refusal), expected);
}

// sessions_send

#[test]
fn send_appends_message() {
    let mut store = Store::empty();
    let result = send(
        &mut store,
        r#"{"session_id": "telegram__alice", "message": "Hello from another agent"}"#,
    )
    .unwrap();
    assert!(result.success);
    assert!(result.output.contains("Message sent"));
    assert_eq!(result.output, "Message sent to session 'telegram__alice'.");

    // Verify message was appended
    let messages = store.load("telegram__alice");
    assert_eq!(messages.len(), 1);
    assert_eq!(messages[0].role, "user");
    assert_eq!(messages[0].content, "Hello from another agent");
}

#[test]
fn send_to_existing_session() {
    let mut store = Store::seeded();
    let result = send(
        &mut store,
        r#"{"session_id": "telegram__alice", "message": "Inter-agent message"}"#,
    )
    .unwrap();
    assert!(result.success);

    let messages = store.load("telegram__alice");
    assert_eq!(messages.len(), 3);
    assert_eq!(messages[2].content, "Inter-agent message");
}

#[test]
fn send_rejects_empty_message() {
    let mut store = Store::empty();
    let result =
        send(&mut store, r#"{"session_id": "telegram__alice", "message": "   "}"#).unwrap();
    assert!(!result.success);
    assert!(result.error.unwrap().contains("empty"));
    assert!(store.sessions.is_empty());
}

#[test]
fn send_rejects_empty_session_id() {
    let result = send(&mut Store::empty(), r#"{"session_id": "", "message": "hello"}"#).unwrap();
    assert!(!result.success);
    assert!(result.error.unwrap().contains("Invalid"));
}

#[test]
fn send_rejects_non_alphanumeric_session_id() {
    let result =
        send(&mut Store::empty(), r#"{"session_id": "///", "message": "hello"}"#).unwrap();
    assert!(!result.success);
    assert!(result.error.unwrap().contains("Invalid"));
}

#[test]
fn send_missing_session_id() {
    let result = send(&mut Store::empty(), r#"{"message": "hi"}"#);
    assert!(result.is_err());
    assert!(result.unwrap_err().message().contains("session_id"));
}

#[test]
fn send_missing_message() {
    let result = send(&mut Store::empty(), r#"{"session_id": "telegram__alice"}"#);
    assert!(result.is_err());
    assert_eq!(result.unwrap_err().message(), "Missing 'message' parameter");
}

#[test]
fn send_reports_a_failing_backend() {
    let tool = SessionsSendTool::new((), ());
    let request =
        tool.prepare(Ok(()), &json(r#"{"session_id": "s", "message": " m "}"#)).unwrap();
    assert_eq!(request.message.content, " m ");
    let result = tool.answer(&request, Err("disk full".to_string()));
    assert!(!result.success);
    assert_eq!(result.output, "");
    assert_eq!(result.error.unwrap(), "Failed to send message: disk full");
}

#[test]
fn send_tool_name_and_schema() {
    let tool = SessionsSendTool::new((), ());
    assert_eq!(tool.name(), "sessions_send");
    let schema = tool.parameters_schema();
    let required = schema["required"].as_array().unwrap();
    assert!(required.contains(&Value::String("session_id".to_string())));
    assert!(required.contains(&Value::String("message".to_string())));
    assert_eq!(
        schema,
        json(
            r#"{"type": "object", "properties": {
                "session_id": {"type": "string",
                    "description": "The target session ID (e.g. telegram__user123)"},
                "message": {"type": "string", "description": "The message content to send"}},
                "required": ["session_id", "message"]}"#
        )
    );
    assert_eq!(tool.operation(), ToolOperation::Act);
    assert!(tool.description().starts_with("Send a message to a specific session"));
}

// sessions_await

#[test]
fn await_tool_name_and_schema() {
    let tool = SessionsAwaitTool::new((), ());
    assert_eq!(tool.name(), "sessions_await");
    let schema = tool.parameters_schema();
    assert!(schema["properties"]["session_ids"].is_object());
    assert!(schema["properties"]["timeout_secs"].is_object());
    assert!(schema["properties"]["mode"].is_object());
    assert!(schema["required"]
        .as_array()
        .unwrap()
        .contains(&Value::String("session_ids".to_string())));
    assert_eq!(
        schema,
        json(
            r#"{"type": "object", "properties": {
                "session_ids": {"type": "array", "items": {"type": "string"},
                    "description": "Session IDs to wait for"},
                "timeout_secs": {"type": "integer",
                    "description": "Maximum wait time in seconds (default: 300)"},
                "mode": {"type": "string", "enum": ["all", "any"],
                    "description": "Wait mode: 'all' waits for every session (default), 'any' returns when the first completes"},
                "idle_timeout_secs": {"type": "integer",
                    "description": "Seconds of inactivity before a session is considered complete (default: 30)"}},
                "required": ["session_ids"]}"#
        )
    );
    assert_eq!(tool.operation(), ToolOperation::Read);
    assert_eq!(
        tool.description(),
        "Wait for one or more sessions to complete, then return their final outputs."
    );
}

#[test]
fn await_rejects_empty_session_ids() {
    let (result, _) = wait(&mut Store::empty(), r#"{"session_ids": []}"#, idle).unwrap();
    assert!(!result.success);
    assert!(result.error.unwrap().contains("at least one"));
    // Elements that are no strings do not count.
    let (result, _) = wait(&mut Store::empty(), r#"{"session_ids": [1, null]}"#, idle).unwrap();
    assert!(result.error.unwrap().contains("at least one"));
}

#[test]
fn await_rejects_invalid_session_id() {
    let (result, _) = wait(&mut Store::empty(), r#"{"session_ids": ["///"]}"#, idle).unwrap();
    assert!(!result.success);
    assert!(result.error.unwrap().contains("Invalid"));
}

#[test]
fn await_rejects_invalid_mode() {
    let args = r#"{"session_ids": ["test1"], "mode": "first"}"#;
    let (result, _) = wait(&mut Store::empty(), args, idle).unwrap();
    assert!(!result.success);
    let error = result.error.unwrap();
    assert!(error.contains("Invalid mode"));
    assert_eq!(error, "Invalid mode 'first'. Must be 'all' or 'any'.");
}

#[test]
fn await_missing_session_ids_param() {
    let result = wait(&mut Store::empty(), "{}", idle);
    assert!(result.is_err());
    assert_eq!(
        result.unwrap_err().message(),
        "Missing or invalid 'session_ids' parameter"
    );
    let result = wait(&mut Store::empty(), r#"{"session_ids": "a"}"#, idle);
    assert!(result.unwrap_err().message().contains("session_ids"));
}

#[test]
fn await_request_has_the_documented_defaults() {
    let tool = SessionsAwaitTool::new((), ());
    let request =
        tool.prepare(Ok(()), &json(r#"{"session_ids": ["a", 5, "b"]}"#)).unwrap();
    assert_eq!(request.session_ids, ["a", "b"]);
    assert_eq!(request.timeout_secs, 300);
    assert_eq!(request.idle_timeout_secs, 30);
    assert!(request.wait_all);
    let args = r#"{"session_ids": ["a"], "mode": "any", "timeout_secs": 5, "idle_timeout_secs": 7}"#;
    let request = tool.prepare(Ok(()), &json(args)).unwrap();
    assert_eq!((request.timeout_secs, request.idle_timeout_secs), (5, 7));
    assert!(!request.wait_all);
}

#[test]
fn await_completes_immediately_with_done_marker() {
    let mut store = Store::empty();
    // Seed a session with a completion marker
    store.append("agent__task1", ChatMessage::user("Start task"));
    store.append("agent__task1", ChatMessage::assistant("Task finished. [DONE]"));
    let args = r#"{"session_ids": ["agent__task1"], "timeout_secs": 5}"#;
    let (result, secs) = wait(&mut store, args, idle).unwrap();
    assert!(result.success);
    assert!(result.output.contains("1 session(s) completed"));
    assert!(result.output.contains("agent__task1"));
    assert!(result.output.contains("[DONE]"));
    assert_eq!(
        result.output,
        "1 session(s) completed.\n\n--- agent__task1 ---\n\
         [user] Start task\n[assistant] Task finished. [DONE]\n"
    );
    assert_eq!(secs, 0);
}

#[test]
fn await_completes_immediately_with_complete_marker() {
    let mut store = Store::empty();
    store.append("agent__task1", ChatMessage::assistant("All done [COMPLETE]"));
    let args = r#"{"session_ids": ["agent__task1"], "timeout_secs": 5}"#;
    let (result, secs) = wait(&mut store, args, idle).unwrap();
    assert!(result.success);
    assert!(result.output.contains("1 session(s) completed"));
    assert_eq!(secs, 0);
}

#[test]
fn await_any_mode_completes_when_first_done() {
    let mut store = Store::empty();
    // Only task1 has completion marker
    store.append("agent__task1", ChatMessage::assistant("Result [DONE]"));
    store.append("agent__task2", ChatMessage::assistant("Still working..."));
    let args =
        r#"{"session_ids": ["agent__task1", "agent__task2"], "mode": "any", "timeout_secs": 5}"#;
    let (result, secs) = wait(&mut store, args, idle).unwrap();
    assert!(result.success);
    assert!(result.output.contains("1 session(s) completed"));
    assert!(result.output.contains("agent__task1"));
    assert!(result.output.contains("Pending sessions"));
    assert!(result.output.contains("agent__task2"));
    assert!(result.output.ends_with("\nPending sessions: agent__task2\n"));
    assert_eq!(secs, 0);
}

#[test]
fn await_idle_timeout_triggers_completion() {
    let mut store = Store::empty();
    // Session exists but has no completion marker: the idle timeout should kick in
    store.append("agent__idle", ChatMessage::user("Start"));
    let args = r#"{"session_ids": ["agent__idle"], "timeout_secs": 10, "idle_timeout_secs": 1}"#;
    let (result, secs) = wait(&mut store, args, idle).unwrap();
    assert!(result.success);
    assert!(result.output.contains("1 session(s) completed"));
    assert!(result.output.contains("agent__idle"));
    assert_eq!(secs, 2);
}

#[test]
fn await_marks_idle_sessions_before_reporting_a_timeout() {
    let mut store = Store::empty();
    store.append("s1", ChatMessage::user("Start"));
    let args = r#"{"session_ids": ["s1"], "timeout_secs": 1, "idle_timeout_secs": 1}"#;
    let (result, secs) = wait(&mut store, args, idle).unwrap();
    assert!(result.success);
    assert_eq!(
        result.output,
        "Timeout reached. 1/1 session(s) completed.\n\n--- s1 ---\n[user] Start\n"
    );
    assert_eq!(secs, 2);
}

#[test]
fn await_keeps_active_sessions_pending_at_a_timeout() {
    let mut store = Store::empty();
    store.append("agent__t2", ChatMessage::user("Working"));
    store.append("still", ChatMessage::user("Waiting"));
    let args = r#"{"session_ids": ["agent__t2", "still"], "timeout_secs": 4,
        "idle_timeout_secs": 3}"#;
    // "agent__t2" has a new message at 2 seconds; "still" is idle for 4.
    let (result, secs) = wait(&mut store, args, keep_t2_active).unwrap();
    assert_eq!(
        result.output,
        "Timeout reached. 1/2 session(s) completed.\n\n--- still ---\n[user] Waiting\n\
         \nPending sessions: agent__t2\n"
    );
    assert_eq!(secs, 4);
}

#[test]
fn await_sees_a_message_that_comes_just_before_the_timeout() {
    let mut store = Store::empty();
    store.append("agent__t2", ChatMessage::user("Start"));
    let args = r#"{"session_ids": ["agent__t2"], "timeout_secs": 1, "idle_timeout_secs": 1}"#;
    // The message at 2 seconds comes after the last look, and before the waking.
    let (result, secs) = wait(&mut store, args, keep_t2_active).unwrap();
    assert_eq!(
        result.output,
        "Timeout reached. 0/1 session(s) completed.\n\nPending sessions: agent__t2\n"
    );
    assert_eq!(secs, 2);
}

fn message_at_29(store: &mut Store, secs: u128) {
    if secs == 30 {
        store.append("s", ChatMessage::user("sent at 29 seconds"));
    }
}

#[test]
fn await_with_equal_timeouts_keeps_an_active_session_pending() {
    let mut store = Store::empty();
    store.append("s", ChatMessage::user("Start"));
    let args = r#"{"session_ids": ["s"], "timeout_secs": 30, "idle_timeout_secs": 30}"#;
    let (result, secs) = wait(&mut store, args, message_at_29).unwrap();
    assert_eq!(
        result.output,
        "Timeout reached. 0/1 session(s) completed.\n\nPending sessions: s\n"
    );
    assert_eq!(secs, 30);
    // Without the message the session is idle by then.
    let mut store = Store::empty();
    store.append("s", ChatMessage::user("Start"));
    let (result, _) = wait(&mut store, args, idle).unwrap();
    assert!(result.output.starts_with("Timeout reached. 1/1 session(s) completed.\n"));
}

#[test]
fn await_run_looks_once_more_after_the_timeout() {
    let request = AwaitRequest {
        session_ids: vec!["a".to_string(), "b".to_string()],
        timeout_secs: 1,
        idle_timeout_secs: 1,
        wait_all: true,
    };
    let mut run = AwaitRun::begin(request, 0);
    for _ in 0..4 {
        run.loaded(Vec::new(), 0);
    }
    assert!(matches!(run.action(), AwaitAction::Sleep { secs: 2 }));
    run.slept(2 * SECOND);
    // "a" has a new message and "b" has none; then "b" is loaded for the report.
    for (expected, messages) in
        [("a", vec![ChatMessage::user("new")]), ("b", Vec::new()), ("b", Vec::new())]
    {
        match run.action() {
            AwaitAction::Load { session_id } => assert_eq!(session_id, expected),
            _ => panic!("a load should be asked for"),
        }
        run.loaded(messages, 2 * SECOND);
    }
    match run.action() {
        AwaitAction::Reply { result } => assert_eq!(
            result.output,
            "Timeout reached. 1/2 session(s) completed.\n\n--- b ---\n\nPending sessions: a\n"
        ),
        _ => panic!("the answer should be given"),
    }
}

fn keep_t2_active(store: &mut Store, secs: u128) {
    store.append("agent__t2", ChatMessage::user(&format!("ping {secs}")));
}

#[test]
fn await_timeout_returns_partial_results() {
    let mut store = Store::empty();
    // t1 is done, t2 is not and stays active
    store.append("agent__t1", ChatMessage::assistant("Finished [DONE]"));
    store.append("agent__t2", ChatMessage::user("Working"));
    let args = r#"{"session_ids": ["agent__t1", "agent__t2"], "mode": "all",
        "timeout_secs": 3, "idle_timeout_secs": 60}"#;
    let (result, secs) = wait(&mut store, args, keep_t2_active).unwrap();
    assert!(result.success);
    assert!(result.output.contains("Timeout reached"));
    assert!(result.output.contains("agent__t1"));
    assert!(result.output.starts_with("Timeout reached. 1/2 session(s) completed.\n"));
    assert!(result.output.ends_with("\nPending sessions: agent__t2\n"));
    assert_eq!(secs, 4);
}

fn finish_after_six(store: &mut Store, secs: u128) {
    if secs == 2 {
        store.append("b", ChatMessage::assistant("working"));
    }
    if secs == 6 {
        store.append("a", ChatMessage::assistant("result [done]"));
    }
}

#[test]
fn await_all_mode_waits_for_every_session() {
    let mut store = Store::empty();
    store.append("a", ChatMessage::user("go"));
    store.append("b", ChatMessage::user("go"));
    let args = r#"{"session_ids": ["a", "b"], "timeout_secs": 100, "idle_timeout_secs": 5}"#;
    // "a" is marked complete at 6 seconds; "b" is active at 2 and idle for 5 seconds at 8.
    let (result, secs) = wait(&mut store, args, finish_after_six).unwrap();
    assert_eq!(secs, 8);
    assert!(result.output.starts_with("2 session(s) completed.\n\n--- a ---\n"));
    assert!(!result.output.contains("Pending"));
}

#[test]
fn await_any_mode_returns_with_the_first_session() {
    let mut store = Store::empty();
    store.append("a", ChatMessage::user("go"));
    store.append("b", ChatMessage::user("go"));
    let args =
        r#"{"session_ids": ["b", "a"], "mode": "any", "timeout_secs": 100, "idle_timeout_secs": 50}"#;
    let (result, secs) = wait(&mut store, args, finish_after_six).unwrap();
    assert_eq!(secs, 6);
    assert!(result.output.starts_with("1 session(s) completed.\n\n--- a ---\n"));
    assert!(result.output.ends_with("Pending sessions: b\n"));
}

#[test]
fn await_zero_timeout_is_found_on_the_first_waking() {
    let args = r#"{"session_ids": ["a", "b"], "timeout_secs": 0}"#;
    let (result, secs) = wait(&mut Store::empty(), args, idle).unwrap();
    assert_eq!(secs, 2);
    assert_eq!(
        result.output,
        "Timeout reached. 0/2 session(s) completed.\n\nPending sessions: a, b\n"
    );
}

#[test]
fn await_run_asks_for_each_session_in_turn() {
    let request = AwaitRequest {
        session_ids: vec!["a".to_string(), "b".to_string()],
        timeout_secs: 9,
        idle_timeout_secs: 9,
        wait_all: true,
    };
    let mut run = AwaitRun::begin(request, 0);
    for expected in ["a", "b", "a", "b"] {
        match run.action() {
            AwaitAction::Load { session_id } => assert_eq!(session_id, expected),
            _ => panic!("a load should be asked for"),
        }
        run.loaded(Vec::new(), 0);
    }
    assert!(matches!(run.action(), AwaitAction::Sleep { secs: 2 }));
}

#[test]
fn report_shows_the_last_five_messages() {
    let state = |id: &str, completed: bool| SessionPollState {
        id: id.to_string(),
        last_message_count: 0,
        last_change: 0,
        completed,
    };
    let messages: Vec<ChatMessage> =
        (0..7).map(|i| ChatMessage::user(&format!("m{i}"))).collect();
    let states = vec![state("x", false), state("y", true), state("z", false)];
    let output = format_completed_sessions(&vec![messages], &states, false);
    assert_eq!(
        output,
        "1 session(s) completed.\n\n--- y ---\n[user] m2\n[user] m3\n[user] m4\n[user] m5\n\
         [user] m6\n\nPending sessions: x, z\n"
    );
}

#[test]
fn has_completion_marker_detects_done() {
    assert!(has_completion_marker(&vec![ChatMessage::assistant("result [DONE]")]));
}

#[test]
fn has_completion_marker_case_insensitive() {
    assert!(has_completion_marker(&vec![ChatMessage::assistant("result [done]")]));
    assert!(has_completion_marker(&vec![ChatMessage::assistant("\u{e9} [Complete] \u{df}")]));
}

#[test]
fn has_completion_marker_returns_false_without_marker() {
    assert!(!has_completion_marker(&vec![ChatMessage::assistant("still working")]));
    // Only the last message counts.
    assert!(!has_completion_marker(&vec![
        ChatMessage::assistant("[DONE]"),
        ChatMessage::user("go on"),
    ]));
}

#[test]
fn has_completion_marker_returns_false_for_empty_session() {
    assert!(!has_completion_marker(&Vec::new()));
}

#[test]
fn markers_are_looked_for_in_upper_case() {
    assert!(holds_completion_marker("X [DONE]"));
    assert!(holds_completion_marker("[COMPLETE]"));
    assert!(!holds_completion_marker("[done]"));
    assert!(!holds_completion_marker("[ DONE ]"));
}

#[test]
fn session_ids_need_an_alphanumeric_character() {
    assert!(validate_session_id("telegram__alice").is_ok());
    assert!(validate_session_id("  7 ").is_ok());
    assert!(validate_session_id(" a/ ").is_ok());
    assert!(validate_session_id("\u{4e2d}").is_ok());
    for id in ["", "  ", "///", "__", "\u{3000}\u{a0}\n", "\u{1f600}"] {
        let result = validate_session_id(id).unwrap_err();
        assert!(!result.success);
        assert_eq!(
            result.error.unwrap(),
            "Invalid 'session_id': must be non-empty and contain at least one alphanumeric character."
        );
    }
}

#[test]
fn history_request_can_be_answered_for_any_session() {
    let tool = SessionsHistoryTool::new((), ());
    let request = HistoryRequest { session_id: "x".to_string(), limit: 5 };
    let result = tool.answer(&request, &vec![ChatMessage::tool("out")]);
    assert_eq!(result.output, "Session 'x': showing 1/1 messages\n[tool] out\n");
}

#[test]
fn arguments_that_are_no_object_have_no_members() {
    let tool = SessionsHistoryTool::new((), ());
    for args in [Value::Null, Value::Array(vec![json("1")]), json("{}")] {
        assert!(matches!(
            tool.prepare(Ok(()), &args),
            Err(Refusal::Missing(MissingParameter::SessionId))
        ));
    }
}
