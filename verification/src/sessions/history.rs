//! The `sessions_history` tool.

use super::{invalid_session_id_text, push_transcript, transcript, valid_session_id,
    validate_session_id};
use crate::json::{json_of, object_schema, object_schema_value, property, property_value,
    text_member, unsigned_member, Json, Members};
use crate::message::{message_views, ChatMessage, MessageView};
use crate::text::{decimal, decimal_text};
use crate::tool::{decision_of, failure_reason, failure_of, success_of, Decision, MissingParameter,
    Refusal, ToolOperation, ToolResult, ToolResultView};
use serde_json::Value;
use vstd::prelude::*;

verus! {

/// A history to read: which session, and how many messages at most.
#[derive(Debug, Clone)]
pub struct HistoryRequest {
    pub session_id: String,
    pub limit: usize,
}

/// What a request for a history holds.
pub struct HistoryRequestView {
    pub session_id: Seq<char>,
    pub limit: usize,
}

impl View for HistoryRequest {
    type V = HistoryRequestView;

    open spec fn view(&self) -> HistoryRequestView {
        HistoryRequestView { session_id: self.session_id@, limit: self.limit }
    }
}

/// The most messages that a call asks to see.
pub open spec fn history_limit(args: Json) -> usize {
    match args.unsigned_member("limit"@) {
        Some(n) => n as usize,
        None => 20,
    }
}

/// What is made of a call: a denied one is answered with the reason, one
/// without a session ID fails, one with an ID that names no session is turned
/// down, and any other one asks for a history.
pub open spec fn history_decision(denial: Option<Seq<char>>, args: Json) -> Decision<
    HistoryRequestView,
> {
    match denial {
        Some(reason) => Decision::Answer(failure_of(reason)),
        None => match args.text_member("session_id"@) {
            None => Decision::Missing(MissingParameter::SessionId),
            Some(id) => if !valid_session_id(id) {
                Decision::Answer(failure_of(invalid_session_id_text()))
            } else {
                Decision::Proceed(
                    HistoryRequestView { session_id: id, limit: history_limit(args) },
                )
            },
        },
    }
}

/// The last `limit` of the messages, or all of them where there are fewer.
pub open spec fn last_messages(messages: Seq<MessageView>, limit: nat) -> Seq<MessageView> {
    if limit < messages.len() {
        messages.skip(messages.len() - limit)
    } else {
        messages
    }
}

/// The answer that shows the last messages of a session.
pub open spec fn history_answer(
    session_id: Seq<char>,
    limit: nat,
    messages: Seq<MessageView>,
) -> ToolResultView {
    if messages.len() == 0 {
        success_of("No messages found for session '"@ + session_id + "'."@)
    } else {
        let shown = last_messages(messages, limit);
        success_of(
            "Session '"@ + session_id + "': showing "@ + decimal(shown.len()) + "/"@ + decimal(
                messages.len(),
            ) + " messages\n"@ + transcript(shown),
        )
    }
}

/// The parameters of the tool.
pub open spec fn history_schema() -> Json {
    object_schema(
        map![
            "session_id"@ => property(
                "string"@,
                "The session ID to read history from (e.g. telegram__user123)"@,
            ),
            "limit"@ => property(
                "integer"@,
                "Max messages to return, from most recent (default: 20)"@,
            ),
        ],
        seq!["session_id"@],
    )
}

/// Reads the message history of a specific session by ID.
pub struct SessionsHistoryTool<B, S> {
    /// Where the sessions are kept.
    pub backend: B,
    /// What decides whether the tool may be used.
    pub security: S,
}

impl<B, S> SessionsHistoryTool<B, S> {
    /// The tool on the sessions that `backend` keeps, under the policy
    /// `security`.
    pub fn new(backend: B, security: S) -> (tool: Self)
        ensures
            tool.backend == backend,
            tool.security == security,
    {
        SessionsHistoryTool { backend, security }
    }

    /// The name of the tool.
    pub fn name(&self) -> (name: &'static str)
        ensures
            name@ == "sessions_history"@,
    {
        "sessions_history"
    }

    /// What the tool does.
    pub fn description(&self) -> (text: &'static str)
        ensures
            text@
                == "Read the message history of a specific session by its session ID. Returns the last N messages."@,
    {
        "Read the message history of a specific session by its session ID. Returns the last N messages."
    }

    /// What the tool needs permission for.
    pub fn operation(&self) -> (operation: ToolOperation)
        ensures
            operation == ToolOperation::Read,
    {
        ToolOperation::Read
    }

    /// The parameters of the tool.
    pub fn parameters_schema(&self) -> (schema: Value)
        ensures
            json_of(schema) == history_schema(),
    {
        let mut properties = Members::new();
        properties.push(
            "session_id",
            property_value(
                "string",
                "The session ID to read history from (e.g. telegram__user123)",
            ),
        );
        properties.push(
            "limit",
            property_value("integer", "Max messages to return, from most recent (default: 20)"),
        );
        let required = ["session_id"];
        let schema = object_schema_value(properties, &required);
        assert(Seq::new(required@.len(), |i: int| required@[i]@) =~= seq!["session_id"@]);
        schema
    }

    /// What is made of a call with `args`, where the security policy gave
    /// `permission`: a history to read, or the reason why there is none.
    pub fn prepare(&self, permission: Result<(), String>, args: &Value) -> (outcome: Result<
        HistoryRequest,
        Refusal,
    >)
        ensures
            decision_of(outcome) == history_decision(failure_reason(permission), json_of(*args)),
    {
        match permission {
            Err(reason) => {
                return Err(Refusal::Answered(ToolResult::failed(reason)));
            },
            Ok(_) => {},
        }
        let session_id = match text_member(args, "session_id") {
            Some(id) => id,
            None => {
                return Err(Refusal::Missing(MissingParameter::SessionId));
            },
        };
        match validate_session_id(session_id) {
            Err(answer) => {
                return Err(Refusal::Answered(answer));
            },
            Ok(_) => {},
        }
        let limit: usize = match unsigned_member(args, "limit") {
            Some(n) => n as usize,
            None => 20,
        };
        Ok(HistoryRequest { session_id: session_id.to_owned(), limit })
    }

    /// The answer to a request, where the session holds `messages`.
    pub fn answer(&self, request: &HistoryRequest, messages: &Vec<ChatMessage>) -> (result:
        ToolResult)
        ensures
            result@ == history_answer(
                request@.session_id,
                request@.limit as nat,
                message_views(messages@),
            ),
    {
        let session_id = request.session_id.as_str();
        if messages.len() == 0 {
            let mut output = "No messages found for session '".to_owned();
            output.append(session_id);
            output.append("'.");
            return ToolResult::succeeded(output);
        }
        let start: usize = if request.limit < messages.len() {
            messages.len() - request.limit
        } else {
            0
        };
        let ghost views = message_views(messages@);
        assert(views.skip(start as int) =~= last_messages(views, request.limit as nat));
        let mut output = "Session '".to_owned();
        output.append(session_id);
        output.append("': showing ");
        output.append(decimal_text(messages.len() - start).as_str());
        output.append("/");
        output.append(decimal_text(messages.len()).as_str());
        output.append(" messages\n");
        push_transcript(&mut output, messages, start);
        ToolResult::succeeded(output)
    }
}

} // verus!
