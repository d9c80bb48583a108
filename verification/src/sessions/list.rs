//! The `sessions_list` tool.

use crate::json::{json_of, object_schema, object_schema_value, property, property_value,
    unsigned_member, Json, Members};
use crate::text::{before_first, decimal, decimal_text, text_before};
use crate::tool::{success_of, ToolResult, ToolResultView};
use serde_json::Value;
use vstd::prelude::*;

verus! {

/// What is known of a session without reading its messages.
#[derive(Debug, Clone)]
pub struct SessionMetadata {
    /// The session's key, by convention `channel__identifier`.
    pub key: String,
    /// How many messages the session holds.
    pub message_count: usize,
    /// When the session was last active, as it is shown.
    pub last_activity: String,
}

/// The texts and the count that the metadata of a session holds.
pub struct MetadataView {
    pub key: Seq<char>,
    pub message_count: nat,
    pub last_activity: Seq<char>,
}

impl View for SessionMetadata {
    type V = MetadataView;

    open spec fn view(&self) -> MetadataView {
        MetadataView {
            key: self.key@,
            message_count: self.message_count as nat,
            last_activity: self.last_activity@,
        }
    }
}

/// The metadata of a list of sessions.
pub open spec fn metadata_views(sessions: Seq<SessionMetadata>) -> Seq<MetadataView> {
    Seq::new(sessions.len(), |i: int| sessions[i]@)
}

/// The channel of a session: its key up to the first `__`.
pub open spec fn channel_of(key: Seq<char>) -> Seq<char> {
    before_first(key, "__"@)
}

/// The line that shows one session.
pub open spec fn session_line(session: MetadataView) -> Seq<char> {
    "- "@ + session.key + ": channel="@ + channel_of(session.key) + ", messages="@ + decimal(
        session.message_count,
    ) + ", last_activity="@ + session.last_activity + "\n"@
}

/// The lines that show the sessions.
pub open spec fn session_lines(sessions: Seq<MetadataView>) -> Seq<char>
    decreases sessions.len(),
{
    if sessions.len() == 0 {
        Seq::empty()
    } else {
        session_lines(sessions.drop_last()) + session_line(sessions.last())
    }
}

/// The most sessions that a call asks to see.
pub open spec fn list_limit(args: Json) -> usize {
    match args.unsigned_member("limit"@) {
        Some(n) => n as usize,
        None => 50,
    }
}

/// The sessions that are shown: the first `limit` of them.
pub open spec fn shown_sessions(sessions: Seq<MetadataView>, limit: nat) -> Seq<MetadataView> {
    if limit < sessions.len() {
        sessions.take(limit as int)
    } else {
        sessions
    }
}

/// The answer that shows at most `limit` sessions.
pub open spec fn list_answer(sessions: Seq<MetadataView>, limit: nat) -> ToolResultView {
    if sessions.len() == 0 {
        success_of("No active sessions found."@)
    } else {
        let shown = shown_sessions(sessions, limit);
        success_of("Found "@ + decimal(shown.len()) + " session(s):\n"@ + session_lines(shown))
    }
}

/// The parameters of the tool.
pub open spec fn list_schema() -> Json {
    object_schema(
        map!["limit"@ => property("integer"@, "Max sessions to return (default: 50)"@)],
        Seq::empty(),
    )
}

/// The line that shows one session.
fn session_line_text(session: &SessionMetadata) -> (line: String)
    ensures
        line@ == session_line(session@),
{
    let mut line = "- ".to_owned();
    line.append(session.key.as_str());
    line.append(": channel=");
    line.append(text_before(session.key.as_str(), "__").as_str());
    line.append(", messages=");
    line.append(decimal_text(session.message_count).as_str());
    line.append(", last_activity=");
    line.append(session.last_activity.as_str());
    line.append("\n");
    line
}

/// Lists active sessions with their channel, last activity time, and message
/// count.
pub struct SessionsListTool<B> {
    /// Where the sessions are kept.
    pub backend: B,
}

impl<B> SessionsListTool<B> {
    /// The tool on the sessions that `backend` keeps.
    pub fn new(backend: B) -> (tool: Self)
        ensures
            tool.backend == backend,
    {
        SessionsListTool { backend }
    }

    /// The name of the tool.
    pub fn name(&self) -> (name: &'static str)
        ensures
            name@ == "sessions_list"@,
    {
        "sessions_list"
    }

    /// What the tool does.
    pub fn description(&self) -> (text: &'static str)
        ensures
            text@
                == "List all active conversation sessions with their channel, last activity time, and message count."@,
    {
        "List all active conversation sessions with their channel, last activity time, and message count."
    }

    /// The parameters of the tool.
    pub fn parameters_schema(&self) -> (schema: Value)
        ensures
            json_of(schema) == list_schema(),
    {
        let mut properties = Members::new();
        properties.push(
            "limit",
            property_value("integer", "Max sessions to return (default: 50)"),
        );
        let required: [&str; 0] = [];
        let schema = object_schema_value(properties, &required);
        assert(Seq::new(required@.len(), |i: int| required@[i]@) =~= Seq::<Seq<char>>::empty());
        schema
    }

    /// The answer to a call with `args`, where the backend lists `sessions`.
    pub fn execute(&self, args: &Value, sessions: &Vec<SessionMetadata>) -> (result: ToolResult)
        ensures
            result@ == list_answer(
                metadata_views(sessions@),
                list_limit(json_of(*args)) as nat,
            ),
    {
        let limit: usize = match unsigned_member(args, "limit") {
            Some(n) => n as usize,
            None => 50,
        };
        if sessions.len() == 0 {
            return ToolResult::succeeded("No active sessions found.".to_owned());
        }
        let shown: usize = if limit < sessions.len() {
            limit
        } else {
            sessions.len()
        };
        let ghost views = metadata_views(sessions@);
        let ghost listed = shown_sessions(views, limit as nat);
        assert(listed =~= views.take(shown as int));
        let mut output = "Found ".to_owned();
        output.append(decimal_text(shown).as_str());
        output.append(" session(s):\n");
        let ghost head = output@;
        let mut i: usize = 0;
        assert(views.take(0) =~= Seq::empty());
        while i < shown
            invariant
                i <= shown <= sessions@.len(),
                views == metadata_views(sessions@),
                output@ == head + session_lines(views.take(i as int)),
            decreases shown - i,
        {
            let session = &sessions[i];
            output.append(session_line_text(session).as_str());
            assert(views.take(i + 1).drop_last() =~= views.take(i as int));
            assert(views.take(i + 1).last() == session@);
            assert(output@ =~= head + (session_lines(views.take(i as int)) + session_line(session@)));
            i = i + 1;
        }
        ToolResult::succeeded(output)
    }
}

} // verus!
