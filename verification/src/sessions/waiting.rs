//! The `sessions_await` tool.
//!
//! A session is considered complete when its last message contains a completion
//! marker (`[DONE]` or `[COMPLETE]`), or when it has been idle (no new messages)
//! for the idle timeout.
//!
//! The tool waits in one of two modes: until every listed session is complete,
//! or until the first one is.

use super::{invalid_session_id_text, valid_session_id, validate_session_id};
use crate::json::{array_member, json_of, jsons_of, object_schema, object_schema_value,
    property, property_value, strings, strings_value, text_member, unsigned_member, Json, Members};
use crate::text::{same_text, texts};
use crate::tool::{decision_of, failure_reason, failure_of, Decision, MissingParameter, Refusal,
    ToolOperation, ToolResult};
use serde_json::Value;
use vstd::prelude::*;

verus! {

/// Default idle timeout in seconds: a session with no new messages for this
/// long is considered complete.
pub const DEFAULT_IDLE_SECS: u64 = 30;

/// Default maximum wait time in seconds.
pub const DEFAULT_TIMEOUT_SECS: u64 = 300;

/// Sessions to wait for, and how.
#[derive(Debug, Clone)]
pub struct AwaitRequest {
    pub session_ids: Vec<String>,
    pub timeout_secs: u64,
    pub idle_timeout_secs: u64,
    /// Wait for every session, not just for the first one.
    pub wait_all: bool,
}

/// What a request to wait holds.
pub struct AwaitRequestView {
    pub session_ids: Seq<Seq<char>>,
    pub timeout_secs: u64,
    pub idle_timeout_secs: u64,
    pub wait_all: bool,
}

impl View for AwaitRequest {
    type V = AwaitRequestView;

    open spec fn view(&self) -> AwaitRequestView {
        AwaitRequestView {
            session_ids: texts(self.session_ids@),
            timeout_secs: self.timeout_secs,
            idle_timeout_secs: self.idle_timeout_secs,
            wait_all: self.wait_all,
        }
    }
}

/// The strings among the elements of an array, in order.
pub open spec fn strings_among(elements: Seq<Json>) -> Seq<Seq<char>>
    decreases elements.len(),
{
    if elements.len() == 0 {
        Seq::empty()
    } else {
        match elements.last() {
            Json::Text(text) => strings_among(elements.drop_last()).push(text),
            _ => strings_among(elements.drop_last()),
        }
    }
}

/// Every ID names a session.
pub open spec fn all_valid(ids: Seq<Seq<char>>) -> bool {
    forall|i: int| 0 <= i < ids.len() ==> valid_session_id(#[trigger] ids[i])
}

/// The mode that a call asks for.
pub open spec fn await_mode(args: Json) -> Seq<char> {
    match args.text_member("mode"@) {
        Some(mode) => mode,
        None => "all"@,
    }
}

/// The number under `key`, or a default.
pub open spec fn number_or(args: Json, key: Seq<char>, default: u64) -> u64 {
    match args.unsigned_member(key) {
        Some(n) => n,
        None => default,
    }
}

/// What is made of a call: a denied one is answered with the reason, one
/// without a list of session IDs fails, one without any ID, with an ID that
/// names no session or with an unknown mode is turned down, and any other one
/// asks to wait.
pub open spec fn await_decision(denial: Option<Seq<char>>, args: Json) -> Decision<
    AwaitRequestView,
> {
    match denial {
        Some(reason) => Decision::Answer(failure_of(reason)),
        None => match args.array_member("session_ids"@) {
            None => Decision::Missing(MissingParameter::SessionIds),
            Some(elements) => {
                let ids = strings_among(elements);
                let mode = await_mode(args);
                if ids.len() == 0 {
                    Decision::Answer(
                        failure_of("'session_ids' must contain at least one session ID."@),
                    )
                } else if !all_valid(ids) {
                    Decision::Answer(failure_of(invalid_session_id_text()))
                } else if mode != "all"@ && mode != "any"@ {
                    Decision::Answer(
                        failure_of("Invalid mode '"@ + mode + "'. Must be 'all' or 'any'."@),
                    )
                } else {
                    Decision::Proceed(
                        AwaitRequestView {
                            session_ids: ids,
                            timeout_secs: number_or(args, "timeout_secs"@, DEFAULT_TIMEOUT_SECS),
                            idle_timeout_secs: number_or(
                                args,
                                "idle_timeout_secs"@,
                                DEFAULT_IDLE_SECS,
                            ),
                            wait_all: mode == "all"@,
                        },
                    )
                }
            },
        },
    }
}

/// The schema of the list of session IDs.
pub open spec fn session_ids_schema() -> Json {
    Json::Object(
        map![
            "type"@ => Json::Text("array"@),
            "items"@ => Json::Object(map!["type"@ => Json::Text("string"@)]),
            "description"@ => Json::Text("Session IDs to wait for"@),
        ],
    )
}

/// The schema of the wait mode.
pub open spec fn mode_schema() -> Json {
    Json::Object(
        map![
            "type"@ => Json::Text("string"@),
            "enum"@ => strings(seq!["all"@, "any"@]),
            "description"@ => Json::Text(
                "Wait mode: 'all' waits for every session (default), 'any' returns when the first completes"@,
            ),
        ],
    )
}

/// The parameters of the tool.
pub open spec fn await_schema() -> Json {
    object_schema(
        map![
            "session_ids"@ => session_ids_schema(),
            "timeout_secs"@ => property(
                "integer"@,
                "Maximum wait time in seconds (default: 300)"@,
            ),
            "mode"@ => mode_schema(),
            "idle_timeout_secs"@ => property(
                "integer"@,
                "Seconds of inactivity before a session is considered complete (default: 30)"@,
            ),
        ],
        seq!["session_ids"@],
    )
}

fn session_ids_value() -> (value: Value)
    ensures
        json_of(value) == session_ids_schema(),
{
    let mut item = Members::new();
    item.push_text("type", "string");
    let mut members = Members::new();
    members.push_text("type", "array");
    members.push("items", item.into_object());
    members.push_text("description", "Session IDs to wait for");
    members.into_object()
}

fn mode_value() -> (value: Value)
    ensures
        json_of(value) == mode_schema(),
{
    let modes = ["all", "any"];
    let mut members = Members::new();
    members.push_text("type", "string");
    members.push("enum", strings_value(&modes));
    members.push_text(
        "description",
        "Wait mode: 'all' waits for every session (default), 'any' returns when the first completes",
    );
    assert(Seq::new(modes@.len(), |i: int| modes@[i]@) =~= seq!["all"@, "any"@]);
    members.into_object()
}

/// Waits for one or more sessions to complete, then returns their final outputs.
pub struct SessionsAwaitTool<B, S> {
    /// Where the sessions are kept.
    pub backend: B,
    /// What decides whether the tool may be used.
    pub security: S,
}

fn collect_strings(elements: &Vec<Value>) -> (ids: Vec<String>)
    ensures
        texts(ids@) == strings_among(jsons_of(elements@)),
{
    let ghost listed = jsons_of(elements@);
    let mut ids: Vec<String> = Vec::new();
    let mut i: usize = 0;
    assert(listed.take(0) =~= Seq::empty());
    assert(texts(ids@) =~= Seq::empty());
    while i < elements.len()
        invariant
            i <= elements@.len(),
            listed == jsons_of(elements@),
            texts(ids@) == strings_among(listed.take(i as int)),
        decreases elements@.len() - i,
    {
        let ghost before = ids@;
        assert(listed.take(i + 1).drop_last() =~= listed.take(i as int));
        assert(listed.take(i + 1).last() == json_of(elements@[i as int]));
        match elements[i].as_str() {
            Some(text) => {
                ids.push(text.to_owned());
                assert(texts(ids@) =~= texts(before).push(text@));
            },
            None => {},
        }
        i = i + 1;
    }
    assert(listed.take(listed.len() as int) =~= listed);
    ids
}

impl<B, S> SessionsAwaitTool<B, S> {
    /// The tool on the sessions that `backend` keeps, under the policy
    /// `security`.
    pub fn new(backend: B, security: S) -> (tool: Self)
        ensures
            tool.backend == backend,
            tool.security == security,
    {
        SessionsAwaitTool { backend, security }
    }

    /// The name of the tool.
    pub fn name(&self) -> (name: &'static str)
        ensures
            name@ == "sessions_await"@,
    {
        "sessions_await"
    }

    /// What the tool does.
    pub fn description(&self) -> (text: &'static str)
        ensures
            text@ == "Wait for one or more sessions to complete, then return their final outputs."@,
    {
        "Wait for one or more sessions to complete, then return their final outputs."
    }

    /// What the tool needs permission for.
    pub fn operation(&self) -> (operation: ToolOperation)
        ensures
            operation == ToolOperation::Read,
    {
        ToolOperation::Read
    }

    /// The parameters of the tool.
    pub fn parameters_schema(&self) -> (schema: Value)
        ensures
            json_of(schema) == await_schema(),
    {
        let mut properties = Members::new();
        properties.push("session_ids", session_ids_value());
        properties.push(
            "timeout_secs",
            property_value("integer", "Maximum wait time in seconds (default: 300)"),
        );
        properties.push("mode", mode_value());
        properties.push(
            "idle_timeout_secs",
            property_value(
                "integer",
                "Seconds of inactivity before a session is considered complete (default: 30)",
            ),
        );
        let required = ["session_ids"];
        let schema = object_schema_value(properties, &required);
        assert(Seq::new(required@.len(), |i: int| required@[i]@) =~= seq!["session_ids"@]);
        schema
    }

    /// What is made of a call with `args`, where the security policy gave
    /// `permission`: sessions to wait for, or the reason why there are none.
    pub fn prepare(&self, permission: Result<(), String>, args: &Value) -> (outcome: Result<
        AwaitRequest,
        Refusal,
    >)
        ensures
            decision_of(outcome) == await_decision(failure_reason(permission), json_of(*args)),
    {
        match permission {
            Err(reason) => {
                return Err(Refusal::Answered(ToolResult::failed(reason)));
            },
            Ok(_) => {},
        }
        let session_ids = match array_member(args, "session_ids") {
            Some(elements) => collect_strings(elements),
            None => {
                return Err(Refusal::Missing(MissingParameter::SessionIds));
            },
        };
        let ghost ids = texts(session_ids@);
        if session_ids.len() == 0 {
            return Err(
                Refusal::Answered(
                    ToolResult::failed(
                        "'session_ids' must contain at least one session ID.".to_owned(),
                    ),
                ),
            );
        }
        let mut i: usize = 0;
        while i < session_ids.len()
            invariant
                ids == texts(session_ids@),
                i <= session_ids@.len(),
                permission is Ok,
                session_ids@.len() > 0,
                json_of(*args).array_member("session_ids"@) is Some,
                ids == strings_among(json_of(*args).array_member("session_ids"@)->0),
                forall|j: int| 0 <= j < i ==> valid_session_id(#[trigger] ids[j]),
            decreases session_ids@.len() - i,
        {
            match validate_session_id(session_ids[i].as_str()) {
                Err(answer) => {
                    assert(!valid_session_id(ids[i as int]));
                    return Err(Refusal::Answered(answer));
                },
                Ok(_) => {},
            }
            i = i + 1;
        }
        let timeout_secs: u64 = match unsigned_member(args, "timeout_secs") {
            Some(n) => n,
            None => DEFAULT_TIMEOUT_SECS,
        };
        let idle_timeout_secs: u64 = match unsigned_member(args, "idle_timeout_secs") {
            Some(n) => n,
            None => DEFAULT_IDLE_SECS,
        };
        let mode: &str = match text_member(args, "mode") {
            Some(text) => text,
            None => "all",
        };
        let wait_all = same_text(mode, "all");
        if !wait_all && !same_text(mode, "any") {
            let mut error = "Invalid mode '".to_owned();
            error.append(mode);
            error.append("'. Must be 'all' or 'any'.");
            return Err(Refusal::Answered(ToolResult::failed(error)));
        }
        Ok(AwaitRequest { session_ids, timeout_secs, idle_timeout_secs, wait_all })
    }
}

} // verus!
