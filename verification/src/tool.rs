//! What a tool answers, and how it fails.

use vstd::prelude::*;

verus! {

/// The answer of a tool call.
#[derive(Debug, Clone)]
pub struct ToolResult {
    pub success: bool,
    pub output: String,
    pub error: Option<String>,
}

/// The texts and the verdict that an answer holds.
pub struct ToolResultView {
    pub success: bool,
    pub output: Seq<char>,
    pub error: Option<Seq<char>>,
}

impl View for ToolResult {
    type V = ToolResultView;

    open spec fn view(&self) -> ToolResultView {
        ToolResultView {
            success: self.success,
            output: self.output@,
            error: match self.error {
                Some(text) => Some(text@),
                None => None,
            },
        }
    }
}

/// The answer of a call that succeeded with `output`.
pub open spec fn success_of(output: Seq<char>) -> ToolResultView {
    ToolResultView { success: true, output, error: None }
}

/// The answer of a call that was turned down for the reason `error`.
pub open spec fn failure_of(error: Seq<char>) -> ToolResultView {
    ToolResultView { success: false, output: Seq::empty(), error: Some(error) }
}

impl ToolResult {
    /// The answer of a call that succeeded with `output`.
    pub fn succeeded(output: String) -> (result: Self)
        ensures
            result@ == success_of(output@),
    {
        ToolResult { success: true, output, error: None }
    }

    /// The answer of a call that was turned down for the reason `error`.
    pub fn failed(error: String) -> (result: Self)
        ensures
            result@ == failure_of(error@),
    {
        ToolResult { success: false, output: String::new(), error: Some(error) }
    }
}

/// What a tool does to the sessions: it reads them, or acts on them.
#[derive(Debug, Clone, Copy, PartialEq, Eq, Structural)]
pub enum ToolOperation {
    Read,
    Act,
}

/// A parameter that a call must have and does not have.
#[derive(Debug, Clone, Copy, PartialEq, Eq, Structural)]
pub enum MissingParameter {
    SessionId,
    Message,
    SessionIds,
}

impl MissingParameter {
    /// What the caller is told.
    pub open spec fn text(self) -> Seq<char> {
        match self {
            MissingParameter::SessionId => "Missing 'session_id' parameter"@,
            MissingParameter::Message => "Missing 'message' parameter"@,
            MissingParameter::SessionIds => "Missing or invalid 'session_ids' parameter"@,
        }
    }

    /// What the caller is told.
    pub fn message(&self) -> (text: String)
        ensures
            text@ == self.text(),
    {
        match self {
            MissingParameter::SessionId => "Missing 'session_id' parameter".to_owned(),
            MissingParameter::Message => "Missing 'message' parameter".to_owned(),
            MissingParameter::SessionIds => "Missing or invalid 'session_ids' parameter".to_owned(),
        }
    }
}

/// Why a call goes no further: it has its answer, or it lacks a parameter.
#[derive(Debug, Clone)]
pub enum Refusal {
    Answered(ToolResult),
    Missing(MissingParameter),
}

/// What is made of a call: an answer at once, a failure for want of a
/// parameter, or a request to go on with.
pub enum Decision<R> {
    Answer(ToolResultView),
    Missing(MissingParameter),
    Proceed(R),
}

/// The decision that a refusal or a request stands for.
pub open spec fn decision_of<T: View>(outcome: Result<T, Refusal>) -> Decision<T::V> {
    match outcome {
        Ok(request) => Decision::Proceed(request@),
        Err(Refusal::Answered(result)) => Decision::Answer(result@),
        Err(Refusal::Missing(parameter)) => Decision::Missing(parameter),
    }
}

/// The reason that the security policy or the backend gives for turning a call
/// down, if it does.
pub open spec fn failure_reason(outcome: Result<(), String>) -> Option<Seq<char>> {
    match outcome {
        Ok(_) => None,
        Err(reason) => Some(reason@),
    }
}

} // verus!
