//! What is told of a value is what it holds: every field as it is, and every
//! element of a list at its place.

use crate::bubblewrap::{SandboxError, SandboxErrorView};
use crate::media_save::saved_views;
use crate::message::{message_views, ChatMessage};
use crate::json::{json_of, jsons_of};
use crate::session_logger::SessionEvent;
use crate::sessions::history::{HistoryRequest, HistoryRequestView};
use crate::sessions::list::{metadata_views, SessionMetadata};
use crate::sessions::run::{history_views, poll_views, SessionPollState};
use crate::sessions::send::SendRequest;
use crate::sessions::waiting::AwaitRequest;
use crate::text::texts;
use crate::tool::{decision_of, failure_reason, Decision, Refusal, ToolResult};
use serde_json::Value;
use std::path::PathBuf;
use vstd::prelude::*;

verus! {

/// A list of texts is told text by text.
pub proof fn law_texts_one_by_one(list: Seq<String>, i: int)
    ensures
        texts(list).len() == list.len(),
        0 <= i < list.len() ==> texts(list)[i] == list[i]@,
{
}

/// A conversation is told message by message, each with its role and content.
pub proof fn law_messages_one_by_one(messages: Seq<ChatMessage>, i: int)
    ensures
        message_views(messages).len() == messages.len(),
        0 <= i < messages.len() ==> message_views(messages)[i].role == messages[i].role@
            && message_views(messages)[i].content == messages[i].content@,
{
}

/// The messages of several sessions are told session by session.
pub proof fn law_histories_one_by_one(histories: Seq<Vec<ChatMessage>>, i: int, k: int)
    ensures
        history_views(histories).len() == histories.len(),
        0 <= i < histories.len() ==> history_views(histories)[i].len() == histories[i]@.len(),
        0 <= i < histories.len() && 0 <= k < histories[i]@.len() ==> history_views(
            histories,
        )[i][k].role == histories[i]@[k].role@ && history_views(histories)[i][k].content
            == histories[i]@[k].content@,
{
}

/// The metadata of sessions are told session by session.
pub proof fn law_metadata_one_by_one(sessions: Seq<SessionMetadata>, i: int)
    ensures
        metadata_views(sessions).len() == sessions.len(),
        0 <= i < sessions.len() ==> metadata_views(sessions)[i].key == sessions[i].key@
            && metadata_views(sessions)[i].message_count == sessions[i].message_count
            && metadata_views(sessions)[i].last_activity == sessions[i].last_activity@,
{
}

/// What is tracked of sessions is told session by session.
pub proof fn law_tracked_sessions_one_by_one(states: Seq<SessionPollState>, i: int)
    ensures
        poll_views(states).len() == states.len(),
        0 <= i < states.len() ==> {
            &&& poll_views(states)[i].id == states[i].id@
            &&& poll_views(states)[i].last_message_count == states[i].last_message_count
            &&& poll_views(states)[i].last_change == states[i].last_change
            &&& poll_views(states)[i].completed == states[i].completed
        },
{
}

/// JSON values are told value by value.
pub proof fn law_json_values_one_by_one(values: Seq<Value>, i: int)
    ensures
        jsons_of(values).len() == values.len(),
        0 <= i < values.len() ==> jsons_of(values)[i] == json_of(values[i]),
{
}

/// Saved images are told image by image.
pub proof fn law_saved_images_one_by_one(saved: Seq<(String, PathBuf)>, i: int)
    ensures
        saved_views(saved).len() == saved.len(),
        0 <= i < saved.len() ==> saved_views(saved)[i].0 == saved[i].0@ && saved_views(saved)[i].1
            == saved[i].1,
{
}

/// An answer, an event, an error and the requests are told with all that they
/// hold.
pub proof fn law_records_are_told_in_full(
    result: ToolResult,
    event: SessionEvent,
    history: HistoryRequest,
    send: SendRequest,
    wait: AwaitRequest,
    path: String,
)
    ensures
        result@.success == result.success && result@.output == result.output@,
        result.error matches Some(text) ==> result@.error == Some(text@),
        result.error is None ==> result@.error is None,
        event@.session_id == event.session_id@ && event@.channel == event.channel@ && event@.kind
            == event.kind,
        history@.session_id == history.session_id@ && history@.limit == history.limit,
        send@.session_id == send.session_id@ && send@.message.role == send.message.role@
            && send@.message.content == send.message.content@,
        wait@.session_ids == texts(wait.session_ids@) && wait@.timeout_secs == wait.timeout_secs
            && wait@.idle_timeout_secs == wait.idle_timeout_secs && wait@.wait_all
            == wait.wait_all,
        SandboxError::RelativePath(path)@ == SandboxErrorView::RelativePath(path@),
        SandboxError::ParentSegment(path)@ == SandboxErrorView::ParentSegment(path@),
        SandboxError::NotInstalled@ == SandboxErrorView::NotInstalled,
{
}

/// A failure is told with its reason, and what is made of a call is told as it is.
pub proof fn law_outcomes_are_told_as_they_are(
    reason: String,
    request: HistoryRequest,
    refusal: Refusal,
)
    ensures
        failure_reason(Err(reason)) == Some(reason@),
        failure_reason(Ok(())) is None,
        decision_of::<HistoryRequest>(Ok(request)) == Decision::Proceed(request@),
        refusal matches Refusal::Answered(result) ==> decision_of::<HistoryRequest>(Err(refusal))
            == Decision::<HistoryRequestView>::Answer(result@),
        refusal matches Refusal::Missing(parameter) ==> decision_of::<HistoryRequest>(Err(refusal))
            == Decision::<HistoryRequestView>::Missing(parameter),
{
}

} // verus!
