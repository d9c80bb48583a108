//! What holds of the session tools as a whole.

use super::history::{history_answer, history_decision, history_limit, last_messages,
    HistoryRequestView};
use super::list::{channel_of, list_answer, shown_sessions, MetadataView};
use super::send::{send_answer, send_decision, SendRequestView};
use super::waiting::{all_valid, await_decision, await_mode, strings_among, AwaitRequestView};
use super::{invalid_session_id_text, valid_session_id};
use crate::json::Json;
use crate::message::MessageView;
use crate::text::{has_part, lemma_first_from, occurs_at, trimmed};
use crate::tool::{failure_of, Decision, MissingParameter};
use vstd::prelude::*;

verus! {

/// A call that the security policy denies is answered with the reason, whatever
/// its arguments are, and reaches no session.
pub proof fn law_denied_calls_are_answered_with_the_reason(reason: Seq<char>, args: Json)
    ensures
        history_decision(Some(reason), args) == Decision::<HistoryRequestView>::Answer(
            failure_of(reason),
        ),
        send_decision(Some(reason), args) == Decision::<SendRequestView>::Answer(
            failure_of(reason),
        ),
        await_decision(Some(reason), args) == Decision::<AwaitRequestView>::Answer(
            failure_of(reason),
        ),
{
}

/// A permitted call for a history fails exactly where it has no session ID, is
/// turned down exactly where the ID holds no alphanumeric character, and else
/// reads the session under that very ID.
pub proof fn law_history_calls_are_decided(args: Json)
    ensures
        history_decision(None, args) is Missing <==> args.text_member("session_id"@) is None,
        args.text_member("session_id"@) matches Some(id) ==> {
            let decision = history_decision(None, args);
            &&& !valid_session_id(id) ==> decision == Decision::<HistoryRequestView>::Answer(
                failure_of(invalid_session_id_text()),
            )
            &&& valid_session_id(id) ==> decision == Decision::Proceed(
                HistoryRequestView { session_id: id, limit: history_limit(args) },
            )
        },
{
}

/// A permitted call to send is handed on exactly where it has a session ID with
/// an alphanumeric character and a message that is not blank; it fails exactly
/// where it has no ID, or a valid one and no message, and is else turned down.
pub proof fn law_send_calls_are_decided(args: Json)
    ensures
        ({
            let id = args.text_member("session_id"@);
            let message = args.text_member("message"@);
            let decision = send_decision(None, args);
            &&& decision is Proceed <==> id is Some && valid_session_id(id->0) && message is Some
                && trimmed(message->0).len() > 0
            &&& decision == Decision::<SendRequestView>::Missing(MissingParameter::SessionId)
                <==> id is None
            &&& decision == Decision::<SendRequestView>::Missing(MissingParameter::Message)
                <==> id is Some && valid_session_id(id->0) && message is None
            &&& decision is Answer ==> !decision->Answer_0.success
        }),
{
}

/// A permitted call to wait fails exactly where it has no list of session IDs,
/// and waits exactly where the list names a session, every string in it holds an
/// alphanumeric character, and the mode is a known one; else it is turned down.
pub proof fn law_await_calls_are_decided(args: Json)
    ensures
        ({
            let elements = args.array_member("session_ids"@);
            let decision = await_decision(None, args);
            &&& decision is Missing <==> elements is None
            &&& decision is Proceed <==> elements is Some && strings_among(elements->0).len() > 0
                && all_valid(strings_among(elements->0)) && (await_mode(args) == "all"@
                || await_mode(args) == "any"@)
            &&& decision is Answer ==> !decision->Answer_0.success
        }),
{
}

/// Only sessions with a valid ID, and only the ones that the call names, are
/// ever read, written or waited for, and only where the policy permits the call.
pub proof fn law_only_valid_sessions_are_reached(denial: Option<Seq<char>>, args: Json)
    ensures
        history_decision(denial, args) matches Decision::Proceed(request) ==> denial is None
            && valid_session_id(request.session_id) && args.text_member("session_id"@) == Some(
            request.session_id,
        ),
        send_decision(denial, args) matches Decision::Proceed(request) ==> denial is None
            && valid_session_id(request.session_id) && args.text_member("session_id"@) == Some(
            request.session_id,
        ),
        await_decision(denial, args) matches Decision::Proceed(request) ==> denial is None
            && request.session_ids.len() > 0 && all_valid(request.session_ids)
            && args.array_member("session_ids"@) is Some && request.session_ids == strings_among(
            args.array_member("session_ids"@)->0,
        ),
{
}

/// A message that is sent is appended as the user's, with exactly the content of
/// the call, which is not blank.
pub proof fn law_sent_messages_are_the_users(denial: Option<Seq<char>>, args: Json)
    ensures
        send_decision(denial, args) matches Decision::Proceed(request) ==> {
            &&& request.message.role == "user"@
            &&& args.text_member("message"@) == Some(request.message.content)
            &&& trimmed(request.message.content).len() > 0
        },
{
}

/// A permitted call with a valid session ID and a message that is not blank is
/// always handed on to the backend, and succeeds exactly where the backend does.
pub proof fn law_good_messages_are_sent(
    args: Json,
    session_id: Seq<char>,
    content: Seq<char>,
    failure: Option<Seq<char>>,
)
    requires
        args.text_member("session_id"@) == Some(session_id),
        args.text_member("message"@) == Some(content),
        valid_session_id(session_id),
        trimmed(content).len() > 0,
    ensures
        send_decision(None, args) is Proceed,
        send_answer(session_id, failure).success == (failure is None),
{
}

/// A history shows the last messages of a session in their order: as many as the
/// limit allows, and never a message that is older than one left out.
pub proof fn law_history_shows_the_last_messages(messages: Seq<MessageView>, limit: nat)
    ensures
        last_messages(messages, limit).len() == (if limit < messages.len() {
            limit
        } else {
            messages.len()
        }),
        last_messages(messages, limit) == messages.skip(
            messages.len() - last_messages(messages, limit).len(),
        ),
{
    assert(messages.skip(0) =~= messages);
}

/// Reading a history never fails once the session is loaded.
pub proof fn law_histories_are_always_answered(
    session_id: Seq<char>,
    limit: nat,
    messages: Seq<MessageView>,
)
    ensures
        history_answer(session_id, limit, messages).success,
        history_answer(session_id, limit, messages).error is None,
{
}

/// A list shows the first sessions in their order: as many as the limit allows.
pub proof fn law_list_shows_the_first_sessions(sessions: Seq<MetadataView>, limit: nat)
    ensures
        list_answer(sessions, limit).success,
        shown_sessions(sessions, limit).len() == (if limit < sessions.len() {
            limit
        } else {
            sessions.len()
        }),
        shown_sessions(sessions, limit) == sessions.take(
            shown_sessions(sessions, limit).len() as int,
        ),
{
    assert(sessions.take(sessions.len() as int) =~= sessions);
}

/// The channel of a key made by the convention `channel__identifier` is the
/// channel, as long as the channel holds no `__` and does not end in `_`.
pub proof fn law_channel_is_found_by_the_convention(channel: Seq<char>, identifier: Seq<char>)
    requires
        !has_part(channel, "__"@),
        channel.len() > 0 ==> channel.last() != '_',
    ensures
        channel_of(channel + "__"@ + identifier) == channel,
{
    reveal_strlit("__");
    let key = channel + "__"@ + identifier;
    let n = channel.len() as int;
    assert(key.subrange(n, n + 2) =~= "__"@);
    assert(occurs_at(key, "__"@, n));
    lemma_first_from(key, "__"@, 0);
    assert forall|j: int| 0 <= j < n implies !occurs_at(key, "__"@, j) by {
        if occurs_at(key, "__"@, j) {
            assert(key.subrange(j, j + 2)[0] == '_');
            if j + 2 <= n {
                assert(key.subrange(j, j + 2) =~= channel.subrange(j, j + 2));
                assert(occurs_at(channel, "__"@, j));
            } else {
                assert(key[j] == channel.last());
            }
        }
    }
    assert(key.take(n) =~= channel);
}

/// A key without `__` is its own channel.
pub proof fn law_key_without_separator_is_its_channel(key: Seq<char>)
    requires
        !has_part(key, "__"@),
    ensures
        channel_of(key) == key,
{
    lemma_first_from(key, "__"@, 0);
}

} // verus!
