//! What the session tools take from a call, and what their answers say.

use super::text::{begins_after, law_first_place, law_no_place};
use crate::json::Json;
use crate::message::MessageView;
use crate::sessions::history::{history_answer, history_decision, history_limit, last_messages};
use crate::sessions::list::{channel_of, list_answer, list_limit, session_line, session_lines,
    MetadataView};
use crate::sessions::send::{send_answer, send_decision};
use crate::sessions::waiting::{all_valid, await_decision, strings_among};
use crate::sessions::{alphanumeric, completed_by_marker, invalid_session_id_text, transcript,
    transcript_line, uppercase, valid_session_id};
use crate::text::{decimal, has_part, lemma_has_in_longer, lemma_part_stands_in, occurs_at,
    trimmed};
use crate::tool::{failure_of, success_of, Decision};
use vstd::prelude::*;

verus! {

/// An answer of success says what it is given and no error, and an answer of
/// failure gives the reason and says nothing else.
pub proof fn law_answers_say_what_they_are_given(text: Seq<char>)
    ensures
        success_of(text).success && success_of(text).output == text && success_of(text).error
            is None,
        !failure_of(text).success && failure_of(text).output.len() == 0 && failure_of(text).error
            == Some(text),
{
}

/// A member of an object is found under its key, as what it is; nothing is found
/// under another key, as something else, or in what is no object.
pub proof fn law_members_of_objects(
    members: Map<Seq<char>, Json>,
    key: Seq<char>,
    n: u64,
    text: Seq<char>,
    elements: Seq<Json>,
    other: Json,
)
    ensures
        Json::Object(members).unsigned_member(key) == Some(n) <==> members.contains_key(key)
            && members[key] == Json::Unsigned(n),
        Json::Object(members).text_member(key) == Some(text) <==> members.contains_key(key)
            && members[key] == Json::Text(text),
        Json::Object(members).array_member(key) == Some(elements) <==> members.contains_key(key)
            && members[key] == Json::Array(elements),
        other !is Object ==> other.unsigned_member(key) is None && other.text_member(key) is None
            && other.array_member(key) is None,
{
}

/// The limit of a call is the number that it gives, or 50 sessions and 20
/// messages where it gives none.
pub proof fn law_limits_are_those_of_the_call(args: Json)
    ensures
        match args.unsigned_member("limit"@) {
            Some(n) => n <= usize::MAX ==> list_limit(args) == n && history_limit(args) == n,
            None => list_limit(args) == 50 && history_limit(args) == 20,
        },
{
}

/// An ID made of two texts is valid exactly where one of the texts is, and a
/// single character is valid exactly where it is alphanumeric.
pub proof fn law_valid_ids_by_their_characters(a: Seq<char>, b: Seq<char>, c: char)
    ensures
        valid_session_id(a + b) <==> valid_session_id(a) || valid_session_id(b),
        valid_session_id(seq![c]) <==> alphanumeric(c),
        !valid_session_id(Seq::empty()),
{
    let s = a + b;
    if valid_session_id(s) {
        let i = choose|i: int| 0 <= i < s.len() && alphanumeric(#[trigger] s[i]);
        if i < a.len() {
            assert(a[i] == s[i]);
        } else {
            assert(b[i - a.len()] == s[i]);
        }
    }
    if valid_session_id(a) {
        let i = choose|i: int| 0 <= i < a.len() && alphanumeric(#[trigger] a[i]);
        assert(s[i] == a[i]);
    }
    if valid_session_id(b) {
        let i = choose|i: int| 0 <= i < b.len() && alphanumeric(#[trigger] b[i]);
        assert(s[i + a.len()] == b[i]);
    }
    assert(seq![c][0] == c);
}

/// One of the completion markers stands in a text at position `i`, character by
/// character.
pub open spec fn marker_at(s: Seq<char>, i: int) -> bool {
    ||| {
        &&& 0 <= i && i + 6 <= s.len()
        &&& s[i] == '[' && s[i + 1] == 'D' && s[i + 2] == 'O' && s[i + 3] == 'N' && s[i + 4] == 'E'
        &&& s[i + 5] == ']'
    }
    ||| {
        &&& 0 <= i && i + 10 <= s.len()
        &&& s[i] == '[' && s[i + 1] == 'C' && s[i + 2] == 'O' && s[i + 3] == 'M' && s[i + 4] == 'P'
        &&& s[i + 5] == 'L' && s[i + 6] == 'E' && s[i + 7] == 'T' && s[i + 8] == 'E'
        &&& s[i + 9] == ']'
    }
}

proof fn lemma_marker_at(s: Seq<char>, i: int)
    ensures
        marker_at(s, i) <==> occurs_at(s, "[DONE]"@, i) || occurs_at(s, "[COMPLETE]"@, i),
{
    reveal_strlit("[DONE]");
    reveal_strlit("[COMPLETE]");
    super::text::law_part_stands_by_characters(s, "[DONE]"@, i);
    super::text::law_part_stands_by_characters(s, "[COMPLETE]"@, i);
    let done = "[DONE]"@;
    let complete = "[COMPLETE]"@;
    if occurs_at(s, done, i) {
        assert(s[i] == done[0] && s[i + 1] == done[1] && s[i + 2] == done[2] && s[i + 3] == done[3]
            && s[i + 4] == done[4] && s[i + 5] == done[5]);
    }
    if occurs_at(s, complete, i) {
        assert(s[i] == complete[0] && s[i + 1] == complete[1] && s[i + 2] == complete[2] && s[i + 3]
            == complete[3] && s[i + 4] == complete[4] && s[i + 5] == complete[5] && s[i + 6]
            == complete[6] && s[i + 7] == complete[7] && s[i + 8] == complete[8] && s[i + 9]
            == complete[9]);
    }
}

/// A session is complete by a marker exactly where it has a message, and in the
/// upper-case form of the last one some position begins with the six characters
/// of `[DONE]` or the ten of `[COMPLETE]`. Without an opening square bracket
/// there it never is.
pub proof fn law_completion_by_the_characters_of_a_marker(messages: Seq<MessageView>)
    ensures
        completed_by_marker(messages) <==> messages.len() > 0 && exists|i: int| #[trigger]
            marker_at(uppercase(messages[messages.len() - 1].content), i),
        messages.len() > 0 && (forall|i: int|
            0 <= i < uppercase(messages.last().content).len() ==> #[trigger] uppercase(
                messages.last().content,
            )[i] != '[') ==> !completed_by_marker(messages),
{
    if messages.len() > 0 {
        let s = uppercase(messages.last().content);
        if completed_by_marker(messages) {
            if has_part(s, "[DONE]"@) {
                let i = choose|i: int| occurs_at(s, "[DONE]"@, i);
                lemma_marker_at(s, i);
                assert(marker_at(s, i));
            } else {
                let i = choose|i: int| occurs_at(s, "[COMPLETE]"@, i);
                lemma_marker_at(s, i);
                assert(marker_at(s, i));
            }
        }
        if exists|i: int| #[trigger] marker_at(s, i) {
            let i = choose|i: int| #[trigger] marker_at(s, i);
            lemma_marker_at(s, i);
            assert(s[i] == '[');
        }
    }
}

/// What is said before the last message does not bear on completion.
pub proof fn law_only_the_last_message_completes(
    earlier: Seq<MessageView>,
    other: Seq<MessageView>,
    last: MessageView,
)
    ensures
        completed_by_marker(earlier.push(last)) == completed_by_marker(other.push(last)),
        !completed_by_marker(Seq::empty()),
{
}

/// A line of a transcript is the role in square brackets, a space, the whole
/// content, and the end of the line.
pub proof fn law_transcript_line_by_its_parts(message: MessageView)
    ensures
        ({
            let line = transcript_line(message);
            let r = message.role.len() as int;
            let c = message.content.len() as int;
            &&& line.len() == r + c + 4
            &&& line[0] == '[' && line[r + 1] == ']' && line[r + 2] == ' '
            &&& line.subrange(1, 1 + r) == message.role
            &&& line.subrange(r + 3, r + 3 + c) == message.content
            &&& line.last() == '\n'
        }),
{
    reveal_strlit("[");
    reveal_strlit("] ");
    reveal_strlit("\n");
    let line = transcript_line(message);
    let r = message.role.len() as int;
    let c = message.content.len() as int;
    assert(line.subrange(1, 1 + r) =~= message.role);
    assert(line.subrange(r + 3, r + 3 + c) =~= message.content);
}

/// The transcript of two conversations in a row is the one and then the other,
/// and that of a single message is its line.
pub proof fn law_transcripts_follow_each_other(
    a: Seq<MessageView>,
    b: Seq<MessageView>,
    message: MessageView,
)
    ensures
        transcript(a + b) == transcript(a) + transcript(b),
        transcript(seq![message]) == transcript_line(message),
        transcript(Seq::empty()) == Seq::<char>::empty(),
    decreases b.len(),
{
    if b.len() == 0 {
        assert(a + b =~= a);
        assert(transcript(a) + Seq::<char>::empty() =~= transcript(a));
    } else {
        law_transcripts_follow_each_other(a, b.drop_last(), message);
        assert((a + b).last() == b.last());
        assert((a + b).drop_last() =~= a + b.drop_last());
        let x = transcript(a);
        let y = transcript(b.drop_last());
        let z = transcript_line(b.last());
        assert(x + y + z =~= x + (y + z));
    }
    assert(seq![message].drop_last() =~= Seq::<MessageView>::empty());
    assert(transcript(seq![message].drop_last()) + transcript_line(message) =~= transcript_line(
        message,
    ));
}

/// How many characters some messages take up in a transcript.
pub open spec fn transcript_size(messages: Seq<MessageView>) -> nat
    decreases messages.len(),
{
    if messages.len() == 0 {
        0
    } else {
        transcript_size(messages.drop_last()) + messages.last().role.len()
            + messages.last().content.len() + 4
    }
}

/// A transcript takes up, for each message, its role, its content and four more
/// characters.
pub proof fn law_transcripts_take_up(messages: Seq<MessageView>)
    ensures
        transcript(messages).len() == transcript_size(messages),
    decreases messages.len(),
{
    if messages.len() > 0 {
        law_transcripts_take_up(messages.drop_last());
        law_transcript_line_by_its_parts(messages.last());
    }
}

/// The line that shows a message: its role in square brackets and its content.
pub open spec fn shown_message(message: MessageView) -> Seq<char> {
    seq!['['] + message.role + seq![']', ' '] + message.content + seq!['\n']
}

/// A transcript holds every message in full.
pub proof fn law_transcripts_hold_every_message(messages: Seq<MessageView>, i: int)
    requires
        0 <= i < messages.len(),
    ensures
        has_part(transcript(messages), shown_message(messages[i])),
{
    reveal_strlit("[");
    reveal_strlit("] ");
    reveal_strlit("\n");
    let a = messages.take(i);
    let m = messages[i];
    let b = messages.skip(i + 1);
    assert(messages =~= a + (seq![m] + b));
    law_transcripts_follow_each_other(a, seq![m] + b, m);
    law_transcripts_follow_each_other(seq![m], b, m);
    assert(transcript_line(m) =~= shown_message(m));
    lemma_part_stands_in(transcript(a), shown_message(m), transcript(b));
    assert(transcript(a) + shown_message(m) + transcript(b) =~= transcript(a) + (shown_message(m)
        + transcript(b)));
}

/// The first line of the answer that shows a history.
pub open spec fn history_head(id: Seq<char>, shown: nat, all: nat) -> Seq<char> {
    "Session '"@ + id + "': showing "@ + decimal(shown) + "/"@ + decimal(all) + " messages\n"@
}

/// An answer that shows a history is a first line with the ID and the two
/// numbers of messages, and then the transcript of the last messages, as many
/// characters as these take up; each of them stands in it in full.
pub proof fn law_history_shows_messages_in_full(
    id: Seq<char>,
    limit: nat,
    messages: Seq<MessageView>,
    i: int,
)
    requires
        messages.len() > 0,
    ensures
        ({
            let answer = history_answer(id, limit, messages);
            let n = messages.len();
            let t = if limit < n {
                limit
            } else {
                n
            };
            let head = history_head(id, t, n);
            &&& answer.success && answer.error is None
            &&& answer.output.len() == head.len() + transcript_size(messages.skip(n - t))
            &&& answer.output.take(head.len() as int) == head
            &&& answer.output.skip(head.len() as int) == transcript(messages.skip(n - t))
            &&& n - t <= i < n ==> has_part(answer.output, shown_message(messages[i]))
        }),
{
    let answer = history_answer(id, limit, messages);
    let n = messages.len();
    let t = if limit < n {
        limit
    } else {
        n
    };
    let shown = last_messages(messages, limit);
    assert(shown =~= messages.skip(n - t));
    let head = history_head(id, t, n);
    assert(answer.output == head + transcript(shown));
    assert(answer.output.take(head.len() as int) =~= head);
    law_transcripts_take_up(shown);
    assert(answer.output.skip(head.len() as int) =~= transcript(shown));
    if n - t <= i < n {
        let k = i - (n - t);
        assert(shown[k] == messages[i]);
        law_transcripts_hold_every_message(shown, k);
        lemma_has_in_longer(head, transcript(shown), Seq::empty(), shown_message(messages[i]));
        assert(head + transcript(shown) + Seq::<char>::empty() =~= answer.output);
    }
}

/// The answer on a session without messages names the session and succeeds; the
/// limit does not bear on it.
pub proof fn law_empty_histories_name_the_session(id: Seq<char>, limit: nat)
    ensures
        ({
            let answer = history_answer(id, limit, Seq::empty());
            &&& answer.success && answer.error is None
            &&& answer.output.len() == 31 + id.len() + 2
            &&& answer.output.take(31) == "No messages found for session '"@
            &&& answer.output.subrange(31, 31int + id.len()) == id
            &&& answer.output.skip(31int + id.len()) == "'."@
        }),
{
    reveal_strlit("No messages found for session '");
    reveal_strlit("'.");
    let output = history_answer(id, limit, Seq::empty()).output;
    assert(output.take(31) =~= "No messages found for session '"@);
    assert(output.subrange(31, 31int + id.len()) =~= id);
    assert(output.skip(31int + id.len()) =~= "'."@);
}

/// The channel of a key is what stands before the first two underscores in it,
/// and the whole key where there are none.
pub proof fn law_channel_stands_before_two_underscores(
    a: Seq<char>,
    b: Seq<char>,
    key: Seq<char>,
)
    requires
        begins_after(a, seq!['_', '_'], b),
        !has_part(key, seq!['_', '_']),
    ensures
        channel_of(a + seq!['_', '_'] + b) == a,
        channel_of(key) == key,
{
    reveal_strlit("__");
    assert("__"@ =~= seq!['_', '_']);
    law_first_place(a, "__"@, b);
    law_no_place(key, "__"@);
}

/// The line of a session holds its key, its channel, its number of messages and
/// its last activity as they are, each after the word that tells it.
pub proof fn law_session_line_by_its_parts(session: MetadataView)
    ensures
        ({
            let line = session_line(session);
            let key = session.key;
            let channel = channel_of(key);
            let count = decimal(session.message_count);
            let a = 2 + key.len() as int;
            let b = a + 10 + channel.len();
            let c = b + 11 + count.len();
            let d = c + 16 + session.last_activity.len();
            &&& line.len() == d + 1
            &&& line.take(2) == "- "@
            &&& line.subrange(2, a) == key
            &&& line.subrange(a, a + 10) == ": channel="@
            &&& line.subrange(a + 10, b) == channel
            &&& line.subrange(b, b + 11) == ", messages="@
            &&& line.subrange(b + 11, c) == count
            &&& line.subrange(c, c + 16) == ", last_activity="@
            &&& line.subrange(c + 16, d) == session.last_activity
            &&& line.last() == '\n'
        }),
{
    reveal_strlit("- ");
    reveal_strlit(": channel=");
    reveal_strlit(", messages=");
    reveal_strlit(", last_activity=");
    reveal_strlit("\n");
    let line = session_line(session);
    let key = session.key;
    let channel = channel_of(key);
    let count = decimal(session.message_count);
    let a = 2 + key.len() as int;
    let b = a + 10 + channel.len();
    let c = b + 11 + count.len();
    let d = c + 16 + session.last_activity.len();
    assert(line.take(2) =~= "- "@);
    assert(line.subrange(2, a) =~= key);
    assert(line.subrange(a, a + 10) =~= ": channel="@);
    assert(line.subrange(a + 10, b) =~= channel);
    assert(line.subrange(b, b + 11) =~= ", messages="@);
    assert(line.subrange(b + 11, c) =~= count);
    assert(line.subrange(c, c + 16) =~= ", last_activity="@);
    assert(line.subrange(c + 16, d) =~= session.last_activity);
}

/// The lines of two lists of sessions are the ones and then the others, and those
/// of a single session are its line.
pub proof fn law_session_lines_follow_each_other(
    a: Seq<MetadataView>,
    b: Seq<MetadataView>,
    session: MetadataView,
)
    ensures
        session_lines(a + b) == session_lines(a) + session_lines(b),
        session_lines(seq![session]) == session_line(session),
        session_lines(Seq::empty()) == Seq::<char>::empty(),
    decreases b.len(),
{
    if b.len() == 0 {
        assert(a + b =~= a);
        assert(session_lines(a) + Seq::<char>::empty() =~= session_lines(a));
    } else {
        law_session_lines_follow_each_other(a, b.drop_last(), session);
        assert((a + b).last() == b.last());
        assert((a + b).drop_last() =~= a + b.drop_last());
        let x = session_lines(a);
        let y = session_lines(b.drop_last());
        let z = session_line(b.last());
        assert(x + y + z =~= x + (y + z));
    }
    assert(seq![session].drop_last() =~= Seq::<MetadataView>::empty());
    assert(session_lines(seq![session].drop_last()) + session_line(session) =~= session_line(
        session,
    ));
}

/// A list of sessions is a first line with their number, and then the lines of
/// the first sessions, as many as the limit allows.
pub proof fn law_list_shows_lines_of_the_first_sessions(sessions: Seq<MetadataView>, limit: nat)
    requires
        sessions.len() > 0,
    ensures
        ({
            let t = if limit < sessions.len() {
                limit
            } else {
                sessions.len()
            };
            let output = list_answer(sessions, limit).output;
            let h = 6 + decimal(t).len() as int;
            &&& list_answer(sessions, limit).success && list_answer(sessions, limit).error is None
            &&& output.take(6) == "Found "@
            &&& output.subrange(6, h) == decimal(t)
            &&& output.subrange(h, h + 13) == " session(s):\n"@
            &&& output.skip(h + 13) == session_lines(sessions.take(t as int))
        }),
        list_answer(Seq::empty(), limit) == success_of("No active sessions found."@),
{
    reveal_strlit("Found ");
    reveal_strlit(" session(s):\n");
    let t = if limit < sessions.len() {
        limit
    } else {
        sessions.len()
    };
    let output = list_answer(sessions, limit).output;
    let h = 6 + decimal(t).len() as int;
    assert(sessions.take(sessions.len() as int) =~= sessions);
    assert(output.take(6) =~= "Found "@);
    assert(output.subrange(6, h) =~= decimal(t));
    assert(output.subrange(h, h + 13) =~= " session(s):\n"@);
    assert(output.skip(h + 13) =~= session_lines(sessions.take(t as int)));
}

/// The answer on a message that was sent names the session, and the answer on one
/// that could not be sent ends with the reason, whatever the reason is.
pub proof fn law_send_answers_name_session_and_reason(id: Seq<char>, reason: Seq<char>)
    ensures
        ({
            let sent = send_answer(id, None);
            &&& sent.success && sent.error is None
            &&& sent.output.len() == 25 + id.len() + 2
            &&& sent.output.take(25) == "Message sent to session '"@
            &&& sent.output.subrange(25, 25int + id.len()) == id
            &&& sent.output.skip(25int + id.len()) == "'."@
        }),
        ({
            let failed = send_answer(id, Some(reason));
            &&& !failed.success && failed.output.len() == 0
            &&& failed.error matches Some(text) && text.take(24) == "Failed to send message: "@
                && text.skip(24) == reason
        }),
{
    reveal_strlit("Message sent to session '");
    reveal_strlit("'.");
    reveal_strlit("Failed to send message: ");
    let output = send_answer(id, None).output;
    assert(output.take(25) =~= "Message sent to session '"@);
    assert(output.subrange(25, 25int + id.len()) =~= id);
    assert(output.skip(25int + id.len()) =~= "'."@);
    let text = send_answer(id, Some(reason)).error->0;
    assert(text.take(24) =~= "Failed to send message: "@);
    assert(text.skip(24) =~= reason);
}

/// The reasons for which permitted calls are turned down.
pub proof fn law_reasons_for_turning_calls_down(args: Json, id: Seq<char>, content: Seq<char>)
    ensures
        args.text_member("session_id"@) == Some(id) && !valid_session_id(id) ==> {
            &&& history_decision(None, args) matches Decision::Answer(answer) && answer
                == failure_of(invalid_session_id_text())
            &&& send_decision(None, args) matches Decision::Answer(answer) && answer == failure_of(
                invalid_session_id_text(),
            )
        },
        args.text_member("session_id"@) == Some(id) && valid_session_id(id) && args.text_member(
            "message"@,
        ) == Some(content) && trimmed(content).len() == 0 ==> (send_decision(
            None,
            args,
        ) matches Decision::Answer(answer) && answer == failure_of(
            "Message content must not be empty."@,
        )),
{
}

/// The IDs that a call to wait gives are the strings of its list, in order: those
/// of two lists in a row are the ones and then the others, a string is one, and
/// nothing else is.
pub proof fn law_ids_are_the_strings_of_the_list(a: Seq<Json>, b: Seq<Json>, element: Json)
    ensures
        strings_among(a + b) == strings_among(a) + strings_among(b),
        strings_among(Seq::empty()) == Seq::<Seq<char>>::empty(),
        element matches Json::Text(text) ==> strings_among(seq![element]) == seq![text],
        element !is Text ==> strings_among(seq![element]).len() == 0,
    decreases b.len(),
{
    if b.len() == 0 {
        assert(a + b =~= a);
        assert(strings_among(a) + Seq::<Seq<char>>::empty() =~= strings_among(a));
    } else {
        law_ids_are_the_strings_of_the_list(a, b.drop_last(), element);
        assert((a + b).last() == b.last());
        assert((a + b).drop_last() =~= a + b.drop_last());
        match b.last() {
            Json::Text(text) => {
                let x = strings_among(a);
                let y = strings_among(b.drop_last());
                assert((x + y).push(text) =~= x + y.push(text));
            },
            _ => {},
        }
    }
    assert(seq![element].drop_last() =~= Seq::<Json>::empty());
    assert(strings_among(Seq::<Json>::empty()) == Seq::<Seq<char>>::empty());
    match element {
        Json::Text(text) => {
            assert(Seq::<Seq<char>>::empty().push(text) =~= seq![text]);
        },
        _ => {},
    }
}

/// A call that goes on to wait waits for the strings of its list, for as long as
/// it says or 300 seconds, with the idle timeout that it says or 30 seconds, and
/// for all sessions unless it asks for any. Every string of its list is valid.
pub proof fn law_waits_are_those_of_the_call(denial: Option<Seq<char>>, args: Json)
    ensures
        await_decision(denial, args) matches Decision::Proceed(request) ==> {
            &&& denial is None
            &&& args.array_member("session_ids"@) matches Some(elements) && request.session_ids
                == strings_among(elements)
            &&& forall|i: int|
                0 <= i < request.session_ids.len() ==> valid_session_id(
                    #[trigger] request.session_ids[i],
                )
            &&& request.timeout_secs == (match args.unsigned_member("timeout_secs"@) {
                Some(n) => n,
                None => 300,
            })
            &&& request.idle_timeout_secs == (match args.unsigned_member("idle_timeout_secs"@) {
                Some(n) => n,
                None => 30,
            })
            &&& match args.text_member("mode"@) {
                Some(mode) => (mode == "all"@ || mode == "any"@) && request.wait_all == (mode
                    == "all"@),
                None => request.wait_all,
            }
        },
{
}

/// A permitted call to wait with a list of valid IDs is turned down for its mode
/// exactly where that is another text than the two known ones, and the reason
/// holds that text.
pub proof fn law_unknown_modes_are_named(args: Json, elements: Seq<Json>, mode: Seq<char>)
    requires
        args.array_member("session_ids"@) == Some(elements),
        strings_among(elements).len() > 0,
        all_valid(strings_among(elements)),
        args.text_member("mode"@) == Some(mode),
    ensures
        await_decision(None, args) is Answer <==> mode != "all"@ && mode != "any"@,
        await_decision(None, args) matches Decision::Answer(answer) ==> {
            let reason = "Invalid mode '"@ + mode + "'. Must be 'all' or 'any'."@;
            !answer.success && answer.error == Some(reason) && has_part(reason, mode)
        },
{
    lemma_part_stands_in("Invalid mode '"@, mode, "'. Must be 'all' or 'any'."@);
}

/// A permitted call to wait with an empty list, or with an ID in its list that is
/// not valid, is turned down for just that.
pub proof fn law_bad_lists_are_turned_down(args: Json, elements: Seq<Json>, i: int)
    requires
        args.array_member("session_ids"@) == Some(elements),
    ensures
        strings_among(elements).len() == 0 ==> (await_decision(
            None,
            args,
        ) matches Decision::Answer(answer) && answer == failure_of(
            "'session_ids' must contain at least one session ID."@,
        )),
        0 <= i < strings_among(elements).len() && !valid_session_id(strings_among(elements)[i])
            ==> (await_decision(None, args) matches Decision::Answer(answer) && answer
            == failure_of(invalid_session_id_text())),
{
}

} // verus!
