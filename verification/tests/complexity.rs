use zeroclaw::complexity::{compute_score, score_complexity, MessageComplexity};
use zeroclaw::message::ChatMessage;

fn user(content: &str) -> ChatMessage {
    ChatMessage::user(content)
}

fn assistant(content: &str) -> ChatMessage {
    ChatMessage::assistant(content)
}

fn tool(content: &str) -> ChatMessage {
    ChatMessage::tool(content)
}

#[test]
fn empty_messages_is_simple() {
    assert_eq!(score_complexity(&[]), MessageComplexity::Simple);
}

#[test]
fn short_single_turn_is_simple() {
    let msgs = [user("hello")];
    assert_eq!(score_complexity(&msgs), MessageComplexity::Simple);
}

#[test]
fn long_message_increases_complexity() {
    let long_msg = "x".repeat(2500);
    let msgs = [user(&long_msg)];
    // Length alone scores 3, still Simple boundary
    assert_eq!(score_complexity(&msgs), MessageComplexity::Simple);
    assert_eq!(compute_score(&msgs), 3);
}

#[test]
fn many_turns_increases_complexity() {
    let mut msgs = Vec::new();
    for i in 0..12 {
        msgs.push(user(&format!("question {i}")));
        msgs.push(assistant(&format!("answer {i}")));
    }
    // 12 user turns = 3 points, nothing else scores
    assert_eq!(score_complexity(&msgs), MessageComplexity::Simple);
    assert_eq!(compute_score(&msgs), 3);
}

#[test]
fn moderate_with_some_tools_and_turns() {
    let mut msgs = Vec::new();
    for i in 0..6 {
        msgs.push(user(&format!("question about topic {i} with some detail")));
        msgs.push(assistant(&format!("here is the answer for {i}")));
    }
    // Add a couple of tool messages
    msgs.push(tool("tool result 1"));
    msgs.push(tool("tool result 2"));
    msgs.push(user("now summarize everything we discussed above"));
    // user turns = 7 is 2 points; tool indicators = 2 is 1 point
    assert_eq!(compute_score(&msgs), 3);
    // Make the last message longer
    msgs.pop();
    msgs.push(user(&"a]".repeat(200))); // 400 chars is 1 point
    assert_eq!(score_complexity(&msgs), MessageComplexity::Moderate);
    assert_eq!(compute_score(&msgs), 4);
}

#[test]
fn complex_with_code_tools_and_long_message() {
    let code_msg = format!(
        "Here is my code:\n```rust\nfn main() {{}}\n```\n\
         And another:\n```python\nprint('hi')\n```\n\
         And more:\n```js\nconsole.log('x')\n```\n\
         And even more:\n```go\nfmt.Println(\"y\")\n```"
    );
    let mut msgs = Vec::new();
    for i in 0..8 {
        msgs.push(user(&format!("step {i}: {}", "detailed ".repeat(20))));
        msgs.push(assistant(&code_msg));
    }
    // Add many tool calls
    for _ in 0..6 {
        msgs.push(tool("tool output data"));
    }
    msgs.push(user(&"analyze all of the above in detail ".repeat(60)));
    // user turns = 9 is 2; last msg ~2100 chars is 3; tool indicators = 6 is 3; code blocks = 32 is 3
    assert_eq!(score_complexity(&msgs), MessageComplexity::Complex);
    assert_eq!(compute_score(&msgs), 11);
}

#[test]
fn route_hint_mapping() {
    assert_eq!(MessageComplexity::Simple.route_hint(), "hint:cheap");
    assert_eq!(MessageComplexity::Moderate.route_hint(), "hint:default");
    assert_eq!(MessageComplexity::Complex.route_hint(), "hint:reasoning");
}

#[test]
fn tool_calls_json_pattern_detected() {
    let msgs = [
        user("do something"),
        assistant(r#"{"tool_calls": [{"name": "search"}]}"#),
        assistant(r#"{"tool_calls": [{"name": "read"}]}"#),
        assistant(r#"{"tool_calls": [{"name": "edit"}]}"#),
    ];
    // tool_calls patterns = 3 is 2 points
    assert_eq!(score_complexity(&msgs), MessageComplexity::Simple);
    assert_eq!(compute_score(&msgs), 2);
}

#[test]
fn code_blocks_counted_correctly() {
    let msg_with_blocks = "```rust\nfn foo() {}\n```\n```python\npass\n```";
    let msgs = [user("help with code"), assistant(msg_with_blocks)];
    // 2 code blocks is 2 points
    assert_eq!(score_complexity(&msgs), MessageComplexity::Simple);
    assert_eq!(compute_score(&msgs), 2);
}

#[test]
fn length_points_change_at_the_table_bounds() {
    let score = |n: usize| compute_score(&[user(&"x".repeat(n))]);
    assert_eq!(score(99), 0);
    assert_eq!(score(100), 1);
    assert_eq!(score(499), 1);
    assert_eq!(score(500), 2);
    assert_eq!(score(1999), 2);
    assert_eq!(score(2000), 2);
    assert_eq!(score(2001), 3);
}

#[test]
fn length_is_counted_in_bytes() {
    // 50 characters of two bytes each
    assert_eq!(compute_score(&[user(&"\u{e9}".repeat(50))]), 1);
    assert_eq!(compute_score(&[user(&"e".repeat(50))]), 0);
}

#[test]
fn only_the_last_user_message_is_measured() {
    let msgs = [user(&"x".repeat(3000)), user("short"), assistant(&"y".repeat(3000))];
    // two turns is 1 point
    assert_eq!(compute_score(&msgs), 1);
}

#[test]
fn turn_points_change_at_the_table_bounds() {
    let score = |n: usize| {
        let msgs: Vec<ChatMessage> = (0..n).map(|_| user("hi")).collect();
        compute_score(&msgs)
    };
    assert_eq!(score(0), 0);
    assert_eq!(score(1), 0);
    assert_eq!(score(2), 1);
    assert_eq!(score(4), 1);
    assert_eq!(score(5), 2);
    assert_eq!(score(10), 2);
    assert_eq!(score(11), 3);
}

#[test]
fn tool_points_change_at_the_table_bounds() {
    let score = |n: usize| {
        let msgs: Vec<ChatMessage> = (0..n).map(|_| tool("r")).collect();
        compute_score(&msgs)
    };
    assert_eq!(score(1), 1);
    assert_eq!(score(2), 1);
    assert_eq!(score(3), 2);
    assert_eq!(score(5), 2);
    assert_eq!(score(6), 3);
}

#[test]
fn unpaired_and_overlong_fences() {
    // Three fences hold one whole block; four backticks hold one fence.
    assert_eq!(compute_score(&[assistant("``` ``` ```")]), 1);
    assert_eq!(compute_score(&[assistant("```` ````")]), 1);
    assert_eq!(compute_score(&[assistant("```")]), 0);
    // A fence of one message does not close one of another.
    assert_eq!(compute_score(&[assistant("```"), assistant("```")]), 0);
    // Six backticks in a row are two fences.
    assert_eq!(compute_score(&[assistant("``````")]), 1);
    // More than three blocks in all
    let msgs = [assistant("``` ``` ``` ```"), assistant("``` ``` ``` ``` ``` ```")];
    assert_eq!(compute_score(&msgs), 3);
}

#[test]
fn replies_do_not_lower_the_score() {
    let mut msgs = vec![user(&"x".repeat(600)), assistant("``` ```")];
    let before = compute_score(&msgs);
    assert_eq!(before, 3);
    msgs.push(assistant("nothing of note"));
    assert_eq!(compute_score(&msgs), 3);
    msgs.push(tool("result"));
    assert_eq!(compute_score(&msgs), 4);
}
