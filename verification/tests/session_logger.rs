use zeroclaw::session_logger::{SessionEventKind, SessionLoggerHook};

#[test]
fn logs_session_lifecycle() {
    let mut hook = SessionLoggerHook::new();

    let event = hook.on_session_start("sess-1", "telegram");
    assert_eq!(event.session_id, "sess-1");
    assert_eq!(event.channel, "telegram");
    assert_eq!(event.kind, SessionEventKind::Started);

    // Simulate some messages
    hook.on_message_sent("telegram", "user", "hello");
    hook.on_message_sent("telegram", "user", "world");

    let state = hook.session("sess-1").unwrap();
    assert_eq!(state.message_count, 2);

    let event = hook.on_session_end("sess-1", "telegram");
    assert!(matches!(event.kind, SessionEventKind::Ended { message_count: 2, .. }));

    // Session should be removed after end
    assert!(hook.session("sess-1").is_none());
}

#[test]
fn session_end_without_start_does_not_panic() {
    let mut hook = SessionLoggerHook::new();
    let event = hook.on_session_end("unknown-sess", "cli");
    assert_eq!(event.session_id, "unknown-sess");
    assert_eq!(event.channel, "cli");
    assert_eq!(event.kind, SessionEventKind::EndedWithoutStart);
}

#[test]
fn end_tells_whole_seconds_and_messages() {
    let mut hook = SessionLoggerHook::new();
    hook.on_session_start_at("a", "cli", 1_000_000_000);
    hook.on_message_sent("cli", "user", "x");
    hook.on_session_start_at("b", "cli", 2_000_000_000);
    hook.on_message_sent("cli", "user", "y");
    let event = hook.on_session_end_at("a", "cli", 4_999_999_999);
    assert_eq!(event.kind, SessionEventKind::Ended { duration_secs: 3, message_count: 2 });
    let event = hook.on_session_end_at("b", "cli", 2_000_000_000);
    assert_eq!(event.kind, SessionEventKind::Ended { duration_secs: 0, message_count: 1 });
    let event = hook.on_session_end_at("b", "cli", 3_000_000_000);
    assert_eq!(event.kind, SessionEventKind::EndedWithoutStart);
}

#[test]
fn second_start_begins_anew() {
    let mut hook = SessionLoggerHook::new();
    hook.on_session_start_at("a", "cli", 5);
    hook.on_session_start_at("b", "cli", 6);
    hook.on_message_sent("cli", "user", "x");
    hook.on_session_start_at("a", "cli", 7);
    assert_eq!(hook.session("a").unwrap().message_count, 0);
    assert_eq!(hook.session("a").unwrap().started_at, 7);
    assert_eq!(hook.session("b").unwrap().message_count, 1);
    assert_eq!(hook.session("b").unwrap().started_at, 6);
    assert!(hook.can_count_message());
}

#[test]
fn hook_is_named_and_comes_late() {
    let hook = SessionLoggerHook::new();
    assert_eq!(hook.name(), "session-logger");
    assert_eq!(hook.priority(), -50);
}
