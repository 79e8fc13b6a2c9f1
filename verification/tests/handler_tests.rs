use chat_relay::bus::BroadcastBus;
use chat_relay::bus::RecvOutcome;
use chat_relay::cache::SessionCache;
use chat_relay::handler::ConnEvent;
use chat_relay::handler::ConnState;
use chat_relay::handler::FrameCheck;
use chat_relay::handler::broadcast_text;
use chat_relay::handler::check_frame;
use chat_relay::handler::conn_step;
use chat_relay::handler::resolve_message;
use chat_relay::message::User;

fn alice() -> User {
    User { id: 7, username: String::from("alice"), password_hash: String::new() }
}

#[test]
fn cached_token_is_accepted_and_broadcast_to_all_subscribers() {
    let mut cache = SessionCache::new();
    cache.insert(String::from("tok-A"));
    assert!(cache.contains("tok-A"));

    let wire = match check_frame(&cache, "{\"session_id\":\"tok-A\",\"content\":\"hi\"}") {
        FrameCheck::Accepted { message } => message,
        _ => panic!("a cached token must be accepted"),
    };
    let msg = resolve_message(Some(alice()), wire).unwrap();
    assert_eq!(msg.user_id, 7);
    assert_eq!(msg.username, "alice");
    assert_eq!(msg.content, "hi");

    let text = broadcast_text(true, &msg).unwrap();
    assert_eq!(text, "{\"username\":\"alice\",\"content\":\"hi\"}");

    let mut bus = BroadcastBus::new(100);
    let a = bus.subscribe();
    let b = bus.subscribe();
    bus.publish(text.clone());
    for id in [a, b] {
        match bus.recv(id) {
            RecvOutcome::Message(m) => assert_eq!(m, "{\"username\":\"alice\",\"content\":\"hi\"}"),
            _ => panic!("every current subscriber receives the broadcast"),
        }
    }
}

#[test]
fn uncached_token_is_rejected_without_any_effect() {
    let cache = SessionCache::new();
    assert!(!cache.contains("tok-B"));
    match check_frame(&cache, "{\"session_id\":\"tok-B\",\"content\":\"x\"}") {
        FrameCheck::UnknownToken => {}
        _ => panic!("an uncached token must be rejected before any store call"),
    }
}

#[test]
fn malformed_frame_is_dropped_and_connection_stays_open() {
    let mut cache = SessionCache::new();
    cache.insert(String::from("tok-A"));
    match check_frame(&cache, "not json") {
        FrameCheck::Malformed => {}
        _ => panic!("malformed input must be classified as malformed"),
    }
    let state = conn_step(ConnState::Open, ConnEvent::FrameHandled);
    assert_eq!(state, ConnState::Open);
    match check_frame(&cache, "{\"session_id\":\"tok-A\",\"content\":\"still here\"}") {
        FrameCheck::Accepted { message } => assert_eq!(message.content, "still here"),
        _ => panic!("the connection keeps handling valid frames"),
    }
}

#[test]
fn forged_identity_fields_cannot_reach_the_broadcast() {
    let mut cache = SessionCache::new();
    cache.insert(String::from("tok-A"));
    let text =
        "{\"session_id\":\"tok-A\",\"content\":\"hi\",\"user_id\":999,\"username\":\"evil\"}";
    let wire = match check_frame(&cache, text) {
        FrameCheck::Accepted { message } => message,
        _ => panic!("the forged fields are ignored, the frame itself is fine"),
    };
    let msg = resolve_message(Some(alice()), wire).unwrap();
    assert_eq!(msg.user_id, 7);
    assert_eq!(msg.username, "alice");
    let out = broadcast_text(true, &msg).unwrap();
    assert_eq!(out, "{\"username\":\"alice\",\"content\":\"hi\"}");
}

#[test]
fn unresolvable_token_drops_the_message() {
    let mut cache = SessionCache::new();
    cache.insert(String::from("tok-stale"));
    let wire = match check_frame(&cache, "{\"session_id\":\"tok-stale\",\"content\":\"x\"}") {
        FrameCheck::Accepted { message } => message,
        _ => panic!("the token is cached"),
    };
    assert!(resolve_message(None, wire).is_none());
}

#[test]
fn unpersisted_message_is_not_broadcast() {
    let msg = resolve_message(
        Some(alice()),
        match check_frame(
            &{
                let mut c = SessionCache::new();
                c.insert(String::from("t"));
                c
            },
            "{\"session_id\":\"t\",\"content\":\"x\"}",
        ) {
            FrameCheck::Accepted { message } => message,
            _ => panic!("accepted"),
        },
    )
    .unwrap();
    assert!(broadcast_text(false, &msg).is_none());
}

#[test]
fn connection_lifecycle_runs_to_closed() {
    let s0 = ConnState::Connecting;
    let s1 = conn_step(s0, ConnEvent::Subscribed);
    assert_eq!(s1, ConnState::Open);
    let s2 = conn_step(s1, ConnEvent::FrameHandled);
    assert_eq!(s2, ConnState::Open);
    let s3 = conn_step(s2, ConnEvent::SubtaskEnded);
    assert_eq!(s3, ConnState::Closing);
    let s4 = conn_step(s3, ConnEvent::CleanupDone);
    assert_eq!(s4, ConnState::Closed);
    assert_eq!(conn_step(s4, ConnEvent::Subscribed), ConnState::Closed);
    assert_eq!(conn_step(s4, ConnEvent::SubtaskEnded), ConnState::Closed);
}

#[test]
fn stray_events_leave_the_state_alone() {
    assert_eq!(conn_step(ConnState::Connecting, ConnEvent::FrameHandled), ConnState::Connecting);
    assert_eq!(conn_step(ConnState::Open, ConnEvent::Subscribed), ConnState::Open);
    assert_eq!(conn_step(ConnState::Closing, ConnEvent::SubtaskEnded), ConnState::Closing);
}
