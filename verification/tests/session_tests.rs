use kook::codec::{decode, Envelope, EventRecord};
use kook::session::{GatewayState, Session, SessionAction, SessionEvent};

fn established(bot_id: &str, skip_self: bool) -> Session {
    let mut s = Session::new(bot_id.to_string(), skip_self);
    let a = s.step(SessionEvent::DiscoverOk {
        url: "wss://gateway.example".to_string(),
    });
    assert_eq!(a, SessionAction::Idle);
    assert!(matches!(s.state, GatewayState::Connect { .. }));
    s.step(SessionEvent::ConnectOk);
    assert!(matches!(s.state, GatewayState::WaitHandshake { elapsed: 0 }));
    let hello = decode("{\"s\":1,\"d\":{\"code\":0}}").unwrap();
    s.step(SessionEvent::Frame { envelope: hello });
    assert!(matches!(s.state, GatewayState::Established { heartbeat: 0 }));
    s
}

fn event_frame(author: &str, sequence: u64) -> SessionEvent {
    SessionEvent::Frame {
        envelope: Envelope::Event {
            sequence,
            event: EventRecord::new(author),
        },
    }
}

#[test]
fn handshake_acceptance() {
    // code 0 establishes the session
    established("me", true);
    // a nonzero code sends the machine back to discovery
    let mut s = Session::new("me".to_string(), true);
    s.step(SessionEvent::DiscoverOk {
        url: "wss://gateway.example".to_string(),
    });
    s.step(SessionEvent::ConnectOk);
    let refused = decode("{\"s\":1,\"d\":{\"code\":1}}").unwrap();
    s.step(SessionEvent::Frame { envelope: refused });
    assert_eq!(s.state, GatewayState::Discover);
}

#[test]
fn handshake_ignores_other_frames() {
    let mut s = Session::new("me".to_string(), true);
    s.step(SessionEvent::DiscoverOk {
        url: "u".to_string(),
    });
    s.step(SessionEvent::ConnectOk);
    s.step(SessionEvent::Frame {
        envelope: Envelope::Pong,
    });
    assert!(matches!(s.state, GatewayState::WaitHandshake { .. }));
    // a Reconnect during the wait tears the attempt down
    let rec = decode("{\"s\":5,\"d\":{\"code\":1,\"err\":\"x\"}}").unwrap();
    s.step(SessionEvent::Frame { envelope: rec });
    assert_eq!(s.state, GatewayState::Discover);
}

#[test]
fn handshake_timeout() {
    let mut s = Session::new("me".to_string(), true);
    s.step(SessionEvent::DiscoverOk {
        url: "u".to_string(),
    });
    s.step(SessionEvent::ConnectOk);
    // six units may pass without a frame
    s.step(SessionEvent::TimePassed { units: 3 });
    s.step(SessionEvent::TimePassed { units: 3 });
    assert_eq!(s.state, GatewayState::WaitHandshake { elapsed: 6 });
    // more than six units with no Hello aborts the wait, no frame needed
    s.step(SessionEvent::TimePassed { units: 1 });
    assert_eq!(s.state, GatewayState::Discover);
}

#[test]
fn heartbeat_schedule() {
    let mut s = established("me", true);
    // four silent ticks: no action at all
    for _ in 0..4 {
        assert_eq!(s.step(SessionEvent::Tick), SessionAction::Idle);
        assert!(matches!(s.state, GatewayState::Established { .. }));
    }
    // the fifth tick (counter reads 4) sends exactly one ping
    assert_eq!(
        s.step(SessionEvent::Tick),
        SessionAction::SendPing { sequence: 0 }
    );
    assert!(matches!(s.state, GatewayState::Established { heartbeat: 5 }));
    // the sixth tick abandons the connection
    assert_eq!(s.step(SessionEvent::Tick), SessionAction::Idle);
    assert_eq!(s.state, GatewayState::Discover);
}

#[test]
fn ping_carries_max_sequence() {
    let mut s = established("me", true);
    s.step(event_frame("other", 41));
    for _ in 0..4 {
        s.step(SessionEvent::Tick);
    }
    assert_eq!(
        s.step(SessionEvent::Tick),
        SessionAction::SendPing { sequence: 41 }
    );
}

#[test]
fn pong_resets_heartbeat() {
    let mut s = established("me", true);
    for _ in 0..4 {
        s.step(SessionEvent::Tick);
    }
    s.step(SessionEvent::Frame {
        envelope: Envelope::Pong,
    });
    assert_eq!(s.state, GatewayState::Established { heartbeat: 0 });
    // the grace period starts over
    for _ in 0..4 {
        assert_eq!(s.step(SessionEvent::Tick), SessionAction::Idle);
    }
}

#[test]
fn ping_send_failure_reconnects() {
    let mut s = established("me", true);
    s.step(SessionEvent::PingSendFailed);
    assert_eq!(s.state, GatewayState::Discover);
}

#[test]
fn sequence_monotonicity() {
    let mut s = established("me", true);
    let mut seen: Vec<u64> = Vec::new();
    for sn in [5u64, 3, 9, 2] {
        s.step(event_frame("other", sn));
        seen.push(s.max_seen_sequence);
    }
    assert_eq!(seen, vec![5, 5, 9, 9]);
}

#[test]
fn self_filter() {
    // with the skip-self policy on, own events are dropped
    let mut s = established("me", true);
    assert_eq!(s.step(event_frame("me", 1)), SessionAction::Idle);
    // the sequence mark still advanced
    assert_eq!(s.max_seen_sequence, 1);
    // someone else's event is dispatched
    match s.step(event_frame("you", 2)) {
        SessionAction::Dispatch { event } => assert_eq!(event.author_id(), "you"),
        other => panic!("expected a dispatch, got {:?}", other),
    }
    // with the policy off, own events are dispatched too
    let mut t = established("me", false);
    match t.step(event_frame("me", 1)) {
        SessionAction::Dispatch { event } => assert_eq!(event.author_id(), "me"),
        other => panic!("expected a dispatch, got {:?}", other),
    }
}

#[test]
fn dispatch_does_not_block_the_loop() {
    // the machine hands the event out as data and is immediately ready for
    // the next frame; nothing about the first dispatch has to finish first
    let mut s = established("me", true);
    let a1 = s.step(event_frame("a", 1));
    assert!(matches!(a1, SessionAction::Dispatch { .. }));
    let a2 = s.step(event_frame("b", 2));
    assert!(matches!(a2, SessionAction::Dispatch { .. }));
    assert!(matches!(s.state, GatewayState::Established { .. }));
}

#[test]
fn handler_failure_is_isolated() {
    let mut s = established("me", true);
    s.step(event_frame("other", 3));
    let before_state = s.state.clone();
    let before_max = s.max_seen_sequence;
    assert_eq!(s.step(SessionEvent::HandlerFailed), SessionAction::Idle);
    assert_eq!(s.state, before_state);
    assert_eq!(s.max_seen_sequence, before_max);
    // the connection is still live: frames keep flowing
    assert!(matches!(
        s.step(event_frame("other", 4)),
        SessionAction::Dispatch { .. }
    ));
}

#[test]
fn reconnect_frame_tears_down() {
    let mut s = established("me", true);
    let rec = decode("{\"s\":5,\"d\":{\"code\":1,\"err\":\"moved\"}}").unwrap();
    s.step(SessionEvent::Frame { envelope: rec });
    assert_eq!(s.state, GatewayState::Discover);
}

#[test]
fn single_bad_frame_does_not_tear_down() {
    let mut s = established("me", true);
    assert_eq!(s.step(SessionEvent::FrameError), SessionAction::Idle);
    assert!(matches!(s.state, GatewayState::Established { .. }));
}

#[test]
fn discovery_retries() {
    let mut s = Session::new("me".to_string(), true);
    s.step(SessionEvent::DiscoverFailed);
    assert_eq!(s.state, GatewayState::Discover);
    s.step(SessionEvent::DiscoverOk {
        url: "u2".to_string(),
    });
    assert_eq!(
        s.state,
        GatewayState::Connect {
            url: "u2".to_string()
        }
    );
    s.step(SessionEvent::ConnectFailed);
    assert_eq!(s.state, GatewayState::Discover);
}

#[test]
fn resume_frames_are_ignored_in_steady_state() {
    let mut s = established("me", true);
    let ra = decode("{\"s\":6,\"d\":{\"session_id\":\"z\"}}").unwrap();
    assert_eq!(s.step(SessionEvent::Frame { envelope: ra }), SessionAction::Idle);
    assert!(matches!(s.state, GatewayState::Established { .. }));
}
