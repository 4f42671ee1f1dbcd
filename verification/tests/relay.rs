use ramseynet::relay::{
    first_message_step, registration_error, ui_event_action, ui_frame_action, worker_frame_action,
    BroadcastRecv, FirstMessage, FrameAction, RegistrationStep, SocketFrame,
};

#[test]
fn worker_frames() {
    match worker_frame_action(SocketFrame::Text("{\"type\":\"progress\"}".to_string())) {
        FrameAction::Relay(t) => assert_eq!(t, "{\"type\":\"progress\"}"),
        _ => panic!("text is relayed"),
    }
    match worker_frame_action(SocketFrame::Ping(vec![1, 2, 3])) {
        FrameAction::Pong(d) => assert_eq!(d, vec![1, 2, 3]),
        _ => panic!("ping is answered"),
    }
    assert!(matches!(worker_frame_action(SocketFrame::Binary(vec![9])), FrameAction::Ignore));
    assert!(matches!(worker_frame_action(SocketFrame::Pong(vec![])), FrameAction::Ignore));
    assert!(matches!(worker_frame_action(SocketFrame::Close), FrameAction::Stop));
    assert!(matches!(worker_frame_action(SocketFrame::Ended), FrameAction::Stop));
    assert!(matches!(worker_frame_action(SocketFrame::Failed), FrameAction::Stop));
}

#[test]
fn ui_frames_and_events() {
    assert!(matches!(ui_frame_action(SocketFrame::Text("cmd".to_string())), FrameAction::Ignore));
    match ui_frame_action(SocketFrame::Ping(vec![4])) {
        FrameAction::Pong(d) => assert_eq!(d, vec![4]),
        _ => panic!("ping is answered"),
    }
    assert!(matches!(ui_frame_action(SocketFrame::Close), FrameAction::Stop));
    assert!(matches!(ui_frame_action(SocketFrame::Failed), FrameAction::Stop));
    match ui_event_action(BroadcastRecv::Event("{}".to_string())) {
        FrameAction::Relay(t) => assert_eq!(t, "{}"),
        _ => panic!("events are relayed"),
    }
    assert!(matches!(ui_event_action(BroadcastRecv::Lagged(12)), FrameAction::Ignore));
    assert!(matches!(ui_event_action(BroadcastRecv::Closed), FrameAction::Stop));
}

#[test]
fn registration() {
    assert!(matches!(first_message_step(FirstMessage::Missing), RegistrationStep::Close));
    assert!(matches!(first_message_step(FirstMessage::Register), RegistrationStep::Register));
    match first_message_step(FirstMessage::Other) {
        RegistrationStep::Refuse(e) => assert_eq!(e, "first message must be Register"),
        _ => panic!("a worker must register first"),
    }
    assert_eq!(registration_error(true), None);
    assert_eq!(
        registration_error(false).as_deref(),
        Some("registration rejected (key not allowed or at capacity)")
    );
}
