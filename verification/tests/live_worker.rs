use sl_viewer::live_worker::{
    on_session_attempt_failure, SessionAttemptFailure,
    on_event_queue_poll, reconnect_status, should_fire_auto_teleport, EventQueuePollAction,
    EventQueuePollEvent, EventQueuePollState,
};
use sl_viewer::startup::{LiveStartupFailureClass, LiveStartupStatus};

#[test]
fn event_queue_answers_reset_failures_and_advance_ack() {
    let mut state = EventQueuePollState {
        ack: 4,
        consecutive_failures: 3,
    };
    let action = on_event_queue_poll(&mut state, EventQueuePollEvent::Answered { next_ack: Some(9) }, 5);
    assert_eq!(state, EventQueuePollState { ack: 9, consecutive_failures: 0 });
    assert_eq!(action, EventQueuePollAction { log_failure: false, reconnect: false });

    let _ = on_event_queue_poll(&mut state, EventQueuePollEvent::Answered { next_ack: None }, 5);
    assert_eq!(state.ack, 9);
}

#[test]
fn event_queue_failures_are_logged_and_trigger_reconnect_at_threshold() {
    let mut state = EventQueuePollState::default();
    let first = on_event_queue_poll(&mut state, EventQueuePollEvent::Failed, 3);
    assert_eq!(state.consecutive_failures, 1);
    assert!(first.log_failure);
    assert!(!first.reconnect);
    let second = on_event_queue_poll(&mut state, EventQueuePollEvent::Failed, 3);
    assert!(!second.log_failure);
    assert!(!second.reconnect);
    let third = on_event_queue_poll(&mut state, EventQueuePollEvent::Failed, 3);
    assert!(third.reconnect);

    let mut state = EventQueuePollState { ack: 0, consecutive_failures: 9 };
    let tenth = on_event_queue_poll(&mut state, EventQueuePollEvent::Failed, 0);
    assert!(tenth.log_failure);
    assert!(!tenth.reconnect);

    let mut state = EventQueuePollState { ack: 1, consecutive_failures: u32::MAX };
    let _ = on_event_queue_poll(&mut state, EventQueuePollEvent::Failed, 2);
    assert_eq!(state.consecutive_failures, u32::MAX);

    let before = state;
    let action = on_event_queue_poll(&mut state, EventQueuePollEvent::TaskFailed, 2);
    assert_eq!(state, before);
    assert!(!action.reconnect);
}

#[test]
fn auto_teleport_fires_once_after_the_delay() {
    assert!(should_fire_auto_teleport(false, false, 40, 40, Some("home")));
    assert!(!should_fire_auto_teleport(false, false, 39, 40, Some("home")));
    assert!(!should_fire_auto_teleport(true, false, 50, 40, Some("home")));
    assert!(!should_fire_auto_teleport(false, true, 50, 40, Some("home")));
    assert!(!should_fire_auto_teleport(false, false, 50, 40, None));
}

#[test]
fn reconnect_status_depends_on_reason() {
    assert_eq!(reconnect_status(Some("teleporting to home")), LiveStartupStatus::Starting);
    match reconnect_status(None) {
        LiveStartupStatus::Failed(f) => {
            assert_eq!(f.class, LiveStartupFailureClass::ConnectionLostReconnecting);
            assert_eq!(f.message, "connection lost; reconnecting");
        }
        other => panic!("unexpected status {other:?}"),
    }
}

#[test]
fn failed_attempts_are_counted_with_their_failure() {
    let mut attempt = 0u32;
    let f = on_session_attempt_failure(&mut attempt, SessionAttemptFailure::Connect);
    assert_eq!(attempt, 1);
    assert_eq!(f.class, LiveStartupFailureClass::ConnectTransport);
    assert_eq!(f.message, "connect failed");
    let f = on_session_attempt_failure(&mut attempt, SessionAttemptFailure::LoginRequest);
    assert_eq!(attempt, 2);
    assert_eq!(f.class, LiveStartupFailureClass::LoginRequestTransport);
    assert_eq!(f.message, "login request failed");
    let mut saturated = u32::MAX;
    let _ = on_session_attempt_failure(&mut saturated, SessionAttemptFailure::Connect);
    assert_eq!(saturated, u32::MAX);
}
