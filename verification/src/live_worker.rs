//! Decisions of the live-session worker loop, taken between its network
//! steps: the failure shown and the attempt counted when connecting or
//! logging in breaks off, the event queue's ack and failure bookkeeping
//! after each poll, when the configured auto teleport fires, and the status
//! shown while the session reconnects.
use vstd::prelude::*;
use crate::startup::{LiveStartupFailure, LiveStartupFailureClass, LiveStartupStatus};

verus! {

/// The event queue's ack to send next and how many polls in a row failed.
#[derive(Debug, Clone, Copy, PartialEq, Eq, Default, Structural)]
pub struct EventQueuePollState {
    pub ack: u64,
    pub consecutive_failures: u32,
}

/// How a poll of the event queue ended.
#[derive(Debug, Clone, Copy, PartialEq, Eq, Structural)]
pub enum EventQueuePollEvent {
    /// The queue answered, with the id to acknowledge next if it gave one.
    Answered { next_ack: Option<u64> },
    /// The request failed.
    Failed,
    /// The polling task itself failed.
    TaskFailed,
}

/// What the loop does after a poll: report the failure, and reconnect.
#[derive(Debug, Clone, Copy, PartialEq, Eq, Structural)]
pub struct EventQueuePollAction {
    pub log_failure: bool,
    pub reconnect: bool,
}

/// Whether a run of `failures` failed polls is reported: the first, then
/// every tenth.
pub open spec fn failure_reported(failures: u32) -> bool {
    failures == 1 || failures % 10 == 0
}

/// The bookkeeping after a poll: an answer resets the failure count and
/// takes the queue's id as the next ack (keeping the old one when it gave
/// none); a failed request adds one failure (saturating), is reported per
/// [`failure_reported`], and asks for a reconnect once the count reaches a
/// nonzero `failures_before_reconnect`; a failed task changes nothing.
pub open spec fn poll_step(
    state: EventQueuePollState,
    event: EventQueuePollEvent,
    failures_before_reconnect: u32,
) -> (EventQueuePollState, EventQueuePollAction) {
    match event {
        EventQueuePollEvent::Answered { next_ack } => (
            EventQueuePollState {
                ack: match next_ack {
                    Some(a) => a,
                    None => state.ack,
                },
                consecutive_failures: 0,
            },
            EventQueuePollAction { log_failure: false, reconnect: false },
        ),
        EventQueuePollEvent::Failed => {
            let n: u32 = if state.consecutive_failures == u32::MAX {
                u32::MAX
            } else {
                (state.consecutive_failures + 1) as u32
            };
            (
                EventQueuePollState { ack: state.ack, consecutive_failures: n },
                EventQueuePollAction {
                    log_failure: failure_reported(n),
                    reconnect: failures_before_reconnect > 0 && n >= failures_before_reconnect,
                },
            )
        },
        EventQueuePollEvent::TaskFailed => (
            state,
            EventQueuePollAction { log_failure: false, reconnect: false },
        ),
    }
}

/// Applies the end of an event-queue poll to the bookkeeping (see
/// [`poll_step`]).
pub fn on_event_queue_poll(
    state: &mut EventQueuePollState,
    event: EventQueuePollEvent,
    failures_before_reconnect: u32,
) -> (r: EventQueuePollAction)
    ensures
        (*final(state), r) == poll_step(*old(state), event, failures_before_reconnect),
{
    match event {
        EventQueuePollEvent::Answered { next_ack } => {
            state.consecutive_failures = 0;
            match next_ack {
                Some(a) => {
                    state.ack = a;
                },
                None => {},
            }
            EventQueuePollAction { log_failure: false, reconnect: false }
        },
        EventQueuePollEvent::Failed => {
            let n = state.consecutive_failures.saturating_add(1);
            state.consecutive_failures = n;
            EventQueuePollAction {
                log_failure: n == 1 || n % 10 == 0,
                reconnect: failures_before_reconnect > 0 && n >= failures_before_reconnect,
            }
        },
        EventQueuePollEvent::TaskFailed => EventQueuePollAction { log_failure: false, reconnect: false },
    }
}

/// The failure count counts consecutive failures: an answer resets it, a
/// failure adds one until it saturates, and with no threshold (zero) no run
/// of failures asks for a reconnect.
pub proof fn lemma_poll_failures_are_consecutive(
    state: EventQueuePollState,
    event: EventQueuePollEvent,
    failures_before_reconnect: u32,
)
    ensures
        ({
            let (next, action) = poll_step(state, event, failures_before_reconnect);
            &&& event is Answered ==> next.consecutive_failures == 0 && !action.reconnect
            &&& event is Failed ==> next.consecutive_failures >= state.consecutive_failures
                && (state.consecutive_failures < u32::MAX ==> next.consecutive_failures
                == state.consecutive_failures + 1)
            &&& failures_before_reconnect == 0 ==> !action.reconnect
            &&& action.reconnect ==> event is Failed && next.consecutive_failures
                >= failures_before_reconnect
        }),
{
}

/// Whether the configured auto teleport fires on this tick: it has not
/// fired yet, no reconnect is pending, the delay has passed and a SLURL is
/// configured.
pub fn should_fire_auto_teleport(
    already_fired: bool,
    reconnect_pending: bool,
    worker_tick: u64,
    delay_ticks: u32,
    slurl: Option<&str>,
) -> (r: bool)
    ensures
        r == (!already_fired && !reconnect_pending && worker_tick >= delay_ticks && slurl is Some),
{
    !already_fired && !reconnect_pending && worker_tick >= delay_ticks as u64 && slurl.is_some()
}

/// The start-up status shown while reconnecting: starting again when the
/// reconnect was asked for (with a reason), else a failure of class
/// `ConnectionLostReconnecting`, "connection lost; reconnecting".
pub fn reconnect_status(reconnect_reason: Option<&str>) -> (r: LiveStartupStatus)
    ensures
        reconnect_reason is Some ==> r == LiveStartupStatus::Starting,
        reconnect_reason is None ==> (r matches LiveStartupStatus::Failed(f) && f.class
            == LiveStartupFailureClass::ConnectionLostReconnecting && f.message@
            == "connection lost; reconnecting"@),
{
    match reconnect_reason {
        Some(_) => LiveStartupStatus::Starting,
        None => LiveStartupStatus::Failed(
            LiveStartupFailure {
                class: LiveStartupFailureClass::ConnectionLostReconnecting,
                message: "connection lost; reconnecting".to_owned(),
            },
        ),
    }
}

/// Where a session attempt broke off before a login answer.
#[derive(Debug, Clone, Copy, PartialEq, Eq, Structural)]
pub enum SessionAttemptFailure {
    /// Connecting to the login endpoint failed.
    Connect,
    /// The login request could not be made.
    LoginRequest,
}

/// Counts one more failed attempt (saturating) and gives the failure to
/// show: `ConnectTransport`, "connect failed", or `LoginRequestTransport`,
/// "login request failed".
pub fn on_session_attempt_failure(attempt: &mut u32, failure: SessionAttemptFailure) -> (r:
    LiveStartupFailure)
    ensures
        *final(attempt) == if *old(attempt) == u32::MAX {
            u32::MAX
        } else {
            (*old(attempt) + 1) as u32
        },
        failure == SessionAttemptFailure::Connect ==> r.class
            == LiveStartupFailureClass::ConnectTransport && r.message@ == "connect failed"@,
        failure == SessionAttemptFailure::LoginRequest ==> r.class
            == LiveStartupFailureClass::LoginRequestTransport && r.message@
            == "login request failed"@,
{
    *attempt = attempt.saturating_add(1);
    match failure {
        SessionAttemptFailure::Connect => LiveStartupFailure {
            class: LiveStartupFailureClass::ConnectTransport,
            message: "connect failed".to_owned(),
        },
        SessionAttemptFailure::LoginRequest => LiveStartupFailure {
            class: LiveStartupFailureClass::LoginRequestTransport,
            message: "login request failed".to_owned(),
        },
    }
}

} // verus!
