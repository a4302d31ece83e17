//! What a login attempt's outcome means for the start-up status: the grid's
//! answer, the messages of the login trace and the wire-format fallback's
//! classification, mapped to a start-up failure class and message.
use vstd::prelude::*;
use crate::live_config::LoginWireFormat;
use crate::startup::{LiveStartupFailure, LiveStartupFailureClass};
use crate::text::{chars_of, lower, lowercase, eq_str};

verus! {

/// Why the grid refused a login.
#[derive(Debug, Clone, PartialEq, Eq)]
pub struct GridLoginError {
    pub reason: Option<String>,
    pub message: Option<String>,
}

/// The grid's answer to a login request, as the start-up status reads it.
#[derive(Debug, Clone, PartialEq, Eq)]
pub enum GridLoginResult {
    Success,
    Redirect,
    RequiresTos { message: Option<String> },
    RequiresMfa { message: Option<String> },
    UpdateRequired { message: Option<String> },
    Failed(GridLoginError),
}

/// The messages that the login trace recorded for the last response and
/// for the final result.
#[derive(Debug, Clone, PartialEq, Eq)]
pub struct LoginTrace {
    pub final_response_message: Option<String>,
    pub final_result_message: Option<String>,
}

/// How the wire-format fallback classified a refused login.
#[derive(Debug, Clone, Copy, PartialEq, Eq, Structural)]
pub enum LoginFallbackClassifiedReason {
    /// The request was refused for want of a password signature.
    RequestShapeMissingPassword,
    /// Any other classified refusal.
    Other,
}

/// Which wire formats the login tried, and what the fallback concluded.
#[derive(Debug, Clone, Copy, PartialEq, Eq)]
pub struct LoginFallbackOutcome {
    pub primary_wire_format: LoginWireFormat,
    pub fallback_used: bool,
    pub final_wire_format: LoginWireFormat,
    pub classified_reason: Option<LoginFallbackClassifiedReason>,
}

/// The text of an optional message, or `default` when there is none.
pub open spec fn message_or(m: Option<String>, default: Seq<char>) -> Seq<char> {
    match m {
        Some(s) => s@,
        None => default,
    }
}

/// Whether a refusal reason is `key` (in any case): bad credentials.
pub open spec fn is_auth_reason(reason: Option<String>) -> bool {
    match reason {
        Some(r) => lower(r@) == "key"@,
        None => false,
    }
}

/// The start-up failure class and message for a login outcome: a refusal
/// for want of a password signature is a request-shape failure; terms of
/// service, multi-factor and update demands keep their own classes with the
/// grid's message or a default one; a refusal with reason `key` is an
/// authentication failure and any other refusal is `LoginOther`, with the
/// first message found in the refusal, the trace's final result and the
/// trace's final response; anything else is `LoginOther`, "login not
/// successful".
pub open spec fn login_failure(
    result: GridLoginResult,
    trace: LoginTrace,
    fallback: LoginFallbackOutcome,
) -> (LiveStartupFailureClass, Seq<char>) {
    if fallback.classified_reason == Some(LoginFallbackClassifiedReason::RequestShapeMissingPassword) {
        (
            LiveStartupFailureClass::LoginRequestShape,
            "login request shape rejected (missing password signature)"@,
        )
    } else {
        match result {
            GridLoginResult::RequiresTos { message } => (
                LiveStartupFailureClass::LoginRequiresTos,
                message_or(message, "terms of service required"@),
            ),
            GridLoginResult::RequiresMfa { message } => (
                LiveStartupFailureClass::LoginRequiresMfa,
                message_or(message, "multi-factor token required"@),
            ),
            GridLoginResult::UpdateRequired { message } => (
                LiveStartupFailureClass::LoginUpdateRequired,
                message_or(message, "viewer update required"@),
            ),
            GridLoginResult::Failed(error) => (
                if is_auth_reason(error.reason) {
                    LiveStartupFailureClass::LoginAuth
                } else {
                    LiveStartupFailureClass::LoginOther
                },
                match error.message {
                    Some(m) => m@,
                    None => match trace.final_result_message {
                        Some(m) => m@,
                        None => message_or(trace.final_response_message, "login not successful"@),
                    },
                },
            ),
            _ => (LiveStartupFailureClass::LoginOther, "login not successful"@),
        }
    }
}

fn message_or_default(m: &Option<String>, default: &str) -> (r: String)
    ensures
        r@ == message_or(*m, default@),
{
    match m {
        Some(s) => s.clone(),
        None => default.to_owned(),
    }
}

fn auth_reason(reason: &Option<String>) -> (r: bool)
    ensures
        r == is_auth_reason(*reason),
{
    match reason {
        Some(s) => {
            let c = chars_of(s.as_str());
            let l = lowercase(c.as_slice());
            eq_str(l.as_slice(), "key")
        },
        None => false,
    }
}

/// The start-up failure that a login outcome reports (see
/// [`login_failure`]).
pub fn startup_failure_from_login_outcome(
    result: &GridLoginResult,
    trace: &LoginTrace,
    fallback: &LoginFallbackOutcome,
) -> (r: LiveStartupFailure)
    ensures
        r.class == login_failure(*result, *trace, *fallback).0,
        r.message@ == login_failure(*result, *trace, *fallback).1,
{
    let missing_password = match fallback.classified_reason {
        Some(LoginFallbackClassifiedReason::RequestShapeMissingPassword) => true,
        _ => false,
    };
    if missing_password {
        return LiveStartupFailure {
            class: LiveStartupFailureClass::LoginRequestShape,
            message: "login request shape rejected (missing password signature)".to_owned(),
        };
    }
    match result {
        GridLoginResult::RequiresTos { message } => LiveStartupFailure {
            class: LiveStartupFailureClass::LoginRequiresTos,
            message: message_or_default(message, "terms of service required"),
        },
        GridLoginResult::RequiresMfa { message } => LiveStartupFailure {
            class: LiveStartupFailureClass::LoginRequiresMfa,
            message: message_or_default(message, "multi-factor token required"),
        },
        GridLoginResult::UpdateRequired { message } => LiveStartupFailure {
            class: LiveStartupFailureClass::LoginUpdateRequired,
            message: message_or_default(message, "viewer update required"),
        },
        GridLoginResult::Failed(error) => {
            let class = if auth_reason(&error.reason) {
                LiveStartupFailureClass::LoginAuth
            } else {
                LiveStartupFailureClass::LoginOther
            };
            let message = match &error.message {
                Some(m) => m.clone(),
                None => match &trace.final_result_message {
                    Some(m) => m.clone(),
                    None => message_or_default(&trace.final_response_message, "login not successful"),
                },
            };
            LiveStartupFailure { class, message }
        },
        _ => LiveStartupFailure {
            class: LiveStartupFailureClass::LoginOther,
            message: "login not successful".to_owned(),
        },
    }
}

} // verus!
