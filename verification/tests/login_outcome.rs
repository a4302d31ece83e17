use sl_viewer::fetch::{
    classify_asset_fetch_failure_reason, AssetFetchFailureReason, ConnectionErrorKind,
};
use sl_viewer::live_config::LoginWireFormat;
use sl_viewer::login_outcome::{
    startup_failure_from_login_outcome, GridLoginError, GridLoginResult,
    LoginFallbackClassifiedReason, LoginFallbackOutcome, LoginTrace,
};
use sl_viewer::startup::LiveStartupFailureClass;

fn trace(reason_message: &str) -> LoginTrace {
    LoginTrace {
        final_response_message: Some(String::from(reason_message)),
        final_result_message: Some(String::from(reason_message)),
    }
}

fn no_fallback() -> LoginFallbackOutcome {
    LoginFallbackOutcome {
        primary_wire_format: LoginWireFormat::Llsd,
        fallback_used: false,
        final_wire_format: LoginWireFormat::Llsd,
        classified_reason: None,
    }
}

#[test]
fn startup_failure_mapping_uses_login_request_shape_class_for_missing_password_signature() {
    let result = GridLoginResult::Failed(GridLoginError {
        reason: Some(String::from("viewer-data")),
        message: Some(String::from("Missing password")),
    });
    let trace = trace("Missing password");
    let fallback = LoginFallbackOutcome {
        primary_wire_format: LoginWireFormat::Llsd,
        fallback_used: true,
        final_wire_format: LoginWireFormat::XmlRpc,
        classified_reason: Some(LoginFallbackClassifiedReason::RequestShapeMissingPassword),
    };

    let failure = startup_failure_from_login_outcome(&result, &trace, &fallback);
    assert_eq!(failure.class, LiveStartupFailureClass::LoginRequestShape);
    assert_eq!(
        failure.message,
        "login request shape rejected (missing password signature)"
    );
}

#[test]
fn startup_failure_mapping_uses_auth_class_for_reason_key() {
    let result = GridLoginResult::Failed(GridLoginError {
        reason: Some(String::from("key")),
        message: Some(String::from("invalid credentials")),
    });
    let trace = trace("invalid credentials");
    let fallback = no_fallback();

    let failure = startup_failure_from_login_outcome(&result, &trace, &fallback);
    assert_eq!(failure.class, LiveStartupFailureClass::LoginAuth);
    assert_eq!(failure.message, "invalid credentials");
}

#[test]
fn startup_failure_reason_key_in_any_case_is_auth() {
    let result = GridLoginResult::Failed(GridLoginError {
        reason: Some(String::from("KeY")),
        message: None,
    });
    let failure = startup_failure_from_login_outcome(&result, &trace("from trace"), &no_fallback());
    assert_eq!(failure.class, LiveStartupFailureClass::LoginAuth);
    assert_eq!(failure.message, "from trace");

    let result = GridLoginResult::Failed(GridLoginError {
        reason: Some(String::from("keys")),
        message: None,
    });
    let empty = LoginTrace {
        final_response_message: Some(String::from("response text")),
        final_result_message: None,
    };
    let failure = startup_failure_from_login_outcome(&result, &empty, &no_fallback());
    assert_eq!(failure.class, LiveStartupFailureClass::LoginOther);
    assert_eq!(failure.message, "response text");

    let nothing = LoginTrace {
        final_response_message: None,
        final_result_message: None,
    };
    let failure = startup_failure_from_login_outcome(&result, &nothing, &no_fallback());
    assert_eq!(failure.message, "login not successful");
}

#[test]
fn startup_failure_demands_keep_their_classes_and_defaults() {
    let t = trace("unused");
    let f = no_fallback();
    let tos = startup_failure_from_login_outcome(
        &GridLoginResult::RequiresTos { message: None },
        &t,
        &f,
    );
    assert_eq!(tos.class, LiveStartupFailureClass::LoginRequiresTos);
    assert_eq!(tos.message, "terms of service required");

    let mfa = startup_failure_from_login_outcome(
        &GridLoginResult::RequiresMfa {
            message: Some(String::from("enter token")),
        },
        &t,
        &f,
    );
    assert_eq!(mfa.class, LiveStartupFailureClass::LoginRequiresMfa);
    assert_eq!(mfa.message, "enter token");

    let mfa_default = startup_failure_from_login_outcome(
        &GridLoginResult::RequiresMfa { message: None },
        &t,
        &f,
    );
    assert_eq!(mfa_default.message, "multi-factor token required");

    let update = startup_failure_from_login_outcome(
        &GridLoginResult::UpdateRequired { message: None },
        &t,
        &f,
    );
    assert_eq!(update.class, LiveStartupFailureClass::LoginUpdateRequired);
    assert_eq!(update.message, "viewer update required");

    for result in [GridLoginResult::Success, GridLoginResult::Redirect] {
        let other = startup_failure_from_login_outcome(&result, &t, &f);
        assert_eq!(other.class, LiveStartupFailureClass::LoginOther);
        assert_eq!(other.message, "login not successful");
    }

    let other_reason = LoginFallbackOutcome {
        classified_reason: Some(LoginFallbackClassifiedReason::Other),
        ..f
    };
    let tos = startup_failure_from_login_outcome(
        &GridLoginResult::RequiresTos { message: None },
        &t,
        &other_reason,
    );
    assert_eq!(tos.class, LiveStartupFailureClass::LoginRequiresTos);
}

#[test]
fn asset_fetch_failure_reason_from_connection_error() {
    assert_eq!(
        classify_asset_fetch_failure_reason(ConnectionErrorKind::HttpTimeout),
        AssetFetchFailureReason::Timeout
    );
    assert_eq!(
        classify_asset_fetch_failure_reason(ConnectionErrorKind::Http),
        AssetFetchFailureReason::Transport
    );
    assert_eq!(
        classify_asset_fetch_failure_reason(ConnectionErrorKind::MissingCapability),
        AssetFetchFailureReason::MissingCapability
    );
    assert_eq!(
        classify_asset_fetch_failure_reason(ConnectionErrorKind::Other),
        AssetFetchFailureReason::Transport
    );
}
