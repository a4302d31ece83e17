use std::collections::HashMap;

use sl_viewer::live_config::{
    agent_update_keepalive_interval_ticks_for, in_process_live_feed_config_from_lookup,
    live_startup_plan, live_startup_plan_from_lookup, parse_wire_format, LoginWireFormat,
};
use sl_viewer::start_location::{StartLocation, StartLocationIntent};
use sl_viewer::startup::{LiveStartupFailureClass, LiveStartupMode, LiveStartupStatus};

fn credentials() -> HashMap<String, String> {
    let mut vars = HashMap::<String, String>::new();
    vars.insert(
        String::from("VIEWER_LOGIN_ENDPOINT"),
        String::from("https://example.invalid/login"),
    );
    vars.insert(String::from("VIEWER_LOGIN_USERNAME"), String::from("user"));
    vars.insert(String::from("VIEWER_LOGIN_PASSWORD"), String::from("pass"));
    vars
}

#[test]
fn in_process_config_requires_endpoint_username_and_password() {
    let vars = HashMap::<String, String>::new();
    let cfg = in_process_live_feed_config_from_lookup(|k: &str| vars.get(k).cloned());
    assert!(cfg.is_none());
}

#[test]
fn in_process_config_missing_password_is_none() {
    let mut vars = credentials();
    vars.remove("VIEWER_LOGIN_PASSWORD");
    let cfg = in_process_live_feed_config_from_lookup(|k: &str| vars.get(k).cloned());
    assert!(cfg.is_none());
}

#[test]
fn in_process_config_parses_defaults_and_overrides() {
    let mut vars = credentials();
    vars.insert(
        String::from("VIEWER_LOGIN_WIRE_FORMAT"),
        String::from("xmlrpc"),
    );
    vars.insert(
        String::from("VIEWER_FIRST_SIM_RECEIVE_MAX_PACKETS"),
        String::from("16"),
    );
    vars.insert(
        String::from("VIEWER_APP_IN_PROCESS_PROBE"),
        String::from("false"),
    );
    vars.insert(
        String::from("VIEWER_APP_EVENT_QUEUE_FAILURES_BEFORE_RECONNECT"),
        String::from("9"),
    );
    vars.insert(
        String::from("VIEWER_APP_WORKER_TICK_MS"),
        String::from("25"),
    );
    vars.insert(
        String::from("VIEWER_APP_AUTO_TELEPORT_SLURL"),
        String::from("secondlife://Ahern/50/60/70"),
    );
    vars.insert(
        String::from("VIEWER_APP_AUTO_TELEPORT_DELAY_TICKS"),
        String::from("77"),
    );
    vars.insert(String::from("VIEWER_LOGIN_AGREE_TOS"), String::from("true"));
    vars.insert(
        String::from("VIEWER_LOGIN_READ_CRITICAL"),
        String::from("false"),
    );
    vars.insert(
        String::from("VIEWER_LOGIN_MFA_TOKEN"),
        String::from("token123"),
    );
    vars.insert(
        String::from("VIEWER_ASSET_LIVE_TIMEOUT_MS"),
        String::from("9000"),
    );
    let cfg = in_process_live_feed_config_from_lookup(|k: &str| vars.get(k).cloned())
        .expect("config should parse");
    assert_eq!(cfg.wire_format, LoginWireFormat::XmlRpc);
    assert_eq!(cfg.receive_max_packets, 16);
    assert!(!cfg.run_probe);
    assert_eq!(cfg.event_queue_failures_before_reconnect, 9);
    assert_eq!(cfg.worker_tick_ms, 25);
    assert_eq!(
        cfg.auto_teleport_slurl.as_deref(),
        Some("secondlife://Ahern/50/60/70")
    );
    assert_eq!(cfg.auto_teleport_delay_ticks, 77);
    assert!(cfg.agree_to_tos);
    assert!(!cfg.read_critical);
    assert_eq!(cfg.mfa_token.as_deref(), Some("token123"));
    assert_eq!(cfg.asset_live_timeout_ms, 9000);
}

#[test]
fn in_process_config_defaults_and_bounds() {
    let cfg = {
        let vars = credentials();
        in_process_live_feed_config_from_lookup(|k: &str| vars.get(k).cloned()).unwrap()
    };
    assert_eq!(cfg.endpoint, "https://example.invalid/login");
    assert_eq!(cfg.username, "user");
    assert_eq!(cfg.password, "pass");
    assert_eq!(cfg.connect_timeout_secs, 15);
    assert_eq!(cfg.wire_format, LoginWireFormat::Llsd);
    assert_eq!(
        cfg.start_location,
        StartLocationIntent::Saved(StartLocation::Last)
    );
    assert!(!cfg.agree_to_tos);
    assert!(cfg.read_critical);
    assert_eq!(cfg.mfa_token, None);
    assert_eq!(cfg.receive_bind, "0.0.0.0:0");
    assert_eq!(cfg.receive_timeout_secs, 5);
    assert_eq!(cfg.receive_max_packets, 8);
    assert_eq!(cfg.post_movement_tail_packets, 4);
    assert_eq!(cfg.post_movement_timeout_secs, None);
    assert!(!cfg.stop_on_region_control);
    assert_eq!(cfg.auto_teleport_slurl, None);
    assert_eq!(cfg.auto_teleport_delay_ticks, 40);
    assert!(cfg.run_probe);
    assert_eq!(cfg.worker_tick_ms, 60);
    assert_eq!(cfg.event_queue_poll_timeout_ms, 45_000);
    assert_eq!(cfg.event_queue_poll_every_ticks, 10);
    assert_eq!(cfg.event_queue_failures_before_reconnect, 0);
    assert_eq!(cfg.social_poll_timeout_ms, 35);
    assert_eq!(cfg.social_poll_max_packets, 4);
    assert_eq!(cfg.nearby_poll_timeout_ms, 40);
    assert_eq!(cfg.nearby_poll_max_packets, 2);
    assert_eq!(cfg.nearby_send_receive_timeout_ms, 40);
    assert_eq!(cfg.nearby_send_receive_packets, 0);
    assert_eq!(cfg.profile_cache_ttl_secs, 120);
    assert_eq!(cfg.asset_live_timeout_ms, 10_000);

    let mut vars = credentials();
    vars.insert(String::from("VIEWER_APP_WORKER_TICK_MS"), String::from("3"));
    vars.insert(
        String::from("VIEWER_APP_AUTO_TELEPORT_DELAY_TICKS"),
        String::from("50000"),
    );
    vars.insert(
        String::from("VIEWER_APP_EVENT_QUEUE_POLL_EVERY_TICKS"),
        String::from("0"),
    );
    vars.insert(
        String::from("VIEWER_APP_EVENT_QUEUE_POLL_TIMEOUT_MS"),
        String::from("7"),
    );
    vars.insert(
        String::from("VIEWER_ASSET_LIVE_TIMEOUT_MS"),
        String::from("999999"),
    );
    vars.insert(
        String::from("VIEWER_APP_AUTO_TELEPORT_SLURL"),
        String::from("   "),
    );
    vars.insert(
        String::from("VIEWER_LOGIN_TIMEOUT_SECS"),
        String::from("not a number"),
    );
    vars.insert(
        String::from("VIEWER_FIRST_SIM_POST_MOVEMENT_TIMEOUT_SECS"),
        String::from("12"),
    );
    vars.insert(String::from("VIEWER_LOGIN_START"), String::from("home"));
    let cfg = in_process_live_feed_config_from_lookup(|k: &str| vars.get(k).cloned()).unwrap();
    assert_eq!(cfg.worker_tick_ms, 10);
    assert_eq!(cfg.auto_teleport_delay_ticks, 10_000);
    assert_eq!(cfg.event_queue_poll_every_ticks, 1);
    assert_eq!(cfg.event_queue_poll_timeout_ms, 100);
    assert_eq!(cfg.asset_live_timeout_ms, 120_000);
    assert_eq!(cfg.auto_teleport_slurl, None);
    assert_eq!(cfg.connect_timeout_secs, 15);
    assert_eq!(cfg.post_movement_timeout_secs, Some(12));
    assert_eq!(
        cfg.start_location,
        StartLocationIntent::Saved(StartLocation::Home)
    );

    vars.insert(
        String::from("VIEWER_ASSET_LIVE_TIMEOUT_MS"),
        String::from("10"),
    );
    let cfg = in_process_live_feed_config_from_lookup(|k: &str| vars.get(k).cloned()).unwrap();
    assert_eq!(cfg.asset_live_timeout_ms, 250);
}

#[test]
fn wire_format_names() {
    assert_eq!(parse_wire_format("json"), LoginWireFormat::Json);
    assert_eq!(parse_wire_format(" XML-RPC "), LoginWireFormat::XmlRpc);
    assert_eq!(parse_wire_format("XmlRpc"), LoginWireFormat::XmlRpc);
    assert_eq!(parse_wire_format("llsd"), LoginWireFormat::Llsd);
    assert_eq!(parse_wire_format("anything"), LoginWireFormat::Llsd);
}

#[test]
fn agent_update_keepalive_interval_tracks_worker_tick_budget() {
    let mut vars = credentials();
    vars.insert(String::from("VIEWER_APP_WORKER_TICK_MS"), String::from("60"));
    let config = in_process_live_feed_config_from_lookup(|k: &str| vars.get(k).cloned()).unwrap();
    assert_eq!(agent_update_keepalive_interval_ticks_for(&config), 17);

    let fast_config = sl_viewer::live_config::InProcessLiveFeedConfig {
        worker_tick_ms: 250,
        ..config
    };
    assert_eq!(agent_update_keepalive_interval_ticks_for(&fast_config), 4);
}

#[test]
fn live_startup_plan_respects_off_mode_even_with_credentials() {
    let mut vars = credentials();
    vars.insert(String::from("VIEWER_APP_LIVE_STARTUP"), String::from("off"));
    let plan = live_startup_plan_from_lookup(|k: &str| vars.get(k).cloned());
    assert!(!plan.enabled);
    assert!(plan.config.is_none());
    assert_eq!(plan.startup_status, LiveStartupStatus::DisabledByConfig);
}

#[test]
fn live_startup_plan_reports_missing_config_when_forced_on() {
    let vars = HashMap::<String, String>::from([(
        String::from("VIEWER_APP_LIVE_STARTUP"),
        String::from("on"),
    )]);
    let plan = live_startup_plan_from_lookup(|k: &str| vars.get(k).cloned());
    assert!(!plan.enabled);
    assert!(plan.config.is_none());
    assert!(matches!(plan.startup_status, LiveStartupStatus::Failed(_)));
    match plan.startup_status {
        LiveStartupStatus::Failed(f) => {
            assert_eq!(f.class, LiveStartupFailureClass::MissingConfig);
            assert_eq!(f.message, "missing required VIEWER_LOGIN_* env vars");
        }
        _ => unreachable!(),
    }
}

#[test]
fn live_startup_plan_auto_starts_with_credentials_and_waits_without() {
    let vars = credentials();
    let plan = live_startup_plan_from_lookup(|k: &str| vars.get(k).cloned());
    assert!(plan.enabled);
    assert_eq!(plan.startup_status, LiveStartupStatus::Starting);
    assert_eq!(plan.config.unwrap().username, "user");

    let empty = HashMap::<String, String>::new();
    let plan = live_startup_plan_from_lookup(|k: &str| empty.get(k).cloned());
    assert!(!plan.enabled);
    assert!(plan.config.is_none());
    assert_eq!(plan.startup_status, LiveStartupStatus::DisabledMissingConfig);

    let plan = live_startup_plan(LiveStartupMode::On, None);
    assert!(!plan.enabled);
}
