use sl_viewer::start_location::{
    decode_hex_digit, describe_start_location_intent, is_canonical_uuid_like,
    normalize_slurl_to_login_uri, normalize_start_location_input, parse_location_tail,
    parse_region_name_from_start_location, parse_start_location, percent_decode_component,
    StartLocation, StartLocationError, StartLocationIntent,
};
use sl_viewer::startup::{
    is_network_debug_category, parse_asset_source_mode, parse_bool_like,
    parse_live_startup_mode, resolve_avatar_sim_name, screenshot_config_from_lookup,
    startup_failure_class_label, update_world_sim_name_state, AssetSourceMode,
    ChatConnectionState, LiveStartupFailure, LiveStartupFailureClass, LiveStartupMode,
    LiveStartupStatus, SessionUxReason, SessionUxStatus, StressTestMode,
};
use std::collections::HashMap;
use std::path::PathBuf;

#[test]
fn parse_start_location_maps_home_last_and_uri() {
    assert_eq!(parse_start_location("home"), StartLocationIntent::Saved(StartLocation::Home));
    assert_eq!(parse_start_location("last"), StartLocationIntent::Saved(StartLocation::Last));
    assert_eq!(
        parse_start_location("my://region/128/128/25"),
        StartLocationIntent::Uri(String::from("my://region/128/128/25"))
    );
}

#[test]
fn parse_start_location_normalizes_supported_slurls() {
    assert_eq!(
        parse_start_location("secondlife://Ahern/50/60/70"),
        StartLocationIntent::Uri(String::from("uri:Ahern&50&60&70"))
    );
    assert_eq!(
        parse_start_location("secondlife:///app/teleport/A%27ksha%20Oasis/41/166/701"),
        StartLocationIntent::Uri(String::from("uri:A'ksha Oasis&41&166&701"))
    );
    assert_eq!(
        parse_start_location(
            "https://maps.secondlife.com/secondlife/Burning%20Life%20(Hyper)/27/210/30"
        ),
        StartLocationIntent::Uri(String::from("uri:Burning Life (Hyper)&27&210&30"))
    );
}

#[test]
fn normalize_start_location_input_rejects_unsupported_url_scheme() {
    let err = normalize_start_location_input("https://example.com/not-a-slurl")
        .expect_err("non-SLURL http URL should be rejected");
    assert!(err.message().contains("unsupported SLURL"));
}

#[test]
fn start_location_edge_cases() {
    assert_eq!(normalize_start_location_input("   "), Err(StartLocationError::Empty));
    assert_eq!(
        normalize_start_location_input(" HOME "),
        Ok(StartLocationIntent::Saved(StartLocation::Home))
    );
    assert_eq!(
        normalize_start_location_input("URI:Foo&1&2&3"),
        Ok(StartLocationIntent::Uri(String::from("URI:Foo&1&2&3")))
    );
    assert_eq!(
        parse_start_location("secondlife://Ahern"),
        StartLocationIntent::Uri(String::from("uri:Ahern&128&128&0"))
    );
    assert_eq!(
        parse_start_location("SECONDLIFE://Ahern/-5/x/9?title=a#b"),
        StartLocationIntent::Uri(String::from("uri:Ahern&-5&128&9"))
    );
    assert_eq!(
        parse_start_location("ftp://elsewhere"),
        StartLocationIntent::Uri(String::from("ftp://elsewhere"))
    );
    assert_eq!(
        normalize_slurl_to_login_uri("secondlife:///app/region/My+Region/1/2/3"),
        Some(String::from("uri:My Region&1&2&3"))
    );
    assert_eq!(parse_location_tail("///"), None);
    assert_eq!(percent_decode_component("%zz"), None);
    assert_eq!(percent_decode_component("%ff"), None);
    assert_eq!(percent_decode_component("a%4"), Some(String::from("a%4")));
    assert_eq!(percent_decode_component("%C3%A9"), Some(String::from("\u{e9}")));
    assert_eq!(decode_hex_digit(b'F'), Some(15));
    assert_eq!(decode_hex_digit(b'g'), None);
    assert_eq!(
        describe_start_location_intent(&StartLocationIntent::Saved(StartLocation::Last)),
        "last"
    );
}

#[test]
fn region_name_and_uuid_shape() {
    assert_eq!(
        parse_region_name_from_start_location("secondlife://Ahern/1/2/3"),
        Some(String::from("Ahern"))
    );
    assert_eq!(
        parse_region_name_from_start_location("uri: Da Boom &128&128&0"),
        Some(String::from("Da Boom"))
    );
    assert_eq!(parse_region_name_from_start_location("Last"), None);
    assert_eq!(parse_region_name_from_start_location("plain"), None);
    assert!(is_canonical_uuid_like("01234567-89ab-cdef-0123-456789ABCDEF"));
    assert!(!is_canonical_uuid_like("01234567-89ab-cdef-0123-456789ABCDEG"));
    assert!(!is_canonical_uuid_like("0123456789ab-cdef-0123-456789ABCDEF"));
}

#[test]
fn parse_bool_like_accepts_expected_truthy_forms() {
    assert!(parse_bool_like("true"));
    assert!(parse_bool_like("1"));
    assert!(parse_bool_like("YES"));
    assert!(!parse_bool_like("false"));
    assert!(!parse_bool_like("0"));
}

#[test]
fn stress_test_mode_parses_legacy_and_new_aliases() {
    assert_eq!(StressTestMode::from_value(Some("1")), StressTestMode::SceneStress);
    assert_eq!(StressTestMode::from_value(Some("2")), StressTestMode::GeometryTorture);
    assert_eq!(StressTestMode::from_value(Some("camera")), StressTestMode::AutoCamera);
    assert_eq!(StressTestMode::from_value(Some("screenshots")), StressTestMode::Screenshot);
    assert_eq!(StressTestMode::from_value(Some("unknown")), StressTestMode::Disabled);
}

#[test]
fn stress_modes_that_drive_the_camera() {
    assert!(StressTestMode::Screenshot.uses_auto_camera());
    assert!(StressTestMode::AutoCamera.uses_auto_camera());
    assert!(!StressTestMode::SceneStress.uses_auto_camera());
    assert_eq!(StressTestMode::from_value(None), StressTestMode::Disabled);
    assert_eq!(StressTestMode::from_value(Some(" Auto-Camera ")), StressTestMode::AutoCamera);
}

#[test]
fn screenshot_config_is_enabled_only_for_screenshot_mode() {
    let vars = HashMap::<String, String>::from([
        (String::from("VIEWER_TEST_SCREENSHOT_DIR"), String::from("tmp/shots")),
        (String::from("VIEWER_TEST_SCREENSHOT_EVERY_N_FRAMES"), String::from("8")),
        (String::from("VIEWER_TEST_SCREENSHOT_MAX_FRAMES"), String::from("3")),
    ]);

    let disabled =
        screenshot_config_from_lookup(|k| vars.get(k).cloned(), StressTestMode::AutoCamera);
    assert!(disabled.is_none());

    let enabled =
        screenshot_config_from_lookup(|k| vars.get(k).cloned(), StressTestMode::Screenshot)
            .expect("screenshot config should be present");
    assert_eq!(PathBuf::from(enabled.output_dir), PathBuf::from("tmp/shots"));
    assert_eq!(enabled.every_n_frames, 8);
    assert_eq!(enabled.max_frames, 3);
}

#[test]
fn screenshot_config_defaults_and_floor() {
    let vars = HashMap::<String, String>::from([
        (String::from("VIEWER_TEST_SCREENSHOT_EVERY_N_FRAMES"), String::from("0")),
        (String::from("VIEWER_TEST_SCREENSHOT_MAX_FRAMES"), String::from("x")),
    ]);
    let c = screenshot_config_from_lookup(|k| vars.get(k).cloned(), StressTestMode::Screenshot)
        .unwrap();
    assert_eq!(c.output_dir, "artifacts/screenshots");
    assert_eq!(c.every_n_frames, 1);
    assert_eq!(c.max_frames, 12);
}

#[test]
fn parse_live_startup_mode_defaults_to_auto_and_parses_values() {
    assert_eq!(parse_live_startup_mode(None), LiveStartupMode::Auto);
    assert_eq!(parse_live_startup_mode(Some("on")), LiveStartupMode::On);
    assert_eq!(parse_live_startup_mode(Some("off")), LiveStartupMode::Off);
}

#[test]
fn parse_asset_source_mode_defaults_to_auto_and_parses_values() {
    assert_eq!(parse_asset_source_mode(None), AssetSourceMode::Auto);
    assert_eq!(parse_asset_source_mode(Some("fixture")), AssetSourceMode::Fixture);
    assert_eq!(parse_asset_source_mode(Some("live")), AssetSourceMode::Live);
    assert_eq!(parse_asset_source_mode(Some("unknown")), AssetSourceMode::Auto);
}

#[test]
fn resolve_avatar_sim_name_uses_priority_order() {
    assert_eq!(
        resolve_avatar_sim_name(Some("SampleSim"), Some("Decoded"), Some("Startup")),
        "SampleSim"
    );
    assert_eq!(resolve_avatar_sim_name(None, Some("Decoded"), Some("Startup")), "Decoded");
    assert_eq!(resolve_avatar_sim_name(None, None, Some("Startup")), "Startup");
    assert_eq!(resolve_avatar_sim_name(None, None, None), "unknown");
}

#[test]
fn update_world_sim_name_state_preserves_last_known_non_empty() {
    let mut world_sim_name = Some(String::from("DecodedOne"));
    let mut startup_fallback = Some(String::from("BootstrapOne"));
    update_world_sim_name_state(&mut world_sim_name, &mut startup_fallback, None, None);
    assert_eq!(world_sim_name.as_deref(), Some("DecodedOne"));

    update_world_sim_name_state(
        &mut world_sim_name,
        &mut startup_fallback,
        Some("DecodedTwo"),
        Some("BootstrapTwo"),
    );
    assert_eq!(world_sim_name.as_deref(), Some("DecodedTwo"));
    assert_eq!(startup_fallback.as_deref(), Some("BootstrapTwo"));

    let mut empty_world = None;
    let mut empty_startup = None;
    update_world_sim_name_state(&mut empty_world, &mut empty_startup, None, Some("Fallback"));
    assert_eq!(empty_world.as_deref(), Some("Fallback"));
    assert_eq!(empty_startup.as_deref(), Some("Fallback"));
}

#[test]
fn ux_status_and_labels() {
    let failed = LiveStartupStatus::Failed(LiveStartupFailure {
        class: LiveStartupFailureClass::LoginRequestShape,
        message: String::from("bad"),
    });
    assert_eq!(
        failed.to_ux_status(&ChatConnectionState::Connected),
        SessionUxStatus::Failed { reason: SessionUxReason::LoginTransport }
    );
    assert_eq!(
        failed.to_ux_status(&ChatConnectionState::Reconnecting),
        SessionUxStatus::Reconnecting { reason: None }
    );
    let lost = LiveStartupStatus::Failed(LiveStartupFailure {
        class: LiveStartupFailureClass::ConnectionLostReconnecting,
        message: String::new(),
    });
    assert_eq!(
        lost.to_ux_status(&ChatConnectionState::Disabled),
        SessionUxStatus::Reconnecting { reason: Some(SessionUxReason::ConnectionLost) }
    );
    assert_eq!(
        LiveStartupStatus::DisabledMissingConfig.to_ux_status(&ChatConnectionState::Connecting),
        SessionUxStatus::Disabled { reason: Some(SessionUxReason::MissingConfig) }
    );
    assert_eq!(
        startup_failure_class_label(LiveStartupFailureClass::ConnectionLostReconnecting),
        "connection_reconnecting"
    );
    assert!(is_network_debug_category("first_sim_ack"));
    assert!(!is_network_debug_category("chat"));
}
