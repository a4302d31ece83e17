use sl_viewer::world::{
    build_live_visual_snapshot_from_result, live_snapshot_from_login_at, should_apply_world_ingestion_seam,
    LoginBootstrapSummary,
};
use sl_viewer::continuity::{HandoffOutcome, HandoffPhase, ProbeResultCode, RegionContinuitySummary, RECOVERY_PROBE_COOLDOWN_MS};
use sl_viewer::world::{
    decode_simulator_endpoint, derive_transition_visual_cue, offline_snapshot, FirstRegionPresence,
    LiveVisualSnapshot, TransitionVisualCue, WorldDiagnosticSlice, WorldEntryStage,
    WorldObjectIngestionAdapter, WorldObjectIngestionLane, WorldObjectIngestionSeam,
};

fn sample_snapshot(logged_in: bool, amc: bool) -> LiveVisualSnapshot {
    LiveVisualSnapshot {
        source: String::from("test"),
        logged_in,
        first_sim_endpoint: None,
        first_sim_region_x: None,
        first_sim_region_y: None,
        handshake_agent_movement_complete: amc,
        traffic_summary_available: false,
        post_boundary_observations: 0,
        region_transition_control_observations: 0,
        crossed_region: 0,
        confirm_enable_simulator: 0,
        likely_broader_traffic: 0,
        unknown: 0,
        decoded_coarse_updates: 0,
        decoded_coarse_location_count: None,
        decoded_coarse_first_x: None,
        decoded_coarse_first_y: None,
        decoded_coarse_first_z: None,
        continuity: RegionContinuitySummary::default(),
        observed_at_unix_ms: 0,
    }
}

#[test]
fn first_region_presence_maps_snapshot_stages() {
    let offline = FirstRegionPresence::from_live_snapshot(None);
    assert_eq!(offline.stage, WorldEntryStage::Offline);
    assert!(!offline.has_sim_endpoint);
    assert_eq!(offline.region_coords, None);

    let connected = FirstRegionPresence::from_live_snapshot(Some(&sample_snapshot(true, false)));
    assert_eq!(connected.stage, WorldEntryStage::Connected);
    assert!(!connected.has_sim_endpoint);

    let entered = FirstRegionPresence::from_live_snapshot(Some(&sample_snapshot(true, true)));
    assert_eq!(entered.stage, WorldEntryStage::EnteredFirstRegion);
}

#[test]
fn first_region_presence_maps_endpoint_and_region_coords() {
    let snapshot = LiveVisualSnapshot {
        source: String::from("test"),
        logged_in: true,
        first_sim_endpoint: Some(String::from("198.51.100.10:13009")),
        first_sim_region_x: Some(1000),
        first_sim_region_y: Some(2000),
        handshake_agent_movement_complete: false,
        traffic_summary_available: false,
        post_boundary_observations: 0,
        region_transition_control_observations: 0,
        crossed_region: 0,
        confirm_enable_simulator: 0,
        likely_broader_traffic: 0,
        unknown: 0,
        decoded_coarse_updates: 0,
        decoded_coarse_location_count: None,
        decoded_coarse_first_x: None,
        decoded_coarse_first_y: None,
        decoded_coarse_first_z: None,
        continuity: RegionContinuitySummary::default(),
        observed_at_unix_ms: 0,
    };
    let presence = FirstRegionPresence::from_live_snapshot(Some(&snapshot));
    assert_eq!(presence.stage, WorldEntryStage::Connected);
    assert!(presence.has_sim_endpoint);
    assert_eq!(presence.region_coords, Some([1000, 2000]));
}

#[test]
fn world_diagnostic_slice_maps_traffic_summary() {
    let snapshot = LiveVisualSnapshot {
        source: String::from("test"),
        logged_in: true,
        first_sim_endpoint: Some(String::from("198.51.100.10:13009")),
        first_sim_region_x: Some(1000),
        first_sim_region_y: Some(2000),
        handshake_agent_movement_complete: true,
        traffic_summary_available: true,
        post_boundary_observations: 14,
        region_transition_control_observations: 2,
        crossed_region: 0,
        confirm_enable_simulator: 0,
        likely_broader_traffic: 11,
        unknown: 3,
        decoded_coarse_updates: 0,
        decoded_coarse_location_count: None,
        decoded_coarse_first_x: None,
        decoded_coarse_first_y: None,
        decoded_coarse_first_z: None,
        continuity: RegionContinuitySummary::default(),
        observed_at_unix_ms: 7,
    };
    let slice = WorldDiagnosticSlice::from_live_snapshot(Some(&snapshot));
    assert_eq!(slice.presence.stage, WorldEntryStage::EnteredFirstRegion);
    assert!(slice.presence.has_sim_endpoint);
    assert!(slice.traffic.available);
    assert_eq!(slice.traffic.likely_broader, 11);
    assert_eq!(slice.traffic.unknown, 3);
    assert_eq!(slice.traffic.region_control, 2);
}

#[test]
fn world_object_ingestion_seam_maps_from_live_snapshot() {
    let offline = WorldObjectIngestionSeam::from_live_snapshot(None);
    assert!(offline.items.is_empty());

    let connected = WorldObjectIngestionSeam::from_live_snapshot(Some(&sample_snapshot(true, false)));
    assert_eq!(connected.items.len(), 1);
    let first = connected.items[0];
    assert_eq!(first.lane, WorldObjectIngestionLane::FirstRegionPresenceProxy);
    assert_eq!(first.stage, WorldEntryStage::Connected);
    assert!(!first.simulator_target_present);
}

#[test]
fn world_object_ingestion_seam_includes_traffic_signal_payload_when_available() {
    let snapshot = LiveVisualSnapshot {
        source: String::from("test"),
        logged_in: true,
        first_sim_endpoint: Some(String::from("198.51.100.10:13009")),
        first_sim_region_x: Some(1024),
        first_sim_region_y: Some(2048),
        handshake_agent_movement_complete: true,
        traffic_summary_available: true,
        post_boundary_observations: 14,
        region_transition_control_observations: 2,
        crossed_region: 0,
        confirm_enable_simulator: 0,
        likely_broader_traffic: 11,
        unknown: 3,
        decoded_coarse_updates: 0,
        decoded_coarse_location_count: None,
        decoded_coarse_first_x: None,
        decoded_coarse_first_y: None,
        decoded_coarse_first_z: None,
        continuity: RegionContinuitySummary::default(),
        observed_at_unix_ms: 9,
    };
    let seam = WorldObjectIngestionSeam::from_live_snapshot(Some(&snapshot));
    assert!(seam
        .items
        .iter()
        .any(|item| item.lane == WorldObjectIngestionLane::FirstRegionPresenceProxy));
    let traffic = seam
        .items
        .iter()
        .find(|item| item.lane == WorldObjectIngestionLane::TrafficSignalPayload)
        .expect("traffic payload should exist");
    assert_eq!(traffic.traffic_broader_count, 11);
    assert_eq!(traffic.traffic_unknown_count, 3);
    assert_eq!(traffic.traffic_region_control_count, 2);
}

#[test]
fn world_object_ingestion_seam_includes_decoded_endpoint_payload_when_parseable() {
    let snapshot = LiveVisualSnapshot {
        source: String::from("test"),
        logged_in: true,
        first_sim_endpoint: Some(String::from("198.51.100.42:13009")),
        first_sim_region_x: Some(1024),
        first_sim_region_y: Some(2048),
        handshake_agent_movement_complete: true,
        traffic_summary_available: false,
        post_boundary_observations: 0,
        region_transition_control_observations: 0,
        crossed_region: 0,
        confirm_enable_simulator: 0,
        likely_broader_traffic: 0,
        unknown: 0,
        decoded_coarse_updates: 0,
        decoded_coarse_location_count: None,
        decoded_coarse_first_x: None,
        decoded_coarse_first_y: None,
        decoded_coarse_first_z: None,
        continuity: RegionContinuitySummary::default(),
        observed_at_unix_ms: 9,
    };
    let seam = WorldObjectIngestionSeam::from_live_snapshot(Some(&snapshot));
    let decoded = seam
        .items
        .iter()
        .find(|item| item.lane == WorldObjectIngestionLane::DecodedSimulatorEndpointPayload)
        .expect("decoded endpoint payload should exist");
    assert_eq!(decoded.decoded_endpoint_host_tail, Some(42));
    assert_eq!(decoded.decoded_endpoint_port, Some(13009));
}

#[test]
fn world_object_ingestion_seam_omits_decoded_endpoint_payload_when_unparseable() {
    let snapshot = LiveVisualSnapshot {
        source: String::from("test"),
        logged_in: true,
        first_sim_endpoint: Some(String::from("bad-endpoint")),
        first_sim_region_x: Some(1024),
        first_sim_region_y: Some(2048),
        handshake_agent_movement_complete: true,
        traffic_summary_available: false,
        post_boundary_observations: 0,
        region_transition_control_observations: 0,
        crossed_region: 0,
        confirm_enable_simulator: 0,
        likely_broader_traffic: 0,
        unknown: 0,
        decoded_coarse_updates: 0,
        decoded_coarse_location_count: None,
        decoded_coarse_first_x: None,
        decoded_coarse_first_y: None,
        decoded_coarse_first_z: None,
        continuity: RegionContinuitySummary::default(),
        observed_at_unix_ms: 9,
    };
    let seam = WorldObjectIngestionSeam::from_live_snapshot(Some(&snapshot));
    assert!(seam
        .items
        .iter()
        .all(|item| item.lane != WorldObjectIngestionLane::DecodedSimulatorEndpointPayload));
}

#[test]
fn world_object_ingestion_seam_includes_decoded_coarse_payload_when_present() {
    let snapshot = LiveVisualSnapshot {
        source: String::from("test"),
        logged_in: true,
        first_sim_endpoint: Some(String::from("198.51.100.42:13009")),
        first_sim_region_x: Some(1024),
        first_sim_region_y: Some(2048),
        handshake_agent_movement_complete: true,
        traffic_summary_available: true,
        post_boundary_observations: 4,
        region_transition_control_observations: 0,
        crossed_region: 0,
        confirm_enable_simulator: 0,
        likely_broader_traffic: 3,
        unknown: 1,
        decoded_coarse_updates: 1,
        decoded_coarse_location_count: Some(2),
        decoded_coarse_first_x: Some(64),
        decoded_coarse_first_y: Some(32),
        decoded_coarse_first_z: Some(12),
        continuity: RegionContinuitySummary::default(),
        observed_at_unix_ms: 9,
    };
    let seam = WorldObjectIngestionSeam::from_live_snapshot(Some(&snapshot));
    let decoded = seam
        .items
        .iter()
        .find(|item| item.lane == WorldObjectIngestionLane::DecodedCoarseLocationPayload)
        .expect("decoded coarse payload should exist");
    assert_eq!(decoded.decoded_coarse_location_count, Some(2));
    assert_eq!(decoded.decoded_coarse_first_xyz, Some([64, 32, 12]));
}

#[test]
fn world_object_ingestion_seam_carries_region_and_target_hints() {
    let snapshot = LiveVisualSnapshot {
        source: String::from("test"),
        logged_in: true,
        first_sim_endpoint: Some(String::from("198.51.100.10:13009")),
        first_sim_region_x: Some(1024),
        first_sim_region_y: Some(2048),
        handshake_agent_movement_complete: true,
        traffic_summary_available: true,
        post_boundary_observations: 14,
        region_transition_control_observations: 2,
        crossed_region: 0,
        confirm_enable_simulator: 0,
        likely_broader_traffic: 11,
        unknown: 3,
        decoded_coarse_updates: 0,
        decoded_coarse_location_count: None,
        decoded_coarse_first_x: None,
        decoded_coarse_first_y: None,
        decoded_coarse_first_z: None,
        continuity: RegionContinuitySummary::default(),
        observed_at_unix_ms: 9,
    };
    let seam = WorldObjectIngestionSeam::from_live_snapshot(Some(&snapshot));
    let item = seam
        .items
        .iter()
        .find(|item| item.lane == WorldObjectIngestionLane::FirstRegionPresenceProxy)
        .expect("first-region presence payload should exist");
    assert_eq!(item.stage, WorldEntryStage::EnteredFirstRegion);
    assert!(item.simulator_target_present);
    assert_eq!(item.region_coords, Some([1024, 2048]));
}

#[test]
fn world_object_ingestion_adapter_matches_seam_from_live_snapshot() {
    let snapshot = sample_snapshot(true, true);
    let seam_from_adapter = WorldObjectIngestionAdapter::adapt(Some(&snapshot));
    let seam_direct = WorldObjectIngestionSeam::from_live_snapshot(Some(&snapshot));
    assert_eq!(seam_from_adapter, seam_direct);
}

#[test]
fn derive_transition_visual_cue_returns_healthy_when_no_snapshot() {
    let cue = derive_transition_visual_cue(None);
    assert_eq!(cue.cue, TransitionVisualCue::Healthy);
    assert_eq!(f32::from(cue.intensity) / 100.0, 0.0);
}

#[test]
fn derive_transition_visual_cue_healthy_outcome_yields_healthy() {
    let snapshot = offline_snapshot();
    let cue = derive_transition_visual_cue(Some(&snapshot));
    assert_eq!(cue.cue, TransitionVisualCue::Healthy);
    assert_eq!(f32::from(cue.intensity) / 100.0, 0.0);
}

#[test]
fn derive_transition_visual_cue_degraded_outcome_yields_degraded() {
    let mut snapshot = offline_snapshot();
    snapshot.continuity.outcome = HandoffOutcome::Degraded;
    snapshot.continuity.last_probe_result = None;
    let cue = derive_transition_visual_cue(Some(&snapshot));
    assert_eq!(cue.cue, TransitionVisualCue::Degraded);
    assert!(f32::from(cue.intensity) / 100.0 > 0.0);
    assert!(f32::from(cue.intensity) / 100.0 <= 1.0);
}

#[test]
fn derive_transition_visual_cue_stalled_outcome_yields_stalled() {
    let mut snapshot = offline_snapshot();
    snapshot.continuity.outcome = HandoffOutcome::Stalled;
    let cue = derive_transition_visual_cue(Some(&snapshot));
    assert_eq!(cue.cue, TransitionVisualCue::Stalled);
    assert!(f32::from(cue.intensity) / 100.0 > 0.0);
}

#[test]
fn derive_transition_visual_cue_probe_success_on_degraded_yields_recovering() {
    let mut snapshot = offline_snapshot();
    snapshot.continuity.outcome = HandoffOutcome::Degraded;
    snapshot.continuity.last_probe_result = Some(ProbeResultCode::Success);
    snapshot.continuity.last_probe_time_unix_ms = Some(snapshot.observed_at_unix_ms);
    let cue = derive_transition_visual_cue(Some(&snapshot));
    assert_eq!(cue.cue, TransitionVisualCue::Recovering);
    assert!(f32::from(cue.intensity) / 100.0 > 0.0);
}

#[test]
fn derive_transition_visual_cue_stale_probe_success_on_degraded_stays_degraded() {
    let mut snapshot = offline_snapshot();
    snapshot.continuity.outcome = HandoffOutcome::Degraded;
    snapshot.continuity.last_probe_result = Some(ProbeResultCode::Success);
    snapshot.continuity.last_probe_time_unix_ms =
        Some(snapshot.observed_at_unix_ms - (RECOVERY_PROBE_COOLDOWN_MS + 1));
    let cue = derive_transition_visual_cue(Some(&snapshot));
    assert_eq!(cue.cue, TransitionVisualCue::Degraded);
    assert!(f32::from(cue.intensity) / 100.0 > 0.0);
}

#[test]
fn derive_transition_visual_cue_stale_probe_success_with_active_normal_stays_healthy() {
    let mut snapshot = offline_snapshot();
    snapshot.continuity.outcome = HandoffOutcome::Normal;
    snapshot.continuity.phase = HandoffPhase::Confirming;
    snapshot.continuity.last_probe_result = Some(ProbeResultCode::Success);
    snapshot.continuity.last_probe_time_unix_ms =
        Some(snapshot.observed_at_unix_ms - (RECOVERY_PROBE_COOLDOWN_MS + 1));
    let cue = derive_transition_visual_cue(Some(&snapshot));
    assert_eq!(cue.cue, TransitionVisualCue::Healthy);
    assert_eq!(f32::from(cue.intensity) / 100.0, 0.0);
}

#[test]
fn recent_probe_success_recovers_degraded_and_stalled_but_normal_stays_healthy() {
    let mut snapshot = offline_snapshot();
    snapshot.continuity.phase = HandoffPhase::Crossed;
    snapshot.continuity.last_probe_result = Some(ProbeResultCode::Success);
    snapshot.continuity.last_probe_time_unix_ms =
        Some(snapshot.observed_at_unix_ms - RECOVERY_PROBE_COOLDOWN_MS);
    let cue = derive_transition_visual_cue(Some(&snapshot));
    assert_eq!(cue.cue, TransitionVisualCue::Healthy);
    assert_eq!(cue.intensity, 0);
    snapshot.continuity.outcome = HandoffOutcome::Stalled;
    let cue = derive_transition_visual_cue(Some(&snapshot));
    assert_eq!(cue.cue, TransitionVisualCue::Recovering);
    assert_eq!(cue.intensity, 50);
    snapshot.continuity.outcome = HandoffOutcome::Degraded;
    let cue = derive_transition_visual_cue(Some(&snapshot));
    assert_eq!(cue.cue, TransitionVisualCue::Recovering);
    assert_eq!(cue.intensity, 60);
    snapshot.continuity.outcome = HandoffOutcome::Stalled;
    snapshot.continuity.last_probe_time_unix_ms =
        Some(snapshot.observed_at_unix_ms - (RECOVERY_PROBE_COOLDOWN_MS + 1));
    let cue = derive_transition_visual_cue(Some(&snapshot));
    assert_eq!(cue.cue, TransitionVisualCue::Stalled);
    assert_eq!(cue.intensity, 90);
}

#[test]
fn simulator_endpoint_decoding_edge_cases() {
    assert_eq!(decode_simulator_endpoint(Some("198.51.100.42:13009")), Some((13009, 42)));
    assert_eq!(decode_simulator_endpoint(Some("host:1:+80")), None);
    assert_eq!(decode_simulator_endpoint(Some("7:80")), Some((80, 7)));
    assert_eq!(decode_simulator_endpoint(Some("1.2.3.256:80")), None);
    assert_eq!(decode_simulator_endpoint(Some("1.2.3.4:65536")), None);
    assert_eq!(decode_simulator_endpoint(Some("1.2.3.4:+80")), Some((80, 4)));
    assert_eq!(decode_simulator_endpoint(Some("1.2.3.4")), None);
    assert_eq!(decode_simulator_endpoint(None), None);
}

#[test]
fn offline_seam_is_empty_and_slice_defaults() {
    let snapshot = offline_snapshot();
    assert!(WorldObjectIngestionSeam::from_live_snapshot(Some(&snapshot)).items.is_empty());
    let slice = WorldDiagnosticSlice::from_live_snapshot(None);
    assert!(!slice.traffic.available);
    assert_eq!(slice.traffic.likely_broader, 0);
    let _ = FirstRegionPresence::from_live_snapshot(Some(&snapshot));
    let _: Option<&LiveVisualSnapshot> = None;
}

#[test]
fn login_snapshot_carries_first_sim_endpoint() {
    let login = LoginBootstrapSummary {
        sim_ip: String::from("10.0.0.7"),
        sim_port: 13005,
        region_x: 256000,
        region_y: 256256,
    };
    let s = live_snapshot_from_login_at(Some(&login), 42);
    assert!(s.logged_in);
    assert_eq!(s.source, "viewer_app_in_process:login");
    assert_eq!(s.first_sim_endpoint.as_deref(), Some("10.0.0.7:13005"));
    assert_eq!(s.first_sim_region_x, Some(256000));
    assert_eq!(s.first_sim_region_y, Some(256256));
    assert_eq!(s.observed_at_unix_ms, 42);
    assert_eq!(s.post_boundary_observations, 0);
    assert_eq!(decode_simulator_endpoint(s.first_sim_endpoint.as_deref()), Some((13005, 7)));
    let failed = live_snapshot_from_login_at(None, 7);
    assert!(!failed.logged_in);
    assert_eq!(failed.first_sim_endpoint, None);
    assert_eq!(failed.source, "viewer_app_in_process:login");
    assert!(build_live_visual_snapshot_from_result(Some(&login)).logged_in);
}

#[test]
fn should_apply_world_ingestion_seam_only_when_changed() {
    let empty = WorldObjectIngestionSeam::default();
    assert!(should_apply_world_ingestion_seam(None, &empty));
    assert!(!should_apply_world_ingestion_seam(Some(&empty), &empty));

    let mut snapshot = sample_snapshot(true, true);
    snapshot.first_sim_endpoint = Some(String::from("198.51.100.42:13009"));
    snapshot.first_sim_region_x = Some(1024);
    snapshot.first_sim_region_y = Some(2048);
    snapshot.traffic_summary_available = true;
    snapshot.post_boundary_observations = 2;
    snapshot.likely_broader_traffic = 1;
    snapshot.decoded_coarse_updates = 1;
    snapshot.decoded_coarse_location_count = Some(2);
    snapshot.decoded_coarse_first_x = Some(64);
    snapshot.decoded_coarse_first_y = Some(32);
    snapshot.decoded_coarse_first_z = Some(12);
    snapshot.observed_at_unix_ms = 1;
    let changed = WorldObjectIngestionAdapter::adapt(Some(&snapshot));
    assert!(should_apply_world_ingestion_seam(Some(&empty), &changed));
    assert!(!should_apply_world_ingestion_seam(Some(&changed), &changed));

    let mut moved = snapshot.clone();
    moved.decoded_coarse_first_x = Some(96);
    let coarse_changed = WorldObjectIngestionAdapter::adapt(Some(&moved));
    assert!(should_apply_world_ingestion_seam(Some(&changed), &coarse_changed));
}
