use sl_viewer::continuity::{reconnect_backoff_duration, reconnect_backoff_ms_at};
use sl_viewer::asset::{AssetID, AssetPriority};
use sl_viewer::continuity::{
    agent_update_keepalive_interval_ticks, build_asset_priority_hints,
    classify_handoff_diagnostics, classify_probe_outcome, compute_recovery_action,
    map_net_continuity_to_core, profile_refresh_on_cooldown, should_send_agent_update_keepalive,
    BoundedNeighborSummary, HandoffOutcome, HandoffPhase, HandoffReason, ProbeResultCode,
    RecoveryAction, RecoveryResultCode, RegionContinuitySummary,
};

#[test]
fn test_classification_logic() {
    let mut summary = RegionContinuitySummary {
        phase: HandoffPhase::Confirming,
        phase_age_ms: 1000,
        ..Default::default()
    };

    let (outcome, reason) = classify_handoff_diagnostics(&summary);
    assert_eq!(outcome, HandoffOutcome::Normal);
    assert_eq!(reason, HandoffReason::NoReason);

    summary.phase_age_ms = 6000;
    let (outcome, reason) = classify_handoff_diagnostics(&summary);
    assert_eq!(outcome, HandoffOutcome::Degraded);
    assert_eq!(reason, HandoffReason::LateConfirmation);

    summary.phase_age_ms = 16000;
    let (outcome, reason) = classify_handoff_diagnostics(&summary);
    assert_eq!(outcome, HandoffOutcome::Stalled);
    assert_eq!(reason, HandoffReason::StaleWindowExceeded);
}

#[test]
fn probe_outcome_classification_prefers_timeout() {
    assert_eq!(classify_probe_outcome(true, Some(200)), ProbeResultCode::Timeout);
    assert_eq!(classify_probe_outcome(false, Some(200)), ProbeResultCode::Success);
    assert_eq!(classify_probe_outcome(false, Some(502)), ProbeResultCode::HttpFailure);
    assert_eq!(classify_probe_outcome(false, None), ProbeResultCode::TransportError);
}

#[test]
fn crossed_phase_thresholds_and_completed_phase() {
    let mut summary = RegionContinuitySummary {
        phase: HandoffPhase::Crossed,
        phase_age_ms: 4000,
        ..Default::default()
    };
    assert_eq!(classify_handoff_diagnostics(&summary).0, HandoffOutcome::Normal);
    summary.phase_age_ms = 4001;
    assert_eq!(classify_handoff_diagnostics(&summary).0, HandoffOutcome::Degraded);
    summary.phase_age_ms = 10001;
    assert_eq!(classify_handoff_diagnostics(&summary).0, HandoffOutcome::Stalled);
    summary.phase = HandoffPhase::Completed;
    assert_eq!(
        classify_handoff_diagnostics(&summary),
        (HandoffOutcome::Normal, HandoffReason::NoReason)
    );
    assert_eq!(classify_probe_outcome(false, Some(299)), ProbeResultCode::Success);
    assert_eq!(classify_probe_outcome(false, Some(300)), ProbeResultCode::HttpFailure);
}

#[test]
fn keepalive_interval_from_worker_tick_ms() {
    assert_eq!(agent_update_keepalive_interval_ticks(60), 17);
    assert_eq!(agent_update_keepalive_interval_ticks(250), 4);
}

#[test]
fn keepalive_interval_for_zero_and_huge_ticks() {
    assert_eq!(agent_update_keepalive_interval_ticks(0), 1000);
    assert_eq!(agent_update_keepalive_interval_ticks(u64::MAX), 1);
    assert_eq!(agent_update_keepalive_interval_ticks(1000), 1);
    assert_eq!(agent_update_keepalive_interval_ticks(1001), 1);
}

#[test]
fn agent_update_keepalive_scheduler_is_deterministic() {
    assert!(should_send_agent_update_keepalive(0, None, 5));
    assert!(!should_send_agent_update_keepalive(4, Some(0), 5));
    assert!(should_send_agent_update_keepalive(5, Some(0), 5));
    assert!(should_send_agent_update_keepalive(10, Some(5), 0));
}

#[test]
fn map_net_continuity_to_core_maps_all_fields() {
    let mapped = map_net_continuity_to_core(&RegionContinuitySummary {
        phase: HandoffPhase::Confirming,
        outcome: HandoffOutcome::Normal,
        reason: HandoffReason::NoReason,
        phase_age_ms: 0,
        active_region_coords: Some([1024, 2048]),
        previous_region_coords: Some([1023, 2048]),
        neighbors: vec![BoundedNeighborSummary {
            region_handle: 0x0000040000000800,
            region_x: 1024,
            region_y: 2048,
        }],
        ..Default::default()
    });
    assert_eq!(mapped.phase, HandoffPhase::Confirming);
    assert_eq!(mapped.active_region_coords, Some([1024, 2048]));
    assert_eq!(mapped.previous_region_coords, Some([1023, 2048]));
    assert_eq!(mapped.neighbors.len(), 1);
    assert_eq!(mapped.neighbors[0].region_x, 1024);
}

#[test]
fn map_net_continuity_rederives_outcome() {
    let mapped = map_net_continuity_to_core(&RegionContinuitySummary {
        phase: HandoffPhase::Confirming,
        outcome: HandoffOutcome::Normal,
        phase_age_ms: 20_000,
        ..Default::default()
    });
    assert_eq!(mapped.outcome, HandoffOutcome::Stalled);
    assert_eq!(mapped.reason, HandoffReason::StaleWindowExceeded);
}

#[test]
fn profile_refresh_on_cooldown_enforces_u09_window() {
    let last = 1_000u64;
    assert!(!profile_refresh_on_cooldown(last + 10_000, Some(last)));
    assert!(profile_refresh_on_cooldown(last + 9_999, Some(last)));
    assert!(!profile_refresh_on_cooldown(last + 1, None));
}

#[test]
fn profile_refresh_cooldown_saturates() {
    assert!(profile_refresh_on_cooldown(u64::MAX - 1, Some(u64::MAX - 5)));
    assert!(!profile_refresh_on_cooldown(u64::MAX, Some(u64::MAX - 5)));
}

#[test]
fn continuity_priority_mapping_assigns_active_previous_neighbor() {
    let ids = vec![AssetID::new("a"), AssetID::new("b"), AssetID::new("c"), AssetID::new("d")];
    let visible = vec![AssetID::new("a")];
    let continuity = RegionContinuitySummary {
        phase: HandoffPhase::Confirming,
        outcome: HandoffOutcome::Normal,
        reason: HandoffReason::NoReason,
        phase_age_ms: 0,
        active_region_coords: Some([1024, 2048]),
        previous_region_coords: Some([1023, 2048]),
        neighbors: vec![BoundedNeighborSummary { region_handle: 1, region_x: 1025, region_y: 2048 }],
        ..Default::default()
    };

    let mapped = build_asset_priority_hints(&ids, &visible, Some(&continuity));
    assert_eq!(mapped[0].priority, AssetPriority::Active);
    assert_eq!(mapped[1].priority, AssetPriority::Previous);
    assert_eq!(mapped[2].priority, AssetPriority::Previous);
    assert_eq!(mapped[3].priority, AssetPriority::Previous);
}

#[test]
fn continuity_priority_mapping_falls_back_to_normal_without_continuity() {
    let ids = vec![AssetID::new("a"), AssetID::new("b")];
    let visible = vec![AssetID::new("a")];
    let mapped = build_asset_priority_hints(&ids, &visible, None);
    assert_eq!(mapped[0].priority, AssetPriority::Active);
    assert_eq!(mapped[1].priority, AssetPriority::Normal);
}

#[test]
fn continuity_priority_mapping_assigns_neighbor_when_previous_absent() {
    let ids = vec![AssetID::new("a"), AssetID::new("b")];
    let visible = vec![AssetID::new("a")];
    let continuity = RegionContinuitySummary {
        phase: HandoffPhase::Confirming,
        outcome: HandoffOutcome::Normal,
        reason: HandoffReason::NoReason,
        phase_age_ms: 0,
        active_region_coords: Some([1024, 2048]),
        previous_region_coords: None,
        neighbors: vec![BoundedNeighborSummary { region_handle: 1, region_x: 1025, region_y: 2048 }],
        ..Default::default()
    };
    let mapped = build_asset_priority_hints(&ids, &visible, Some(&continuity));
    assert_eq!(mapped[0].priority, AssetPriority::Active);
    assert_eq!(mapped[1].priority, AssetPriority::Neighbor);
}

#[test]
fn priority_quotas_cap_each_tier() {
    let ids: Vec<AssetID> = (0..300).map(|i| AssetID::new(&format!("id{i}"))).collect();
    let visible = ids.clone();
    let continuity = RegionContinuitySummary {
        previous_region_coords: Some([1, 2]),
        neighbors: vec![BoundedNeighborSummary { region_handle: 1, region_x: 1, region_y: 1 }],
        ..Default::default()
    };
    let mapped = build_asset_priority_hints(&ids, &visible, Some(&continuity));
    let count = |p: AssetPriority| mapped.iter().filter(|h| h.priority == p).count();
    assert_eq!(count(AssetPriority::Active), 96);
    assert_eq!(count(AssetPriority::Previous), 48);
    assert_eq!(count(AssetPriority::Neighbor), 64);
    assert_eq!(count(AssetPriority::Normal), 300 - 96 - 48 - 64);
    assert_eq!(mapped[299].id.as_str(), "id299");
}

#[test]
fn recovery_action_respects_cooldowns_and_updates_time() {
    let (result, new_probe, new_asset) = compute_recovery_action(
        RecoveryAction::RefreshVisibleAssets,
        1000,
        None,
        None,
        true,
        false,
        5000,
        2000,
    );
    assert_eq!(result.code, RecoveryResultCode::Accepted);
    assert_eq!(new_probe, None);
    assert_eq!(new_asset, Some(1000));

    let (result2, new_probe2, new_asset2) = compute_recovery_action(
        RecoveryAction::RefreshVisibleAssets,
        2000,
        new_probe,
        new_asset,
        true,
        false,
        5000,
        2000,
    );
    assert_eq!(result2.code, RecoveryResultCode::CooldownActive);
    assert_eq!(result2.cooldown_remaining_ms, Some(1000));
    assert_eq!(new_probe2, None);
    assert_eq!(new_asset2, Some(1000));

    let (result3, new_probe3, new_asset3) = compute_recovery_action(
        RecoveryAction::RefreshVisibleAssets,
        4000,
        new_probe2,
        new_asset2,
        true,
        false,
        5000,
        2000,
    );
    assert_eq!(result3.code, RecoveryResultCode::Accepted);
    assert_eq!(new_probe3, None);
    assert_eq!(new_asset3, Some(4000));
}

#[test]
fn recovery_action_repeated_spam_blocks_and_does_not_advance_time() {
    let mut last_ms = None;
    for i in 0..10 {
        let now = 1000 + i * 100;
        let (result, _, new_asset) = compute_recovery_action(
            RecoveryAction::RefreshVisibleAssets,
            now,
            None,
            last_ms,
            true,
            false,
            5000,
            2000,
        );
        if i == 0 {
            assert_eq!(result.code, RecoveryResultCode::Accepted);
        } else {
            assert_eq!(result.code, RecoveryResultCode::CooldownActive);
        }
        last_ms = new_asset;
    }

    assert_eq!(last_ms, Some(1000));
}

#[test]
fn probe_cooldown_rejection() {
    let mut last_ms = None;
    let mut codes = Vec::new();

    let (res, next, _) = compute_recovery_action(
        RecoveryAction::RetryContinuityProbe,
        0,
        last_ms,
        None,
        true,
        false,
        15000,
        5000,
    );
    codes.push(res.code);
    last_ms = next;

    let (res, next, _) = compute_recovery_action(
        RecoveryAction::RetryContinuityProbe,
        10000,
        last_ms,
        None,
        true,
        false,
        15000,
        5000,
    );
    codes.push(res.code);
    last_ms = next;

    let (res, next, _) = compute_recovery_action(
        RecoveryAction::RetryContinuityProbe,
        16000,
        last_ms,
        None,
        true,
        false,
        15000,
        5000,
    );
    codes.push(res.code);
    last_ms = next;

    assert_eq!(
        codes,
        vec![
            RecoveryResultCode::Accepted,
            RecoveryResultCode::CooldownActive,
            RecoveryResultCode::Accepted,
        ]
    );
    assert_eq!(last_ms, Some(16000));
}

#[test]
fn probe_retry_rejected_when_unavailable() {
    let (result, new_probe, _) = compute_recovery_action(
        RecoveryAction::RetryContinuityProbe,
        1_000,
        None,
        None,
        false,
        false,
        15_000,
        5_000,
    );
    assert_eq!(result.code, RecoveryResultCode::Unavailable);
    assert_eq!(
        result.detail.as_deref(),
        Some("continuity probe unavailable in current startup mode")
    );
    assert_eq!(new_probe, None);
}

#[test]
fn probe_retry_rejected_when_in_flight() {
    let (result, new_probe, _) = compute_recovery_action(
        RecoveryAction::RetryContinuityProbe,
        2_000,
        Some(1_000),
        None,
        true,
        true,
        15_000,
        5_000,
    );
    assert_eq!(result.code, RecoveryResultCode::Unavailable);
    assert_eq!(result.detail.as_deref(), Some("continuity probe already in flight"));
    assert_eq!(new_probe, Some(1_000));
}

#[test]
fn clearing_the_banner_is_always_accepted_and_changes_nothing() {
    let (result, p, a) = compute_recovery_action(
        RecoveryAction::ClearRecoveryBanner,
        5,
        Some(1),
        Some(2),
        false,
        true,
        100,
        100,
    );
    assert_eq!(result.code, RecoveryResultCode::Accepted);
    assert_eq!(result.detail, None);
    assert_eq!((p, a), (Some(1), Some(2)));
    // A clock that went backwards counts as no time elapsed.
    let (result, _, a) = compute_recovery_action(
        RecoveryAction::RefreshVisibleAssets,
        10,
        None,
        Some(50),
        true,
        false,
        0,
        30,
    );
    assert_eq!(result.code, RecoveryResultCode::CooldownActive);
    assert_eq!(result.cooldown_remaining_ms, Some(30));
    assert_eq!(a, Some(50));
}

#[test]
fn reconnect_backoff_doubles_with_jitter_and_cap() {
    assert_eq!(reconnect_backoff_ms_at(0, 0), 500);
    assert_eq!(reconnect_backoff_ms_at(1, 0), 1000);
    assert_eq!(reconnect_backoff_ms_at(3, 351), 4001);
    assert_eq!(reconnect_backoff_ms_at(0, (1u64 << 32) + 10), 510);
    assert_eq!(reconnect_backoff_ms_at(5, 0), 15000);
    assert_eq!(reconnect_backoff_ms_at(40, 349), 15000);
    let now = reconnect_backoff_duration(0);
    assert!((500..850).contains(&now));
}

#[test]
fn keepalive_interval_is_fewest_ticks_spanning_the_period() {
    for tick in [1u64, 7, 60, 250, 333, 999, 1000, 1001, 5000] {
        let r = agent_update_keepalive_interval_ticks(tick);
        assert!(r >= 1);
        assert!(r * tick >= 1000);
        assert!((r - 1) * tick < 1000);
    }
}
