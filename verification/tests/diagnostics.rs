use sl_viewer::diagnostics::{
    format_message_number_counts, format_optional_index, format_transcript_side,
    format_u32_list_hex, push_protocol_event, summarize_key_list, summarize_scalar_map,
    MAX_PROTOCOL_EVENTS, format_capability_host_family_tag, format_capability_url_family,
    format_classified_url, summarize_region_handshake_reply_send_evidence,
    summarize_non_baseline_caps_by_host, summarize_seed_capability_inventory,
    CapabilityUrlClassification, CapabilityUrlFamily,
    SeedCapabilityInventoryEntry, REGION_HANDSHAKE_REPLY_MESSAGE_NUMBER,
    classify_session_residency, EventQueueEvidence, RegionTransitionCounts,
    StartupTimelineIndices, format_mesh_fetch_attempt_line, AssetFetchAttemptSummary,
    parallel_protocol_summary,
};
use sl_viewer::capability::MeshCapabilityRequestCandidate;

#[test]
fn protocol_event_log_keeps_the_latest_entries() {
    let mut events = Vec::new();
    for i in 0..30 {
        push_protocol_event(&mut events, format!("event-{i}"));
    }
    assert_eq!(events.len(), MAX_PROTOCOL_EVENTS);
    assert_eq!(events[0], "event-6");
    assert_eq!(events[23], "event-29");
}

#[test]
fn optional_index_text() {
    assert_eq!(format_optional_index(Some(12)), "12");
    assert_eq!(format_optional_index(Some(0)), "0");
    assert_eq!(format_optional_index(None), "none");
}

#[test]
fn message_numbers_in_hex() {
    assert_eq!(format_u32_list_hex(&[0xFFFF_0095, 1]), "0xffff0095,0x00000001");
    assert_eq!(format_u32_list_hex(&[]), "none");
    assert_eq!(
        format_message_number_counts(&[(0xFFFF_0095, 3), (4, 0)]),
        "0xffff0095:3,0x00000004:0"
    );
    assert_eq!(format_message_number_counts(&[]), "none");
}

#[test]
fn transcript_and_key_summaries() {
    let side = vec![String::from("UseCircuitCode"), String::from("CompleteAgentMovement")];
    assert_eq!(format_transcript_side(&side), "UseCircuitCode | CompleteAgentMovement");
    assert_eq!(format_transcript_side(&[]), "none");
    let keys: Vec<String> = (0..10).map(|i| format!("k{i}")).collect();
    assert_eq!(summarize_key_list(&keys), "k0,k1,k2,k3,k4,k5,k6,k7");
    assert_eq!(summarize_key_list(&keys[..2]), "k0,k1");
    assert_eq!(summarize_key_list(&[]), "none");
}

#[test]
fn scalar_map_summary() {
    let values = vec![
        (String::from("a"), String::from("1")),
        (String::from("b"), String::from("two")),
    ];
    assert_eq!(summarize_scalar_map(&values), "a=1;b=two");
    assert_eq!(summarize_scalar_map(&[]), "none");
}

#[test]
fn classified_capability_urls() {
    let cdn = CapabilityUrlClassification {
        family: CapabilityUrlFamily::AssetCdn,
        host: Some(String::from("asset-cdn.agni.lindenlab.com")),
        port: Some(443),
    };
    assert_eq!(format_classified_url(&cdn), "asset-cdn@asset-cdn.agni.lindenlab.com:443");
    assert_eq!(format_capability_host_family_tag(&cdn), "host_family=asset-cdn");
    let web = CapabilityUrlClassification {
        family: CapabilityUrlFamily::GenericWeb,
        host: Some(String::from("localhost")),
        port: None,
    };
    assert_eq!(format_classified_url(&web), "generic-web@localhost");
    assert_eq!(format_capability_host_family_tag(&web), "host_family=localhost");
    let unknown = CapabilityUrlClassification { family: CapabilityUrlFamily::Unknown, host: None, port: None };
    assert_eq!(format_classified_url(&unknown), "unknown@?");
    assert_eq!(format_capability_host_family_tag(&unknown), "host_family=unknown-host");
    assert_eq!(format_capability_url_family(CapabilityUrlFamily::SimulatorHost12043), "simhost:12043");
    assert_eq!(format_capability_url_family(CapabilityUrlFamily::PhoenixViewer), "phoenixviewer");
}

#[test]
fn handshake_reply_evidence_counts_and_first_position() {
    let reply = Some(REGION_HANDSHAKE_REPLY_MESSAGE_NUMBER);
    assert_eq!(REGION_HANDSHAKE_REPLY_MESSAGE_NUMBER, 0xFFFF_0000 | 149);
    assert_eq!(summarize_region_handshake_reply_send_evidence(&[None, Some(3), reply, reply]), (2, Some(3)));
    assert_eq!(summarize_region_handshake_reply_send_evidence(&[Some(3), None]), (0, None));
    assert_eq!(summarize_region_handshake_reply_send_evidence(&[]), (0, None));
}

fn inventory(name: &str, family: CapabilityUrlFamily, host: &str, port: Option<u16>) -> SeedCapabilityInventoryEntry {
    SeedCapabilityInventoryEntry {
        name: String::from(name),
        classification: CapabilityUrlClassification { family, host: Some(String::from(host)), port },
    }
}

#[test]
fn seed_capability_inventory_counts_families_in_label_order() {
    let entries = vec![
        inventory("EventQueueGet", CapabilityUrlFamily::SimulatorHost12043, "sim1.agni.lindenlab.com", Some(12043)),
        inventory("GetTexture", CapabilityUrlFamily::AssetCdn, "asset-cdn.agni.lindenlab.com", None),
        inventory("GetMesh", CapabilityUrlFamily::AssetCdn, "asset-cdn.agni.lindenlab.com", None),
    ];
    assert_eq!(
        summarize_seed_capability_inventory(&entries),
        "families=asset-cdn:2,simhost:12043:1 entries=\
EventQueueGet=simhost:12043@sim1.agni.lindenlab.com:12043;\
GetTexture=asset-cdn@asset-cdn.agni.lindenlab.com;\
GetMesh=asset-cdn@asset-cdn.agni.lindenlab.com"
    );
    assert_eq!(summarize_seed_capability_inventory(&[]), "none");
}

fn classified(family: CapabilityUrlFamily, host: Option<&str>) -> CapabilityUrlClassification {
    CapabilityUrlClassification { family, host: host.map(String::from), port: None }
}

#[test]
fn non_baseline_caps_grouped_by_host_family() {
    let cdn = Some("asset-cdn.agni.lindenlab.com");
    let entries = vec![
        (String::from("EventQueueGet"), classified(CapabilityUrlFamily::SimulatorHost12043, Some("sim1.agni.lindenlab.com"))),
        (String::from("FetchInventory2"), classified(CapabilityUrlFamily::GenericWeb, Some("cap.agni.lindenlab.com"))),
        (String::from("GetMesh"), classified(CapabilityUrlFamily::AssetCdn, cdn)),
        (String::from("GetTexture"), classified(CapabilityUrlFamily::AssetCdn, cdn)),
        (String::from("ViewerAsset"), classified(CapabilityUrlFamily::AssetCdn, cdn)),
        (String::from("Zeta"), classified(CapabilityUrlFamily::Unknown, None)),
    ];
    assert_eq!(
        summarize_non_baseline_caps_by_host(&entries, 2),
        "asset-cdn:count=3 names=GetMesh,GetTexture (+1 more); cap:count=1 names=FetchInventory2; unknown-host:count=1 names=Zeta"
    );
    assert_eq!(
        summarize_non_baseline_caps_by_host(&entries[2..4], 0),
        "asset-cdn:count=2 names=GetMesh (+1 more)"
    );
    assert_eq!(summarize_non_baseline_caps_by_host(&entries[..1], 3), "none");
    assert_eq!(summarize_non_baseline_caps_by_host(&[], 3), "none");
}

#[test]
fn session_residency_classification_states_and_evidence() {
    let timeline = StartupTimelineIndices {
        first_agent_movement_complete_index: Some(3),
        first_region_handshake_index: Some(5),
        first_region_handshake_reply_index: None,
        ..StartupTimelineIndices::default()
    };
    let region = RegionTransitionCounts::default();
    let eq = EventQueueEvidence {
        has_observed_ok: true,
        ..EventQueueEvidence::default()
    };
    let r = classify_session_residency(&timeline, &region, &eq);
    assert_eq!(r.state, "root_likely");
    assert_eq!(
        r.evidence,
        vec![
            "amc=3",
            "region_handshake=5",
            "region_handshake_reply=none",
            "eq_ok=true",
            "eq_failures=0",
            "eq_cap_not_found=0",
            "eq_sim_targets=0",
            "eq_enable_simulator=0",
            "region_crossed=0",
            "region_confirm_enable=0",
        ]
    );

    let child = RegionTransitionCounts {
        observations: 1,
        crossed_region: 1,
        confirm_enable_simulator: 0,
    };
    assert_eq!(classify_session_residency(&timeline, &child, &eq).state, "child_likely");

    let failing = EventQueueEvidence {
        cap_not_found_failures: 2,
        ..eq
    };
    let r = classify_session_residency(&timeline, &child, &failing);
    assert_eq!(r.state, "degraded");
    assert_eq!(r.evidence[5], "eq_cap_not_found=2");

    let no_ok = EventQueueEvidence::default();
    assert_eq!(classify_session_residency(&timeline, &region, &no_ok).state, "unknown");
}

#[test]
fn mesh_fetch_attempt_line_reports_candidate_status_and_extras() {
    let candidate = MeshCapabilityRequestCandidate {
        capability_name: String::from("GetMesh2"),
        url_variant: String::from("mesh_id"),
        url: String::from("https://sim.example:12043/cap/abc?mesh_id=m1"),
    };
    let ok = AssetFetchAttemptSummary {
        url_family: CapabilityUrlFamily::SimulatorHost12043,
        range_header: Some(String::from("bytes=0-599")),
        status: Some(206),
        status_bucket: None,
        error: None,
    };
    assert_eq!(
        format_mesh_fetch_attempt_line("m1", 2, Some(&candidate), &ok),
        "attempt id=m1 lod=2 cap=GetMesh2 family=simhost:12043 url_variant=mesh_id range=bytes=0-599 status=206"
    );

    let failed = AssetFetchAttemptSummary {
        url_family: CapabilityUrlFamily::Unknown,
        range_header: None,
        status: None,
        status_bucket: Some(String::from("not_found")),
        error: Some(String::from("timed out")),
    };
    assert_eq!(
        format_mesh_fetch_attempt_line("m2", 0, None, &failed),
        "attempt id=m2 lod=0 cap=unknown family=unknown url_variant=unknown range=none status=transport_error bucket=not_found error=timed out"
    );
}

#[test]
fn parallel_protocol_summary_lines() {
    let region = RegionTransitionCounts {
        observations: 3,
        crossed_region: 1,
        confirm_enable_simulator: 2,
    };
    let url = CapabilityUrlClassification {
        family: CapabilityUrlFamily::SimulatorHost12043,
        host: Some(String::from("sim1.example")),
        port: Some(12043),
    };
    let events = vec![String::from("EQ:ok"), String::from("Seed:ok")];
    let lines = parallel_protocol_summary("r1", "caps=12", &events, Some(&url), 7, 0, &region);
    assert_eq!(
        lines,
        vec![
            "r1 caps: caps=12",
            "r1 flow: event_queue_url=simhost:12043@sim1.example:12043 event_ack=7 eq_failures=0 region_ctrl=3 crossed=1 confirm=2 events=EQ:ok | Seed:ok",
        ]
    );
    let lines = parallel_protocol_summary("r1", "none", &[], None, 0, 2, &RegionTransitionCounts::default());
    assert_eq!(
        lines[1],
        "r1 flow: event_queue_url=none event_ack=0 eq_failures=2 region_ctrl=0 crossed=0 confirm=0 events=none"
    );
}
