use sl_viewer::diagnostics::StartupTimelineIndices;
use sl_viewer::startup_gates::{
    format_local_id_preview, format_lludp_startup_object_gate_line,
    format_startup_interest_gate_line, has_nonzero_local_id_evidence, sorted_nonzero_ids,
    summarize_event_queue_message_names, ObjectFeedDecodeSummary, StartupInterestGateEntry,
    StartupInterestGateSummary, summarize_receive_kinds, format_receive_kind_counts,
    format_object_feed_message_family_counts, format_object_feed_mesh_hit_counts,
    ObjectFeedFamilyCounts, first_simulator_forensics_summary, format_first_simulator_socket_diagnostic,
    summarize_first_simulator_socket_tail, AckForensics, FirstSimulatorSocketDiagnostic,
    ReceiveForensics, StartupTranscript,
};

#[test]
fn local_ids_are_sorted_deduplicated_and_nonzero() {
    assert_eq!(sorted_nonzero_ids(&[5, 0, 3, 5, 9, 3, 0]), vec![3, 5, 9]);
    assert_eq!(sorted_nonzero_ids(&[0, 0]), Vec::<u32>::new());
    assert_eq!(sorted_nonzero_ids(&[]), Vec::<u32>::new());
}

#[test]
fn local_id_preview_limits_and_reports_none() {
    assert_eq!(format_local_id_preview(&[7, 2, 0, 7, 11], 8), "2,7,11");
    assert_eq!(format_local_id_preview(&[7, 2, 0, 7, 11], 2), "2,7");
    assert_eq!(format_local_id_preview(&[7, 2, 11], 0), "2");
    assert_eq!(format_local_id_preview(&[0, 0], 8), "none");
    assert_eq!(format_local_id_preview(&[], 8), "none");
}

#[test]
fn nonzero_local_id_evidence() {
    assert!(!has_nonzero_local_id_evidence(&[]));
    assert!(!has_nonzero_local_id_evidence(&[0, 0, 0]));
    assert!(has_nonzero_local_id_evidence(&[0, 4, 0]));
}

#[test]
fn object_gate_line_passes_with_update_and_local_ids() {
    let timeline = StartupTimelineIndices {
        first_object_update_index: Some(12),
        ..StartupTimelineIndices::default()
    };
    let decoded = ObjectFeedDecodeSummary {
        object_feed_update_messages: 3,
        object_feed_total_objects: 5,
        object_local_ids: vec![42, 0, 17, 42],
    };
    assert_eq!(
        format_lludp_startup_object_gate_line("sim", &timeline, &decoded),
        "sim lludp_object_gate: verdict=PASS object_update=12 update_messages=3 total_objects=5 local_ids=17,42"
    );

    let no_update = StartupTimelineIndices::default();
    assert_eq!(
        format_lludp_startup_object_gate_line("sim", &no_update, &decoded),
        "sim lludp_object_gate: verdict=FAIL object_update=none update_messages=3 total_objects=5 local_ids=17,42"
    );

    let zero_ids = ObjectFeedDecodeSummary {
        object_local_ids: vec![0],
        ..decoded
    };
    assert_eq!(
        format_lludp_startup_object_gate_line("sim", &timeline, &zero_ids),
        "sim lludp_object_gate: verdict=FAIL object_update=12 update_messages=3 total_objects=5 local_ids=none"
    );
}

#[test]
fn interest_gate_line_lists_required_and_missing() {
    let passed = StartupInterestGateSummary {
        passed: true,
        required: vec![
            StartupInterestGateEntry {
                message: String::from("AgentUpdate"),
                order_index: 4,
                packet_id: 7,
            },
            StartupInterestGateEntry {
                message: String::from("SetAlwaysRun"),
                order_index: 5,
                packet_id: 8,
            },
        ],
        missing: vec![],
    };
    assert_eq!(
        format_startup_interest_gate_line("a", &passed),
        "a startup_interest_gate: verdict=PASS required=AgentUpdate@4#7,SetAlwaysRun@5#8 missing=none classification=ok"
    );

    let failed = StartupInterestGateSummary {
        passed: false,
        required: vec![],
        missing: vec![String::from("AgentUpdate"), String::from("AgentThrottle")],
    };
    assert_eq!(
        format_startup_interest_gate_line("b", &failed),
        "b startup_interest_gate: verdict=FAIL required=none missing=AgentUpdate,AgentThrottle classification=startup_send_path_defect"
    );
}

#[test]
fn event_queue_message_names_are_counted_in_name_order() {
    let names: Vec<String> = ["TeleportFinish", "EnableSimulator", "TeleportFinish", "CrossedRegion"]
        .iter()
        .map(|s| s.to_string())
        .collect();
    assert_eq!(
        summarize_event_queue_message_names(&names, 8),
        "CrossedRegion:1,EnableSimulator:1,TeleportFinish:2"
    );
    assert_eq!(
        summarize_event_queue_message_names(&names, 2),
        "CrossedRegion:1,EnableSimulator:1"
    );
    assert_eq!(summarize_event_queue_message_names(&names, 0), "");
    assert_eq!(summarize_event_queue_message_names(&[], 6), "none");
}

#[test]
fn receive_kinds_are_counted_without_limit() {
    let kinds: Vec<String> = ["RegionHandshake", "AgentMovementComplete", "RegionHandshake"]
        .iter()
        .map(|s| s.to_string())
        .collect();
    assert_eq!(
        summarize_receive_kinds(&kinds),
        "AgentMovementComplete:1,RegionHandshake:2"
    );
    assert_eq!(summarize_receive_kinds(&[]), "none");
    assert_eq!(
        format_receive_kind_counts(&[(String::from("Ack"), 3), (String::from("Ping"), 1)]),
        "Ack:3,Ping:1"
    );
    assert_eq!(format_receive_kind_counts(&[]), "none");
}

#[test]
fn object_feed_family_counts_text() {
    let c = ObjectFeedFamilyCounts {
        object_update: 1,
        object_update_compressed: 2,
        object_extra_params: 3,
        improved_terse: 4,
    };
    assert_eq!(
        format_object_feed_message_family_counts(&c),
        "ObjectUpdate:1,ObjectUpdateCompressed:2,ObjectExtraParams:3,ImprovedTerseObjectUpdate:4"
    );
    assert_eq!(
        format_object_feed_mesh_hit_counts(&c),
        "ObjectUpdate:1,ObjectUpdateCompressed:2,ObjectExtraParams:3"
    );
}

fn socket_event(index: usize, number: Option<u32>) -> FirstSimulatorSocketDiagnostic {
    FirstSimulatorSocketDiagnostic {
        event_index: index,
        kind: String::from("Send"),
        local_addr: Some(String::from("0.0.0.0:5000")),
        remote_target: None,
        packet_message_number: number,
        payload_len: number.map(|_| 42),
        reason: String::from("UseCircuitCode"),
    }
}

#[test]
fn socket_diagnostic_line_and_tail() {
    assert_eq!(
        format_first_simulator_socket_diagnostic(&socket_event(3, Some(0xffff0003))),
        "#3:Send@0.0.0.0:5000->? m=0xffff0003 len=42 UseCircuitCode"
    );
    assert_eq!(
        format_first_simulator_socket_diagnostic(&socket_event(4, None)),
        "#4:Send@0.0.0.0:5000->? m=- len=- UseCircuitCode"
    );
    assert_eq!(
        format_first_simulator_socket_diagnostic(&socket_event(0, Some(0x1b))),
        "#0:Send@0.0.0.0:5000->? m=0x1b len=42 UseCircuitCode"
    );
    let events = vec![socket_event(1, None), socket_event(2, None), socket_event(3, Some(16))];
    assert_eq!(
        summarize_first_simulator_socket_tail(&events, 2),
        "#2:Send@0.0.0.0:5000->? m=- len=- UseCircuitCode | #3:Send@0.0.0.0:5000->? m=0x10 len=42 UseCircuitCode"
    );
    assert_eq!(summarize_first_simulator_socket_tail(&events, 0), "");
    assert_eq!(summarize_first_simulator_socket_tail(&[], 4), "none");
    assert_eq!(
        summarize_first_simulator_socket_tail(&events, 10).matches(" | ").count(),
        2
    );
}

#[test]
fn forensics_summary_lines() {
    let ack = AckForensics {
        pending_ack_count: 2,
        pending_ack_ids_preview: vec![1, 0xab],
        outbound_appended_ack_sends: 0,
        outbound_appended_ack_ids_last: vec![],
        explicit_packet_ack_receives: 1,
        first_packet_ack_receive_index: Some(7),
    };
    let receive = ReceiveForensics {
        receive_observations: 5,
        raw_packet_message_numbers: vec![(0xffff0001, 2)],
        unclassified_packet_message_numbers: vec![],
        typed_kind_counts: vec![(String::from("RegionHandshake"), 1)],
    };
    let timeline = StartupTimelineIndices {
        first_region_handshake_index: Some(2),
        first_packet_ack_index: Some(7),
        ..StartupTimelineIndices::default()
    };
    let transcript = StartupTranscript {
        send_events: vec![String::from("UseCircuitCode"), String::from("CompleteAgentMovement")],
        receive_events: vec![],
    };
    let lines = first_simulator_forensics_summary("sim", &ack, &receive, &timeline, &transcript);
    assert_eq!(
        lines,
        vec![
            "sim ack: pending=2 preview=0x00000001,0x000000ab appended_sends=0 last_appended=none explicit_packet_ack=1 first_packet_ack_idx=7",
            "sim recv: obs=5 raw=0xffff0001:2 unclassified=none typed=RegionHandshake:1",
            "sim timeline: region_handshake=2 region_handshake_reply=none amc=none packet_ack=7 camera_constraint=none generic_message=none object_update=none",
            "sim transcript: sends=UseCircuitCode | CompleteAgentMovement receives=none",
        ]
    );
}
