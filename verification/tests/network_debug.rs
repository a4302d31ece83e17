use sl_viewer::network_debug::{
    append_network_debug_line, network_debug_json_line, NetworkDebugSection, NetworkDebugState,
    NETWORK_DEBUG_SECTION_MAX_LINES,
};
use sl_viewer::session_control::RuntimeRelayLevel;

#[test]
fn network_debug_sections_keep_their_last_lines() {
    let mut debug = NetworkDebugState { sections: Vec::new() };
    append_network_debug_line(&mut debug, "event_queue", String::from("first"));
    assert_eq!(debug.sections.len(), 1);
    assert_eq!(debug.sections[0].title, "event_queue");
    assert_eq!(debug.sections[0].lines, vec![String::from("first")]);

    for n in 0..10 {
        append_network_debug_line(&mut debug, "event_queue", format!("line {n}"));
    }
    assert_eq!(debug.sections.len(), 1);
    assert_eq!(debug.sections[0].lines.len(), NETWORK_DEBUG_SECTION_MAX_LINES);
    assert_eq!(debug.sections[0].lines[0], "line 2");
    assert_eq!(debug.sections[0].lines[7], "line 9");

    append_network_debug_line(&mut debug, "social", String::from("hello"));
    assert_eq!(debug.sections.len(), 2);
    assert_eq!(debug.sections[1].lines, vec![String::from("hello")]);
}

#[test]
fn set_section_lines_replaces_or_appends() {
    let mut debug = NetworkDebugState {
        sections: vec![NetworkDebugSection { title: String::from("a"), lines: vec![String::from("x")] }],
    };
    debug.set_section_lines("a", vec![String::from("y"), String::from("z")]);
    assert_eq!(debug.sections.len(), 1);
    assert_eq!(debug.sections[0].lines, vec![String::from("y"), String::from("z")]);
    debug.set_section_lines("b", Vec::new());
    assert_eq!(debug.sections.len(), 2);
    assert_eq!(debug.sections[1].title, "b");
}

#[test]
fn network_debug_json_line_softens_quotes() {
    assert_eq!(
        network_debug_json_line(1700, RuntimeRelayLevel::Warn, "object_feed", "said \"hi\""),
        "{\"ts\":1700,\"level\":\"Warn\",\"category\":\"object_feed\",\"message\":\"said 'hi'\"}\n"
    );
    assert_eq!(
        network_debug_json_line(0, RuntimeRelayLevel::Info, "a\"b", ""),
        "{\"ts\":0,\"level\":\"Info\",\"category\":\"a'b\",\"message\":\"\"}\n"
    );
}
