use sl_viewer::session_control::{
    apply_reconnect_teleport_request, apply_u09_shortcut, RuntimeRelayLevel, ShortcutKey,
};
use sl_viewer::start_location::{StartLocation, StartLocationIntent};

#[test]
fn apply_u09_shortcut_routes_f1_f2_f3_as_bounded_policy() {
    let mut show_diag = false;
    let mut show_social = false;
    let mut focus_cont = false;
    let mut focus_social = false;

    apply_u09_shortcut(
        ShortcutKey::F1,
        &mut show_diag,
        &mut show_social,
        &mut focus_cont,
        &mut focus_social,
    );
    assert!(show_diag);
    assert!(!show_social);
    assert!(!focus_cont);
    assert!(!focus_social);

    apply_u09_shortcut(
        ShortcutKey::F2,
        &mut show_diag,
        &mut show_social,
        &mut focus_cont,
        &mut focus_social,
    );
    assert!(show_diag);
    assert!(focus_cont);
    assert!(!focus_social);

    show_social = false;
    focus_social = false;
    apply_u09_shortcut(
        ShortcutKey::F3,
        &mut show_diag,
        &mut show_social,
        &mut focus_cont,
        &mut focus_social,
    );
    assert!(show_social);
    assert!(focus_social);
}

#[test]
fn f1_toggles_and_other_keys_change_nothing() {
    let (mut d, mut s, mut fc, mut fs) = (true, false, false, false);
    apply_u09_shortcut(ShortcutKey::F1, &mut d, &mut s, &mut fc, &mut fs);
    assert!(!d);
    apply_u09_shortcut(ShortcutKey::Other, &mut d, &mut s, &mut fc, &mut fs);
    assert_eq!((d, s, fc, fs), (false, false, false, false));
}

#[test]
fn teleport_request_accepted_sets_reconnect() {
    let mut active = StartLocationIntent::Saved(StartLocation::Last);
    let mut reason: Option<String> = None;
    let mut pending = false;
    let (taken, line) = apply_reconnect_teleport_request(
        &mut active,
        &mut reason,
        &mut pending,
        "home",
        "chat",
    );
    assert!(taken);
    assert!(pending);
    assert_eq!(active, StartLocationIntent::Saved(StartLocation::Home));
    assert_eq!(reason.as_deref(), Some("teleporting to home"));
    assert_eq!(line.level, RuntimeRelayLevel::Info);
    assert_eq!(line.category, "teleport");
    assert_eq!(
        line.message,
        "reconnect teleport requested source=chat input=home target=home"
    );
}

#[test]
fn teleport_request_ignored_while_reconnect_pending() {
    let mut active = StartLocationIntent::Saved(StartLocation::Last);
    let mut reason: Option<String> = Some(String::from("earlier"));
    let mut pending = true;
    let (taken, line) = apply_reconnect_teleport_request(
        &mut active,
        &mut reason,
        &mut pending,
        "home",
        "ui",
    );
    assert!(!taken);
    assert_eq!(active, StartLocationIntent::Saved(StartLocation::Last));
    assert_eq!(reason.as_deref(), Some("earlier"));
    assert_eq!(line.level, RuntimeRelayLevel::Warn);
    assert_eq!(
        line.message,
        "teleport request ignored source=ui input=home reason=reconnect_already_pending"
    );
}

#[test]
fn teleport_request_rejected_for_unreadable_location() {
    let mut active = StartLocationIntent::Saved(StartLocation::Last);
    let mut reason: Option<String> = None;
    let mut pending = false;
    let (taken, line) = apply_reconnect_teleport_request(
        &mut active,
        &mut reason,
        &mut pending,
        "   ",
        "auto",
    );
    assert!(!taken);
    assert!(!pending);
    assert_eq!(reason, None);
    assert_eq!(line.level, RuntimeRelayLevel::Warn);
    assert_eq!(
        line.message,
        "teleport request rejected source=auto input=    reason=empty start location"
    );
}
