use sl_viewer::social::FriendEntry;
use sl_viewer::world_avatars::{
    avatar_name_ids_to_resolve, merge_world_avatar_samples, PositionBits, WorkerWorldAvatarSample, WorldAvatar,
};
use std::collections::BTreeMap;

fn pos(x: f32, y: f32, z: f32) -> PositionBits {
    PositionBits { x: x.to_bits(), y: y.to_bits(), z: z.to_bits() }
}

fn sample(agent_id: Option<&str>, is_self: bool, xyz: [u8; 3], at: PositionBits) -> WorkerWorldAvatarSample {
    WorkerWorldAvatarSample {
        agent_id: agent_id.map(String::from),
        is_self,
        sim_name: None,
        xyz,
        world_position_bits: at,
    }
}

fn ev(kind: &str, text: &str) -> (String, String) {
    (String::from(kind), String::from(text))
}

fn merge(
    current: &mut Vec<WorldAvatar>,
    cache: &BTreeMap<String, String>,
    samples: &[WorkerWorldAvatarSample],
    now: u64,
) -> Vec<(String, String)> {
    merge_world_avatar_samples(current, &[], cache, Some("Ahern"), Some("Startup"), samples, now, 1000)
}

#[test]
fn new_samples_are_seen_with_fallback_ids_and_labels() {
    let mut current = Vec::new();
    let cache = BTreeMap::new();
    let samples = vec![
        sample(None, true, [1, 2, 3], pos(1.0, 2.0, 3.0)),
        sample(None, false, [4, 5, 6], pos(4.0, 5.0, 6.0)),
        sample(Some("0123456789abcdef"), false, [7, 8, 9], pos(7.0, 8.0, 9.0)),
    ];
    let events = merge(&mut current, &cache, &samples, 5000);
    assert_eq!(
        events,
        vec![
            ev("avatar_seen", "self You"),
            ev("avatar_seen", "coarse-2 coarse-2"),
            ev("avatar_seen", "0123456789abcdef 01234567"),
        ]
    );
    assert_eq!(current.len(), 3);
    assert_eq!(current[0].agent_id, "self");
    assert_eq!(current[0].display_name, "You");
    assert!(current[0].is_self);
    assert_eq!(current[1].agent_id, "coarse-2");
    assert_eq!(current[2].local_position, Some([7, 8, 9]));
    assert_eq!(current[2].sim_name.as_deref(), Some("Ahern"));
    assert_eq!(current[2].last_update_unix_ms, 5000);
    assert!(!current[2].stale);
    assert_eq!(current[2].world_position_bits, pos(7.0, 8.0, 9.0));
}

#[test]
fn a_sample_for_a_known_avatar_updates_it_in_place() {
    let mut current = Vec::new();
    let mut cache = BTreeMap::new();
    let agent = "0123456789abcdef";
    merge(&mut current, &cache, &[sample(Some(agent), false, [1, 1, 1], pos(1.0, 1.0, 1.0))], 100);

    let same_place = merge(&mut current, &cache, &[sample(Some(agent), false, [1, 1, 1], pos(1.0, 1.0, 1.0))], 200);
    assert!(same_place.is_empty());
    assert_eq!(current.len(), 1);
    assert_eq!(current[0].last_update_unix_ms, 200);

    cache.insert(String::from(agent), String::from("Cached Name"));
    let moved = merge(&mut current, &cache, &[sample(Some(agent), false, [2, 1, 1], pos(2.0, 1.0, 1.0))], 300);
    assert_eq!(
        moved,
        vec![
            ev("avatar_updated", "0123456789abcdef moved"),
            ev("avatar_name_resolved", "0123456789abcdef -> Cached Name (01234567)"),
        ]
    );
    assert_eq!(current.len(), 1);
    assert_eq!(current[0].display_name, "Cached Name (01234567)");
    assert_eq!(current[0].local_position, Some([2, 1, 1]));
}

#[test]
fn quiet_avatars_go_stale_then_are_removed_after_three_windows() {
    let mut current = Vec::new();
    let cache = BTreeMap::new();
    merge(&mut current, &cache, &[sample(Some("agent-one"), false, [1, 1, 1], pos(1.0, 1.0, 1.0))], 1000);

    assert!(merge(&mut current, &cache, &[], 2000).is_empty());
    assert!(!current[0].stale);

    assert_eq!(merge(&mut current, &cache, &[], 2001), vec![ev("avatar_stale", "agent-one")]);
    assert!(current[0].stale);
    assert!(merge(&mut current, &cache, &[], 4000).is_empty());
    assert_eq!(current.len(), 1);

    let refreshed = merge(&mut current, &cache, &[sample(Some("agent-one"), false, [1, 1, 1], pos(1.0, 1.0, 1.0))], 4000);
    assert_eq!(refreshed, vec![ev("avatar_updated", "agent-one moved")]);
    assert!(!current[0].stale);

    assert_eq!(
        merge(&mut current, &cache, &[], 7001),
        vec![ev("avatar_stale", "agent-one"), ev("avatar_removed", "agent-one")]
    );
    assert!(current.is_empty());
}

#[test]
fn the_sample_region_wins_over_the_fallbacks() {
    let mut current = Vec::new();
    let cache = BTreeMap::new();
    let mut own = sample(Some("agent-two"), false, [0, 0, 0], pos(0.0, 0.0, 0.0));
    own.sim_name = Some(String::from("  Morris  "));
    merge_world_avatar_samples(&mut current, &[], &cache, Some("  "), None, &[own], 10, 1000);
    assert_eq!(current[0].sim_name.as_deref(), Some("Morris"));

    let bare = sample(Some("agent-three"), false, [0, 0, 0], pos(0.0, 0.0, 0.0));
    merge_world_avatar_samples(&mut current, &[], &cache, Some("  "), None, &[bare], 10, 1000);
    assert_eq!(current[1].sim_name.as_deref(), Some("unknown"));
    let friends = vec![FriendEntry {
        id: String::from("agent-four"),
        display_name: Some(String::from("Pal")),
        name_source: None,
        last_name_resolved_unix_ms: None,
        online: true,
        rights_has: 0,
        rights_given: 0,
        last_changed_unix_ms: 0,
    }];
    let events = merge_world_avatar_samples(
        &mut current,
        &friends,
        &cache,
        None,
        Some("Startup"),
        &[sample(Some("agent-four"), false, [0, 0, 0], pos(0.0, 0.0, 0.0))],
        10,
        1000,
    );
    assert_eq!(events, vec![ev("avatar_seen", "agent-four Pal (agent-fo)")]);
    assert_eq!(current[2].sim_name.as_deref(), Some("Startup"));
}

#[test]
fn one_avatar_per_id_when_a_poll_repeats_an_agent() {
    let mut current = Vec::new();
    let cache = BTreeMap::new();
    let samples = vec![
        sample(Some("agent-five"), false, [1, 1, 1], pos(1.0, 1.0, 1.0)),
        sample(Some("agent-five"), false, [2, 2, 2], pos(2.0, 2.0, 2.0)),
    ];
    let events = merge(&mut current, &cache, &samples, 50);
    assert_eq!(
        events,
        vec![ev("avatar_seen", "agent-five agent-fi"), ev("avatar_updated", "agent-five moved")]
    );
    assert_eq!(current.len(), 1);
    assert_eq!(current[0].local_position, Some([2, 2, 2]));
    assert_eq!(current[0].last_update_unix_ms, 50);
    assert!(!current[0].stale);
}

#[test]
fn names_are_looked_up_every_fortieth_tick_for_unknown_others() {
    let samples = vec![
        sample(Some("me"), true, [0, 0, 0], pos(0.0, 0.0, 0.0)),
        sample(Some("known"), false, [0, 0, 0], pos(0.0, 0.0, 0.0)),
        sample(None, false, [0, 0, 0], pos(0.0, 0.0, 0.0)),
        sample(Some("stranger"), false, [0, 0, 0], pos(0.0, 0.0, 0.0)),
        sample(Some("other"), false, [0, 0, 0], pos(0.0, 0.0, 0.0)),
    ];
    let known = vec![String::from("known")];
    assert_eq!(
        avatar_name_ids_to_resolve(80, &samples, "me", &known),
        vec![String::from("stranger"), String::from("other")]
    );
    assert_eq!(avatar_name_ids_to_resolve(0, &samples, "me", &[]).len(), 3);
    assert!(avatar_name_ids_to_resolve(81, &samples, "me", &known).is_empty());
}

#[test]
fn positions_compare_as_floats() {
    let mut current = Vec::new();
    let cache = BTreeMap::new();
    merge(&mut current, &cache, &[sample(Some("agent-six"), false, [0, 0, 0], pos(0.0, 1.0, 2.0))], 10);
    // -0.0 equals 0.0, so the avatar has not moved.
    let same = merge(&mut current, &cache, &[sample(Some("agent-six"), false, [0, 0, 0], pos(-0.0, 1.0, 2.0))], 20);
    assert!(same.is_empty());
    assert_eq!(current[0].world_position_bits, pos(-0.0, 1.0, 2.0));
    // NaN never equals itself, so an avatar at NaN always moves.
    merge(&mut current, &cache, &[sample(Some("agent-six"), false, [0, 0, 0], pos(f32::NAN, 1.0, 2.0))], 30);
    let nan = merge(&mut current, &cache, &[sample(Some("agent-six"), false, [0, 0, 0], pos(f32::NAN, 1.0, 2.0))], 40);
    assert_eq!(nan, vec![ev("avatar_updated", "agent-six moved")]);
}

#[test]
fn unsampled_avatars_expire_only_past_three_windows() {
    let mut current = Vec::new();
    let cache = BTreeMap::new();
    merge(&mut current, &cache, &[sample(Some("old"), false, [0, 0, 0], pos(0.0, 0.0, 0.0))], 0);
    let marked = merge(&mut current, &cache, &[sample(Some("recent"), false, [0, 0, 0], pos(0.0, 0.0, 0.0))], 2500);
    assert_eq!(marked, vec![ev("avatar_seen", "recent recent"), ev("avatar_stale", "old")]);
    assert!(current[0].stale);
    let events = merge(&mut current, &cache, &[sample(Some("new"), false, [3, 3, 3], pos(3.0, 3.0, 3.0))], 3001);
    assert_eq!(
        events,
        vec![ev("avatar_seen", "new new"), ev("avatar_removed", "old")]
    );
    let ids: Vec<&str> = current.iter().map(|a| a.agent_id.as_str()).collect();
    assert_eq!(ids, vec!["recent", "new"]);
    assert!(!current[0].stale);
    assert_eq!(current[1].local_position, Some([3, 3, 3]));
}
