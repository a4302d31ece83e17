use sl_viewer::social::{
    profile_tab_has_loaded_data, should_fetch_profile_tab, AvatarProfileTab, LoadedProfileParts,
    ProfileLoadStatus, ProfileTabLoad,
    pick_best_avatar_name,
    SocialCacheConfig, dispatch_social_event, IncomingIm, SocialEvent, SocialUpdate,
    format_avatar_label, format_avatar_label_with_cache, im_dedupe_key, social_cache_max_messages,
    uuid_short, DirectImMessage, FriendEntry,
};
use std::collections::BTreeMap;

#[test]
fn message_cap_defaults_and_floor() {
    assert_eq!(social_cache_max_messages(None), 500);
    assert_eq!(social_cache_max_messages(Some("20")), 50);
    assert_eq!(social_cache_max_messages(Some("800")), 800);
    assert_eq!(social_cache_max_messages(Some("+80")), 80);
    assert_eq!(social_cache_max_messages(Some("x")), 500);
    assert_eq!(social_cache_max_messages(Some(" 80")), 500);
}

#[test]
fn dedupe_key_joins_identity_fields() {
    let message = DirectImMessage {
        id: 9,
        session_id: String::from("s"),
        peer_id: String::from("p"),
        from_id: String::from("f"),
        from_name: String::from("Someone"),
        text: String::from("hi|there"),
        observed_at_unix_ms: 1700,
        outgoing: true,
    };
    assert_eq!(im_dedupe_key(&message), "s|p|f|1700|1|hi|there");
    let incoming = DirectImMessage { outgoing: false, ..message };
    assert_eq!(im_dedupe_key(&incoming), "s|p|f|1700|0|hi|there");
}

fn friend(id: &str, name: Option<&str>) -> FriendEntry {
    FriendEntry {
        id: String::from(id),
        display_name: name.map(String::from),
        name_source: None,
        last_name_resolved_unix_ms: None,
        online: false,
        rights_has: 0,
        rights_given: 0,
        last_changed_unix_ms: 0,
    }
}

#[test]
fn avatar_labels_prefer_friend_names_then_cache() {
    let agent = "0123456789abcdef";
    assert_eq!(uuid_short(agent), "01234567");
    assert_eq!(uuid_short("abc"), "abc");
    let friends = vec![friend("other", Some("Other")), friend(agent, Some("Pal Resident"))];
    assert_eq!(format_avatar_label(agent, &friends), "Pal Resident (01234567)");
    assert_eq!(format_avatar_label(agent, &[]), "01234567");
    let unnamed = vec![friend(agent, None), friend(agent, Some("Later"))];
    assert_eq!(format_avatar_label(agent, &unnamed), "01234567");
    let mut cache = BTreeMap::new();
    cache.insert(String::from(agent), String::from("Cached Name"));
    assert_eq!(format_avatar_label_with_cache(agent, &unnamed, &cache), "Cached Name (01234567)");
    assert_eq!(format_avatar_label_with_cache(agent, &friends, &cache), "Pal Resident (01234567)");
    assert_eq!(format_avatar_label_with_cache("zz", &friends, &cache), "zz");
}

#[test]
fn social_cache_config_from_lookup_defaults_and_overrides() {
    let none = SocialCacheConfig::from_lookup(|_k: &str| None);
    assert_eq!(none.path, "logs/social_cache.db");
    assert_eq!(none.max_messages_per_thread, 500);

    let set = SocialCacheConfig::from_lookup(|k: &str| match k {
        "VIEWER_SOCIAL_CACHE_PATH" => Some(String::from("tmp/social.db")),
        "VIEWER_SOCIAL_CACHE_MAX_MESSAGES_PER_THREAD" => Some(String::from("10")),
        _ => None,
    });
    assert_eq!(set.path, "tmp/social.db");
    assert_eq!(set.max_messages_per_thread, 50);
}

#[test]
fn social_presence_and_rights_events() {
    let (u, relay) = dispatch_social_event(
        "me",
        &SocialEvent::FriendOnline { agent_id: String::from("f1") },
        None,
        5,
    );
    assert_eq!(u, vec![SocialUpdate::FriendPresence { id: String::from("f1"), online: true }]);
    assert_eq!(relay, Some((String::from("friend"), String::from("f1 online"))));

    let (u, relay) = dispatch_social_event(
        "me",
        &SocialEvent::FriendOffline { agent_id: String::from("f1") },
        None,
        5,
    );
    assert_eq!(u, vec![SocialUpdate::FriendPresence { id: String::from("f1"), online: false }]);
    assert_eq!(relay, Some((String::from("friend"), String::from("f1 offline"))));

    let granted_to_me = SocialEvent::FriendRights {
        agent_id: String::from("f1"),
        related_id: String::from("me"),
        rights: 3,
    };
    let (u, relay) = dispatch_social_event("me", &granted_to_me, None, 5);
    assert_eq!(
        u,
        vec![SocialUpdate::FriendRights { id: String::from("f1"), rights_has: 3, rights_given: 0 }]
    );
    assert_eq!(relay, None);

    let granted_by_me = SocialEvent::FriendRights {
        agent_id: String::from("me"),
        related_id: String::from("f2"),
        rights: 1,
    };
    let (u, _) = dispatch_social_event("me", &granted_by_me, None, 5);
    assert_eq!(
        u,
        vec![SocialUpdate::FriendRights { id: String::from("f2"), rights_has: 0, rights_given: 1 }]
    );

    let unrelated = SocialEvent::FriendRights {
        agent_id: String::from("a"),
        related_id: String::from("b"),
        rights: 1,
    };
    assert!(dispatch_social_event("me", &unrelated, None, 5).0.is_empty());
}

#[test]
fn social_direct_im_events() {
    let incoming = SocialEvent::DirectIm(IncomingIm {
        from_id: String::from("f1"),
        to_id: String::from("me"),
        from_name: String::from("Friend One"),
        session_id: String::new(),
        message: String::from("hi"),
    });
    let (u, relay) = dispatch_social_event("me", &incoming, Some(String::from("p2p-1")), 77);
    assert_eq!(
        u,
        vec![
            SocialUpdate::FriendResolvedName {
                id: String::from("f1"),
                display_name: String::from("Friend One"),
                source: String::from("im.from_name"),
            },
            SocialUpdate::DirectIm(DirectImMessage {
                id: 77,
                session_id: String::from("p2p-1"),
                peer_id: String::from("f1"),
                from_id: String::from("f1"),
                from_name: String::from("Friend One"),
                text: String::from("hi"),
                observed_at_unix_ms: 77,
                outgoing: false,
            }),
        ]
    );
    assert_eq!(relay, Some((String::from("im_recv"), String::from("im from f1"))));

    let echoed = SocialEvent::DirectIm(IncomingIm {
        from_id: String::from("me"),
        to_id: String::from("f2"),
        from_name: String::from("  "),
        session_id: String::from("s-9"),
        message: String::from("yo"),
    });
    let (u, _) = dispatch_social_event("me", &echoed, None, 1);
    assert_eq!(u.len(), 1);
    match &u[0] {
        SocialUpdate::DirectIm(m) => {
            assert_eq!(m.session_id, "s-9");
            assert_eq!(m.peer_id, "f2");
            assert_eq!(m.from_name, "  ");
            assert!(m.outgoing);
        }
        other => panic!("unexpected update {other:?}"),
    }

    let anonymous = SocialEvent::DirectIm(IncomingIm {
        from_id: String::from("f3"),
        to_id: String::from("me"),
        from_name: String::new(),
        session_id: String::new(),
        message: String::from("?"),
    });
    let (u, _) = dispatch_social_event("me", &anonymous, None, 2);
    match &u[..] {
        [SocialUpdate::DirectIm(m)] => {
            assert_eq!(m.from_name, "f3");
            assert_eq!(m.session_id, "");
        }
        other => panic!("unexpected updates {other:?}"),
    }
}

#[test]
fn best_avatar_name_prefers_display_name_then_username() {
    let some = |s: &str| Some(String::from(s));
    assert_eq!(pick_best_avatar_name(&some(" Ann "), &some("ann.r")), some("Ann"));
    assert_eq!(pick_best_avatar_name(&some("   "), &some(" ann.r ")), some("ann.r"));
    assert_eq!(pick_best_avatar_name(&None, &some("ann.r")), some("ann.r"));
    assert_eq!(pick_best_avatar_name(&some(""), &some(" ")), None);
    assert_eq!(pick_best_avatar_name(&None, &None), None);
}

#[test]
fn profile_tab_fetch_policy() {
    let loaded = ProfileTabLoad {
        status: ProfileLoadStatus::Loaded,
        last_updated_unix_ms: Some(10_000),
    };
    assert!(should_fetch_profile_tab(None, &loaded, "a", 120, 10_000));
    assert!(should_fetch_profile_tab(Some("b"), &loaded, "a", 120, 10_000));
    assert!(!should_fetch_profile_tab(Some("a"), &loaded, "a", 120, 130_000));
    assert!(should_fetch_profile_tab(Some("a"), &loaded, "a", 120, 130_001));
    assert!(should_fetch_profile_tab(Some("a"), &loaded, "a", 0, 11_001));
    assert!(!should_fetch_profile_tab(Some("a"), &loaded, "a", 0, 11_000));
    let loading = ProfileTabLoad { status: ProfileLoadStatus::Loading, last_updated_unix_ms: None };
    assert!(!should_fetch_profile_tab(Some("a"), &loading, "a", 120, 0));
    let failed = ProfileTabLoad { status: ProfileLoadStatus::Failed, ..loaded };
    assert!(should_fetch_profile_tab(Some("a"), &failed, "a", 120, 10_000));
    let never = ProfileTabLoad { status: ProfileLoadStatus::Idle, last_updated_unix_ms: None };
    assert!(should_fetch_profile_tab(Some("a"), &never, "a", 120, 0));
}

#[test]
fn profile_tab_loaded_parts() {
    let parts = LoadedProfileParts { feed_url: true, ..LoadedProfileParts::default() };
    assert!(profile_tab_has_loaded_data(&parts, AvatarProfileTab::Feed));
    assert!(!profile_tab_has_loaded_data(&parts, AvatarProfileTab::SecondLife));
    assert!(!profile_tab_has_loaded_data(&parts, AvatarProfileTab::Picks));
    let sl = LoadedProfileParts { second_life: true, ..LoadedProfileParts::default() };
    assert!(profile_tab_has_loaded_data(&sl, AvatarProfileTab::Feed));
    assert!(profile_tab_has_loaded_data(&sl, AvatarProfileTab::Classifieds));
    assert!(!profile_tab_has_loaded_data(&sl, AvatarProfileTab::Notes));
    let notes = LoadedProfileParts { notes: true, first_life: true, ..LoadedProfileParts::default() };
    assert!(profile_tab_has_loaded_data(&notes, AvatarProfileTab::Notes));
    assert!(profile_tab_has_loaded_data(&notes, AvatarProfileTab::FirstLife));
}
