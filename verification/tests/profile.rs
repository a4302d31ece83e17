use sl_viewer::profile::{
    apply_profile_payload, merge_profile_payload, AgentProfileData, AvatarProfileState, ClassifiedExtra,
    ListingDetails, ListingDetailsPayload, ProfileFeed, ProfileGroupEntry, ProfileListEntry,
    ProfileListState,
};

fn s(v: &str) -> String {
    String::from(v)
}

fn entry(id: &str, name: &str) -> ProfileListEntry {
    ProfileListEntry { id: s(id), name: s(name) }
}

fn empty_state() -> AvatarProfileState {
    AvatarProfileState {
        second_life: None,
        first_life: None,
        notes: None,
        feed: ProfileFeed { url: None, source: None },
        picks: ProfileListState { items: Vec::new(), details: Vec::new(), selected_id: None },
        classifieds: ProfileListState { items: Vec::new(), details: Vec::new(), selected_id: None },
    }
}

fn pick_details(id: &str, name: Option<&str>, description: &str) -> ListingDetailsPayload<()> {
    ListingDetailsPayload {
        id: s(id),
        name: name.map(String::from),
        description: Some(s(description)),
        snapshot_id: Some(s("snap")),
        parcel_id: None,
        sim_name: Some(s("Ahern")),
        parcel_name: None,
        global_position_bits: Some([1.5f64.to_bits(), 2.0f64.to_bits(), 3.0f64.to_bits()]),
        extra: (),
    }
}

fn payload() -> AgentProfileData {
    AgentProfileData {
        id: s("avatar-1"),
        display_name: Some(s("Pal")),
        username: Some(s("pal.resident")),
        profile_url: Some(s("https://example.invalid/profile/pal")),
        sl_about_text: s("About me"),
        sl_image_id: Some(s("img-sl")),
        partner_id: None,
        member_since: Some(s("2010-01-01")),
        allow_publish: Some(true),
        online: Some(false),
        identified: None,
        transacted: Some(true),
        groups: vec![ProfileGroupEntry { id: s("g1"), name: s("Builders"), image_id: Some(s("ins-1")) }],
        fl_about_text: s("First life"),
        fl_image_id: None,
        notes: s("my notes"),
        picks: vec![entry("p1", "Beach"), entry("p2", "Club")],
        pick_details: vec![pick_details("p2", Some("Club Night"), "dancing"), pick_details("p9", None, "hidden")],
        classifieds: vec![entry("c1", "Sale")],
        classified_details: vec![ListingDetailsPayload {
            id: s("c1"),
            name: Some(s("Big Sale")),
            description: None,
            snapshot_id: None,
            parcel_id: None,
            sim_name: None,
            parcel_name: None,
            global_position_bits: None,
            extra: ClassifiedExtra { category: Some(3), flags: Some(1), price_for_listing: Some(250) },
        }],
    }
}

fn find<'a, X>(details: &'a [ListingDetails<X>], id: &str) -> &'a ListingDetails<X> {
    let matches: Vec<&ListingDetails<X>> = details.iter().filter(|d| d.id == id).collect();
    assert_eq!(matches.len(), 1, "one details entry per id");
    matches[0]
}

#[test]
fn applying_a_payload_fills_every_part_of_the_profile() {
    let mut state = empty_state();
    apply_profile_payload(&mut state, payload(), 1234);

    let sl = state.second_life.as_ref().expect("second life part");
    assert_eq!(sl.avatar_id, "avatar-1");
    assert_eq!(sl.display_name.as_deref(), Some("Pal"));
    assert_eq!(sl.about_text, "About me");
    assert_eq!(sl.allow_publish, Some(true));
    assert_eq!(sl.identified, None);
    assert_eq!(sl.groups.len(), 1);
    assert_eq!(sl.groups[0].name, "Builders");
    assert_eq!(sl.groups[0].insignia_id.as_deref(), Some("ins-1"));
    let fl = state.first_life.as_ref().expect("first life part");
    assert_eq!(fl.about_text, "First life");
    assert_eq!(fl.image_id, None);
    assert_eq!(state.notes.as_ref().map(|n| n.text.as_str()), Some("my notes"));
    assert_eq!(state.feed.url.as_deref(), Some("https://example.invalid/profile/pal"));
    assert_eq!(state.feed.source.as_deref(), Some("AgentProfile"));

    let ids: Vec<&str> = state.picks.items.iter().map(|e| e.id.as_str()).collect();
    assert_eq!(ids, vec!["p1", "p2"]);
    assert_eq!(state.picks.selected_id.as_deref(), Some("p1"));
    assert_eq!(state.picks.details.len(), 3);
    let p1 = find(&state.picks.details, "p1");
    assert_eq!(p1.name, "Beach");
    assert_eq!(p1.description, None);
    assert!(p1.extra.is_none());
    let p2 = find(&state.picks.details, "p2");
    assert_eq!(p2.name, "Club Night");
    assert_eq!(p2.description.as_deref(), Some("dancing"));
    assert_eq!(p2.global_position_bits, Some([1.5f64.to_bits(), 2.0f64.to_bits(), 3.0f64.to_bits()]));
    let p9 = find(&state.picks.details, "p9");
    assert_eq!(p9.name, "");

    assert_eq!(state.classifieds.selected_id.as_deref(), Some("c1"));
    let c1 = find(&state.classifieds.details, "c1");
    assert_eq!(c1.name, "Big Sale");
    assert_eq!(c1.extra, Some(ClassifiedExtra { category: Some(3), flags: Some(1), price_for_listing: Some(250) }));
}

#[test]
fn a_second_payload_keeps_the_selection_and_one_details_entry_per_id() {
    let mut state = empty_state();
    apply_profile_payload(&mut state, payload(), 1);
    state.picks.selected_id = Some(s("p2"));

    let mut again = payload();
    again.picks = vec![entry("p3", "Park")];
    again.pick_details = vec![pick_details("p1", Some("Beach Day"), "sun")];
    again.classifieds = Vec::new();
    again.classified_details = Vec::new();
    apply_profile_payload(&mut state, again, 2);

    let ids: Vec<&str> = state.picks.items.iter().map(|e| e.id.as_str()).collect();
    assert_eq!(ids, vec!["p3"]);
    assert_eq!(state.picks.selected_id.as_deref(), Some("p2"));
    assert_eq!(state.picks.details.len(), 4);
    assert_eq!(find(&state.picks.details, "p1").name, "Beach Day");
    assert_eq!(find(&state.picks.details, "p2").name, "Club Night");
    assert_eq!(find(&state.picks.details, "p3").name, "Park");
    assert!(find(&state.picks.details, "p3").extra.is_none());

    assert!(state.classifieds.items.is_empty());
    assert_eq!(state.classifieds.selected_id.as_deref(), Some("c1"));
    assert_eq!(state.classifieds.details.len(), 1);
}

#[test]
fn an_empty_payload_selects_nothing() {
    let mut state = empty_state();
    let mut bare = payload();
    bare.picks = Vec::new();
    bare.pick_details = Vec::new();
    bare.profile_url = None;
    apply_profile_payload(&mut state, bare, 0);
    assert!(state.picks.items.is_empty());
    assert_eq!(state.picks.selected_id, None);
    assert_eq!(state.feed.url, None);
    assert_eq!(state.second_life.as_ref().and_then(|p| p.profile_url.clone()), None);
}

fn bare_payload(id: &str) -> AgentProfileData {
    AgentProfileData {
        id: s(id),
        display_name: None,
        username: None,
        profile_url: None,
        sl_about_text: String::new(),
        sl_image_id: None,
        partner_id: None,
        member_since: None,
        allow_publish: None,
        online: None,
        identified: None,
        transacted: None,
        groups: Vec::new(),
        fl_about_text: String::new(),
        fl_image_id: None,
        notes: String::new(),
        picks: Vec::new(),
        pick_details: Vec::new(),
        classifieds: Vec::new(),
        classified_details: Vec::new(),
    }
}

#[test]
fn merging_fills_only_what_is_missing() {
    let mut target = bare_payload("");
    target.display_name = Some(s("Kept"));
    target.notes = s("kept notes");
    target.online = Some(false);
    merge_profile_payload(&mut target, payload());
    assert_eq!(target.id, "avatar-1");
    assert_eq!(target.display_name.as_deref(), Some("Kept"));
    assert_eq!(target.username.as_deref(), Some("pal.resident"));
    assert_eq!(target.notes, "kept notes");
    assert_eq!(target.sl_about_text, "About me");
    assert_eq!(target.online, Some(false));
    assert_eq!(target.transacted, Some(true));
    assert_eq!(target.identified, None);
    assert_eq!(target.profile_url.as_deref(), Some("https://example.invalid/profile/pal"));
}

#[test]
fn merging_appends_new_ids_and_replaces_details_by_id() {
    let mut target = bare_payload("avatar-1");
    target.groups = vec![ProfileGroupEntry { id: s("g1"), name: s("Old name"), image_id: None }];
    target.picks = vec![entry("p2", "Club (old)")];
    target.pick_details = vec![pick_details("p2", Some("Old"), "old text"), pick_details("p5", None, "other")];
    let mut incoming = payload();
    incoming.groups.push(ProfileGroupEntry { id: s("g2"), name: s("Makers"), image_id: None });
    incoming.groups.push(ProfileGroupEntry { id: s("g2"), name: s("Makers again"), image_id: None });
    merge_profile_payload(&mut target, incoming);

    let groups: Vec<(&str, &str)> = target.groups.iter().map(|g| (g.id.as_str(), g.name.as_str())).collect();
    assert_eq!(groups, vec![("g1", "Old name"), ("g2", "Makers")]);
    let picks: Vec<(&str, &str)> = target.picks.iter().map(|p| (p.id.as_str(), p.name.as_str())).collect();
    assert_eq!(picks, vec![("p2", "Club (old)"), ("p1", "Beach")]);
    let details: Vec<(&str, Option<&str>)> =
        target.pick_details.iter().map(|d| (d.id.as_str(), d.description.as_deref())).collect();
    assert_eq!(details, vec![("p2", Some("dancing")), ("p5", Some("other")), ("p9", Some("hidden"))]);
    assert_eq!(target.classifieds.len(), 1);
    assert_eq!(target.classified_details.len(), 1);
    assert_eq!(target.classified_details[0].extra.price_for_listing, Some(250));
}
