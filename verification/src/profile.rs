//! An avatar's profile as the viewer keeps it, and how a fetched profile
//! payload is applied to it: the Second Life, first-life and notes parts are
//! replaced, the feed points at the payload's profile URL, and the picks and
//! classifieds are listed anew while their details are kept per id (a
//! placeholder for each listed entry not yet detailed, replaced by the full
//! details the payload brings).
use vstd::prelude::*;
use crate::startup::opt_string;

verus! {

/// A group as a profile payload lists it.
pub struct ProfileGroupEntry {
    pub id: String,
    pub name: String,
    pub image_id: Option<String>,
}

/// A pick or a classified as a profile lists it.
pub struct ProfileListEntry {
    pub id: String,
    pub name: String,
}

/// What a classified carries beyond what a pick does.
#[derive(Debug, Clone, Copy, PartialEq, Eq)]
pub struct ClassifiedExtra {
    pub category: Option<u32>,
    pub flags: Option<u32>,
    pub price_for_listing: Option<i32>,
}

/// The details of a pick (`X = ()`) or a classified (`X = ClassifiedExtra`)
/// as a payload gives them. The global position is kept as the bits of its
/// three `f64` coordinates.
pub struct ListingDetailsPayload<X> {
    pub id: String,
    pub name: Option<String>,
    pub description: Option<String>,
    pub snapshot_id: Option<String>,
    pub parcel_id: Option<String>,
    pub sim_name: Option<String>,
    pub parcel_name: Option<String>,
    pub global_position_bits: Option<[u64; 3]>,
    pub extra: X,
}

/// The details of a pick or a classified as the profile keeps them; `extra`
/// is `None` until the payload has brought the details.
pub struct ListingDetails<X> {
    pub id: String,
    pub name: String,
    pub description: Option<String>,
    pub snapshot_id: Option<String>,
    pub parcel_id: Option<String>,
    pub sim_name: Option<String>,
    pub parcel_name: Option<String>,
    pub global_position_bits: Option<[u64; 3]>,
    pub extra: Option<X>,
}

/// A fetched profile.
pub struct AgentProfileData {
    pub id: String,
    pub display_name: Option<String>,
    pub username: Option<String>,
    pub profile_url: Option<String>,
    pub sl_about_text: String,
    pub sl_image_id: Option<String>,
    pub partner_id: Option<String>,
    pub member_since: Option<String>,
    pub allow_publish: Option<bool>,
    pub online: Option<bool>,
    pub identified: Option<bool>,
    pub transacted: Option<bool>,
    pub groups: Vec<ProfileGroupEntry>,
    pub fl_about_text: String,
    pub fl_image_id: Option<String>,
    pub notes: String,
    pub picks: Vec<ProfileListEntry>,
    pub pick_details: Vec<ListingDetailsPayload<()>>,
    pub classifieds: Vec<ProfileListEntry>,
    pub classified_details: Vec<ListingDetailsPayload<ClassifiedExtra>>,
}

/// A group shown on a profile.
pub struct ProfileGroup {
    pub id: String,
    pub name: String,
    pub insignia_id: Option<String>,
}

/// The Second Life part of a profile.
pub struct SecondLifeProfile {
    pub avatar_id: String,
    pub display_name: Option<String>,
    pub username: Option<String>,
    pub profile_url: Option<String>,
    pub about_text: String,
    pub image_id: Option<String>,
    pub partner_id: Option<String>,
    pub member_since: Option<String>,
    pub allow_publish: Option<bool>,
    pub online: Option<bool>,
    pub identified: Option<bool>,
    pub transacted: Option<bool>,
    pub groups: Vec<ProfileGroup>,
}

/// The first-life part of a profile.
pub struct FirstLifeProfile {
    pub about_text: String,
    pub image_id: Option<String>,
}

/// The viewer's notes on an avatar.
pub struct ProfileNotes {
    pub text: String,
}

/// Where a profile's feed comes from.
pub struct ProfileFeed {
    pub url: Option<String>,
    pub source: Option<String>,
}

/// The picks or classifieds of a profile: the listed entries, the details
/// kept per id (no two with one id), and the entry selected.
pub struct ProfileListState<X> {
    pub items: Vec<ProfileListEntry>,
    pub details: Vec<ListingDetails<X>>,
    pub selected_id: Option<String>,
}

/// An avatar's profile as the viewer keeps it.
pub struct AvatarProfileState {
    pub second_life: Option<SecondLifeProfile>,
    pub first_life: Option<FirstLifeProfile>,
    pub notes: Option<ProfileNotes>,
    pub feed: ProfileFeed,
    pub picks: ProfileListState<()>,
    pub classifieds: ProfileListState<ClassifiedExtra>,
}

/// Details as the contracts see them.
pub struct ListingView<X> {
    pub id: Seq<char>,
    pub name: Seq<char>,
    pub description: Option<Seq<char>>,
    pub snapshot_id: Option<Seq<char>>,
    pub parcel_id: Option<Seq<char>>,
    pub sim_name: Option<Seq<char>>,
    pub parcel_name: Option<Seq<char>>,
    pub global_position_bits: Option<[u64; 3]>,
    pub extra: Option<X>,
}

pub open spec fn listing_view<X>(d: ListingDetails<X>) -> ListingView<X> {
    ListingView {
        id: d.id@,
        name: d.name@,
        description: opt_string(d.description),
        snapshot_id: opt_string(d.snapshot_id),
        parcel_id: opt_string(d.parcel_id),
        sim_name: opt_string(d.sim_name),
        parcel_name: opt_string(d.parcel_name),
        global_position_bits: d.global_position_bits,
        extra: d.extra,
    }
}

/// The details a listed entry starts with: its id and name, nothing more.
pub open spec fn placeholder<X>(id: Seq<char>, name: Seq<char>) -> ListingView<X> {
    ListingView {
        id,
        name,
        description: None,
        snapshot_id: None,
        parcel_id: None,
        sim_name: None,
        parcel_name: None,
        global_position_bits: None,
        extra: None,
    }
}

/// The details a payload brings (a missing name is empty).
pub open spec fn payload_listing<X>(d: ListingDetailsPayload<X>) -> ListingView<X> {
    ListingView {
        id: d.id@,
        name: match d.name {
            Some(n) => n@,
            None => Seq::<char>::empty(),
        },
        description: opt_string(d.description),
        snapshot_id: opt_string(d.snapshot_id),
        parcel_id: opt_string(d.parcel_id),
        sim_name: opt_string(d.sim_name),
        parcel_name: opt_string(d.parcel_name),
        global_position_bits: d.global_position_bits,
        extra: Some(d.extra),
    }
}

pub open spec fn entry_views(s: Seq<ProfileListEntry>) -> Seq<(Seq<char>, Seq<char>)> {
    s.map_values(|e: ProfileListEntry| (e.id@, e.name@))
}

/// The first details with `id` at index `i` or later.
pub open spec fn find_listing_from<X>(s: Seq<ListingView<X>>, id: Seq<char>, i: int) -> Option<int>
    decreases s.len() - i,
{
    if i < 0 || i >= s.len() {
        None
    } else if s[i].id == id {
        Some(i)
    } else {
        find_listing_from(s, id, i + 1)
    }
}

/// `d` appended unless details with its id are there.
pub open spec fn add_if_absent<X>(s: Seq<ListingView<X>>, d: ListingView<X>) -> Seq<ListingView<X>> {
    match find_listing_from(s, d.id, 0) {
        Some(_) => s,
        None => s.push(d),
    }
}

/// `d` stored under its id: replacing the details with that id, or appended.
pub open spec fn upsert<X>(s: Seq<ListingView<X>>, d: ListingView<X>) -> Seq<ListingView<X>> {
    match find_listing_from(s, d.id, 0) {
        Some(k) => s.update(k, d),
        None => s.push(d),
    }
}

/// A placeholder for each entry whose id has no details yet, in order.
pub open spec fn with_placeholders<X>(
    s: Seq<ListingView<X>>,
    entries: Seq<(Seq<char>, Seq<char>)>,
    n: int,
) -> Seq<ListingView<X>>
    decreases n,
{
    if n <= 0 {
        s
    } else {
        let e = entries[n - 1];
        add_if_absent(with_placeholders(s, entries, n - 1), placeholder(e.0, e.1))
    }
}

/// Each of the payload's details stored under its id, replacing what was
/// there.
pub open spec fn with_details<X>(s: Seq<ListingView<X>>, ds: Seq<ListingView<X>>, n: int) -> Seq<
    ListingView<X>,
>
    decreases n,
{
    if n <= 0 {
        s
    } else {
        upsert(with_details(s, ds, n - 1), ds[n - 1])
    }
}

/// Picks or classifieds as the contracts see them.
pub struct ListStateView<X> {
    pub items: Seq<(Seq<char>, Seq<char>)>,
    pub details: Seq<ListingView<X>>,
    pub selected_id: Option<Seq<char>>,
}

pub open spec fn list_view<X>(l: ProfileListState<X>) -> ListStateView<X> {
    ListStateView {
        items: entry_views(l.items@),
        details: l.details@.map_values(|d: ListingDetails<X>| listing_view(d)),
        selected_id: opt_string(l.selected_id),
    }
}

/// Picks or classifieds after a payload: its entries listed, the details
/// completed and replaced, and the first entry selected where none was.
pub open spec fn list_applied<X>(
    old: ListStateView<X>,
    entries: Seq<(Seq<char>, Seq<char>)>,
    ds: Seq<ListingView<X>>,
) -> ListStateView<X> {
    ListStateView {
        items: entries,
        details: with_details(with_placeholders(old.details, entries, entries.len() as int), ds, ds.len() as int),
        selected_id: match old.selected_id {
            Some(s) => Some(s),
            None => if entries.len() > 0 {
                Some(entries[0].0)
            } else {
                None
            },
        },
    }
}

/// No two details share an id.
pub open spec fn listing_ids_distinct<X>(s: Seq<ListingView<X>>) -> bool {
    forall|i: int, j: int| 0 <= i < j < s.len() ==> #[trigger] s[i].id != #[trigger] s[j].id
}

/// The Second Life part as the contracts see it.
pub struct SecondLifeView {
    pub avatar_id: Seq<char>,
    pub display_name: Option<Seq<char>>,
    pub username: Option<Seq<char>>,
    pub profile_url: Option<Seq<char>>,
    pub about_text: Seq<char>,
    pub image_id: Option<Seq<char>>,
    pub partner_id: Option<Seq<char>>,
    pub member_since: Option<Seq<char>>,
    pub allow_publish: Option<bool>,
    pub online: Option<bool>,
    pub identified: Option<bool>,
    pub transacted: Option<bool>,
    /// Each group's id, name and insignia.
    pub groups: Seq<(Seq<char>, Seq<char>, Option<Seq<char>>)>,
}

pub open spec fn second_life_view(p: SecondLifeProfile) -> SecondLifeView {
    SecondLifeView {
        avatar_id: p.avatar_id@,
        display_name: opt_string(p.display_name),
        username: opt_string(p.username),
        profile_url: opt_string(p.profile_url),
        about_text: p.about_text@,
        image_id: opt_string(p.image_id),
        partner_id: opt_string(p.partner_id),
        member_since: opt_string(p.member_since),
        allow_publish: p.allow_publish,
        online: p.online,
        identified: p.identified,
        transacted: p.transacted,
        groups: p.groups@.map_values(|g: ProfileGroup| (g.id@, g.name@, opt_string(g.insignia_id))),
    }
}

/// The Second Life part a payload gives (a group's image is its insignia).
pub open spec fn payload_second_life(p: AgentProfileData) -> SecondLifeView {
    SecondLifeView {
        avatar_id: p.id@,
        display_name: opt_string(p.display_name),
        username: opt_string(p.username),
        profile_url: opt_string(p.profile_url),
        about_text: p.sl_about_text@,
        image_id: opt_string(p.sl_image_id),
        partner_id: opt_string(p.partner_id),
        member_since: opt_string(p.member_since),
        allow_publish: p.allow_publish,
        online: p.online,
        identified: p.identified,
        transacted: p.transacted,
        groups: p.groups@.map_values(
            |g: ProfileGroupEntry| (g.id@, g.name@, opt_string(g.image_id)),
        ),
    }
}

/// A profile as the contracts see it.
pub struct AvatarProfileView {
    pub second_life: Option<SecondLifeView>,
    /// The first-life text and image.
    pub first_life: Option<(Seq<char>, Option<Seq<char>>)>,
    pub notes: Option<Seq<char>>,
    pub feed_url: Option<Seq<char>>,
    pub feed_source: Option<Seq<char>>,
    pub picks: ListStateView<()>,
    pub classifieds: ListStateView<ClassifiedExtra>,
}

impl View for AvatarProfileState {
    type V = AvatarProfileView;

    open spec fn view(&self) -> AvatarProfileView {
        AvatarProfileView {
            second_life: match self.second_life {
                Some(p) => Some(second_life_view(p)),
                None => None,
            },
            first_life: match self.first_life {
                Some(f) => Some((f.about_text@, opt_string(f.image_id))),
                None => None,
            },
            notes: match self.notes {
                Some(n) => Some(n.text@),
                None => None,
            },
            feed_url: opt_string(self.feed.url),
            feed_source: opt_string(self.feed.source),
            picks: list_view(self.picks),
            classifieds: list_view(self.classifieds),
        }
    }
}

/// A profile after a payload: its Second Life, first-life and notes parts
/// replaced, its feed pointed at the payload's profile URL (source
/// `AgentProfile`), and its picks and classifieds applied.
pub open spec fn profile_applied(old: AvatarProfileView, p: AgentProfileData) -> AvatarProfileView {
    AvatarProfileView {
        second_life: Some(payload_second_life(p)),
        first_life: Some((p.fl_about_text@, opt_string(p.fl_image_id))),
        notes: Some(p.notes@),
        feed_url: opt_string(p.profile_url),
        feed_source: Some("AgentProfile"@),
        picks: list_applied(
            old.picks,
            entry_views(p.picks@),
            p.pick_details@.map_values(|d: ListingDetailsPayload<()>| payload_listing(d)),
        ),
        classifieds: list_applied(
            old.classifieds,
            entry_views(p.classifieds@),
            p.classified_details@.map_values(
                |d: ListingDetailsPayload<ClassifiedExtra>| payload_listing(d),
            ),
        ),
    }
}

/// Whether some details have `id`.
pub open spec fn has_listing<X>(s: Seq<ListingView<X>>, id: Seq<char>) -> bool {
    exists|k: int| 0 <= k < s.len() && #[trigger] s[k].id == id
}

proof fn lemma_find_listing<X>(s: Seq<ListingView<X>>, id: Seq<char>, i: int)
    requires
        0 <= i,
    ensures
        match find_listing_from(s, id, i) {
            Some(k) => i <= k < s.len() && s[k].id == id,
            None => forall|j: int| i <= j < s.len() ==> #[trigger] s[j].id != id,
        },
    decreases s.len() - i,
{
    if i < s.len() && s[i].id != id {
        lemma_find_listing(s, id, i + 1);
    }
}

/// Storing `d` (replacing, or only where absent) keeps the ids distinct,
/// keeps every id present, and makes `d.id` present.
proof fn lemma_store<X>(s: Seq<ListingView<X>>, d: ListingView<X>)
    requires
        listing_ids_distinct(s),
    ensures
        listing_ids_distinct(upsert(s, d)),
        listing_ids_distinct(add_if_absent(s, d)),
        has_listing(upsert(s, d), d.id),
        has_listing(add_if_absent(s, d), d.id),
        forall|id: Seq<char>| has_listing(s, id) ==> #[trigger] has_listing(upsert(s, d), id),
        forall|id: Seq<char>| has_listing(s, id) ==> #[trigger] has_listing(add_if_absent(s, d), id),
{
    lemma_find_listing(s, d.id, 0);
    let u = upsert(s, d);
    let a = add_if_absent(s, d);
    match find_listing_from(s, d.id, 0) {
        Some(k) => {
            assert(u[k].id == d.id);
            assert(a[k].id == d.id);
            assert forall|i: int, j: int| 0 <= i < j < u.len() implies #[trigger] u[i].id
                != #[trigger] u[j].id by {
                assert(u[i].id == s[i].id && u[j].id == s[j].id);
            }
            assert forall|id: Seq<char>| has_listing(s, id) implies #[trigger] has_listing(u, id) by {
                let q = choose|q: int| 0 <= q < s.len() && #[trigger] s[q].id == id;
                assert(u[q].id == id);
            }
        },
        None => {
            assert(u[s.len() as int].id == d.id);
            assert forall|i: int, j: int| 0 <= i < j < u.len() implies #[trigger] u[i].id
                != #[trigger] u[j].id by {
                assert(u[i] == s[i]);
                if j < s.len() {
                    assert(u[j] == s[j]);
                }
            }
            assert forall|id: Seq<char>| has_listing(s, id) implies #[trigger] has_listing(u, id) by {
                let q = choose|q: int| 0 <= q < s.len() && #[trigger] s[q].id == id;
                assert(u[q] == s[q]);
            }
        },
    }
}

proof fn lemma_with_placeholders<X>(
    s: Seq<ListingView<X>>,
    entries: Seq<(Seq<char>, Seq<char>)>,
    n: int,
)
    requires
        listing_ids_distinct(s),
        0 <= n <= entries.len(),
    ensures
        listing_ids_distinct(with_placeholders(s, entries, n)),
        forall|i: int| 0 <= i < n ==> has_listing(with_placeholders(s, entries, n), #[trigger] entries[i].0),
        forall|id: Seq<char>| has_listing(s, id) ==> #[trigger] has_listing(with_placeholders(s, entries, n), id),
    decreases n,
{
    if n > 0 {
        lemma_with_placeholders(s, entries, n - 1);
        let prev = with_placeholders(s, entries, n - 1);
        let e = entries[n - 1];
        lemma_store(prev, placeholder::<X>(e.0, e.1));
        let r = with_placeholders(s, entries, n);
        assert(r == add_if_absent(prev, placeholder::<X>(e.0, e.1)));
        assert forall|i: int| 0 <= i < n implies has_listing(r, #[trigger] entries[i].0) by {
            if i < n - 1 {
                assert(has_listing(prev, entries[i].0));
            }
        }
        assert forall|id: Seq<char>| has_listing(s, id) implies #[trigger] has_listing(r, id) by {
            assert(has_listing(prev, id));
        }
    }
}

proof fn lemma_with_details<X>(s: Seq<ListingView<X>>, ds: Seq<ListingView<X>>, n: int)
    requires
        listing_ids_distinct(s),
        0 <= n <= ds.len(),
    ensures
        listing_ids_distinct(with_details(s, ds, n)),
        forall|i: int| 0 <= i < n ==> has_listing(with_details(s, ds, n), #[trigger] ds[i].id),
        forall|id: Seq<char>| has_listing(s, id) ==> #[trigger] has_listing(with_details(s, ds, n), id),
    decreases n,
{
    if n > 0 {
        lemma_with_details(s, ds, n - 1);
        let prev = with_details(s, ds, n - 1);
        lemma_store(prev, ds[n - 1]);
        let r = with_details(s, ds, n);
        assert(r == upsert(prev, ds[n - 1]));
        assert forall|i: int| 0 <= i < n implies has_listing(r, #[trigger] ds[i].id) by {
            if i < n - 1 {
                assert(has_listing(prev, ds[i].id));
            }
        }
        assert forall|id: Seq<char>| has_listing(s, id) implies #[trigger] has_listing(r, id) by {
            assert(has_listing(prev, id));
        }
    }
}

/// Applying a payload keeps the details one per id, as a map keyed by id
/// would, and leaves details for every entry listed and for every id the
/// payload detailed, besides every id detailed before.
pub proof fn lemma_list_applied_keeps_details_per_id<X>(
    old: ListStateView<X>,
    entries: Seq<(Seq<char>, Seq<char>)>,
    ds: Seq<ListingView<X>>,
)
    requires
        listing_ids_distinct(old.details),
    ensures
        listing_ids_distinct(list_applied(old, entries, ds).details),
        forall|i: int|
            0 <= i < entries.len() ==> has_listing(
                list_applied(old, entries, ds).details,
                #[trigger] entries[i].0,
            ),
        forall|i: int|
            0 <= i < ds.len() ==> has_listing(list_applied(old, entries, ds).details, #[trigger] ds[i].id),
        forall|id: Seq<char>|
            has_listing(old.details, id) ==> #[trigger] has_listing(
                list_applied(old, entries, ds).details,
                id,
            ),
{
    lemma_with_placeholders(old.details, entries, entries.len() as int);
    let p = with_placeholders(old.details, entries, entries.len() as int);
    lemma_with_details(p, ds, ds.len() as int);
    let r = list_applied(old, entries, ds).details;
    assert forall|i: int| 0 <= i < entries.len() implies has_listing(r, #[trigger] entries[i].0) by {
        assert(has_listing(p, entries[i].0));
    }
    assert forall|id: Seq<char>| has_listing(old.details, id) implies #[trigger] has_listing(r, id) by {
        assert(has_listing(p, id));
    }
}

fn clone_opt(o: &Option<String>) -> (r: Option<String>)
    ensures
        opt_string(r) == opt_string(*o),
{
    match o {
        Some(s) => Some(s.clone()),
        None => None,
    }
}

/// The index of the first details with `id`.
fn find_listing<X>(details: &Vec<ListingDetails<X>>, id: &String) -> (r: Option<usize>)
    ensures
        match r {
            Some(k) => k < details@.len() && find_listing_from(
                details@.map_values(|d: ListingDetails<X>| listing_view(d)),
                id@,
                0,
            ) == Some(k as int),
            None => find_listing_from(
                details@.map_values(|d: ListingDetails<X>| listing_view(d)),
                id@,
                0,
            ) is None,
        },
{
    let ghost s = details@.map_values(|d: ListingDetails<X>| listing_view(d));
    let mut i: usize = 0;
    while i < details.len()
        invariant
            i <= details@.len(),
            s == details@.map_values(|d: ListingDetails<X>| listing_view(d)),
            find_listing_from(s, id@, 0) == find_listing_from(s, id@, i as int),
        decreases details@.len() - i,
    {
        assert(s[i as int].id == details@[i as int].id@);
        if details[i].id == *id {
            return Some(i);
        }
        i += 1;
    }
    None
}

/// Applies a payload's entries and details to picks or classifieds.
fn apply_list<X: Copy>(
    list: &mut ProfileListState<X>,
    entries: &Vec<ProfileListEntry>,
    details: &Vec<ListingDetailsPayload<X>>,
)
    ensures
        list_view(*final(list)) == list_applied(
            list_view(*old(list)),
            entry_views(entries@),
            details@.map_values(|d: ListingDetailsPayload<X>| payload_listing(d)),
        ),
{
    let ghost es = entry_views(entries@);
    let ghost ds = details@.map_values(|d: ListingDetailsPayload<X>| payload_listing(d));
    let ghost d0 = list_view(*list).details;
    let mut items: Vec<ProfileListEntry> = Vec::new();
    let mut i: usize = 0;
    while i < entries.len()
        invariant
            i <= entries@.len(),
            es == entry_views(entries@),
            entry_views(items@) == es.take(i as int),
        decreases entries@.len() - i,
    {
        let e = ProfileListEntry { id: entries[i].id.clone(), name: entries[i].name.clone() };
        assert((e.id@, e.name@) == es[i as int]);
        let ghost before = items@;
        items.push(e);
        assert(entry_views(items@) =~= entry_views(before).push(es[i as int]));
        assert(es.take(i + 1) =~= es.take(i as int).push(es[i as int]));
        i += 1;
    }
    assert(es.take(es.len() as int) =~= es);
    list.items = items;
    let mut i: usize = 0;
    while i < entries.len()
        invariant
            i <= entries@.len(),
            es == entry_views(entries@),
            entry_views(list.items@) == es,
            list.selected_id == old(list).selected_id,
            list.details@.map_values(|d: ListingDetails<X>| listing_view(d)) == with_placeholders(
                d0,
                es,
                i as int,
            ),
        decreases entries@.len() - i,
    {
        let ghost before = list.details@;
        match find_listing(&list.details, &entries[i].id) {
            Some(_) => {},
            None => {
                list.details.push(
                    ListingDetails {
                        id: entries[i].id.clone(),
                        name: entries[i].name.clone(),
                        description: None,
                        snapshot_id: None,
                        parcel_id: None,
                        sim_name: None,
                        parcel_name: None,
                        global_position_bits: None,
                        extra: None,
                    },
                );
                assert(list.details@.map_values(|d: ListingDetails<X>| listing_view(d))
                    =~= before.map_values(|d: ListingDetails<X>| listing_view(d)).push(
                    placeholder(es[i as int].0, es[i as int].1),
                ));
            },
        }
        i += 1;
    }
    let ghost d1 = with_placeholders(d0, es, es.len() as int);
    let mut i: usize = 0;
    while i < details.len()
        invariant
            i <= details@.len(),
            ds == details@.map_values(|d: ListingDetailsPayload<X>| payload_listing(d)),
            entry_views(list.items@) == es,
            list.selected_id == old(list).selected_id,
            list.details@.map_values(|d: ListingDetails<X>| listing_view(d)) == with_details(
                d1,
                ds,
                i as int,
            ),
        decreases details@.len() - i,
    {
        let ghost before = list.details@;
        let p = &details[i];
        let name = match &p.name {
            Some(n) => n.clone(),
            None => String::new(),
        };
        let d = ListingDetails {
            id: p.id.clone(),
            name,
            description: clone_opt(&p.description),
            snapshot_id: clone_opt(&p.snapshot_id),
            parcel_id: clone_opt(&p.parcel_id),
            sim_name: clone_opt(&p.sim_name),
            parcel_name: clone_opt(&p.parcel_name),
            global_position_bits: p.global_position_bits,
            extra: Some(p.extra),
        };
        assert(listing_view(d) == ds[i as int]);
        match find_listing(&list.details, &p.id) {
            Some(k) => {
                list.details.set(k, d);
                assert(list.details@.map_values(|d: ListingDetails<X>| listing_view(d))
                    =~= before.map_values(|d: ListingDetails<X>| listing_view(d)).update(
                    k as int,
                    ds[i as int],
                ));
            },
            None => {
                list.details.push(d);
                assert(list.details@.map_values(|d: ListingDetails<X>| listing_view(d))
                    =~= before.map_values(|d: ListingDetails<X>| listing_view(d)).push(
                    ds[i as int],
                ));
            },
        }
        i += 1;
    }
    if list.selected_id.is_none() {
        if list.items.len() > 0 {
            assert(es[0].0 == list.items@[0].id@);
            list.selected_id = Some(list.items[0].id.clone());
        }
    }
}

/// Applies a fetched profile to the profile kept for an avatar.
pub fn apply_profile_payload(state: &mut AvatarProfileState, payload: AgentProfileData, at_unix_ms: u64)
    ensures
        final(state)@ == profile_applied(old(state)@, payload),
{
    let ghost gs = payload.groups@.map_values(
        |g: ProfileGroupEntry| (g.id@, g.name@, opt_string(g.image_id)),
    );
    let mut groups: Vec<ProfileGroup> = Vec::new();
    let mut i: usize = 0;
    while i < payload.groups.len()
        invariant
            i <= payload.groups@.len(),
            gs == payload.groups@.map_values(
                |g: ProfileGroupEntry| (g.id@, g.name@, opt_string(g.image_id)),
            ),
            groups@.map_values(|g: ProfileGroup| (g.id@, g.name@, opt_string(g.insignia_id)))
                == gs.take(i as int),
        decreases payload.groups@.len() - i,
    {
        let g = &payload.groups[i];
        let e = ProfileGroup {
            id: g.id.clone(),
            name: g.name.clone(),
            insignia_id: clone_opt(&g.image_id),
        };
        assert((e.id@, e.name@, opt_string(e.insignia_id)) == gs[i as int]);
        let ghost before = groups@;
        groups.push(e);
        assert(groups@.map_values(|g: ProfileGroup| (g.id@, g.name@, opt_string(g.insignia_id)))
            =~= before.map_values(|g: ProfileGroup| (g.id@, g.name@, opt_string(g.insignia_id))).push(
            gs[i as int],
        ));
        assert(gs.take(i + 1) =~= gs.take(i as int).push(gs[i as int]));
        i += 1;
    }
    assert(gs.take(gs.len() as int) =~= gs);
    state.second_life = Some(
        SecondLifeProfile {
            avatar_id: payload.id.clone(),
            display_name: clone_opt(&payload.display_name),
            username: clone_opt(&payload.username),
            profile_url: clone_opt(&payload.profile_url),
            about_text: payload.sl_about_text.clone(),
            image_id: clone_opt(&payload.sl_image_id),
            partner_id: clone_opt(&payload.partner_id),
            member_since: clone_opt(&payload.member_since),
            allow_publish: payload.allow_publish,
            online: payload.online,
            identified: payload.identified,
            transacted: payload.transacted,
            groups,
        },
    );
    state.first_life = Some(
        FirstLifeProfile {
            about_text: payload.fl_about_text.clone(),
            image_id: clone_opt(&payload.fl_image_id),
        },
    );
    state.notes = Some(ProfileNotes { text: payload.notes.clone() });
    state.feed.url = clone_opt(&payload.profile_url);
    state.feed.source = Some("AgentProfile".to_owned());
    apply_list(&mut state.picks, &payload.picks, &payload.pick_details);
    apply_list(&mut state.classifieds, &payload.classifieds, &payload.classified_details);
    let _ = at_unix_ms;
}

pub open spec fn group_listed(s: Seq<ProfileGroupEntry>, id: Seq<char>) -> bool {
    exists|k: int| 0 <= k < s.len() && #[trigger] s[k].id@ == id
}

pub open spec fn entry_listed(s: Seq<ProfileListEntry>, id: Seq<char>) -> bool {
    exists|k: int| 0 <= k < s.len() && #[trigger] s[k].id@ == id
}

/// The first `n` incoming groups appended, each unless its id is listed by
/// then.
pub open spec fn groups_added(s: Seq<ProfileGroupEntry>, inc: Seq<ProfileGroupEntry>, n: int) -> Seq<
    ProfileGroupEntry,
>
    decreases n,
{
    if n <= 0 {
        s
    } else {
        let prev = groups_added(s, inc, n - 1);
        if group_listed(prev, inc[n - 1].id@) {
            prev
        } else {
            prev.push(inc[n - 1])
        }
    }
}

/// The first `n` incoming entries appended, each unless its id is listed by
/// then.
pub open spec fn entries_added(s: Seq<ProfileListEntry>, inc: Seq<ProfileListEntry>, n: int) -> Seq<
    ProfileListEntry,
>
    decreases n,
{
    if n <= 0 {
        s
    } else {
        let prev = entries_added(s, inc, n - 1);
        if entry_listed(prev, inc[n - 1].id@) {
            prev
        } else {
            prev.push(inc[n - 1])
        }
    }
}

/// The first payload details with `id` at index `i` or later.
pub open spec fn find_payload_details_from<X>(
    s: Seq<ListingDetailsPayload<X>>,
    id: Seq<char>,
    i: int,
) -> Option<int>
    decreases s.len() - i,
{
    if i < 0 || i >= s.len() {
        None
    } else if s[i].id@ == id {
        Some(i)
    } else {
        find_payload_details_from(s, id, i + 1)
    }
}

/// The first `n` incoming details stored: each replaces the first with its
/// id, or is appended.
pub open spec fn details_merged<X>(
    s: Seq<ListingDetailsPayload<X>>,
    inc: Seq<ListingDetailsPayload<X>>,
    n: int,
) -> Seq<ListingDetailsPayload<X>>
    decreases n,
{
    if n <= 0 {
        s
    } else {
        let prev = details_merged(s, inc, n - 1);
        match find_payload_details_from(prev, inc[n - 1].id@, 0) {
            Some(k) => prev.update(k, inc[n - 1]),
            None => prev.push(inc[n - 1]),
        }
    }
}

/// `current` where it is set, else `incoming`.
pub open spec fn fill<T>(current: Option<T>, incoming: Option<T>) -> Option<T> {
    if current is None {
        incoming
    } else {
        current
    }
}

/// `current` where it is not empty, else `incoming`.
pub open spec fn fill_text(current: String, incoming: String) -> String {
    if current@.len() == 0 {
        incoming
    } else {
        current
    }
}

fn fill_opt<T>(current: &mut Option<T>, incoming: Option<T>)
    ensures
        *final(current) == fill(*old(current), incoming),
{
    if current.is_none() {
        *current = incoming;
    }
}

fn fill_string(current: &mut String, incoming: String)
    ensures
        *final(current) == fill_text(*old(current), incoming),
{
    if current.as_str().is_empty() {
        *current = incoming;
    }
}

fn add_groups(target: &mut Vec<ProfileGroupEntry>, incoming: Vec<ProfileGroupEntry>)
    ensures
        final(target)@ == groups_added(old(target)@, incoming@, incoming@.len() as int),
{
    let ghost inc = incoming@;
    let mut rest = incoming;
    let total = rest.len();
    let mut n: usize = 0;
    while rest.len() > 0
        invariant
            n + rest@.len() == total,
            total == inc.len(),
            rest@ == inc.skip(n as int),
            target@ == groups_added(old(target)@, inc, n as int),
        decreases rest@.len(),
    {
        let g = rest.remove(0);
        assert(g == inc[n as int]);
        assert(rest@ =~= inc.skip(n + 1));
        let mut listed = false;
        let mut k: usize = 0;
        while k < target.len()
            invariant
                k <= target@.len(),
                listed == exists|j: int| 0 <= j < k && #[trigger] target@[j].id@ == g.id@,
            decreases target@.len() - k,
        {
            if target[k].id == g.id {
                listed = true;
            }
            k += 1;
        }
        if !listed {
            target.push(g);
        }
        n += 1;
    }
    assert(inc.skip(n as int) =~= Seq::<ProfileGroupEntry>::empty());
}

fn add_entries(target: &mut Vec<ProfileListEntry>, incoming: Vec<ProfileListEntry>)
    ensures
        final(target)@ == entries_added(old(target)@, incoming@, incoming@.len() as int),
{
    let ghost inc = incoming@;
    let mut rest = incoming;
    let total = rest.len();
    let mut n: usize = 0;
    while rest.len() > 0
        invariant
            n + rest@.len() == total,
            total == inc.len(),
            rest@ == inc.skip(n as int),
            target@ == entries_added(old(target)@, inc, n as int),
        decreases rest@.len(),
    {
        let e = rest.remove(0);
        assert(e == inc[n as int]);
        assert(rest@ =~= inc.skip(n + 1));
        let mut listed = false;
        let mut k: usize = 0;
        while k < target.len()
            invariant
                k <= target@.len(),
                listed == exists|j: int| 0 <= j < k && #[trigger] target@[j].id@ == e.id@,
            decreases target@.len() - k,
        {
            if target[k].id == e.id {
                listed = true;
            }
            k += 1;
        }
        if !listed {
            target.push(e);
        }
        n += 1;
    }
    assert(inc.skip(n as int) =~= Seq::<ProfileListEntry>::empty());
}

fn merge_details<X>(target: &mut Vec<ListingDetailsPayload<X>>, incoming: Vec<ListingDetailsPayload<X>>)
    ensures
        final(target)@ == details_merged(old(target)@, incoming@, incoming@.len() as int),
{
    let ghost inc = incoming@;
    let mut rest = incoming;
    let total = rest.len();
    let mut n: usize = 0;
    while rest.len() > 0
        invariant
            n + rest@.len() == total,
            total == inc.len(),
            rest@ == inc.skip(n as int),
            target@ == details_merged(old(target)@, inc, n as int),
        decreases rest@.len(),
    {
        let d = rest.remove(0);
        assert(d == inc[n as int]);
        assert(rest@ =~= inc.skip(n + 1));
        let ghost t = target@;
        let mut found: Option<usize> = None;
        let mut k: usize = 0;
        while k < target.len()
            invariant
                k <= target@.len(),
                target@ == t,
                found is None ==> find_payload_details_from(t, d.id@, 0)
                    == find_payload_details_from(t, d.id@, k as int),
                found matches Some(f) ==> f < t.len() && find_payload_details_from(t, d.id@, 0)
                    == Some(f as int),
            decreases target@.len() - k,
        {
            if found.is_none() && target[k].id == d.id {
                found = Some(k);
            }
            k += 1;
        }
        match found {
            Some(f) => {
                target.set(f, d);
            },
            None => {
                target.push(d);
            },
        }
        n += 1;
    }
    assert(inc.skip(n as int) =~= Seq::<ListingDetailsPayload<X>>::empty());
}

/// Merges a second fetch of the same profile into the first: each text or
/// optional field keeps what `target` has and takes `incoming`'s only where
/// it is empty or unset; groups, picks and classifieds from `incoming` are
/// appended unless their id is listed; their details replace those with the
/// same id, or are appended.
pub fn merge_profile_payload(target: &mut AgentProfileData, incoming: AgentProfileData)
    ensures
        final(target).id == fill_text(old(target).id, incoming.id),
        final(target).profile_url == fill(old(target).profile_url, incoming.profile_url),
        final(target).sl_about_text == fill_text(old(target).sl_about_text, incoming.sl_about_text),
        final(target).fl_about_text == fill_text(old(target).fl_about_text, incoming.fl_about_text),
        final(target).notes == fill_text(old(target).notes, incoming.notes),
        final(target).sl_image_id == fill(old(target).sl_image_id, incoming.sl_image_id),
        final(target).fl_image_id == fill(old(target).fl_image_id, incoming.fl_image_id),
        final(target).partner_id == fill(old(target).partner_id, incoming.partner_id),
        final(target).member_since == fill(old(target).member_since, incoming.member_since),
        final(target).online == fill(old(target).online, incoming.online),
        final(target).allow_publish == fill(old(target).allow_publish, incoming.allow_publish),
        final(target).identified == fill(old(target).identified, incoming.identified),
        final(target).transacted == fill(old(target).transacted, incoming.transacted),
        final(target).display_name == fill(old(target).display_name, incoming.display_name),
        final(target).username == fill(old(target).username, incoming.username),
        final(target).groups@ == groups_added(
            old(target).groups@,
            incoming.groups@,
            incoming.groups@.len() as int,
        ),
        final(target).picks@ == entries_added(
            old(target).picks@,
            incoming.picks@,
            incoming.picks@.len() as int,
        ),
        final(target).pick_details@ == details_merged(
            old(target).pick_details@,
            incoming.pick_details@,
            incoming.pick_details@.len() as int,
        ),
        final(target).classifieds@ == entries_added(
            old(target).classifieds@,
            incoming.classifieds@,
            incoming.classifieds@.len() as int,
        ),
        final(target).classified_details@ == details_merged(
            old(target).classified_details@,
            incoming.classified_details@,
            incoming.classified_details@.len() as int,
        ),
{
    let AgentProfileData {
        id,
        display_name,
        username,
        profile_url,
        sl_about_text,
        sl_image_id,
        partner_id,
        member_since,
        allow_publish,
        online,
        identified,
        transacted,
        groups,
        fl_about_text,
        fl_image_id,
        notes,
        picks,
        pick_details,
        classifieds,
        classified_details,
    } = incoming;
    fill_string(&mut target.id, id);
    fill_opt(&mut target.profile_url, profile_url);
    fill_string(&mut target.sl_about_text, sl_about_text);
    fill_string(&mut target.fl_about_text, fl_about_text);
    fill_string(&mut target.notes, notes);
    fill_opt(&mut target.sl_image_id, sl_image_id);
    fill_opt(&mut target.fl_image_id, fl_image_id);
    fill_opt(&mut target.partner_id, partner_id);
    fill_opt(&mut target.member_since, member_since);
    fill_opt(&mut target.online, online);
    fill_opt(&mut target.allow_publish, allow_publish);
    fill_opt(&mut target.identified, identified);
    fill_opt(&mut target.transacted, transacted);
    fill_opt(&mut target.display_name, display_name);
    fill_opt(&mut target.username, username);
    add_groups(&mut target.groups, groups);
    add_entries(&mut target.picks, picks);
    merge_details(&mut target.pick_details, pick_details);
    add_entries(&mut target.classifieds, classifieds);
    merge_details(&mut target.classified_details, classified_details);
}

} // verus!
