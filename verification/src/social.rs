//! The social side of the session: the social cache's rules (its location,
//! how many instant messages a thread keeps, the key that recognises a
//! message stored twice), avatar labels, and what the social circuit's
//! events tell the viewer.
use std::collections::BTreeMap;
use vstd::prelude::*;
use crate::capability::cap_get;
use crate::numtext::{dec, parse_unsigned, parse_unsigned_exec, push_dec};
use crate::text::{chars_of, push_str, string_of, trim, trimmed};

verus! {

/// A direct instant message as the cache stores it.
#[derive(Debug, Clone, PartialEq, Eq)]
pub struct DirectImMessage {
    pub id: u64,
    pub session_id: String,
    pub peer_id: String,
    pub from_id: String,
    pub from_name: String,
    pub text: String,
    pub observed_at_unix_ms: u64,
    pub outgoing: bool,
}

/// Messages kept per thread when nothing is configured.
pub const DEFAULT_MAX_MESSAGES_PER_THREAD: usize = 500;

/// The fewest messages per thread that may be configured.
pub const MIN_MAX_MESSAGES_PER_THREAD: usize = 50;

/// Where the social cache lives and how many messages it keeps per thread.
#[derive(Debug, Clone, PartialEq, Eq)]
pub struct SocialCacheConfig {
    pub path: String,
    pub max_messages_per_thread: usize,
}

impl SocialCacheConfig {
    /// The configuration from the settings that `lookup` gives: the path
    /// from `VIEWER_SOCIAL_CACHE_PATH` (default `logs/social_cache.db`) and
    /// the per-thread limit from `VIEWER_SOCIAL_CACHE_MAX_MESSAGES_PER_THREAD`
    /// (see [`messages_per_thread`]).
    pub fn from_lookup<F: Fn(&str) -> Option<String>>(lookup: F) -> (r: Self)
        requires
            forall|k: &str| #[trigger] lookup.requires((k,)),
        ensures
            exists|path: Option<String>, max: Option<String>|
                {
                    &&& #[trigger] lookup.ensures(("VIEWER_SOCIAL_CACHE_PATH",), path)
                    &&& #[trigger] lookup.ensures(
                        ("VIEWER_SOCIAL_CACHE_MAX_MESSAGES_PER_THREAD",),
                        max,
                    )
                    &&& r.path@ == match path {
                        Some(p) => p@,
                        None => "logs/social_cache.db"@,
                    }
                    &&& r.max_messages_per_thread == messages_per_thread(
                        match max {
                            Some(m) => Some(m@),
                            None => None,
                        },
                    )
                },
    {
        let path_raw = lookup("VIEWER_SOCIAL_CACHE_PATH");
        let max_raw = lookup("VIEWER_SOCIAL_CACHE_MAX_MESSAGES_PER_THREAD");
        let path = match &path_raw {
            Some(p) => p.clone(),
            None => "logs/social_cache.db".to_owned(),
        };
        let max_messages_per_thread = match &max_raw {
            Some(m) => social_cache_max_messages(Some(m.as_str())),
            None => social_cache_max_messages(None),
        };
        SocialCacheConfig { path, max_messages_per_thread }
    }
}

/// The per-thread message limit for a configured value: the value when it
/// reads as a `usize`, else the default, and never below the minimum.
pub open spec fn messages_per_thread(raw: Option<Seq<char>>) -> usize {
    let v: int = match raw {
        Some(s) => match parse_unsigned(s, usize::MAX as nat) {
            Some(n) => n as int,
            None => DEFAULT_MAX_MESSAGES_PER_THREAD as int,
        },
        None => DEFAULT_MAX_MESSAGES_PER_THREAD as int,
    };
    if v < MIN_MAX_MESSAGES_PER_THREAD {
        MIN_MAX_MESSAGES_PER_THREAD
    } else {
        v as usize
    }
}

/// The per-thread message limit for a configured value (see [`messages_per_thread`]).
pub fn social_cache_max_messages(raw: Option<&str>) -> (r: usize)
    ensures
        r == messages_per_thread(
            match raw {
                Some(s) => Some(s@),
                None => None,
            },
        ),
{
    let v: usize = match raw {
        Some(s) => {
            let cs = chars_of(s);
            match parse_unsigned_exec(cs.as_slice(), usize::MAX as u64) {
                Some(n) => n as usize,
                None => DEFAULT_MAX_MESSAGES_PER_THREAD,
            }
        },
        None => DEFAULT_MAX_MESSAGES_PER_THREAD,
    };
    if v < MIN_MAX_MESSAGES_PER_THREAD {
        MIN_MAX_MESSAGES_PER_THREAD
    } else {
        v
    }
}

/// The key under which a message is stored once: session, peer, sender,
/// time, direction (`1` outgoing, `0` incoming) and text, separated by `|`.
pub open spec fn dedupe_key(m: DirectImMessage) -> Seq<char> {
    m.session_id@ + seq!['|'] + m.peer_id@ + seq!['|'] + m.from_id@ + seq!['|'] + dec(
        m.observed_at_unix_ms as nat,
    ) + seq!['|'] + (if m.outgoing {
        seq!['1']
    } else {
        seq!['0']
    }) + seq!['|'] + m.text@
}

/// The key under which a message is stored once (see [`dedupe_key`]).
pub fn im_dedupe_key(message: &DirectImMessage) -> (r: String)
    ensures
        r@ == dedupe_key(*message),
{
    let mut out = chars_of(message.session_id.as_str());
    out.push('|');
    push_str(&mut out, message.peer_id.as_str());
    out.push('|');
    push_str(&mut out, message.from_id.as_str());
    out.push('|');
    push_dec(&mut out, message.observed_at_unix_ms);
    out.push('|');
    out.push(
        if message.outgoing {
            '1'
        } else {
            '0'
        },
    );
    out.push('|');
    push_str(&mut out, message.text.as_str());
    assert(out@ =~= dedupe_key(*message));
    string_of(out.as_slice())
}

/// A friend as the social state keeps it.
#[derive(Debug, Clone, PartialEq, Eq)]
pub struct FriendEntry {
    pub id: String,
    pub display_name: Option<String>,
    pub name_source: Option<String>,
    pub last_name_resolved_unix_ms: Option<u64>,
    pub online: bool,
    pub rights_has: u32,
    pub rights_given: u32,
    pub last_changed_unix_ms: u64,
}

/// The first eight characters of an identifier.
pub open spec fn short_id(s: Seq<char>) -> Seq<char> {
    if s.len() <= 8 {
        s
    } else {
        s.take(8)
    }
}

/// The first eight characters of an identifier.
pub fn uuid_short(value: &str) -> (r: String)
    ensures
        r@ == short_id(value@),
{
    let cs = chars_of(value);
    let n = if cs.len() <= 8 {
        cs.len()
    } else {
        8
    };
    let mut out: Vec<char> = Vec::new();
    let mut i: usize = 0;
    while i < n
        invariant
            n <= cs@.len(),
            i <= n,
            out@ == cs@.take(i as int),
        decreases n - i,
    {
        out.push(cs[i]);
        assert(cs@.take(i + 1) =~= cs@.take(i as int).push(cs@[i as int]));
        i += 1;
    }
    assert(cs@.take(n as int) =~= short_id(value@));
    string_of(out.as_slice())
}

/// Where the first friend with identifier `id` is.
pub open spec fn first_friend(fs: Seq<FriendEntry>, id: Seq<char>) -> Option<int>
    decreases fs.len(),
{
    if fs.len() == 0 {
        None
    } else if fs[0].id@ == id {
        Some(0)
    } else {
        match first_friend(fs.drop_first(), id) {
            Some(i) => Some(i + 1),
            None => None,
        }
    }
}

/// `name (short id)`.
pub open spec fn named_label(name: Seq<char>, id: Seq<char>) -> Seq<char> {
    name + " ("@ + short_id(id) + ")"@
}

/// The display name of the first friend with identifier `id`, if it has one.
pub open spec fn friend_name(fs: Seq<FriendEntry>, id: Seq<char>) -> Option<Seq<char>> {
    match first_friend(fs, id) {
        Some(i) => match fs[i].display_name {
            Some(n) => Some(n@),
            None => None,
        },
        None => None,
    }
}

/// An avatar's label: its friend's display name with its short identifier,
/// or the short identifier alone.
pub open spec fn avatar_label(id: Seq<char>, fs: Seq<FriendEntry>) -> Seq<char> {
    match friend_name(fs, id) {
        Some(n) => named_label(n, id),
        None => short_id(id),
    }
}

fn friend_display_name(agent_id: &str, friends: &[FriendEntry]) -> (r: Option<String>)
    ensures
        match r {
            Some(n) => friend_name(friends@, agent_id@) == Some(n@),
            None => friend_name(friends@, agent_id@) is None,
        },
{
    let id = agent_id.to_owned();
    let mut i: usize = 0;
    assert(friends@.skip(0) =~= friends@);
    while i < friends.len()
        invariant
            i <= friends@.len(),
            id@ == agent_id@,
            forall|j: int| 0 <= j < i ==> friends@[j].id@ != agent_id@,
            first_friend(friends@, agent_id@) == match first_friend(friends@.skip(i as int), agent_id@) {
                Some(k) => Some(k + i),
                None => None::<int>,
            },
        decreases friends@.len() - i,
    {
        assert(friends@.skip(i as int)[0] == friends@[i as int]);
        if friends[i].id == id {
            return match &friends[i].display_name {
                Some(n) => Some(n.clone()),
                None => None,
            };
        }
        assert(friends@.skip(i as int).drop_first() =~= friends@.skip(i + 1));
        i += 1;
    }
    assert(friends@.skip(i as int).len() == 0);
    None
}

fn labelled(name: &str, agent_id: &str) -> (r: String)
    ensures
        r@ == named_label(name@, agent_id@),
{
    let mut out = chars_of(name);
    push_str(&mut out, " (");
    let short = uuid_short(agent_id);
    push_str(&mut out, short.as_str());
    push_str(&mut out, ")");
    assert(out@ =~= named_label(name@, agent_id@));
    string_of(out.as_slice())
}

/// An avatar's label among `friends` (see [`avatar_label`]).
pub fn format_avatar_label(agent_id: &str, friends: &[FriendEntry]) -> (r: String)
    ensures
        r@ == avatar_label(agent_id@, friends@),
{
    match friend_display_name(agent_id, friends) {
        Some(name) => labelled(name.as_str(), agent_id),
        None => uuid_short(agent_id),
    }
}

/// An avatar's label: a friend's display name first, then a cached name,
/// each with the short identifier, else the short identifier alone.
pub open spec fn avatar_label_with_cache(
    id: Seq<char>,
    fs: Seq<FriendEntry>,
    cache: Map<Seq<char>, Seq<char>>,
) -> Seq<char> {
    match friend_name(fs, id) {
        Some(n) => named_label(n, id),
        None => if cache.contains_key(id) {
            named_label(cache[id], id)
        } else {
            short_id(id)
        },
    }
}

/// An avatar's label among `friends` and the cache of resolved names (see
/// [`avatar_label_with_cache`]).
pub fn format_avatar_label_with_cache(
    agent_id: &str,
    friends: &[FriendEntry],
    avatar_name_cache: &BTreeMap<String, String>,
) -> (r: String)
    ensures
        r@ == avatar_label_with_cache(agent_id@, friends@, avatar_name_cache.deep_view()),
{
    match friend_display_name(agent_id, friends) {
        Some(name) => labelled(name.as_str(), agent_id),
        None => match cap_get(avatar_name_cache, agent_id) {
            Some(name) => labelled(name.as_str(), agent_id),
            None => format_avatar_label(agent_id, friends),
        },
    }
}

/// An instant message received on the social circuit.
#[derive(Debug, Clone, PartialEq, Eq)]
pub struct IncomingIm {
    pub from_id: String,
    pub to_id: String,
    pub from_name: String,
    pub session_id: String,
    pub message: String,
}

/// What the social circuit reported.
#[derive(Debug, Clone, PartialEq, Eq)]
pub enum SocialEvent {
    FriendOnline { agent_id: String },
    FriendOffline { agent_id: String },
    FriendRights { agent_id: String, related_id: String, rights: i32 },
    DirectIm(IncomingIm),
}

/// What the viewer learns from a social event.
#[derive(Debug, Clone, PartialEq, Eq)]
pub enum SocialUpdate {
    FriendPresence { id: String, online: bool },
    FriendRights { id: String, rights_has: i32, rights_given: i32 },
    FriendResolvedName { id: String, display_name: String, source: String },
    DirectIm(DirectImMessage),
}

/// A social update as the contracts see it.
pub enum SocialUpdateView {
    FriendPresence { id: Seq<char>, online: bool },
    FriendRights { id: Seq<char>, rights_has: i32, rights_given: i32 },
    FriendResolvedName { id: Seq<char>, display_name: Seq<char>, source: Seq<char> },
    DirectIm {
        id: u64,
        session_id: Seq<char>,
        peer_id: Seq<char>,
        from_id: Seq<char>,
        from_name: Seq<char>,
        text: Seq<char>,
        observed_at_unix_ms: u64,
        outgoing: bool,
    },
}

pub open spec fn update_view(u: SocialUpdate) -> SocialUpdateView {
    match u {
        SocialUpdate::FriendPresence { id, online } => SocialUpdateView::FriendPresence {
            id: id@,
            online,
        },
        SocialUpdate::FriendRights { id, rights_has, rights_given } => SocialUpdateView::FriendRights {
            id: id@,
            rights_has,
            rights_given,
        },
        SocialUpdate::FriendResolvedName { id, display_name, source } =>
            SocialUpdateView::FriendResolvedName {
            id: id@,
            display_name: display_name@,
            source: source@,
        },
        SocialUpdate::DirectIm(m) => SocialUpdateView::DirectIm {
            id: m.id,
            session_id: m.session_id@,
            peer_id: m.peer_id@,
            from_id: m.from_id@,
            from_name: m.from_name@,
            text: m.text@,
            observed_at_unix_ms: m.observed_at_unix_ms,
            outgoing: m.outgoing,
        },
    }
}

/// The other party of an instant message.
pub open spec fn im_participant(local: Seq<char>, im: IncomingIm) -> Seq<char> {
    if im.from_id@ == local {
        im.to_id@
    } else {
        im.from_id@
    }
}

/// The updates a social event gives, seen from `local` at time `now`:
/// presence for online and offline; for rights, what the friend grants us
/// (when we are the related agent) or what we grant them (when we are the
/// agent), else nothing; for an instant message, the sender's name for the
/// other party when both are known, then the message itself, in its
/// session (or the two-party session `p2p_session_id`, or none), named by
/// the sender's name or else id, outgoing when we sent it.
pub open spec fn social_updates(
    local: Seq<char>,
    event: SocialEvent,
    p2p_session_id: Option<String>,
    now: u64,
) -> Seq<SocialUpdateView> {
    match event {
        SocialEvent::FriendOnline { agent_id } => seq![
            SocialUpdateView::FriendPresence { id: agent_id@, online: true },
        ],
        SocialEvent::FriendOffline { agent_id } => seq![
            SocialUpdateView::FriendPresence { id: agent_id@, online: false },
        ],
        SocialEvent::FriendRights { agent_id, related_id, rights } => if related_id@ == local {
            seq![SocialUpdateView::FriendRights { id: agent_id@, rights_has: rights, rights_given: 0 }]
        } else if agent_id@ == local {
            seq![
                SocialUpdateView::FriendRights { id: related_id@, rights_has: 0, rights_given: rights },
            ]
        } else {
            seq![]
        },
        SocialEvent::DirectIm(im) => {
            let p = im_participant(local, im);
            let named: Seq<SocialUpdateView> = if trim(im.from_name@).len() > 0 && p.len() > 0 {
                seq![
                    SocialUpdateView::FriendResolvedName {
                        id: p,
                        display_name: im.from_name@,
                        source: "im.from_name"@,
                    },
                ]
            } else {
                seq![]
            };
            named.push(
                SocialUpdateView::DirectIm {
                    id: now,
                    session_id: if im.session_id@.len() > 0 {
                        im.session_id@
                    } else {
                        match p2p_session_id {
                            Some(s) => s@,
                            None => seq![],
                        }
                    },
                    peer_id: p,
                    from_id: im.from_id@,
                    from_name: if im.from_name@.len() == 0 {
                        im.from_id@
                    } else {
                        im.from_name@
                    },
                    text: im.message@,
                    observed_at_unix_ms: now,
                    outgoing: im.from_id@ == local,
                },
            )
        },
    }
}

/// The relay line of a social event: `<id> online` / `<id> offline` under
/// `friend`, `im from <id>` under `im_recv`, none for rights.
pub open spec fn social_relay(event: SocialEvent) -> Option<(Seq<char>, Seq<char>)> {
    match event {
        SocialEvent::FriendOnline { agent_id } => Some(("friend"@, agent_id@ + " online"@)),
        SocialEvent::FriendOffline { agent_id } => Some(("friend"@, agent_id@ + " offline"@)),
        SocialEvent::FriendRights { .. } => None,
        SocialEvent::DirectIm(im) => Some(("im_recv"@, "im from "@ + im.from_id@)),
    }
}

fn has_chars(s: &String) -> (r: bool)
    ensures
        r == (s@.len() > 0),
{
    chars_of(s.as_str()).len() > 0
}

fn joined(a: &str, b: &str) -> (r: String)
    ensures
        r@ == a@ + b@,
{
    let mut v: Vec<char> = Vec::new();
    push_str(&mut v, a);
    push_str(&mut v, b);
    string_of(v.as_slice())
}

/// What a social event gives: the updates (see [`social_updates`]) and the
/// relay line as category and message (see [`social_relay`]).
/// `p2p_session_id` is the two-party session id of us and the message's
/// other party, used when a message comes without a session.
pub fn dispatch_social_event(
    local_agent_id: &str,
    event: &SocialEvent,
    p2p_session_id: Option<String>,
    now: u64,
) -> (r: (Vec<SocialUpdate>, Option<(String, String)>))
    ensures
        r.0@.map_values(|u: SocialUpdate| update_view(u)) == social_updates(
            local_agent_id@,
            *event,
            p2p_session_id,
            now,
        ),
        match r.1 {
            Some((c, m)) => social_relay(*event) == Some((c@, m@)),
            None => social_relay(*event) is None,
        },
{
    let local = local_agent_id.to_owned();
    let mut updates: Vec<SocialUpdate> = Vec::new();
    match event {
        SocialEvent::FriendOnline { agent_id } => {
            updates.push(SocialUpdate::FriendPresence { id: agent_id.clone(), online: true });
            let ghost want = social_updates(local_agent_id@, *event, p2p_session_id, now);
            assert(updates@.map_values(|u: SocialUpdate| update_view(u)) =~= want);
            (updates, Some(("friend".to_owned(), joined(agent_id.as_str(), " online"))))
        },
        SocialEvent::FriendOffline { agent_id } => {
            updates.push(SocialUpdate::FriendPresence { id: agent_id.clone(), online: false });
            let ghost want = social_updates(local_agent_id@, *event, p2p_session_id, now);
            assert(updates@.map_values(|u: SocialUpdate| update_view(u)) =~= want);
            (updates, Some(("friend".to_owned(), joined(agent_id.as_str(), " offline"))))
        },
        SocialEvent::FriendRights { agent_id, related_id, rights } => {
            if *related_id == local {
                updates.push(
                    SocialUpdate::FriendRights {
                        id: agent_id.clone(),
                        rights_has: *rights,
                        rights_given: 0,
                    },
                );
            } else if *agent_id == local {
                updates.push(
                    SocialUpdate::FriendRights {
                        id: related_id.clone(),
                        rights_has: 0,
                        rights_given: *rights,
                    },
                );
            }
            let ghost want = social_updates(local_agent_id@, *event, p2p_session_id, now);
            assert(updates@.map_values(|u: SocialUpdate| update_view(u)) =~= want);
            (updates, None)
        },
        SocialEvent::DirectIm(im) => {
            let outgoing = im.from_id == local;
            let participant = if outgoing {
                im.to_id.clone()
            } else {
                im.from_id.clone()
            };
            let name_chars = chars_of(im.from_name.as_str());
            let name_trimmed = trimmed(name_chars.as_slice());
            if name_trimmed.len() > 0 && has_chars(&participant) {
                updates.push(
                    SocialUpdate::FriendResolvedName {
                        id: participant.clone(),
                        display_name: im.from_name.clone(),
                        source: "im.from_name".to_owned(),
                    },
                );
            }
            let session_id = if has_chars(&im.session_id) {
                im.session_id.clone()
            } else {
                match p2p_session_id {
                    Some(s) => s,
                    None => String::new(),
                }
            };
            let from_name = if !has_chars(&im.from_name) {
                im.from_id.clone()
            } else {
                im.from_name.clone()
            };
            updates.push(
                SocialUpdate::DirectIm(
                    DirectImMessage {
                        id: now,
                        session_id,
                        peer_id: participant,
                        from_id: im.from_id.clone(),
                        from_name,
                        text: im.message.clone(),
                        observed_at_unix_ms: now,
                        outgoing,
                    },
                ),
            );
            let ghost want = social_updates(local_agent_id@, *event, p2p_session_id, now);
            assert(updates@.map_values(|u: SocialUpdate| update_view(u)) =~= want);
            (updates, Some(("im_recv".to_owned(), joined("im from ", im.from_id.as_str()))))
        },
    }
}

/// The name a profile is best known by: its display name, else its user
/// name, each trimmed and only when not blank.
pub open spec fn best_avatar_name(
    display_name: Option<Seq<char>>,
    username: Option<Seq<char>>,
) -> Option<Seq<char>> {
    match display_name {
        Some(d) if trim(d).len() > 0 => Some(trim(d)),
        _ => match username {
            Some(u) if trim(u).len() > 0 => Some(trim(u)),
            _ => None,
        },
    }
}

fn trimmed_nonblank(s: &Option<String>) -> (r: Option<String>)
    ensures
        opt_chars_of(r) == match opt_chars_of(*s) {
            Some(v) if trim(v).len() > 0 => Some(trim(v)),
            _ => None,
        },
{
    match s {
        Some(v) => {
            let c = chars_of(v.as_str());
            let t = trimmed(c.as_slice());
            if t.len() > 0 {
                Some(string_of(t.as_slice()))
            } else {
                None
            }
        },
        None => None,
    }
}

pub open spec fn opt_chars_of(s: Option<String>) -> Option<Seq<char>> {
    match s {
        Some(v) => Some(v@),
        None => None,
    }
}

/// The name to show for a fetched profile (see [`best_avatar_name`]).
pub fn pick_best_avatar_name(display_name: &Option<String>, username: &Option<String>) -> (r:
    Option<String>)
    ensures
        opt_chars_of(r) == best_avatar_name(opt_chars_of(*display_name), opt_chars_of(*username)),
{
    match trimmed_nonblank(display_name) {
        Some(n) => Some(n),
        None => trimmed_nonblank(username),
    }
}

/// The tabs of an avatar's profile.
#[derive(Debug, Clone, Copy, PartialEq, Eq, Structural)]
pub enum AvatarProfileTab {
    SecondLife,
    Feed,
    Picks,
    Classifieds,
    FirstLife,
    Notes,
}

/// Where loading a profile tab stands.
#[derive(Debug, Clone, Copy, PartialEq, Eq, Structural)]
pub enum ProfileLoadStatus {
    Idle,
    Loading,
    Loaded,
    Failed,
}

/// A profile tab's load state: its status and when it was last updated.
#[derive(Debug, Clone, Copy, PartialEq, Eq, Structural)]
pub struct ProfileTabLoad {
    pub status: ProfileLoadStatus,
    pub last_updated_unix_ms: Option<u64>,
}

/// Which parts of a profile have been loaded.
#[derive(Debug, Clone, Copy, PartialEq, Eq, Default, Structural)]
pub struct LoadedProfileParts {
    pub second_life: bool,
    pub feed_url: bool,
    pub first_life: bool,
    pub notes: bool,
}

/// Whether a tab has data to show: the Second Life part for its own tab,
/// picks and classifieds; the feed URL or the Second Life part for the feed;
/// the first-life part and the notes for theirs.
pub fn profile_tab_has_loaded_data(parts: &LoadedProfileParts, tab: AvatarProfileTab) -> (r: bool)
    ensures
        r == match tab {
            AvatarProfileTab::Feed => parts.feed_url || parts.second_life,
            AvatarProfileTab::FirstLife => parts.first_life,
            AvatarProfileTab::Notes => parts.notes,
            _ => parts.second_life,
        },
{
    match tab {
        AvatarProfileTab::SecondLife => parts.second_life,
        AvatarProfileTab::Feed => parts.feed_url || parts.second_life,
        AvatarProfileTab::Picks => parts.second_life,
        AvatarProfileTab::Classifieds => parts.second_life,
        AvatarProfileTab::FirstLife => parts.first_life,
        AvatarProfileTab::Notes => parts.notes,
    }
}

/// Whether a profile tab should be fetched at `now`: always when no profile
/// is shown or another avatar's is, or the tab failed or was never updated;
/// never while it loads; else once it is older than the time to live
/// (`ttl_secs` seconds, at least one second).
pub fn should_fetch_profile_tab(
    shown_avatar_id: Option<&str>,
    load: &ProfileTabLoad,
    avatar_id: &str,
    ttl_secs: u64,
    now_unix_ms: u64,
) -> (r: bool)
    ensures
        r == match shown_avatar_id {
            None => true,
            Some(shown) => if shown@ != avatar_id@ {
                true
            } else if load.status == ProfileLoadStatus::Loading {
                false
            } else if load.status == ProfileLoadStatus::Failed {
                true
            } else {
                match load.last_updated_unix_ms {
                    None => true,
                    Some(last) => {
                        let ttl: int = if ttl_secs * 1000 > u64::MAX {
                            u64::MAX as int
                        } else if ttl_secs * 1000 < 1000 {
                            1000
                        } else {
                            ttl_secs * 1000
                        };
                        (if now_unix_ms >= last {
                            now_unix_ms - last
                        } else {
                            0
                        }) > ttl
                    },
                }
            },
        },
{
    let ttl: u64 = if ttl_secs > u64::MAX / 1000 {
        u64::MAX
    } else {
        ttl_secs * 1000
    };
    let ttl_ms = if ttl < 1000 {
        1000
    } else {
        ttl
    };
    let shown = match shown_avatar_id {
        None => return true,
        Some(s) => s,
    };
    let a = chars_of(shown);
    if !crate::text::eq_str(a.as_slice(), avatar_id) {
        return true;
    }
    match load.status {
        ProfileLoadStatus::Loading => return false,
        ProfileLoadStatus::Failed => return true,
        _ => {},
    }
    match load.last_updated_unix_ms {
        None => true,
        Some(last) => now_unix_ms.saturating_sub(last) > ttl_ms,
    }
}

} // verus!
