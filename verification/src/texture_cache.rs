//! The fixture texture cache: a byte-budgeted cache of decoded textures with
//! continuity priorities, a bounded request queue, negative caching of missing
//! fixtures, and a small LRU of decoded textures too large to cache.
use std::path::PathBuf;
use std::sync::Arc;
use vstd::prelude::*;
use crate::asset::{AssetID, AssetPriority};
use crate::continuity::{sat_sub, A10_QUOTA_ACTIVE, A10_QUOTA_NEIGHBOR, A10_QUOTA_PREVIOUS};
use crate::text::{chars_of, contains_char, lower, lowercase, push_str, string_of, trim, trimmed};

verus! {

/// How long a `Previous` or `Neighbor` entry is kept regardless of the budget.
pub const A10_CONTINUITY_WINDOW_MS: u64 = 45_000;

/// Most requests that may wait in the queue.
pub const A10_REQUESTS_PER_TICK_CAP: usize = 64;

/// Most priority promotions per poll tick.
pub const A10_PROMOTIONS_PER_TICK_CAP: usize = 24;

/// Most entries that may hold a continuity priority at once.
pub const A10_QUOTA_TOTAL_CONTINUITY: usize = 160;

/// Most fixture ids remembered as missing.
pub const NEGATIVE_CACHE_CAP: usize = 2048;

/// Most over-budget textures kept ready.
pub const OVERSIZED_CAP: usize = 16;

#[verifier::external_type_specification]
#[verifier::external_body]
pub struct ExPathBuf(PathBuf);

/// A request's outcome: still loading, ready with its value, or missing.
#[derive(Debug, Clone)]
pub enum AssetStatus<T> {
    Loading,
    Ready(T),
    Missing,
}

/// Counters of what the continuity policy did.
#[derive(Debug, Clone, Copy, PartialEq, Eq, Structural)]
pub struct AssetContinuityMetrics {
    pub continuity_requests_enqueued: u64,
    pub continuity_requests_dropped_cap: u64,
    pub continuity_retained_active: u64,
    pub continuity_retained_previous: u64,
    pub continuity_retained_neighbor: u64,
    pub continuity_promoted_neighbor: u64,
    pub continuity_evicted_expired: u64,
    pub continuity_evicted_budget: u64,
    pub continuity_budget_pressure_events: u64,
}

impl Default for AssetContinuityMetrics {
    fn default() -> (r: Self)
        ensures
            r == AssetContinuityMetrics::zero(),
    {
        AssetContinuityMetrics {
            continuity_requests_enqueued: 0,
            continuity_requests_dropped_cap: 0,
            continuity_retained_active: 0,
            continuity_retained_previous: 0,
            continuity_retained_neighbor: 0,
            continuity_promoted_neighbor: 0,
            continuity_evicted_expired: 0,
            continuity_evicted_budget: 0,
            continuity_budget_pressure_events: 0,
        }
    }
}

impl AssetContinuityMetrics {
    pub open spec fn zero() -> Self {
        AssetContinuityMetrics {
            continuity_requests_enqueued: 0,
            continuity_requests_dropped_cap: 0,
            continuity_retained_active: 0,
            continuity_retained_previous: 0,
            continuity_retained_neighbor: 0,
            continuity_promoted_neighbor: 0,
            continuity_evicted_expired: 0,
            continuity_evicted_budget: 0,
            continuity_budget_pressure_events: 0,
        }
    }
}

/// `a + b`, or `u64::MAX` when that overflows.
pub open spec fn sat_add(a: u64, b: int) -> u64 {
    if a + b > u64::MAX {
        u64::MAX
    } else {
        (a + b) as u64
    }
}

/// What the cache keeps about an entry.
#[derive(Debug, Clone, Copy, PartialEq, Eq, Structural)]
pub struct CacheEntryMetadata {
    pub priority: AssetPriority,
    pub last_touched_tick: u64,
    pub added_at_ms: u64,
    pub size_bytes: usize,
}

/// A decoded image, four bytes per pixel.
#[derive(Debug, Clone)]
pub struct DecodedRgbaImage {
    pub width: u32,
    pub height: u32,
    pub rgba: Vec<u8>,
}

impl DecodedRgbaImage {
    pub fn byte_len(&self) -> (r: usize)
        ensures
            r == self.rgba@.len(),
    {
        self.rgba.len()
    }
}

/// What a texture request answers.
pub type FixtureTextureStatus = AssetStatus<Arc<DecodedRgbaImage>>;

/// A request to the cache could not be served; requests to this cache always succeed.
#[derive(Debug, Clone, Copy, PartialEq, Eq, Structural)]
pub struct FixtureCacheError;

/// A cached texture with its bookkeeping.
#[derive(Debug)]
pub struct CachedTexture {
    pub id: AssetID,
    pub image: Arc<DecodedRgbaImage>,
    pub meta: CacheEntryMetadata,
}

/// An entry as the contracts see it: its id, bookkeeping and image.
pub type EntryView = (Seq<char>, CacheEntryMetadata, DecodedRgbaImage);

/// The cache as the contracts see it.
pub struct CacheView {
    /// The directory fixtures are read from, as text.
    pub base_dir: Seq<char>,
    pub budget: nat,
    pub current_bytes: nat,
    pub tick: u64,
    pub promotions: nat,
    pub entries: Seq<EntryView>,
    pub pending: Seq<(Seq<char>, AssetPriority)>,
    pub negative: Seq<Seq<char>>,
    pub oversized: Seq<(Seq<char>, DecodedRgbaImage)>,
    pub metrics: AssetContinuityMetrics,
}

pub struct FixtureTextureCache {
    base_dir: PathBuf,
    budget_bytes: usize,
    current_bytes: usize,
    entries: Vec<CachedTexture>,
    current_tick: u64,
    pending: Vec<(AssetID, AssetPriority)>,
    negative: Vec<AssetID>,
    oversized: Vec<(AssetID, Arc<DecodedRgbaImage>)>,
    pub metrics: AssetContinuityMetrics,
    promotions_this_tick: usize,
}

pub open spec fn entry_view(e: CachedTexture) -> EntryView {
    (e.id@, e.meta, *e.image)
}

/// The total size of the entries.
pub open spec fn sum_sizes(s: Seq<EntryView>) -> nat
    decreases s.len(),
{
    if s.len() == 0 {
        0
    } else {
        sum_sizes(s.drop_last()) + s.last().1.size_bytes as nat
    }
}

/// The ids of a sequence of pairs or triples, by position.
pub open spec fn entry_ids(s: Seq<EntryView>) -> Seq<Seq<char>> {
    s.map_values(|e: EntryView| e.0)
}

pub open spec fn distinct(s: Seq<Seq<char>>) -> bool {
    forall|i: int, j: int| 0 <= i < s.len() && 0 <= j < s.len() && i != j ==> s[i] != s[j]
}

impl View for FixtureTextureCache {
    type V = CacheView;

    closed spec fn view(&self) -> CacheView {
        CacheView {
            base_dir: path_text(self.base_dir),
            budget: self.budget_bytes as nat,
            current_bytes: self.current_bytes as nat,
            tick: self.current_tick,
            promotions: self.promotions_this_tick as nat,
            entries: self.entries@.map_values(|e: CachedTexture| entry_view(e)),
            pending: self.pending@.map_values(|p: (AssetID, AssetPriority)| (p.0@, p.1)),
            negative: self.negative@.map_values(|a: AssetID| a@),
            oversized: self.oversized@.map_values(
                |p: (AssetID, Arc<DecodedRgbaImage>)| (p.0@, *p.1),
            ),
            metrics: self.metrics,
        }
    }
}

impl CacheView {
    /// The cache's invariant: distinct ids in each list, the byte count equal to
    /// the entries' sizes and within the budget, each entry's size its image's
    /// length, and the queue, negative list and oversized list within their caps.
    pub open spec fn wf(self) -> bool {
        &&& self.budget >= 1
        &&& distinct(entry_ids(self.entries))
        &&& self.current_bytes == sum_sizes(self.entries)
        &&& self.current_bytes <= self.budget
        &&& forall|i: int|
            0 <= i < self.entries.len() ==> #[trigger] self.entries[i].1.size_bytes
                == self.entries[i].2.rgba@.len()
        &&& distinct(self.pending.map_values(|p: (Seq<char>, AssetPriority)| p.0))
        &&& self.pending.len() <= A10_REQUESTS_PER_TICK_CAP
        &&& distinct(self.negative)
        &&& self.negative.len() <= NEGATIVE_CACHE_CAP
        &&& distinct(self.oversized.map_values(|p: (Seq<char>, DecodedRgbaImage)| p.0))
        &&& self.oversized.len() <= OVERSIZED_CAP
        &&& self.promotions <= A10_PROMOTIONS_PER_TICK_CAP
    }

    /// The position of the entry for `id`.
    pub open spec fn entry_index(self, id: Seq<char>) -> Option<int> {
        if exists|i: int| 0 <= i < self.entries.len() && self.entries[i].0 == id {
            Some(choose|i: int| 0 <= i < self.entries.len() && self.entries[i].0 == id)
        } else {
            None
        }
    }

    pub open spec fn has_entry(self, id: Seq<char>) -> bool {
        exists|i: int| 0 <= i < self.entries.len() && self.entries[i].0 == id
    }
}

/// The number of entries with priority `p`.
pub open spec fn count_priority(s: Seq<EntryView>, p: AssetPriority) -> nat
    decreases s.len(),
{
    if s.len() == 0 {
        0
    } else {
        count_priority(s.drop_last(), p) + if s.last().1.priority == p {
            1nat
        } else {
            0nat
        }
    }
}

/// The priority granted for a request of priority `req`: `Normal` stays
/// `Normal`; a continuity priority is granted while fewer than 160 entries hold
/// one and fewer than its own quota (96, 48, 64) hold it, else `Normal`.
pub open spec fn clamp_spec(s: Seq<EntryView>, req: AssetPriority) -> AssetPriority {
    let a = count_priority(s, AssetPriority::Active);
    let p = count_priority(s, AssetPriority::Previous);
    let n = count_priority(s, AssetPriority::Neighbor);
    if req == AssetPriority::Normal || a + p + n >= A10_QUOTA_TOTAL_CONTINUITY {
        AssetPriority::Normal
    } else {
        match req {
            AssetPriority::Active => if a < A10_QUOTA_ACTIVE {
                AssetPriority::Active
            } else {
                AssetPriority::Normal
            },
            AssetPriority::Previous => if p < A10_QUOTA_PREVIOUS {
                AssetPriority::Previous
            } else {
                AssetPriority::Normal
            },
            AssetPriority::Neighbor => if n < A10_QUOTA_NEIGHBOR {
                AssetPriority::Neighbor
            } else {
                AssetPriority::Normal
            },
            AssetPriority::Normal => AssetPriority::Normal,
        }
    }
}

proof fn lemma_count_bound(s: Seq<EntryView>, p: AssetPriority)
    ensures
        count_priority(s, p) <= s.len(),
    decreases s.len(),
{
    if s.len() > 0 {
        lemma_count_bound(s.drop_last(), p);
    }
}

/// The file name a fixture id maps to: refused when blank or when it holds `/`,
/// `\` or `:`; kept when it has an extension; else with `.png` appended.
pub open spec fn fixture_filename(raw: Seq<char>) -> Option<Seq<char>> {
    let t = trim(raw);
    if t.len() == 0 || t.contains('/') || t.contains('\\') || t.contains(':') {
        None
    } else if lower(t).contains('.') {
        Some(t)
    } else {
        Some(t + ".png"@)
    }
}

/// A fixture file name is a plain file name.
pub proof fn lemma_fixture_filename_is_plain(raw: Seq<char>)
    ensures
        fixture_filename(raw) matches Some(f) ==> plain_file_name(f),
{
    let t = trim(raw);
    if fixture_filename(raw) is Some && !lower(t).contains('.') {
        reveal_strlit(".png");
        let f = t + ".png"@;
        assert forall|c: char| c == '/' || c == '\\' || c == ':' implies !f.contains(c) by {
            if f.contains(c) {
                let k = choose|k: int| 0 <= k < f.len() && f[k] == c;
                if k < t.len() {
                    assert(t[k] == c);
                    assert(t.contains(c));
                }
            }
        }
    }
}

pub fn sanitize_fixture_filename(raw: &str) -> (r: Option<String>)
    ensures
        match r {
            Some(f) => fixture_filename(raw@) == Some(f@),
            None => fixture_filename(raw@) is None,
        },
{
    let c = chars_of(raw);
    let t = trimmed(c.as_slice());
    if t.len() == 0 {
        return None;
    }
    if contains_char(t.as_slice(), '/') || contains_char(t.as_slice(), '\\') {
        return None;
    }
    if contains_char(t.as_slice(), ':') {
        return None;
    }
    let low = lowercase(t.as_slice());
    if contains_char(low.as_slice(), '.') {
        Some(string_of(t.as_slice()))
    } else {
        let mut v = t;
        push_str(&mut v, ".png");
        Some(string_of(v.as_slice()))
    }
}

/// The text a path holds (the characters of its `OsString`, for a path made
/// from a `str`).
pub uninterp spec fn path_text(p: PathBuf) -> Seq<char>;

/// `PathBuf::from` on a `str`: the path holds exactly the characters of `s`
/// (the conversion copies the string's bytes into the path buffer, and
/// `Path::to_str` gives them back).
#[verifier::external_body]
pub(crate) fn path_from(s: &str) -> (r: PathBuf)
    ensures
        path_text(r) == s@,
{
    PathBuf::from(s)
}

/// A relative file name with no directory separator (`/` or a backslash) and no
/// drive colon.
pub open spec fn plain_file_name(f: Seq<char>) -> bool {
    f.len() > 0 && !f.contains('/') && !f.contains('\\') && !f.contains(':')
}

/// Whether a base begins with the verbatim prefix `\\?\` (a Windows path
/// that `PathBuf::push` rebuilds from its components).
pub open spec fn verbatim_prefix(base: Seq<char>) -> bool {
    base.len() >= 4 && base.subrange(0, 4) == seq!['\\', '\\', '?', '\\']
}

/// Whether joining `file` onto `base` is a plain textual join: a plain file
/// name other than `.` and `..`, onto a base without a verbatim prefix.
pub open spec fn plain_join(base: Seq<char>, file: Seq<char>) -> bool {
    plain_file_name(file) && file != seq!['.'] && file != seq!['.', '.'] && !verbatim_prefix(base)
}

/// Whether path text `p` is `file` joined onto `base`: the base, then at most
/// one separator (none when the base is empty), then the file name.
pub open spec fn joined_path(base: Seq<char>, file: Seq<char>, p: Seq<char>) -> bool {
    exists|sep: Seq<char>|
        {
            &&& (sep == Seq::<char>::empty() || sep == seq!['/'] || sep == seq!['\\'])
            &&& (base.len() == 0 ==> sep == Seq::<char>::empty())
            &&& p == base + sep + file
        }
}

/// `Path::join` with a plain file name: `PathBuf::push` of a relative path
/// keeps the base and appends the name, adding the platform's separator
/// (`/` or a backslash) only when the base is not empty and does not already end in
/// one. Nothing is stated where the name is `.` or `..` or where the base has
/// a verbatim prefix (`push` then rebuilds the path from its components), nor
/// of other arguments (absolute paths, drive prefixes).
#[verifier::external_body]
fn path_join(base: &PathBuf, file: &str) -> (r: PathBuf)
    ensures
        plain_join(path_text(*base), file@) ==> joined_path(path_text(*base), file@, path_text(r)),
{
    base.join(file)
}

/// `Path::exists`: whether the file system has the path now; nothing is stated
/// of the answer, which depends on the disk.
#[verifier::external_body]
fn path_exists(path: &PathBuf) -> bool {
    path.exists()
}

/// `Arc::clone`: another pointer to the same value.
#[verifier::external_body]
pub(crate) fn share_arc<T>(value: &Arc<T>) -> (r: Arc<T>)
    ensures
        *r == **value,
{
    Arc::clone(value)
}

/// The directory fixtures are read from by default, relative to the working
/// directory: `test_assets`.
pub fn default_fixture_dir() -> (r: PathBuf)
    ensures
        path_text(r) == "test_assets"@,
{
    path_from("test_assets")
}

/// The cache budget for a setting in MiB: the number read (default 512),
/// clamped to 16..=4096, times 1 MiB.
pub open spec fn budget_from_setting(value: Option<Seq<char>>) -> nat {
    let mb: nat = match value {
        Some(v) => match crate::numtext::parse_unsigned(trim(v), u64::MAX as nat) {
            Some(n) => n,
            None => 512,
        },
        None => 512,
    };
    let c: nat = if mb < 16 {
        16
    } else if mb > 4096 {
        4096
    } else {
        mb
    };
    c * 1048576
}

/// The cache budget a number of MiB gives: that many MiB inside 16..=4096,
/// 16 MiB below and 4096 MiB above; with no setting, 512 MiB.
#[verifier::spinoff_prover]
pub proof fn lemma_budget_from_number(n: nat)
    requires
        n <= u64::MAX,
    ensures
        16 <= n <= 4096 ==> budget_from_setting(Some(crate::numtext::dec(n))) == n * 1048576,
        n < 16 ==> budget_from_setting(Some(crate::numtext::dec(n))) == 16 * 1048576,
        n > 4096 ==> budget_from_setting(Some(crate::numtext::dec(n))) == 4096 * 1048576,
        budget_from_setting(None) == 512 * 1048576,
        budget_from_setting(Some(seq![' '] + crate::numtext::dec(n) + seq![' '])) == budget_from_setting(
            Some(crate::numtext::dec(n)),
        ),
{
    let t = crate::numtext::dec(n);
    crate::numtext::lemma_dec_digits(n);
    crate::numtext::lemma_parse_dec(n, u64::MAX as nat);
    assert(crate::numtext::is_digit(t[0]));
    assert(crate::numtext::is_digit(t[t.len() - 1]));
    assert(crate::text::trim_start(t) == t);
    assert(crate::text::trim_end(t) == t);
    assert(trim(t) == t);
    let padded = seq![' '] + t + seq![' '];
    assert(crate::text::is_ws(' '));
    assert(padded.drop_first() =~= t + seq![' ']);
    assert((t + seq![' '])[0] == t[0]);
    assert(padded[0] == ' ');
    assert(crate::text::trim_start(t + seq![' ']) == t + seq![' ']);
    assert(crate::text::trim_start(padded) == crate::text::trim_start(padded.drop_first()));
    assert(crate::text::trim_start(padded) == t + seq![' ']);
    assert((t + seq![' ']).drop_last() =~= t);
    assert(crate::text::trim_end(t + seq![' ']) == t);
    assert(trim(padded) == t);
}

/// The cache budget in bytes for a `VIEWER_ASSET_CACHE_BUDGET_MB` setting
/// (at most `usize::MAX` where `usize` is narrower than 64 bits).
pub fn budget_bytes_from_setting(value: Option<&str>) -> (r: usize)
    ensures
        r == (if budget_from_setting(crate::startup::opt_str(value)) > usize::MAX {
            usize::MAX as nat
        } else {
            budget_from_setting(crate::startup::opt_str(value))
        }),
{
    let mb: u64 = match value {
        Some(v) => {
            let c = chars_of(v);
            let t = trimmed(c.as_slice());
            match crate::numtext::parse_unsigned_exec(t.as_slice(), u64::MAX) {
                Some(n) => n,
                None => 512,
            }
        },
        None => 512,
    };
    let c: u64 = if mb < 16 {
        16
    } else if mb > 4096 {
        4096
    } else {
        mb
    };
    let bytes: u64 = c * 1048576;
    if bytes > usize::MAX as u64 {
        usize::MAX
    } else {
        bytes as usize
    }
}


/// A status as the contracts see it.
pub enum StatusView {
    Loading,
    Ready(DecodedRgbaImage),
    Missing,
}

pub open spec fn status_view(s: FixtureTextureStatus) -> StatusView {
    match s {
        AssetStatus::Loading => StatusView::Loading,
        AssetStatus::Ready(img) => StatusView::Ready(*img),
        AssetStatus::Missing => StatusView::Missing,
    }
}

/// The rank of a priority: `Active` 0 up to `Normal` 3 (lower is more important).
pub open spec fn rank(p: AssetPriority) -> int {
    p.spec_rank() as int
}

/// The entry `e` with its tick set to `tick`.
pub open spec fn touched_entry(e: EntryView, tick: u64) -> EntryView {
    (e.0, CacheEntryMetadata { last_touched_tick: tick, ..e.1 }, e.2)
}

/// A hit on the entry for `id`: its tick becomes the current tick, and its
/// priority is promoted to the granted one when that is more important and
/// fewer than 24 promotions happened this tick.
pub open spec fn touch_spec(v: CacheView, id: Seq<char>, req: AssetPriority) -> CacheView {
    let p = clamp_spec(v.entries, req);
    match v.entry_index(id) {
        None => v,
        Some(i) => {
            let e = touched_entry(v.entries[i], v.tick);
            if rank(p) < rank(e.1.priority) && v.promotions < A10_PROMOTIONS_PER_TICK_CAP {
                CacheView {
                    entries: v.entries.update(
                        i,
                        (e.0, CacheEntryMetadata { priority: p, ..e.1 }, e.2),
                    ),
                    promotions: v.promotions + 1,
                    metrics: AssetContinuityMetrics {
                        continuity_promoted_neighbor: if p == AssetPriority::Neighbor {
                            sat_add(v.metrics.continuity_promoted_neighbor, 1)
                        } else {
                            v.metrics.continuity_promoted_neighbor
                        },
                        ..v.metrics
                    },
                    ..v
                }
            } else {
                CacheView { entries: v.entries.update(i, e), ..v }
            }
        },
    }
}

/// The cache with the entry for `id` removed.
pub open spec fn evict_spec(v: CacheView, id: Seq<char>) -> CacheView {
    match v.entry_index(id) {
        None => v,
        Some(i) => CacheView {
            entries: v.entries.remove(i),
            current_bytes: (v.current_bytes - v.entries[i].1.size_bytes) as nat,
            ..v
        },
    }
}

proof fn lemma_sum_update(s: Seq<EntryView>, i: int, x: EntryView)
    requires
        0 <= i < s.len(),
        x.1.size_bytes == s[i].1.size_bytes,
    ensures
        sum_sizes(s.update(i, x)) == sum_sizes(s),
    decreases s.len(),
{
    if i < s.len() - 1 {
        assert(s.update(i, x).drop_last() =~= s.drop_last().update(i, x));
        lemma_sum_update(s.drop_last(), i, x);
    } else {
        assert(s.update(i, x).drop_last() =~= s.drop_last());
    }
}

proof fn lemma_sum_remove(s: Seq<EntryView>, i: int)
    requires
        0 <= i < s.len(),
    ensures
        sum_sizes(s.remove(i)) + s[i].1.size_bytes == sum_sizes(s),
    decreases s.len(),
{
    if i < s.len() - 1 {
        assert(s.remove(i).drop_last() =~= s.drop_last().remove(i));
        lemma_sum_remove(s.drop_last(), i);
    } else {
        assert(s.remove(i) =~= s.drop_last());
    }
}

proof fn lemma_sum_push(s: Seq<EntryView>, x: EntryView)
    ensures
        sum_sizes(s.push(x)) == sum_sizes(s) + x.1.size_bytes,
{
    assert(s.push(x).drop_last() =~= s);
}

proof fn lemma_count_update(s: Seq<EntryView>, i: int, x: EntryView, p: AssetPriority)
    requires
        0 <= i < s.len(),
    ensures
        count_priority(s.update(i, x), p) + (if s[i].1.priority == p {
            1int
        } else {
            0int
        }) == count_priority(s, p) + (if x.1.priority == p {
            1int
        } else {
            0int
        }),
    decreases s.len(),
{
    if i < s.len() - 1 {
        assert(s.update(i, x).drop_last() =~= s.drop_last().update(i, x));
        lemma_count_update(s.drop_last(), i, x, p);
    } else {
        assert(s.update(i, x).drop_last() =~= s.drop_last());
    }
}

impl FixtureTextureCache {
    /// A cache over `base_dir` with a budget of `budget_bytes` (at least 1).
    pub fn with_base_dir(base_dir: PathBuf, budget_bytes: usize) -> (r: Self)
        ensures
            r@.wf(),
            r@.base_dir == path_text(base_dir),
            r@.budget == (if budget_bytes == 0 {
                1
            } else {
                budget_bytes as nat
            }),
            r@.current_bytes == 0,
            r@.tick == 0,
            r@.promotions == 0,
            r@.entries.len() == 0,
            r@.pending.len() == 0,
            r@.negative.len() == 0,
            r@.oversized.len() == 0,
            r@.metrics == AssetContinuityMetrics::zero(),
    {
        let r = FixtureTextureCache {
            base_dir,
            budget_bytes: if budget_bytes == 0 {
                1
            } else {
                budget_bytes
            },
            current_bytes: 0,
            entries: Vec::new(),
            current_tick: 0,
            pending: Vec::new(),
            negative: Vec::new(),
            oversized: Vec::new(),
            metrics: AssetContinuityMetrics::default(),
            promotions_this_tick: 0,
        };
        proof {
            assert(r@.entries =~= Seq::<EntryView>::empty());
            assert(r@.pending =~= Seq::<(Seq<char>, AssetPriority)>::empty());
            assert(r@.negative =~= Seq::<Seq<char>>::empty());
            assert(r@.oversized =~= Seq::<(Seq<char>, DecodedRgbaImage)>::empty());
        }
        r
    }

    /// A cache over the default fixture directory with the default budget (512 MiB).
    pub fn new() -> (r: Self)
        ensures
            r@.wf(),
            r@.base_dir == "test_assets"@,
            r@.budget == 512 * 1048576,
            r@.entries.len() == 0,
            r@.pending.len() == 0,
            r@.negative.len() == 0,
            r@.oversized.len() == 0,
    {
        let budget = budget_bytes_from_setting(None);
        Self::with_base_dir(default_fixture_dir(), budget)
    }

    pub fn budget_bytes(&self) -> (r: usize)
        ensures
            r == self@.budget,
    {
        self.budget_bytes
    }

    pub fn current_bytes(&self) -> (r: usize)
        ensures
            r == self@.current_bytes,
    {
        self.current_bytes
    }

    /// The position of the entry for `id`, if the cache holds one.
    fn find_entry(&self, id: &AssetID) -> (r: Option<usize>)
        requires
            self@.wf(),
        ensures
            match r {
                Some(i) => self@.entry_index(id@) == Some(i as int) && i < self@.entries.len(),
                None => !self@.has_entry(id@) && self@.entry_index(id@) is None,
            },
    {
        let ghost es = self@.entries;
        let mut i: usize = 0;
        while i < self.entries.len()
            invariant
                i <= self.entries@.len(),
                es == self@.entries,
                es.len() == self.entries@.len(),
                self@.wf(),
                forall|k: int| 0 <= k < i ==> es[k].0 != id@,
            decreases self.entries@.len() - i,
        {
            assert(es[i as int] == entry_view(self.entries@[i as int]));
            if self.entries[i].id.same_as(id) {
                proof {
                    let c = choose|k: int| 0 <= k < es.len() && es[k].0 == id@;
                    assert(distinct(entry_ids(es)));
                    assert(entry_ids(es)[c] == entry_ids(es)[i as int]);
                }
                return Some(i);
            }
            i += 1;
        }
        None
    }

    /// Whether the cache holds an entry for `id`.
    pub fn has_entry(&self, id: &AssetID) -> (r: bool)
        requires
            self@.wf(),
        ensures
            r == self@.has_entry(id@),
    {
        self.find_entry(id).is_some()
    }

    /// The bookkeeping of the entry for `id`, if the cache holds one.
    pub fn metadata(&self, id: &AssetID) -> (r: Option<CacheEntryMetadata>)
        requires
            self@.wf(),
        ensures
            match r {
                Some(m) => self@.entry_index(id@) matches Some(i) && self@.entries[i].1 == m,
                None => !self@.has_entry(id@),
            },
    {
        match self.find_entry(id) {
            Some(i) => {
                assert(self@.entries[i as int] == entry_view(self.entries@[i as int]));
                Some(self.entries[i].meta)
            },
            None => None,
        }
    }

    /// The number of queued requests.
    pub fn pending_count(&self) -> (r: usize)
        ensures
            r == self@.pending.len(),
    {
        self.pending.len()
    }

    /// How many entries hold `Active`, `Previous` and `Neighbor`.
    fn continuity_counts(&self) -> (r: (usize, usize, usize))
        requires
            self@.wf(),
        ensures
            r.0 == count_priority(self@.entries, AssetPriority::Active),
            r.1 == count_priority(self@.entries, AssetPriority::Previous),
            r.2 == count_priority(self@.entries, AssetPriority::Neighbor),
    {
        let ghost es = self@.entries;
        let mut a: usize = 0;
        let mut p: usize = 0;
        let mut n: usize = 0;
        let mut i: usize = 0;
        while i < self.entries.len()
            invariant
                i <= self.entries@.len(),
                es == self@.entries,
                es.len() == self.entries@.len(),
                a == count_priority(es.take(i as int), AssetPriority::Active),
                p == count_priority(es.take(i as int), AssetPriority::Previous),
                n == count_priority(es.take(i as int), AssetPriority::Neighbor),
            decreases self.entries@.len() - i,
        {
            proof {
                assert(es.take(i + 1).drop_last() =~= es.take(i as int));
                assert(es[i as int] == entry_view(self.entries@[i as int]));
                lemma_count_bound(es.take(i as int), AssetPriority::Active);
                lemma_count_bound(es.take(i as int), AssetPriority::Previous);
                lemma_count_bound(es.take(i as int), AssetPriority::Neighbor);
            }
            match self.entries[i].meta.priority {
                AssetPriority::Active => a += 1,
                AssetPriority::Previous => p += 1,
                AssetPriority::Neighbor => n += 1,
                AssetPriority::Normal => {},
            }
            i += 1;
        }
        assert(es.take(es.len() as int) =~= es);
        (a, p, n)
    }

    /// The priority granted for a request of priority `requested` (see [`clamp_spec`]).
    pub fn clamp_priority_to_quota(&self, requested: AssetPriority) -> (r: AssetPriority)
        requires
            self@.wf(),
        ensures
            r == clamp_spec(self@.entries, requested),
    {
        if requested == AssetPriority::Normal {
            return AssetPriority::Normal;
        }
        let (active, previous, neighbor) = self.continuity_counts();
        proof {
            lemma_count_bound(self@.entries, AssetPriority::Active);
            lemma_count_bound(self@.entries, AssetPriority::Previous);
            lemma_count_bound(self@.entries, AssetPriority::Neighbor);
        }
        if active >= A10_QUOTA_TOTAL_CONTINUITY || previous >= A10_QUOTA_TOTAL_CONTINUITY
            || neighbor >= A10_QUOTA_TOTAL_CONTINUITY || active + previous + neighbor
            >= A10_QUOTA_TOTAL_CONTINUITY {
            return AssetPriority::Normal;
        }
        match requested {
            AssetPriority::Active => if active < A10_QUOTA_ACTIVE {
                AssetPriority::Active
            } else {
                AssetPriority::Normal
            },
            AssetPriority::Previous => if previous < A10_QUOTA_PREVIOUS {
                AssetPriority::Previous
            } else {
                AssetPriority::Normal
            },
            AssetPriority::Neighbor => if neighbor < A10_QUOTA_NEIGHBOR {
                AssetPriority::Neighbor
            } else {
                AssetPriority::Normal
            },
            AssetPriority::Normal => AssetPriority::Normal,
        }
    }

    /// Records a hit on the entry for `id` (see [`touch_spec`]).
    pub fn touch(&mut self, id: &AssetID, requested_priority: AssetPriority)
        requires
            old(self)@.wf(),
        ensures
            final(self)@ == touch_spec(old(self)@, id@, requested_priority),
            final(self)@.wf(),
    {
        let priority = self.clamp_priority_to_quota(requested_priority);
        let i = match self.find_entry(id) {
            Some(i) => i,
            None => return,
        };
        let ghost v = self@;
        let ghost e = touched_entry(v.entries[i as int], v.tick);
        assert(v.entries[i as int] == entry_view(self.entries@[i as int]));
        let mut meta = self.entries[i].meta;
        meta.last_touched_tick = self.current_tick;
        let promote = priority.rank() < meta.priority.rank()
            && self.promotions_this_tick < A10_PROMOTIONS_PER_TICK_CAP;
        if promote {
            meta.priority = priority;
            self.promotions_this_tick = self.promotions_this_tick + 1;
            if priority == AssetPriority::Neighbor {
                self.metrics.continuity_promoted_neighbor =
                    self.metrics.continuity_promoted_neighbor.saturating_add(1);
            }
        }
        let old_entry = self.entries.remove(i);
        let new_entry = CachedTexture { id: old_entry.id, image: old_entry.image, meta };
        self.entries.insert(i, new_entry);
        proof {
            let nv = self@;
            assert(nv.entries =~= v.entries.update(i as int, entry_view(new_entry)));
            lemma_sum_update(v.entries, i as int, entry_view(new_entry));
            assert(entry_ids(nv.entries) =~= entry_ids(v.entries));
            assert forall|k: int| 0 <= k < nv.entries.len() implies #[trigger] nv.entries[k].1.size_bytes
                == nv.entries[k].2.rgba@.len() by {
                if k != i {
                    assert(nv.entries[k] == v.entries[k]);
                }
            }
        }
    }

    /// Removes the entry for `id`, if the cache holds one.
    fn evict(&mut self, id: &AssetID)
        requires
            old(self)@.wf(),
        ensures
            final(self)@ == evict_spec(old(self)@, id@),
            final(self)@.wf(),
    {
        let i = match self.find_entry(id) {
            Some(i) => i,
            None => return,
        };
        self.evict_at(i);
    }

    fn evict_at(&mut self, i: usize)
        requires
            old(self)@.wf(),
            i < old(self)@.entries.len(),
        ensures
            final(self)@ == (CacheView {
                entries: old(self)@.entries.remove(i as int),
                current_bytes: (old(self)@.current_bytes - old(self)@.entries[i as int].1.size_bytes) as nat,
                ..old(self)@
            }),
            final(self)@.wf(),
    {
        let ghost v = self@;
        assert(v.entries[i as int] == entry_view(self.entries@[i as int]));
        proof {
            lemma_sum_remove(v.entries, i as int);
        }
        let e = self.entries.remove(i);
        self.current_bytes = self.current_bytes - e.image.byte_len();
        proof {
            let nv = self@;
            assert(nv.entries =~= v.entries.remove(i as int));
            assert(entry_ids(nv.entries) =~= entry_ids(v.entries).remove(i as int));
            assert forall|a: int, b: int|
                0 <= a < entry_ids(nv.entries).len() && 0 <= b < entry_ids(nv.entries).len() && a
                    != b implies entry_ids(nv.entries)[a] != entry_ids(nv.entries)[b] by {
                let a2 = if a < i { a } else { a + 1 };
                let b2 = if b < i { b } else { b + 1 };
                assert(entry_ids(nv.entries)[a] == entry_ids(v.entries)[a2]);
                assert(entry_ids(nv.entries)[b] == entry_ids(v.entries)[b2]);
            }
            assert forall|k: int| 0 <= k < nv.entries.len() implies #[trigger] nv.entries[k].1.size_bytes
                == nv.entries[k].2.rgba@.len() by {
                if k < i {
                    assert(nv.entries[k] == v.entries[k]);
                } else {
                    assert(nv.entries[k] == v.entries[k + 1]);
                }
            }
        }
    }
}


/// Lexicographic order of character sequences by code point (what `str` comparison gives).
pub open spec fn seq_lt(a: Seq<char>, b: Seq<char>) -> bool
    decreases a.len(),
{
    if a.len() == 0 {
        b.len() > 0
    } else if b.len() == 0 {
        false
    } else if a[0] != b[0] {
        a[0] < b[0]
    } else {
        seq_lt(a.drop_first(), b.drop_first())
    }
}

/// `seq_lt` is a strict order: never both ways, never reflexive.
pub(crate) proof fn lemma_seq_lt_asym(a: Seq<char>, b: Seq<char>)
    ensures
        !(seq_lt(a, b) && seq_lt(b, a)),
        !seq_lt(a, a),
    decreases a.len(),
{
    if a.len() > 0 && b.len() > 0 && a[0] == b[0] {
        lemma_seq_lt_asym(a.drop_first(), b.drop_first());
    }
    if a.len() > 0 {
        lemma_seq_lt_asym(a.drop_first(), a.drop_first());
    }
}

pub(crate) proof fn lemma_seq_lt_total(a: Seq<char>, b: Seq<char>)
    requires
        a != b,
    ensures
        seq_lt(a, b) || seq_lt(b, a),
    decreases a.len(),
{
    if a.len() > 0 && b.len() > 0 && a[0] == b[0] {
        if a.drop_first() == b.drop_first() {
            assert(a =~= seq![a[0]] + a.drop_first());
            assert(b =~= seq![b[0]] + b.drop_first());
        }
        lemma_seq_lt_total(a.drop_first(), b.drop_first());
    } else if a.len() == 0 && b.len() == 0 {
        assert(a =~= b);
    }
}

pub(crate) proof fn lemma_seq_lt_trans(a: Seq<char>, b: Seq<char>, c: Seq<char>)
    requires
        seq_lt(a, b),
        seq_lt(b, c),
    ensures
        seq_lt(a, c),
    decreases a.len(),
{
    if a.len() > 0 && b.len() > 0 && c.len() > 0 && a[0] == b[0] && b[0] == c[0] {
        lemma_seq_lt_trans(a.drop_first(), b.drop_first(), c.drop_first());
    }
}

/// Whether `a` goes before `b` when evicting: lower priority (higher rank)
/// first, then the least recently touched, then the smaller id.
pub open spec fn evict_before(a: EntryView, b: EntryView) -> bool {
    ||| rank(a.1.priority) > rank(b.1.priority)
    ||| (rank(a.1.priority) == rank(b.1.priority) && a.1.last_touched_tick
        < b.1.last_touched_tick)
    ||| (rank(a.1.priority) == rank(b.1.priority) && a.1.last_touched_tick
        == b.1.last_touched_tick && seq_lt(a.0, b.0))
}

/// `s[k]` goes before every other entry of `s` when evicting.
pub open spec fn is_candidate(s: Seq<EntryView>, k: int) -> bool {
    0 <= k < s.len() && forall|j: int|
        0 <= j < s.len() && j != k ==> #[trigger] evict_before(s[k], s[j])
}

/// The entry evicted first.
pub open spec fn min_index(s: Seq<EntryView>) -> int {
    choose|k: int| is_candidate(s, k)
}

/// What budget eviction leaves: entries are evicted, first in eviction order
/// first, until `incoming` more bytes fit in `budget` or none are left.
pub open spec fn evict_for_budget(s: Seq<EntryView>, incoming: nat, budget: nat) -> Seq<EntryView>
    decreases s.len(),
{
    if sum_sizes(s) + incoming <= budget || s.len() == 0 {
        s
    } else {
        let k = min_index(s);
        if 0 <= k < s.len() {
            evict_for_budget(s.remove(k), incoming, budget)
        } else {
            s
        }
    }
}

/// A `Previous` or `Neighbor` entry older than the continuity window at `now`.
pub open spec fn expired(e: EntryView, now: u64) -> bool {
    (e.1.priority == AssetPriority::Previous || e.1.priority == AssetPriority::Neighbor) && sat_sub(
        now,
        e.1.added_at_ms,
    ) > A10_CONTINUITY_WINDOW_MS
}

/// The entries that are not expired at `now`.
pub open spec fn unexpired(s: Seq<EntryView>, now: u64) -> Seq<EntryView> {
    s.filter(|e: EntryView| !expired(e, now))
}

/// The cache after making room for `incoming` bytes at `now`: expired entries
/// go, then budget eviction; the metrics count each and a budget-pressure event.
pub open spec fn capacity_spec(v: CacheView, incoming: nat, now: u64) -> CacheView {
    let kept = unexpired(v.entries, now);
    let fin = evict_for_budget(kept, incoming, v.budget);
    CacheView {
        entries: fin,
        current_bytes: sum_sizes(fin),
        metrics: AssetContinuityMetrics {
            continuity_evicted_expired: sat_add(
                v.metrics.continuity_evicted_expired,
                v.entries.len() - kept.len(),
            ),
            continuity_budget_pressure_events: if sum_sizes(kept) + incoming > v.budget {
                sat_add(v.metrics.continuity_budget_pressure_events, 1)
            } else {
                v.metrics.continuity_budget_pressure_events
            },
            continuity_evicted_budget: sat_add(
                v.metrics.continuity_evicted_budget,
                kept.len() - fin.len(),
            ),
            ..v.metrics
        },
        ..v
    }
}

proof fn lemma_candidate_unique(s: Seq<EntryView>, k: int)
    requires
        is_candidate(s, k),
    ensures
        min_index(s) == k,
{
    let m = min_index(s);
    assert(is_candidate(s, m));
    if m != k {
        assert(evict_before(s[k], s[m]));
        assert(evict_before(s[m], s[k]));
        lemma_seq_lt_asym(s[k].0, s[m].0);
    }
}

proof fn lemma_evict_for_budget_fits(s: Seq<EntryView>, incoming: nat, budget: nat)
    requires
        forall|k: int| 0 <= k < s.len() ==> #[trigger] s[k].1.size_bytes >= 0,
    ensures
        sum_sizes(evict_for_budget(s, incoming, budget)) + incoming <= budget || evict_for_budget(
            s,
            incoming,
            budget,
        ).len() == 0 || !(0 <= min_index(evict_for_budget(s, incoming, budget)) < evict_for_budget(
            s,
            incoming,
            budget,
        ).len()),
    decreases s.len(),
{
    if !(sum_sizes(s) + incoming <= budget || s.len() == 0) {
        let k = min_index(s);
        if 0 <= k < s.len() {
            lemma_evict_for_budget_fits(s.remove(k), incoming, budget);
        }
    }
}

/// Whether `x` comes before `y` in code-point order.
pub fn chars_less(x: &[char], y: &[char]) -> (r: bool)
    ensures
        r == seq_lt(x@, y@),
{
    let mut i: usize = 0;
    assert(x@.skip(0) =~= x@);
    assert(y@.skip(0) =~= y@);
    while i < x.len() && i < y.len() && x[i] == y[i]
        invariant
            i <= x@.len(),
            i <= y@.len(),
            seq_lt(x@, y@) == seq_lt(x@.skip(i as int), y@.skip(i as int)),
        decreases x@.len() - i,
    {
        assert(x@.skip(i as int).drop_first() =~= x@.skip(i + 1));
        assert(y@.skip(i as int).drop_first() =~= y@.skip(i + 1));
        i += 1;
    }
    if i == x.len() {
        i < y.len()
    } else if i == y.len() {
        false
    } else {
        assert(x@.skip(i as int)[0] == x@[i as int]);
        assert(y@.skip(i as int)[0] == y@[i as int]);
        x[i] < y[i]
    }
}

/// Whether `a` comes before `b` in code-point order (`str` comparison).
pub fn str_less(a: &str, b: &str) -> (r: bool)
    ensures
        r == seq_lt(a@, b@),
{
    let x = chars_of(a);
    let y = chars_of(b);
    chars_less(x.as_slice(), y.as_slice())
}

fn id_less(a: &AssetID, b: &AssetID) -> (r: bool)
    ensures
        r == seq_lt(a@, b@),
{
    str_less(a.as_str(), b.as_str())
}

fn evict_before_exec(a: &CachedTexture, b: &CachedTexture) -> (r: bool)
    ensures
        r == evict_before(entry_view(*a), entry_view(*b)),
{
    let ra = a.meta.priority.rank();
    let rb = b.meta.priority.rank();
    if ra != rb {
        return ra > rb;
    }
    if a.meta.last_touched_tick != b.meta.last_touched_tick {
        return a.meta.last_touched_tick < b.meta.last_touched_tick;
    }
    id_less(&a.id, &b.id)
}

proof fn lemma_evict_before_trans(a: EntryView, b: EntryView, c: EntryView)
    requires
        evict_before(a, b),
        evict_before(b, c),
    ensures
        evict_before(a, c),
{
    if rank(a.1.priority) == rank(b.1.priority) && rank(b.1.priority) == rank(c.1.priority)
        && a.1.last_touched_tick == b.1.last_touched_tick && b.1.last_touched_tick
        == c.1.last_touched_tick {
        lemma_seq_lt_trans(a.0, b.0, c.0);
    }
}

proof fn lemma_evict_before_total(a: EntryView, b: EntryView)
    requires
        a.0 != b.0,
    ensures
        evict_before(a, b) || evict_before(b, a),
{
    lemma_seq_lt_total(a.0, b.0);
}

impl FixtureTextureCache {
    /// The position of the entry evicted first, if there is any entry.
    fn find_eviction_candidate(&self) -> (r: Option<usize>)
        requires
            self@.wf(),
        ensures
            match r {
                Some(k) => is_candidate(self@.entries, k as int) && min_index(self@.entries)
                    == k,
                None => self@.entries.len() == 0,
            },
    {
        let ghost es = self@.entries;
        let n = self.entries.len();
        if n == 0 {
            return None;
        }
        let mut best: usize = 0;
        let mut j: usize = 1;
        while j < n
            invariant
                n == self.entries@.len() == es.len(),
                es == self@.entries,
                self@.wf(),
                1 <= j <= n,
                best < j,
                forall|k: int| 0 <= k < j && k != best ==> #[trigger] evict_before(es[best as int], es[k]),
            decreases n - j,
        {
            assert(es[j as int] == entry_view(self.entries@[j as int]));
            assert(es[best as int] == entry_view(self.entries@[best as int]));
            proof {
                assert(entry_ids(es)[j as int] != entry_ids(es)[best as int]);
                lemma_evict_before_total(es[j as int], es[best as int]);
            }
            if evict_before_exec(&self.entries[j], &self.entries[best]) {
                proof {
                    assert forall|k: int| 0 <= k < j + 1 && k != j implies #[trigger] evict_before(
                        es[j as int],
                        es[k],
                    ) by {
                        if k != best {
                            lemma_evict_before_trans(es[j as int], es[best as int], es[k]);
                        }
                    }
                }
                best = j;
            } else {
                proof {
                    lemma_seq_lt_asym(es[j as int].0, es[best as int].0);
                }
            }
            j += 1;
        }
        proof {
            lemma_candidate_unique(es, best as int);
        }
        Some(best)
    }
}


fn expired_exec(meta: &CacheEntryMetadata, now: u64) -> (r: bool)
    ensures
        forall|id: Seq<char>, img: DecodedRgbaImage| r == #[trigger] expired((id, *meta, img), now),
{
    (meta.priority == AssetPriority::Previous || meta.priority == AssetPriority::Neighbor)
        && now.saturating_sub(meta.added_at_ms) > A10_CONTINUITY_WINDOW_MS
}

impl FixtureTextureCache {
    /// Makes room for `incoming` bytes at time `now` (see [`capacity_spec`]).
    pub fn ensure_capacity_at(&mut self, incoming: usize, now: u64)
        requires
            old(self)@.wf(),
        ensures
            final(self)@ == capacity_spec(old(self)@, incoming as nat, now),
            final(self)@.wf(),
            final(self)@.current_bytes + incoming <= final(self)@.budget
                || final(self)@.entries.len() == 0,
    {
        let ghost v0 = self@;
        let ghost m0 = self.metrics;
        let ghost mut j: int = 0;
        let mut i: usize = 0;
        assert(v0.entries.take(0) =~= Seq::<EntryView>::empty());
        assert(v0.entries.skip(0) =~= v0.entries);
        assert(unexpired(Seq::<EntryView>::empty(), now) =~= Seq::<EntryView>::empty());
        while i < self.entries.len()
            invariant
                self@.wf(),
                0 <= j <= v0.entries.len(),
                self@.entries == unexpired(v0.entries.take(j), now) + v0.entries.skip(j),
                i == unexpired(v0.entries.take(j), now).len(),
                self@.budget == v0.budget,
                self@.base_dir == v0.base_dir,
                self@.tick == v0.tick,
                self@.promotions == v0.promotions,
                self@.pending == v0.pending,
                self@.negative == v0.negative,
                self@.oversized == v0.oversized,
                self.metrics == (AssetContinuityMetrics {
                    continuity_evicted_expired: sat_add(m0.continuity_evicted_expired, j - i),
                    ..m0
                }),
            decreases self.entries@.len() - i,
        {
            let ghost pre = unexpired(v0.entries.take(j), now);
            let ghost cur = self@.entries;
            assert(cur[i as int] == v0.entries[j]);
            assert(cur[i as int] == entry_view(self.entries@[i as int]));
            assert(v0.entries.take(j + 1) =~= v0.entries.take(j).push(v0.entries[j]));
            proof {
                v0.entries.take(j).lemma_filter_push(
                    v0.entries[j],
                    |e: EntryView| !expired(e, now),
                );
            }
            if expired_exec(&self.entries[i].meta, now) {
                assert(expired(v0.entries[j], now));
                self.evict_at(i);
                self.metrics.continuity_evicted_expired =
                    self.metrics.continuity_evicted_expired.saturating_add(1);
                assert(unexpired(v0.entries.take(j + 1), now) == pre);
                assert(self@.entries =~= pre + v0.entries.skip(j + 1));
            } else {
                assert(!expired(v0.entries[j], now));
                assert(unexpired(v0.entries.take(j + 1), now) == pre.push(v0.entries[j]));
                assert(cur =~= pre.push(v0.entries[j]) + v0.entries.skip(j + 1));
                i += 1;
            }
            proof {
                j = j + 1;
            }
        }
        assert(v0.entries.take(j) =~= v0.entries);
        assert(self@.entries =~= unexpired(v0.entries, now));
        let ghost kept = self@.entries;
        if incoming > self.budget_bytes - self.current_bytes {
            self.metrics.continuity_budget_pressure_events =
                self.metrics.continuity_budget_pressure_events.saturating_add(1);
        }
        let ghost m1 = self.metrics;
        while incoming > self.budget_bytes - self.current_bytes && self.entries.len() > 0
            invariant
                self@.wf(),
                self@.base_dir == v0.base_dir,
                evict_for_budget(self@.entries, incoming as nat, v0.budget) == evict_for_budget(
                    kept,
                    incoming as nat,
                    v0.budget,
                ),
                self@.entries.len() <= kept.len(),
                self@.budget == v0.budget,
                self@.base_dir == v0.base_dir,
                self@.tick == v0.tick,
                self@.promotions == v0.promotions,
                self@.pending == v0.pending,
                self@.negative == v0.negative,
                self@.oversized == v0.oversized,
                self.metrics == (AssetContinuityMetrics {
                    continuity_evicted_budget: sat_add(
                        m1.continuity_evicted_budget,
                        kept.len() - self@.entries.len(),
                    ),
                    ..m1
                }),
            decreases self.entries@.len(),
        {
            let found = self.find_eviction_candidate();
            let k = found.unwrap();
            self.evict_at(k);
            self.metrics.continuity_evicted_budget =
                self.metrics.continuity_evicted_budget.saturating_add(1);
        }
        assert(evict_for_budget(self@.entries, incoming as nat, v0.budget) == self@.entries);
    }

    /// Makes room for `incoming` bytes at the current time.
    fn ensure_capacity(&mut self, incoming: usize)
        requires
            old(self)@.wf(),
        ensures
            exists|now: u64| final(self)@ == capacity_spec(old(self)@, incoming as nat, now),
            final(self)@.wf(),
            final(self)@.current_bytes + incoming <= final(self)@.budget
                || final(self)@.entries.len() == 0,
    {
        let now = crate::world::now_unix_ms();
        self.ensure_capacity_at(incoming, now);
    }
}


pub open spec fn pending_ids(v: CacheView) -> Seq<Seq<char>> {
    v.pending.map_values(|p: (Seq<char>, AssetPriority)| p.0)
}

pub open spec fn oversized_ids(v: CacheView) -> Seq<Seq<char>> {
    v.oversized.map_values(|p: (Seq<char>, DecodedRgbaImage)| p.0)
}

/// The position of `id` in `s`.
pub open spec fn index_of(s: Seq<Seq<char>>, id: Seq<char>) -> Option<int> {
    if s.contains(id) {
        Some(choose|k: int| 0 <= k < s.len() && s[k] == id)
    } else {
        None
    }
}

/// `id` remembered as missing: appended unless already there, dropping the
/// oldest when the list is full.
pub open spec fn negative_spec(v: CacheView, id: Seq<char>) -> CacheView {
    if v.negative.contains(id) {
        v
    } else {
        let n = if v.negative.len() >= NEGATIVE_CACHE_CAP {
            v.negative.drop_first()
        } else {
            v.negative
        };
        CacheView { negative: n.push(id), ..v }
    }
}

/// A hit on an oversized texture moves it to the most recently used end.
pub open spec fn touch_oversized_spec(v: CacheView, id: Seq<char>) -> CacheView {
    match index_of(oversized_ids(v), id) {
        Some(k) => CacheView { oversized: v.oversized.remove(k).push(v.oversized[k]), ..v },
        None => v,
    }
}

/// An over-budget texture kept ready: it replaces the one with its id, else the
/// least recently used goes when the list is full; it is then the most recent.
pub open spec fn oversized_record_spec(v: CacheView, id: Seq<char>, img: DecodedRgbaImage) -> CacheView {
    match index_of(oversized_ids(v), id) {
        Some(k) => CacheView { oversized: v.oversized.remove(k).push((id, img)), ..v },
        None => {
            let o = if v.oversized.len() >= OVERSIZED_CAP {
                v.oversized.drop_first()
            } else {
                v.oversized
            };
            CacheView { oversized: o.push((id, img)), ..v }
        },
    }
}

/// A repeated request for a queued id promotes its queued priority to the
/// granted one when that is more important and promotions remain this tick.
pub open spec fn promote_spec(v: CacheView, id: Seq<char>, req: AssetPriority) -> CacheView {
    let p = clamp_spec(v.entries, req);
    match index_of(pending_ids(v), id) {
        Some(k) => if rank(p) < rank(v.pending[k].1) && v.promotions < A10_PROMOTIONS_PER_TICK_CAP {
            CacheView {
                pending: v.pending.update(k, (id, p)),
                promotions: v.promotions + 1,
                metrics: AssetContinuityMetrics {
                    continuity_promoted_neighbor: if p == AssetPriority::Neighbor {
                        sat_add(v.metrics.continuity_promoted_neighbor, 1)
                    } else {
                        v.metrics.continuity_promoted_neighbor
                    },
                    ..v.metrics
                },
                ..v
            }
        } else {
            v
        },
        None => v,
    }
}

proof fn lemma_distinct_push(s: Seq<Seq<char>>, x: Seq<char>)
    requires
        distinct(s),
        !s.contains(x),
    ensures
        distinct(s.push(x)),
{
    assert forall|i: int, j: int|
        0 <= i < s.push(x).len() && 0 <= j < s.push(x).len() && i != j implies s.push(x)[i]
        != s.push(x)[j] by {
        if i == s.len() {
            assert(s[j] == s.push(x)[j]);
        } else if j == s.len() {
            assert(s[i] == s.push(x)[i]);
        }
    }
}

proof fn lemma_distinct_remove(s: Seq<Seq<char>>, k: int)
    requires
        distinct(s),
        0 <= k < s.len(),
    ensures
        distinct(s.remove(k)),
        !s.remove(k).contains(s[k]),
        forall|x: Seq<char>| s.contains(x) && x != s[k] ==> #[trigger] s.remove(k).contains(x),
{
    let r = s.remove(k);
    assert forall|i: int, j: int| 0 <= i < r.len() && 0 <= j < r.len() && i != j implies r[i] != r[j] by {
        let i2 = if i < k { i } else { i + 1 };
        let j2 = if j < k { j } else { j + 1 };
        assert(r[i] == s[i2]);
        assert(r[j] == s[j2]);
    }
    if r.contains(s[k]) {
        let i = choose|i: int| 0 <= i < r.len() && r[i] == s[k];
        let i2 = if i < k { i } else { i + 1 };
        assert(r[i] == s[i2]);
    }
    assert forall|x: Seq<char>| s.contains(x) && x != s[k] implies #[trigger] r.contains(x) by {
        let i = choose|i: int| 0 <= i < s.len() && s[i] == x;
        if i < k {
            assert(r[i] == x);
        } else {
            assert(r[i - 1] == x);
        }
    }
}

impl FixtureTextureCache {
    fn negative_contains(&self, id: &AssetID) -> (r: bool)
        ensures
            r == self@.negative.contains(id@),
    {
        let ghost ns = self@.negative;
        let mut i: usize = 0;
        while i < self.negative.len()
            invariant
                i <= self.negative@.len(),
                ns == self@.negative,
                ns.len() == self.negative@.len(),
                forall|k: int| 0 <= k < i ==> ns[k] != id@,
            decreases self.negative@.len() - i,
        {
            assert(ns[i as int] == self.negative@[i as int]@);
            if self.negative[i].same_as(id) {
                return true;
            }
            i += 1;
        }
        false
    }

    fn pending_position(&self, id: &AssetID) -> (r: Option<usize>)
        requires
            self@.wf(),
        ensures
            match r {
                Some(k) => index_of(pending_ids(self@), id@) == Some(k as int) && k
                    < self@.pending.len(),
                None => index_of(pending_ids(self@), id@) is None,
            },
    {
        let ghost ps = pending_ids(self@);
        let mut i: usize = 0;
        while i < self.pending.len()
            invariant
                i <= self.pending@.len(),
                ps == pending_ids(self@),
                ps.len() == self.pending@.len(),
                self@.wf(),
                forall|k: int| 0 <= k < i ==> ps[k] != id@,
            decreases self.pending@.len() - i,
        {
            assert(ps[i as int] == self.pending@[i as int].0@);
            if self.pending[i].0.same_as(id) {
                proof {
                    let c = choose|k: int| 0 <= k < ps.len() && ps[k] == id@;
                    assert(ps[c] == ps[i as int]);
                }
                return Some(i);
            }
            i += 1;
        }
        None
    }

    fn oversized_position(&self, id: &AssetID) -> (r: Option<usize>)
        requires
            self@.wf(),
        ensures
            match r {
                Some(k) => index_of(oversized_ids(self@), id@) == Some(k as int) && k
                    < self@.oversized.len(),
                None => index_of(oversized_ids(self@), id@) is None,
            },
    {
        let ghost os = oversized_ids(self@);
        let mut i: usize = 0;
        while i < self.oversized.len()
            invariant
                i <= self.oversized@.len(),
                os == oversized_ids(self@),
                os.len() == self.oversized@.len(),
                self@.wf(),
                forall|k: int| 0 <= k < i ==> os[k] != id@,
            decreases self.oversized@.len() - i,
        {
            assert(os[i as int] == self.oversized@[i as int].0@);
            if self.oversized[i].0.same_as(id) {
                proof {
                    let c = choose|k: int| 0 <= k < os.len() && os[k] == id@;
                    assert(os[c] == os[i as int]);
                }
                return Some(i);
            }
            i += 1;
        }
        None
    }

    /// Remembers `id` as missing (see [`negative_spec`]).
    fn record_negative(&mut self, id: AssetID)
        requires
            old(self)@.wf(),
        ensures
            final(self)@ == negative_spec(old(self)@, id@),
            final(self)@.wf(),
    {
        if self.negative_contains(&id) {
            return;
        }
        let ghost v = self@;
        if self.negative.len() >= NEGATIVE_CACHE_CAP {
            self.negative.remove(0);
            proof {
                assert(self@.negative =~= v.negative.drop_first());
                assert(v.negative.drop_first() =~= v.negative.remove(0));
                lemma_distinct_remove(v.negative, 0);
            }
        }
        let ghost mid = self@.negative;
        proof {
            if v.negative.len() >= NEGATIVE_CACHE_CAP {
                if mid.contains(id@) {
                    let i = choose|i: int| 0 <= i < mid.len() && mid[i] == id@;
                    assert(v.negative[i + 1] == id@);
                }
            }
            lemma_distinct_push(mid, id@);
        }
        self.negative.push(id);
        assert(self@.negative =~= mid.push(id@));
    }

    /// Moves the oversized texture for `id` to the most recently used end.
    fn touch_oversized_lru(&mut self, id: &AssetID)
        requires
            old(self)@.wf(),
        ensures
            final(self)@ == touch_oversized_spec(old(self)@, id@),
            final(self)@.wf(),
    {
        let k = match self.oversized_position(id) {
            Some(k) => k,
            None => return,
        };
        let ghost v = self@;
        let ghost os = oversized_ids(v);
        let item = self.oversized.remove(k);
        assert(self@.oversized =~= v.oversized.remove(k as int));
        proof {
            lemma_distinct_remove(os, k as int);
            assert(oversized_ids(self@) =~= os.remove(k as int));
        }
        self.oversized.push(item);
        proof {
            assert(self@.oversized =~= v.oversized.remove(k as int).push(v.oversized[k as int]));
            assert(oversized_ids(self@) =~= os.remove(k as int).push(os[k as int]));
            lemma_distinct_push(os.remove(k as int), os[k as int]);
        }
    }

    /// Keeps an over-budget texture ready (see [`oversized_record_spec`]).
    fn record_oversized_ready(&mut self, id: AssetID, decoded: Arc<DecodedRgbaImage>)
        requires
            old(self)@.wf(),
        ensures
            final(self)@ == oversized_record_spec(old(self)@, id@, *decoded),
            final(self)@.wf(),
    {
        let ghost v = self@;
        let ghost os = oversized_ids(v);
        match self.oversized_position(&id) {
            Some(k) => {
                self.oversized.remove(k);
                assert(self@.oversized =~= v.oversized.remove(k as int));
                proof {
                    lemma_distinct_remove(os, k as int);
                    assert(oversized_ids(self@) =~= os.remove(k as int));
                    assert(os[k as int] == id@);
                }
            },
            None => {
                if self.oversized.len() >= OVERSIZED_CAP {
                    self.oversized.remove(0);
                    assert(self@.oversized =~= v.oversized.drop_first());
                    proof {
                        lemma_distinct_remove(os, 0);
                        assert(oversized_ids(self@) =~= os.remove(0));
                        assert(v.oversized.drop_first() =~= v.oversized.remove(0));
                        if os.remove(0).contains(id@) {
                            let i = choose|i: int| 0 <= i < os.remove(0).len() && os.remove(0)[i] == id@;
                            assert(os[i + 1] == id@);
                        }
                    }
                }
            },
        }
        let ghost mid = self@.oversized;
        proof {
            lemma_distinct_push(oversized_ids(self@), id@);
        }
        self.oversized.push((id, decoded));
        proof {
            assert(self@.oversized =~= mid.push((id@, *decoded)));
            assert(oversized_ids(self@) =~= oversized_ids(CacheView { oversized: mid, ..v }).push(id@));
        }
    }

    /// Promotes the queued request for `id` (see [`promote_spec`]).
    fn promote_pending_priority(&mut self, id: &AssetID, requested_priority: AssetPriority)
        requires
            old(self)@.wf(),
        ensures
            final(self)@ == promote_spec(old(self)@, id@, requested_priority),
            final(self)@.wf(),
    {
        let priority = self.clamp_priority_to_quota(requested_priority);
        let k = match self.pending_position(id) {
            Some(k) => k,
            None => return,
        };
        let ghost v = self@;
        if priority.rank() < self.pending[k].1.rank()
            && self.promotions_this_tick < A10_PROMOTIONS_PER_TICK_CAP {
            let (qid, _) = self.pending.remove(k);
            self.pending.insert(k, (qid, priority));
            self.promotions_this_tick = self.promotions_this_tick + 1;
            if priority == AssetPriority::Neighbor {
                self.metrics.continuity_promoted_neighbor =
                    self.metrics.continuity_promoted_neighbor.saturating_add(1);
            }
            proof {
                assert(pending_ids(v)[k as int] == id@);
                assert(self@.pending =~= v.pending.update(k as int, (id@, priority)));
                assert(pending_ids(self@) =~= pending_ids(v));
            }
        }
    }
}


/// What a request answers and leaves behind, given whether the fixture file is
/// on disk (consulted only when the answer depends on it): blank ids are
/// missing; cached and oversized textures are ready and touched; known-missing
/// ids are missing; ids without a fixture file are remembered as missing; a
/// queued id is promoted; a full queue drops the request; otherwise the request
/// is queued with its granted priority. Every answer but `Missing` for a cached
/// or queued id means the caller polls again.
pub open spec fn request_spec(v: CacheView, id: Seq<char>, req: AssetPriority, on_disk: bool) -> (
    StatusView,
    CacheView,
) {
    if id.len() == 0 {
        (StatusView::Missing, v)
    } else if v.has_entry(id) {
        (StatusView::Ready(v.entries[v.entry_index(id)->0].2), touch_spec(v, id, req))
    } else if oversized_ids(v).contains(id) {
        (
            StatusView::Ready(v.oversized[index_of(oversized_ids(v), id)->0].1),
            touch_oversized_spec(v, id),
        )
    } else if v.negative.contains(id) {
        (StatusView::Missing, v)
    } else if fixture_filename(id) is None || !on_disk {
        (StatusView::Missing, negative_spec(v, id))
    } else if pending_ids(v).contains(id) {
        (StatusView::Loading, promote_spec(v, id, req))
    } else if v.pending.len() >= A10_REQUESTS_PER_TICK_CAP {
        (
            StatusView::Loading,
            CacheView {
                metrics: AssetContinuityMetrics {
                    continuity_requests_dropped_cap: sat_add(
                        v.metrics.continuity_requests_dropped_cap,
                        1,
                    ),
                    ..v.metrics
                },
                ..v
            },
        )
    } else {
        (
            StatusView::Loading,
            CacheView {
                pending: v.pending.push((id, clamp_spec(v.entries, req))),
                metrics: AssetContinuityMetrics {
                    continuity_requests_enqueued: sat_add(
                        v.metrics.continuity_requests_enqueued,
                        1,
                    ),
                    ..v.metrics
                },
                ..v
            },
        )
    }
}

/// Whether a request for `id` depends on the disk.
pub open spec fn needs_disk(v: CacheView, id: Seq<char>) -> bool {
    id.len() > 0 && !v.has_entry(id) && !oversized_ids(v).contains(id) && !v.negative.contains(id)
        && fixture_filename(id) is Some
}

proof fn lemma_unexpired_ids(s: Seq<EntryView>, now: u64, id: Seq<char>)
    requires
        !entry_ids(s).contains(id),
    ensures
        !entry_ids(unexpired(s, now)).contains(id),
        unexpired(s, now).len() <= s.len(),
    decreases s.len(),
{
    if s.len() > 0 {
        let d = s.drop_last();
        assert(s =~= d.push(s.last()));
        d.lemma_filter_push(s.last(), |e: EntryView| !expired(e, now));
        if entry_ids(d).contains(id) {
            let i = choose|i: int| 0 <= i < entry_ids(d).len() && entry_ids(d)[i] == id;
            assert(entry_ids(s)[i] == id);
        }
        lemma_unexpired_ids(d, now, id);
        assert(entry_ids(s)[s.len() - 1] == s.last().0);
        let u = unexpired(d, now);
        if !expired(s.last(), now) {
            assert(entry_ids(u.push(s.last())) =~= entry_ids(u).push(s.last().0));
        }
    } else {
        assert(unexpired(s, now) =~= s) by {
            reveal(Seq::filter);
        }
    }
}

proof fn lemma_evict_ids(s: Seq<EntryView>, incoming: nat, budget: nat, id: Seq<char>)
    requires
        !entry_ids(s).contains(id),
    ensures
        !entry_ids(evict_for_budget(s, incoming, budget)).contains(id),
    decreases s.len(),
{
    if !(sum_sizes(s) + incoming <= budget || s.len() == 0) {
        let k = min_index(s);
        if 0 <= k < s.len() {
            let r = s.remove(k);
            if entry_ids(r).contains(id) {
                let i = choose|i: int| 0 <= i < entry_ids(r).len() && entry_ids(r)[i] == id;
                if i < k {
                    assert(entry_ids(s)[i] == id);
                } else {
                    assert(entry_ids(s)[i + 1] == id);
                }
            }
            lemma_evict_ids(r, incoming, budget, id);
        }
    }
}

/// The cache after storing `img` for `id` with requested priority `p` at
/// `now`: any old entry for `id` goes, room is made, and the entry is added
/// with its granted priority, the current tick and its size.
pub open spec fn insert_spec(
    v: CacheView,
    id: Seq<char>,
    img: DecodedRgbaImage,
    p: AssetPriority,
    now: u64,
) -> CacheView {
    let v2 = capacity_spec(evict_spec(v, id), img.rgba@.len(), now);
    let meta = CacheEntryMetadata {
        priority: clamp_spec(v2.entries, p),
        last_touched_tick: v2.tick,
        added_at_ms: now,
        size_bytes: img.rgba@.len() as usize,
    };
    CacheView {
        entries: v2.entries.push((id, meta, img)),
        current_bytes: v2.current_bytes + img.rgba@.len(),
        ..v2
    }
}

/// The retention counters after storing an entry requested with priority `p`.
pub open spec fn retained(m: AssetContinuityMetrics, p: AssetPriority) -> AssetContinuityMetrics {
    match p {
        AssetPriority::Active => AssetContinuityMetrics {
            continuity_retained_active: sat_add(m.continuity_retained_active, 1),
            ..m
        },
        AssetPriority::Previous => AssetContinuityMetrics {
            continuity_retained_previous: sat_add(m.continuity_retained_previous, 1),
            ..m
        },
        AssetPriority::Neighbor => AssetContinuityMetrics {
            continuity_retained_neighbor: sat_add(m.continuity_retained_neighbor, 1),
            ..m
        },
        AssetPriority::Normal => m,
    }
}

/// Whether `bytes` start with the JPEG signature (`FF D8 FF`), by which
/// `image::load_from_memory` picks its JPEG decoder.
pub open spec fn jpeg_signature(bytes: Seq<u8>) -> bool {
    bytes.len() >= 3 && bytes[0] == 0xFF && bytes[1] == 0xD8 && bytes[2] == 0xFF
}

/// The image the `image` crate decodes from `bytes` that are not JPEG
/// (`load_from_memory`, then `to_rgba8`): width, height and RGBA bytes, or
/// `None` when it cannot decode them.
pub uninterp spec fn rgba8_decoded(bytes: Seq<u8>) -> Option<(u32, u32, Seq<u8>)>;

/// Whether `d` may be what the `image` crate decodes from `bytes`: for bytes
/// that are not JPEG, exactly [`rgba8_decoded`]; for JPEG bytes, whose
/// decoder picks vector or scalar code by the CPU, any image of four bytes
/// per pixel, or none.
pub open spec fn image_outcome(bytes: Seq<u8>, d: Option<(u32, u32, Seq<u8>)>) -> bool {
    if jpeg_signature(bytes) {
        d matches Some(x) ==> x.2.len() == x.0 * x.1 * 4
    } else {
        d == rgba8_decoded(bytes)
    }
}

pub open spec fn decoded_view(r: Option<DecodedRgbaImage>) -> Option<(u32, u32, Seq<u8>)> {
    match r {
        Some(img) => Some((img.width, img.height, img.rgba@)),
        None => None,
    }
}

/// `image::load_from_memory` followed by `to_rgba8`: four bytes per pixel,
/// and for bytes that are not JPEG the image named by [`rgba8_decoded`]. Of a
/// JPEG's pixels nothing more is stated.
#[verifier::external_body]
pub(crate) fn image_decode_rgba8(bytes: &[u8]) -> (r: Option<DecodedRgbaImage>)
    ensures
        !jpeg_signature(bytes@) ==> decoded_view(r) == rgba8_decoded(bytes@),
        r matches Some(img) ==> img.rgba@.len() == img.width * img.height * 4,
{
    match image::load_from_memory(bytes) {
        Ok(image) => {
            let rgba8 = image.to_rgba8();
            Some(DecodedRgbaImage { width: rgba8.width(), height: rgba8.height(), rgba: rgba8.into_raw() })
        },
        Err(_) => None,
    }
}

/// The cache with its tick advanced.
pub open spec fn ticked(v: CacheView) -> CacheView {
    CacheView { tick: sat_add(v.tick, 1), ..v }
}

impl FixtureTextureCache {
    /// Answers a request given whether its fixture file is on disk (see [`request_spec`]).
    pub fn request_with_disk_answer(
        &mut self,
        id: &AssetID,
        priority: AssetPriority,
        on_disk: bool,
    ) -> (r: Result<FixtureTextureStatus, FixtureCacheError>)
        requires
            old(self)@.wf(),
        ensures
            final(self)@.wf(),
            r matches Ok(st) && (status_view(st), final(self)@) == request_spec(
                old(self)@,
                id@,
                priority,
                on_disk,
            ),
    {
        if id.is_empty() {
            return Ok(AssetStatus::Missing);
        }
        match self.find_entry(id) {
            Some(i) => {
                assert(self@.entries[i as int] == entry_view(self.entries@[i as int]));
                let img = share_arc(&self.entries[i].image);
                self.touch(id, priority);
                return Ok(AssetStatus::Ready(img));
            },
            None => {},
        }
        match self.oversized_position(id) {
            Some(k) => {
                let img = share_arc(&self.oversized[k].1);
                proof {
                    assert(oversized_ids(self@)[k as int] == id@);
                }
                self.touch_oversized_lru(id);
                return Ok(AssetStatus::Ready(img));
            },
            None => {},
        }
        if self.negative_contains(id) {
            return Ok(AssetStatus::Missing);
        }
        let file = sanitize_fixture_filename(id.as_str());
        if file.is_none() || !on_disk {
            self.record_negative(AssetID::new(id.as_str()));
            return Ok(AssetStatus::Missing);
        }
        match self.pending_position(id) {
            Some(k) => {
                proof {
                    assert(pending_ids(self@)[k as int] == id@);
                }
                self.promote_pending_priority(id, priority);
                return Ok(AssetStatus::Loading);
            },
            None => {},
        }
        if self.pending.len() >= A10_REQUESTS_PER_TICK_CAP {
            self.metrics.continuity_requests_dropped_cap =
                self.metrics.continuity_requests_dropped_cap.saturating_add(1);
            return Ok(AssetStatus::Loading);
        }
        let granted = self.clamp_priority_to_quota(priority);
        let ghost v = self@;
        proof {
            lemma_distinct_push(pending_ids(v), id@);
        }
        self.pending.push((AssetID::new(id.as_str()), granted));
        self.metrics.continuity_requests_enqueued =
            self.metrics.continuity_requests_enqueued.saturating_add(1);
        proof {
            assert(self@.pending =~= v.pending.push((id@, granted)));
            assert(pending_ids(self@) =~= pending_ids(v).push(id@));
        }
        Ok(AssetStatus::Loading)
    }

    /// The path of the fixture file for `id`: its file name joined onto the
    /// cache's directory; `None` when it has no file name.
    fn fixture_path(&self, id: &AssetID) -> (r: Option<PathBuf>)
        ensures
            r is Some <==> fixture_filename(id@) is Some,
            r matches Some(p) ==> (plain_join(self@.base_dir, fixture_filename(id@)->0) ==> joined_path(
                self@.base_dir,
                fixture_filename(id@)->0,
                path_text(p),
            )),
    {
        proof {
            lemma_fixture_filename_is_plain(id@);
        }
        match sanitize_fixture_filename(id.as_str()) {
            Some(file) => Some(path_join(&self.base_dir, file.as_str())),
            None => None,
        }
    }

    /// Whether the fixture file for `id` (at [`Self::fixture_path`]) is on
    /// disk; false when it has no file name. What the disk answers is not
    /// stated.
    fn fixture_on_disk(&self, id: &AssetID) -> (r: bool)
        ensures
            fixture_filename(id@) is None ==> !r,
    {
        match self.fixture_path(id) {
            Some(path) => path_exists(&path),
            None => false,
        }
    }

    /// Requests the fixture texture for `id` with `priority`; the disk is
    /// consulted only when the answer depends on it (see [`request_spec`]).
    pub fn request_png_rgba8_with_priority(&mut self, id: &AssetID, priority: AssetPriority) -> (r:
        Result<FixtureTextureStatus, FixtureCacheError>)
        requires
            old(self)@.wf(),
        ensures
            final(self)@.wf(),
            r is Ok,
            exists|on_disk: bool|
                r matches Ok(st) && (status_view(st), final(self)@) == #[trigger] request_spec(
                    old(self)@,
                    id@,
                    priority,
                    on_disk,
                ),
            !needs_disk(old(self)@, id@) ==> (r matches Ok(st) && (status_view(st), final(self)@)
                == request_spec(old(self)@, id@, priority, false)),
    {
        let needs = !id.is_empty() && self.find_entry(id).is_none() && self.oversized_position(
            id,
        ).is_none() && !self.negative_contains(id);
        let on_disk = if needs {
            self.fixture_on_disk(id)
        } else {
            false
        };
        let r = self.request_with_disk_answer(id, priority, on_disk);
        assert(r matches Ok(st) && (status_view(st), self@) == request_spec(
            old(self)@,
            id@,
            priority,
            on_disk,
        ));
        r
    }

    /// Requests the fixture texture for `id` with `Normal` priority.
    pub fn request_png_rgba8(&mut self, id: &AssetID) -> (r: Result<
        FixtureTextureStatus,
        FixtureCacheError,
    >)
        requires
            old(self)@.wf(),
        ensures
            final(self)@.wf(),
            r is Ok,
            exists|on_disk: bool|
                r matches Ok(st) && (status_view(st), final(self)@) == #[trigger] request_spec(
                    old(self)@,
                    id@,
                    AssetPriority::Normal,
                    on_disk,
                ),
            !needs_disk(old(self)@, id@) ==> (r matches Ok(st) && (status_view(st), final(self)@)
                == request_spec(old(self)@, id@, AssetPriority::Normal, false)),
    {
        self.request_png_rgba8_with_priority(id, AssetPriority::Normal)
    }

    /// Stores `img` for `id` (see [`insert_spec`]); the caller has checked it fits the budget.
    fn insert_entry(&mut self, id: AssetID, img: DecodedRgbaImage, p: AssetPriority, now: u64)
        requires
            old(self)@.wf(),
            img.rgba@.len() <= old(self)@.budget,
        ensures
            final(self)@ == insert_spec(old(self)@, id@, img, p, now),
            final(self)@.wf(),
    {
        let ghost v0 = self@;
        self.evict(&id);
        let ghost v1 = self@;
        proof {
            match v0.entry_index(id@) {
                Some(i) => {
                    lemma_distinct_remove(entry_ids(v0.entries), i);
                    assert(entry_ids(v1.entries) =~= entry_ids(v0.entries).remove(i));
                },
                None => {},
            }
        }
        let size = img.rgba.len();
        self.ensure_capacity_at(size, now);
        let ghost v2 = self@;
        proof {
            assert(!entry_ids(v1.entries).contains(id@)) by {
                if entry_ids(v1.entries).contains(id@) {
                    let i = choose|i: int| 0 <= i < entry_ids(v1.entries).len() && entry_ids(v1.entries)[i] == id@;
                    assert(v1.entries[i].0 == id@);
                }
            }
            lemma_unexpired_ids(v1.entries, now, id@);
            lemma_evict_ids(unexpired(v1.entries, now), size as nat, v1.budget, id@);
        }
        let granted = self.clamp_priority_to_quota(p);
        let meta = CacheEntryMetadata {
            priority: granted,
            last_touched_tick: self.current_tick,
            added_at_ms: now,
            size_bytes: size,
        };
        let entry = CachedTexture { id, image: Arc::new(img), meta };
        self.current_bytes = self.current_bytes + size;
        self.entries.push(entry);
        proof {
            let nv = self@;
            assert(nv.entries =~= v2.entries.push(entry_view(entry)));
            lemma_sum_push(v2.entries, entry_view(entry));
            assert(entry_ids(nv.entries) =~= entry_ids(v2.entries).push(id@));
            lemma_distinct_push(entry_ids(v2.entries), id@);
            assert forall|k: int| 0 <= k < nv.entries.len() implies #[trigger] nv.entries[k].1.size_bytes
                == nv.entries[k].2.rgba@.len() by {
                if k < v2.entries.len() {
                    assert(nv.entries[k] == v2.entries[k]);
                }
            }
        }
    }

    /// Adds a placeholder entry of `bytes` zero bytes with `Normal` priority,
    /// replacing any entry for `id`; nothing happens when it exceeds the budget.
    pub fn insert_dummy_for_test(&mut self, id: AssetID, bytes: usize)
        requires
            old(self)@.wf(),
        ensures
            final(self)@.wf(),
            bytes > old(self)@.budget ==> final(self)@ == ticked(old(self)@),
            bytes <= old(self)@.budget ==> exists|now: u64, img: DecodedRgbaImage|
                img.rgba@ == Seq::new(bytes as nat, |i: int| 0u8) && img.width == 1 && img.height
                    == 1 && final(self)@ == #[trigger] insert_spec(
                    ticked(old(self)@),
                    id@,
                    img,
                    AssetPriority::Normal,
                    now,
                ),
    {
        let ghost v0 = self@;
        self.current_tick = self.current_tick.saturating_add(1);
        assert(self@ == ticked(v0));
        if bytes > self.budget_bytes {
            return;
        }
        let mut rgba: Vec<u8> = Vec::new();
        let mut i: usize = 0;
        while i < bytes
            invariant
                i <= bytes,
                rgba@ == Seq::new(i as nat, |k: int| 0u8),
            decreases bytes - i,
        {
            rgba.push(0);
            assert(rgba@ =~= Seq::new((i + 1) as nat, |k: int| 0u8));
            i += 1;
        }
        let img = DecodedRgbaImage { width: 1, height: 1, rgba };
        let ghost gimg = img;
        let now = crate::world::now_unix_ms();
        self.insert_entry(id, img, AssetPriority::Normal, now);
        assert(self@ == insert_spec(ticked(v0), id@, gimg, AssetPriority::Normal, now));
    }

    /// Starts a poll tick: the tick advances and the promotion count resets.
    pub fn begin_poll_tick(&mut self)
        requires
            old(self)@.wf(),
        ensures
            final(self)@ == (CacheView {
                tick: sat_add(old(self)@.tick, 1),
                promotions: 0,
                ..old(self)@
            }),
            final(self)@.wf(),
    {
        self.current_tick = self.current_tick.saturating_add(1);
        self.promotions_this_tick = 0;
    }

    /// Takes the oldest queued request, if any.
    pub fn take_pending(&mut self) -> (r: Option<(AssetID, AssetPriority)>)
        requires
            old(self)@.wf(),
        ensures
            final(self)@.wf(),
            old(self)@.pending.len() == 0 ==> r is None && final(self)@ == old(self)@,
            old(self)@.pending.len() > 0 ==> (r matches Some(p) && (p.0@, p.1)
                == old(self)@.pending[0] && final(self)@ == (CacheView {
                pending: old(self)@.pending.drop_first(),
                ..old(self)@
            })),
    {
        if self.pending.len() == 0 {
            return None;
        }
        let ghost v = self@;
        let p = self.pending.remove(0);
        proof {
            assert(self@.pending =~= v.pending.drop_first());
            assert(v.pending.drop_first() =~= v.pending.remove(0));
            assert(pending_ids(self@) =~= pending_ids(v).remove(0));
            lemma_distinct_remove(pending_ids(v), 0);
        }
        Some(p)
    }

    /// The fixture path to read for a queued `id`, or `None` when there is
    /// nothing to read: a blank, cached or known-missing id is skipped, and an
    /// id without a fixture file on disk is remembered as missing.
    pub fn prepare_load(&mut self, id: &AssetID) -> (r: Option<PathBuf>)
        requires
            old(self)@.wf(),
        ensures
            final(self)@.wf(),
            (id@.len() == 0 || old(self)@.has_entry(id@) || old(self)@.negative.contains(id@))
                ==> r is None && final(self)@ == old(self)@,
            !(id@.len() == 0 || old(self)@.has_entry(id@) || old(self)@.negative.contains(id@))
                ==> (r is None && final(self)@ == negative_spec(old(self)@, id@)) || (r is Some
                && fixture_filename(id@) is Some && final(self)@ == old(self)@),
            fixture_filename(id@) is None && !(id@.len() == 0 || old(self)@.has_entry(id@) || old(
                self,
            )@.negative.contains(id@)) ==> final(self)@ == negative_spec(old(self)@, id@),
            r matches Some(p) ==> (plain_join(old(self)@.base_dir, fixture_filename(id@)->0)
                ==> joined_path(old(self)@.base_dir, fixture_filename(id@)->0, path_text(p))),
    {
        if id.is_empty() || self.find_entry(id).is_some() || self.negative_contains(id) {
            return None;
        }
        let path = match self.fixture_path(id) {
            Some(p) => p,
            None => {
                self.record_negative(AssetID::new(id.as_str()));
                return None;
            },
        };
        if !path_exists(&path) {
            self.record_negative(AssetID::new(id.as_str()));
            return None;
        }
        Some(path)
    }

    /// Finishes a load of `id` queued with priority `p` from the file's bytes
    /// (`None` when it could not be read) at time `now`: undecodable or unread
    /// files are remembered as missing, over-budget images are kept ready
    /// uncached, and others are cached with the retention counted by `p`.
    pub fn complete_load(
        &mut self,
        id: AssetID,
        p: AssetPriority,
        bytes: Option<Vec<u8>>,
        now: u64,
    )
        requires
            old(self)@.wf(),
        ensures
            final(self)@.wf(),
            match bytes {
                None => final(self)@ == negative_spec(old(self)@, id@),
                Some(b) => exists|o: Option<DecodedRgbaImage>|
                    {
                        &&& #[trigger] image_outcome(b@, decoded_view(o))
                        &&& match o {
                            None => final(self)@ == negative_spec(old(self)@, id@),
                            Some(img) => if img.rgba@.len() > old(self)@.budget {
                                final(self)@ == oversized_record_spec(old(self)@, id@, img)
                            } else {
                                final(self)@ == (CacheView {
                                    metrics: retained(
                                        insert_spec(old(self)@, id@, img, p, now).metrics,
                                        p,
                                    ),
                                    ..insert_spec(old(self)@, id@, img, p, now)
                                })
                            },
                        }
                    },
            },
    {
        let data = match bytes {
            Some(b) => b,
            None => {
                self.record_negative(id);
                return;
            },
        };
        let decoded = image_decode_rgba8(data.as_slice());
        let ghost o = decoded;
        assert(image_outcome(data@, decoded_view(o)));
        let img = match decoded {
            Some(img) => img,
            None => {
                self.record_negative(id);
                return;
            },
        };
        assert(o == Some(img));
        let size = img.byte_len();
        if size > self.budget_bytes {
            self.record_oversized_ready(id, Arc::new(img));
            return;
        }
        self.insert_entry(id, img, p, now);
        match p {
            AssetPriority::Active => {
                self.metrics.continuity_retained_active =
                    self.metrics.continuity_retained_active.saturating_add(1);
            },
            AssetPriority::Previous => {
                self.metrics.continuity_retained_previous =
                    self.metrics.continuity_retained_previous.saturating_add(1);
            },
            AssetPriority::Neighbor => {
                self.metrics.continuity_retained_neighbor =
                    self.metrics.continuity_retained_neighbor.saturating_add(1);
            },
            AssetPriority::Normal => {},
        }
    }
}


impl FixtureTextureCache {
    /// Sets the priority of the entry for `id`, if the cache holds one, without
    /// any quota (for setting up a cache state directly).
    pub fn set_entry_priority(&mut self, id: &AssetID, priority: AssetPriority)
        requires
            old(self)@.wf(),
        ensures
            final(self)@.wf(),
            final(self)@ == (match old(self)@.entry_index(id@) {
                Some(i) => CacheView {
                    entries: old(self)@.entries.update(
                        i,
                        (
                            old(self)@.entries[i].0,
                            CacheEntryMetadata { priority, ..old(self)@.entries[i].1 },
                            old(self)@.entries[i].2,
                        ),
                    ),
                    ..old(self)@
                },
                None => old(self)@,
            }),
    {
        let i = match self.find_entry(id) {
            Some(i) => i,
            None => return,
        };
        let ghost v = self@;
        assert(v.entries[i as int] == entry_view(self.entries@[i as int]));
        let old_entry = self.entries.remove(i);
        let mut meta = old_entry.meta;
        meta.priority = priority;
        let new_entry = CachedTexture { id: old_entry.id, image: old_entry.image, meta };
        self.entries.insert(i, new_entry);
        proof {
            let nv = self@;
            assert(nv.entries =~= v.entries.update(i as int, entry_view(new_entry)));
            lemma_sum_update(v.entries, i as int, entry_view(new_entry));
            assert(entry_ids(nv.entries) =~= entry_ids(v.entries));
            assert forall|k: int| 0 <= k < nv.entries.len() implies #[trigger] nv.entries[k].1.size_bytes
                == nv.entries[k].2.rgba@.len() by {
                if k != i {
                    assert(nv.entries[k] == v.entries[k]);
                }
            }
        }
    }
}

/// A request that comes back `Missing` for a non-blank id is remembered: the
/// next request for that id is `Missing` too, whatever the disk then says.
pub proof fn lemma_missing_is_remembered(
    v: CacheView,
    id: Seq<char>,
    p: AssetPriority,
    on_disk: bool,
    p2: AssetPriority,
    on_disk2: bool,
)
    requires
        v.wf(),
        id.len() > 0,
        request_spec(v, id, p, on_disk).0 is Missing,
    ensures
        request_spec(request_spec(v, id, p, on_disk).1, id, p2, on_disk2).0 is Missing,
        request_spec(request_spec(v, id, p, on_disk).1, id, p2, on_disk2).1 == request_spec(
            v,
            id,
            p,
            on_disk,
        ).1,
{
    let w = request_spec(v, id, p, on_disk).1;
    if v.negative.contains(id) {
        assert(w == v);
    } else {
        assert(w == negative_spec(v, id));
        assert(w.negative.last() == id);
        assert(w.negative.contains(id));
    }
}

/// What a request keeps: the bytes held, the budget, the cached images (in
/// place, with their ids) and the oversized ones; when the request reaches
/// the queue, an id already queued answers `Loading` and is not queued again,
/// and a new id arriving at a full queue answers `Loading`, is not queued,
/// and is counted as dropped. (That the queue keeps distinct ids and at most
/// its cap is part of the cache's well-formedness, which every request keeps.)
pub proof fn lemma_request_bookkeeping(v: CacheView, id: Seq<char>, req: AssetPriority, on_disk: bool)
    requires
        v.wf(),
    ensures
        ({
            let (st, w) = request_spec(v, id, req, on_disk);
            &&& w.current_bytes == v.current_bytes
            &&& w.budget == v.budget
            &&& w.entries.len() == v.entries.len()
            &&& forall|i: int|
                0 <= i < v.entries.len() ==> (#[trigger] w.entries[i]).0 == v.entries[i].0
                    && w.entries[i].2 == v.entries[i].2
            &&& forall|x: (Seq<char>, DecodedRgbaImage)| #[trigger] w.oversized.contains(x)
                <==> v.oversized.contains(x)
            &&& (needs_disk(v, id) && on_disk && pending_ids(v).contains(id)) ==> (st
                == StatusView::Loading && pending_ids(w) == pending_ids(v))
            &&& (needs_disk(v, id) && on_disk && !pending_ids(v).contains(id) && v.pending.len()
                >= A10_REQUESTS_PER_TICK_CAP) ==> (st == StatusView::Loading && w.pending == v.pending
                && w.metrics.continuity_requests_dropped_cap == sat_add(
                v.metrics.continuity_requests_dropped_cap,
                1,
            ))
        }),
{
    let (st, w) = request_spec(v, id, req, on_disk);
    if id.len() > 0 && oversized_ids(v).contains(id) && !v.has_entry(id) {
        let k = index_of(oversized_ids(v), id)->0;
        assert forall|x: (Seq<char>, DecodedRgbaImage)| #[trigger] w.oversized.contains(x)
            <==> v.oversized.contains(x) by {
            if v.oversized.contains(x) {
                let j = choose|j: int| 0 <= j < v.oversized.len() && v.oversized[j] == x;
                if j == k {
                    assert(w.oversized[w.oversized.len() - 1] == x);
                } else if j < k {
                    assert(w.oversized[j] == x);
                } else {
                    assert(w.oversized[j - 1] == x);
                }
            }
            if w.oversized.contains(x) {
                let j = choose|j: int| 0 <= j < w.oversized.len() && w.oversized[j] == x;
                if j == w.oversized.len() - 1 {
                    assert(v.oversized[k] == x);
                } else if j < k {
                    assert(v.oversized[j] == x);
                } else {
                    assert(v.oversized[j + 1] == x);
                }
            }
        }
    }
    if needs_disk(v, id) && on_disk && pending_ids(v).contains(id) {
        assert(pending_ids(w) =~= pending_ids(v));
    }
}

/// A continuity priority is granted only below its quota and below the total quota.
pub proof fn lemma_granted_priority_within_quota(s: Seq<EntryView>, req: AssetPriority)
    ensures
        clamp_spec(s, req) == req || clamp_spec(s, req) == AssetPriority::Normal,
        clamp_spec(s, req) == AssetPriority::Active ==> count_priority(s, AssetPriority::Active)
            < A10_QUOTA_ACTIVE,
        clamp_spec(s, req) == AssetPriority::Previous ==> count_priority(
            s,
            AssetPriority::Previous,
        ) < A10_QUOTA_PREVIOUS,
        clamp_spec(s, req) == AssetPriority::Neighbor ==> count_priority(
            s,
            AssetPriority::Neighbor,
        ) < A10_QUOTA_NEIGHBOR,
        clamp_spec(s, req) != AssetPriority::Normal ==> count_priority(s, AssetPriority::Active)
            + count_priority(s, AssetPriority::Previous) + count_priority(
            s,
            AssetPriority::Neighbor,
        ) < A10_QUOTA_TOTAL_CONTINUITY,
{
}

} // verus!
