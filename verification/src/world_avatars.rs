//! The avatars shown in the world: merging the live session's avatar
//! samples into the list kept (one entry per agent id, with its name, region
//! and position), marking avatars stale when no sample came for a while and
//! dropping them after three such windows, with the relay events each change
//! gives. Positions are kept as the bit patterns of their `f32` coordinates,
//! which the caller computes.
use std::collections::BTreeMap;
use vstd::prelude::*;
use crate::numtext::{dec, push_dec};
use crate::social::{avatar_label_with_cache, format_avatar_label_with_cache, FriendEntry};
use crate::startup::{opt_str, resolve_avatar_sim_name, sim_name_of};
use crate::text::{push_str, string_of};

verus! {

/// A world position as the bits of its three `f32` coordinates.
#[derive(Debug, Clone, Copy, PartialEq, Eq)]
pub struct PositionBits {
    pub x: u32,
    pub y: u32,
    pub z: u32,
}

/// Whether the `f32` with these bits is NaN.
pub open spec fn f32_bits_nan(b: u32) -> bool {
    b & 0x7f80_0000u32 == 0x7f80_0000u32 && b & 0x007f_ffffu32 != 0
}

/// Whether the `f32` with these bits is zero (of either sign).
pub open spec fn f32_bits_zero(b: u32) -> bool {
    b & 0x7fff_ffffu32 == 0
}

/// Whether two `f32`s, given by their bits, compare equal: neither is NaN,
/// and their bits agree or both are zeros.
pub open spec fn f32_bits_equal(a: u32, b: u32) -> bool {
    !f32_bits_nan(a) && !f32_bits_nan(b) && (a == b || (f32_bits_zero(a) && f32_bits_zero(b)))
}

/// Whether two positions compare equal coordinate by coordinate, as `f32`s.
pub open spec fn same_position(p: PositionBits, q: PositionBits) -> bool {
    f32_bits_equal(p.x, q.x) && f32_bits_equal(p.y, q.y) && f32_bits_equal(p.z, q.z)
}

fn f32_equal(a: u32, b: u32) -> (r: bool)
    ensures
        r == f32_bits_equal(a, b),
{
    let a_nan = a & 0x7f80_0000u32 == 0x7f80_0000u32 && a & 0x007f_ffffu32 != 0;
    let b_nan = b & 0x7f80_0000u32 == 0x7f80_0000u32 && b & 0x007f_ffffu32 != 0;
    !a_nan && !b_nan && (a == b || (a & 0x7fff_ffffu32 == 0 && b & 0x7fff_ffffu32 == 0))
}

fn positions_equal(p: PositionBits, q: PositionBits) -> (r: bool)
    ensures
        r == same_position(p, q),
{
    f32_equal(p.x, q.x) && f32_equal(p.y, q.y) && f32_equal(p.z, q.z)
}

/// One avatar sample from the live session.
#[derive(Debug, Clone, PartialEq, Eq)]
pub struct WorkerWorldAvatarSample {
    pub agent_id: Option<String>,
    pub is_self: bool,
    pub sim_name: Option<String>,
    /// The coarse region-local position the session reported.
    pub xyz: [u8; 3],
    /// Where the caller places the avatar in the world, as the bits of each
    /// `f32` coordinate.
    pub world_position_bits: PositionBits,
}

/// An avatar shown in the world.
#[derive(Debug, Clone, PartialEq, Eq)]
pub struct WorldAvatar {
    pub agent_id: String,
    pub world_position_bits: PositionBits,
    pub local_position: Option<[u8; 3]>,
    pub sim_name: Option<String>,
    pub display_name: String,
    pub is_self: bool,
    pub last_update_unix_ms: u64,
    pub stale: bool,
}

/// An avatar as the contracts see it.
pub struct AvatarView {
    pub agent_id: Seq<char>,
    pub world_position_bits: PositionBits,
    pub local_position: Option<[u8; 3]>,
    pub sim_name: Option<Seq<char>>,
    pub display_name: Seq<char>,
    pub is_self: bool,
    pub last_update_unix_ms: u64,
    pub stale: bool,
}

pub open spec fn avatar_view(a: WorldAvatar) -> AvatarView {
    AvatarView {
        agent_id: a.agent_id@,
        world_position_bits: a.world_position_bits,
        local_position: a.local_position,
        sim_name: match a.sim_name {
            Some(s) => Some(s@),
            None => None,
        },
        display_name: a.display_name@,
        is_self: a.is_self,
        last_update_unix_ms: a.last_update_unix_ms,
        stale: a.stale,
    }
}

pub open spec fn avatar_views(s: Seq<WorldAvatar>) -> Seq<AvatarView> {
    s.map_values(|a: WorldAvatar| avatar_view(a))
}

pub open spec fn event_views(s: Seq<(String, String)>) -> Seq<(Seq<char>, Seq<char>)> {
    s.map_values(|e: (String, String)| (e.0@, e.1@))
}

/// What the merge reads besides the samples: the friends and the cache of
/// resolved names (for labels), the region names to fall back on, the time
/// and the staleness window.
pub struct MergeContext {
    pub friends: Seq<FriendEntry>,
    pub name_cache: Map<Seq<char>, Seq<char>>,
    pub decoded_sim_name: Option<Seq<char>>,
    pub startup_sim_name: Option<Seq<char>>,
    pub now: u64,
    pub stale_after_ms: u64,
}

/// The agent id of sample `idx`: its own, else `self` for the agent itself,
/// else `coarse-<idx + 1>`.
pub open spec fn sample_id(s: WorkerWorldAvatarSample, idx: int) -> Seq<char> {
    match s.agent_id {
        Some(a) => a@,
        None => if s.is_self {
            "self"@
        } else {
            "coarse-"@ + dec((idx + 1) as nat)
        },
    }
}

/// The name shown for a sample: `You` for the agent itself, else its label.
pub open spec fn sample_display(s: WorkerWorldAvatarSample, id: Seq<char>, c: MergeContext) -> Seq<
    char,
> {
    if s.is_self {
        "You"@
    } else {
        avatar_label_with_cache(id, c.friends, c.name_cache)
    }
}

/// The region of a sample: its own name, else the decoded one, else the
/// start-up one, else `unknown`.
pub open spec fn sample_sim(s: WorkerWorldAvatarSample, c: MergeContext) -> Seq<char> {
    match sim_name_of(
        match s.sim_name {
            Some(n) => Some(n@),
            None => None,
        },
    ) {
        Some(n) => n,
        None => match sim_name_of(c.decoded_sim_name) {
            Some(n) => n,
            None => match sim_name_of(c.startup_sim_name) {
                Some(n) => n,
                None => "unknown"@,
            },
        },
    }
}

/// The first avatar with `id` at index `i` or later.
pub open spec fn find_avatar_from(av: Seq<AvatarView>, id: Seq<char>, i: int) -> Option<int>
    decreases av.len() - i,
{
    if i < 0 || i >= av.len() {
        None
    } else if av[i].agent_id == id {
        Some(i)
    } else {
        find_avatar_from(av, id, i + 1)
    }
}

/// The first avatar with `id`.
pub open spec fn find_avatar(av: Seq<AvatarView>, id: Seq<char>) -> Option<int> {
    find_avatar_from(av, id, 0)
}

/// The avatar a sample gives: its id, position, region and label, updated
/// now and not stale.
pub open spec fn sample_avatar(s: WorkerWorldAvatarSample, idx: int, c: MergeContext) -> AvatarView {
    AvatarView {
        agent_id: sample_id(s, idx),
        world_position_bits: s.world_position_bits,
        local_position: Some(s.xyz),
        sim_name: Some(sample_sim(s, c)),
        display_name: sample_display(s, sample_id(s, idx), c),
        is_self: s.is_self,
        last_update_unix_ms: c.now,
        stale: false,
    }
}

/// One sample merged: the avatar with its id is refreshed (an event when
/// it moved or was stale, another when its name changed), or a new avatar
/// is added (an `avatar_seen` event).
pub open spec fn merge_sample(
    av: Seq<AvatarView>,
    ev: Seq<(Seq<char>, Seq<char>)>,
    s: WorkerWorldAvatarSample,
    idx: int,
    c: MergeContext,
) -> (Seq<AvatarView>, Seq<(Seq<char>, Seq<char>)>) {
    let id = sample_id(s, idx);
    let display = sample_display(s, id, c);
    let fresh = sample_avatar(s, idx, c);
    match find_avatar(av, id) {
        Some(k) => {
            let old = av[k];
            let moved = !same_position(old.world_position_bits, s.world_position_bits) || old.stale;
            let ev1 = if moved {
                ev.push(("avatar_updated"@, id + " moved"@))
            } else {
                ev
            };
            let ev2 = if old.display_name != display {
                ev1.push(("avatar_name_resolved"@, id + " -> "@ + display))
            } else {
                ev1
            };
            (av.update(k, fresh), ev2)
        },
        None => (av.push(fresh), ev.push(("avatar_seen"@, id + " "@ + display))),
    }
}

/// The first `n` samples merged in order.
pub open spec fn merge_samples(
    av: Seq<AvatarView>,
    samples: Seq<WorkerWorldAvatarSample>,
    n: int,
    c: MergeContext,
) -> (Seq<AvatarView>, Seq<(Seq<char>, Seq<char>)>)
    decreases n,
{
    if n <= 0 {
        (av, seq![])
    } else {
        let prev = merge_samples(av, samples, n - 1, c);
        merge_sample(prev.0, prev.1, samples[n - 1], n - 1, c)
    }
}

pub open spec fn sat_sub(a: u64, b: u64) -> int {
    if a >= b {
        a - b
    } else {
        0
    }
}

pub open spec fn sat_mul3(a: u64) -> int {
    if a * 3 > u64::MAX {
        u64::MAX as int
    } else {
        a * 3
    }
}

/// How long since the avatar was updated, past the staleness window.
pub open spec fn is_aged(a: AvatarView, now: u64, stale_after: u64) -> bool {
    sat_sub(now, a.last_update_unix_ms) > stale_after
}

/// Whether the avatar is past three staleness windows.
pub open spec fn is_expired(a: AvatarView, now: u64, stale_after: u64) -> bool {
    is_aged(a, now, stale_after) && sat_sub(now, a.last_update_unix_ms) > sat_mul3(stale_after)
}

/// The first `n` avatars checked for staleness: an aged avatar is marked
/// stale (an `avatar_stale` event when it was not yet), and the ids of
/// expired ones are collected.
pub open spec fn stale_pass(av: Seq<AvatarView>, n: int, now: u64, stale_after: u64) -> (
    Seq<AvatarView>,
    Seq<(Seq<char>, Seq<char>)>,
    Seq<Seq<char>>,
)
    decreases n,
{
    if n <= 0 {
        (av, seq![], seq![])
    } else {
        let prev = stale_pass(av, n - 1, now, stale_after);
        let a = av[n - 1];
        if is_aged(a, now, stale_after) {
            (
                prev.0.update(n - 1, AvatarView { stale: true, ..a }),
                if a.stale {
                    prev.1
                } else {
                    prev.1.push(("avatar_stale"@, a.agent_id))
                },
                if is_expired(a, now, stale_after) {
                    prev.2.push(a.agent_id)
                } else {
                    prev.2
                },
            )
        } else {
            prev
        }
    }
}

/// The avatars whose id was not removed, in order.
pub open spec fn kept(av: Seq<AvatarView>, removed: Seq<Seq<char>>) -> Seq<AvatarView>
    decreases av.len(),
{
    if av.len() == 0 {
        seq![]
    } else if removed.contains(av[0].agent_id) {
        kept(av.drop_first(), removed)
    } else {
        seq![av[0]] + kept(av.drop_first(), removed)
    }
}

/// The whole merge: every sample merged, then the staleness pass, then the
/// expired avatars dropped with an `avatar_removed` event each.
pub open spec fn merge_result(
    av: Seq<AvatarView>,
    samples: Seq<WorkerWorldAvatarSample>,
    c: MergeContext,
) -> (Seq<AvatarView>, Seq<(Seq<char>, Seq<char>)>) {
    let m = merge_samples(av, samples, samples.len() as int, c);
    let st = stale_pass(m.0, m.0.len() as int, c.now, c.stale_after_ms);
    (
        kept(st.0, st.2),
        m.1 + st.1 + st.2.map_values(|id: Seq<char>| ("avatar_removed"@, id)),
    )
}

/// No two avatars share an agent id.
pub open spec fn ids_distinct(av: Seq<AvatarView>) -> bool {
    forall|i: int, j: int|
        0 <= i < j < av.len() ==> #[trigger] av[i].agent_id != #[trigger] av[j].agent_id
}

proof fn lemma_find_from(av: Seq<AvatarView>, id: Seq<char>, i: int)
    requires
        0 <= i,
    ensures
        match find_avatar_from(av, id, i) {
            Some(k) => i <= k < av.len() && av[k].agent_id == id,
            None => forall|j: int| i <= j < av.len() ==> #[trigger] av[j].agent_id != id,
        },
    decreases av.len() - i,
{
    if i < av.len() && av[i].agent_id != id {
        lemma_find_from(av, id, i + 1);
    }
}

proof fn lemma_merge_sample_distinct(
    av: Seq<AvatarView>,
    ev: Seq<(Seq<char>, Seq<char>)>,
    s: WorkerWorldAvatarSample,
    idx: int,
    c: MergeContext,
)
    requires
        ids_distinct(av),
    ensures
        ids_distinct(merge_sample(av, ev, s, idx, c).0),
{
    let id = sample_id(s, idx);
    lemma_find_from(av, id, 0);
    let r = merge_sample(av, ev, s, idx, c).0;
    match find_avatar(av, id) {
        Some(k) => {
            assert forall|i: int, j: int| 0 <= i < j < r.len() implies #[trigger] r[i].agent_id
                != #[trigger] r[j].agent_id by {
                assert(r[i].agent_id == av[i].agent_id);
                assert(r[j].agent_id == av[j].agent_id);
            }
        },
        None => {
            assert forall|i: int, j: int| 0 <= i < j < r.len() implies #[trigger] r[i].agent_id
                != #[trigger] r[j].agent_id by {
                if j == av.len() {
                    assert(r[i] == av[i]);
                } else {
                    assert(r[i] == av[i] && r[j] == av[j]);
                }
            }
        },
    }
}

proof fn lemma_merge_samples_distinct(
    av: Seq<AvatarView>,
    samples: Seq<WorkerWorldAvatarSample>,
    n: int,
    c: MergeContext,
)
    requires
        ids_distinct(av),
    ensures
        ids_distinct(merge_samples(av, samples, n, c).0),
    decreases n,
{
    if n > 0 {
        lemma_merge_samples_distinct(av, samples, n - 1, c);
        let prev = merge_samples(av, samples, n - 1, c);
        lemma_merge_sample_distinct(prev.0, prev.1, samples[n - 1], n - 1, c);
    }
}

proof fn lemma_stale_pass_ids(av: Seq<AvatarView>, n: int, now: u64, stale_after: u64)
    requires
        0 <= n <= av.len(),
    ensures
        stale_pass(av, n, now, stale_after).0.len() == av.len(),
        forall|k: int|
            0 <= k < av.len() ==> (#[trigger] stale_pass(av, n, now, stale_after).0[k]).agent_id
                == av[k].agent_id,
    decreases n,
{
    if n > 0 {
        lemma_stale_pass_ids(av, n - 1, now, stale_after);
    }
}

proof fn lemma_kept_distinct(av: Seq<AvatarView>, removed: Seq<Seq<char>>)
    requires
        ids_distinct(av),
    ensures
        ids_distinct(kept(av, removed)),
        forall|m: int|
            0 <= m < kept(av, removed).len() ==> exists|j: int|
                0 <= j < av.len() && #[trigger] kept(av, removed)[m] == av[j],
    decreases av.len(),
{
    if av.len() > 0 {
        let rest = av.drop_first();
        assert forall|i: int, j: int| 0 <= i < j < rest.len() implies #[trigger] rest[i].agent_id
            != #[trigger] rest[j].agent_id by {
            assert(rest[i] == av[i + 1] && rest[j] == av[j + 1]);
        }
        lemma_kept_distinct(rest, removed);
        let kr = kept(rest, removed);
        let k = kept(av, removed);
        if removed.contains(av[0].agent_id) {
            assert forall|m: int| 0 <= m < k.len() implies exists|j: int|
                0 <= j < av.len() && #[trigger] k[m] == av[j] by {
                let j = choose|j: int| 0 <= j < rest.len() && kr[m] == rest[j];
                assert(k[m] == av[j + 1]);
            }
        } else {
            assert forall|m: int| 0 <= m < k.len() implies exists|j: int|
                0 <= j < av.len() && #[trigger] k[m] == av[j] by {
                if m == 0 {
                    assert(k[0] == av[0]);
                } else {
                    assert(k[m] == kr[m - 1]);
                    let j = choose|j: int| 0 <= j < rest.len() && kr[m - 1] == rest[j];
                    assert(k[m] == av[j + 1]);
                }
            }
            assert forall|i: int, j: int| 0 <= i < j < k.len() implies #[trigger] k[i].agent_id
                != #[trigger] k[j].agent_id by {
                assert(k[j] == kr[j - 1]);
                if i == 0 {
                    let q = choose|q: int| 0 <= q < rest.len() && kr[j - 1] == rest[q];
                    assert(k[j] == av[q + 1]);
                    assert(k[0] == av[0]);
                } else {
                    assert(k[i] == kr[i - 1]);
                }
            }
        }
    }
}

/// A merge keeps one avatar per agent id: where no two avatars shared an id
/// before, none do after, whatever the samples.
pub proof fn lemma_merge_keeps_one_avatar_per_id(
    av: Seq<AvatarView>,
    samples: Seq<WorkerWorldAvatarSample>,
    c: MergeContext,
)
    requires
        ids_distinct(av),
    ensures
        ids_distinct(merge_result(av, samples, c).0),
{
    lemma_merge_samples_distinct(av, samples, samples.len() as int, c);
    let m = merge_samples(av, samples, samples.len() as int, c);
    let st = stale_pass(m.0, m.0.len() as int, c.now, c.stale_after_ms);
    lemma_stale_pass_ids(m.0, m.0.len() as int, c.now, c.stale_after_ms);
    assert forall|i: int, j: int| 0 <= i < j < st.0.len() implies #[trigger] st.0[i].agent_id
        != #[trigger] st.0[j].agent_id by {
        assert(st.0[i].agent_id == m.0[i].agent_id);
        assert(st.0[j].agent_id == m.0[j].agent_id);
    }
    lemma_kept_distinct(st.0, st.2);
}

/// Whether some avatar has `id` and was updated at `now`, not stale.
pub open spec fn shown_fresh(av: Seq<AvatarView>, id: Seq<char>, now: u64) -> bool {
    exists|k: int|
        0 <= k < av.len() && (#[trigger] av[k]).agent_id == id && av[k].last_update_unix_ms == now
            && !av[k].stale
}

proof fn lemma_merge_samples_fresh(
    av: Seq<AvatarView>,
    samples: Seq<WorkerWorldAvatarSample>,
    n: int,
    c: MergeContext,
)
    requires
        0 <= n <= samples.len(),
    ensures
        forall|i: int|
            0 <= i < n ==> shown_fresh(
                merge_samples(av, samples, n, c).0,
                #[trigger] sample_id(samples[i], i),
                c.now,
            ),
    decreases n,
{
    if n > 0 {
        lemma_merge_samples_fresh(av, samples, n - 1, c);
        let prev = merge_samples(av, samples, n - 1, c);
        let p = prev.0;
        let r = merge_samples(av, samples, n, c).0;
        let id = sample_id(samples[n - 1], n - 1);
        lemma_find_from(p, id, 0);
        assert forall|i: int| 0 <= i < n implies shown_fresh(
            r,
            #[trigger] sample_id(samples[i], i),
            c.now,
        ) by {
            match find_avatar(p, id) {
                Some(k2) => {
                    if i == n - 1 {
                        assert(r[k2].agent_id == id);
                    } else {
                        let k = choose|k: int|
                            0 <= k < p.len() && (#[trigger] p[k]).agent_id == sample_id(
                                samples[i],
                                i,
                            ) && p[k].last_update_unix_ms == c.now && !p[k].stale;
                        assert(r[k].agent_id == sample_id(samples[i], i));
                    }
                },
                None => {
                    if i == n - 1 {
                        assert(r[p.len() as int].agent_id == id);
                    } else {
                        let k = choose|k: int|
                            0 <= k < p.len() && (#[trigger] p[k]).agent_id == sample_id(
                                samples[i],
                                i,
                            ) && p[k].last_update_unix_ms == c.now && !p[k].stale;
                        assert(r[k] == p[k]);
                    }
                },
            }
        }
    }
}

/// Whether one of the first `n` avatars has `id` and is past three windows.
pub open spec fn expired_with_id(av: Seq<AvatarView>, n: int, now: u64, stale_after: u64, id: Seq<
    char,
>) -> bool {
    exists|k: int| 0 <= k < n && is_expired(av[k], now, stale_after) && #[trigger] av[k].agent_id == id
}

proof fn lemma_stale_pass_keeps_fresh(av: Seq<AvatarView>, n: int, now: u64, stale_after: u64)
    requires
        0 <= n <= av.len(),
    ensures
        forall|k: int|
            0 <= k < av.len() && !is_aged(av[k], now, stale_after) ==> #[trigger] stale_pass(
                av,
                n,
                now,
                stale_after,
            ).0[k] == av[k],
        forall|q: int|
            0 <= q < stale_pass(av, n, now, stale_after).2.len() ==> expired_with_id(
                av,
                n,
                now,
                stale_after,
                #[trigger] stale_pass(av, n, now, stale_after).2[q],
            ),
    decreases n,
{
    lemma_stale_pass_shape(av, n, now, stale_after);
    if n > 0 {
        lemma_stale_pass_keeps_fresh(av, n - 1, now, stale_after);
        lemma_stale_pass_shape(av, n - 1, now, stale_after);
        let prev = stale_pass(av, n - 1, now, stale_after);
        let cur = stale_pass(av, n, now, stale_after);
        assert forall|k: int|
            0 <= k < av.len() && !is_aged(av[k], now, stale_after) implies #[trigger] cur.0[k]
            == av[k] by {
            assert(prev.0[k] == av[k]);
            if is_aged(av[n - 1], now, stale_after) {
                assert(k != n - 1);
                assert(cur.0[k] == prev.0[k]);
            }
        }
        assert forall|q: int| 0 <= q < cur.2.len() implies expired_with_id(
            av,
            n,
            now,
            stale_after,
            #[trigger] cur.2[q],
        ) by {
            if q < prev.2.len() {
                assert(cur.2[q] == prev.2[q]);
                assert(expired_with_id(av, n - 1, now, stale_after, prev.2[q]));
                let k = choose|k: int|
                    0 <= k < n - 1 && is_aged(av[k], now, stale_after) && #[trigger] av[k].agent_id
                        == prev.2[q];
                assert(av[k].agent_id == cur.2[q]);
            } else {
                assert(av[n - 1].agent_id == cur.2[q]);
            }
        }
    }
}

proof fn lemma_kept_keeps(av: Seq<AvatarView>, removed: Seq<Seq<char>>, k: int)
    requires
        0 <= k < av.len(),
        !removed.contains(av[k].agent_id),
    ensures
        exists|m: int| 0 <= m < kept(av, removed).len() && #[trigger] kept(av, removed)[m] == av[k],
    decreases av.len(),
{
    let rest = av.drop_first();
    let kr = kept(rest, removed);
    let kk = kept(av, removed);
    if k == 0 {
        assert(kk[0] == av[0]);
    } else {
        assert(rest[k - 1] == av[k]);
        lemma_kept_keeps(rest, removed, k - 1);
        let m = choose|m: int| 0 <= m < kr.len() && #[trigger] kr[m] == rest[k - 1];
        if removed.contains(av[0].agent_id) {
            assert(kk[m] == av[k]);
        } else {
            assert(kk[m + 1] == av[k]);
        }
    }
}

/// Every sampled avatar is shown after the merge: for each sample, an avatar
/// with the sample's agent id is there, updated at the merge's time and not
/// stale (where no two avatars shared an id before).
pub proof fn lemma_merge_shows_every_sample(
    av: Seq<AvatarView>,
    samples: Seq<WorkerWorldAvatarSample>,
    c: MergeContext,
)
    requires
        ids_distinct(av),
    ensures
        forall|i: int|
            0 <= i < samples.len() ==> shown_fresh(
                merge_result(av, samples, c).0,
                #[trigger] sample_id(samples[i], i),
                c.now,
            ),
{
    let m = merge_samples(av, samples, samples.len() as int, c);
    let st = stale_pass(m.0, m.0.len() as int, c.now, c.stale_after_ms);
    let res = merge_result(av, samples, c).0;
    lemma_merge_samples_fresh(av, samples, samples.len() as int, c);
    lemma_merge_samples_distinct(av, samples, samples.len() as int, c);
    lemma_stale_pass_keeps_fresh(m.0, m.0.len() as int, c.now, c.stale_after_ms);
    lemma_stale_pass_shape(m.0, m.0.len() as int, c.now, c.stale_after_ms);
    assert forall|i: int| 0 <= i < samples.len() implies shown_fresh(
        res,
        #[trigger] sample_id(samples[i], i),
        c.now,
    ) by {
        let id = sample_id(samples[i], i);
        assert(shown_fresh(m.0, id, c.now));
        let k = choose|k: int|
            0 <= k < m.0.len() && (#[trigger] m.0[k]).agent_id == id && m.0[k].last_update_unix_ms
                == c.now && !m.0[k].stale;
        assert(!is_aged(m.0[k], c.now, c.stale_after_ms));
        assert(st.0[k] == m.0[k]);
        if st.2.contains(id) {
            let q = choose|q: int| 0 <= q < st.2.len() && st.2[q] == id;
            assert(expired_with_id(m.0, m.0.len() as int, c.now, c.stale_after_ms, st.2[q]));
            let k2 = choose|k2: int|
                0 <= k2 < m.0.len() && is_aged(m.0[k2], c.now, c.stale_after_ms)
                    && #[trigger] m.0[k2].agent_id == st.2[q];
            if k2 < k {
                assert(m.0[k2].agent_id != m.0[k].agent_id);
            } else if k < k2 {
                assert(m.0[k].agent_id != m.0[k2].agent_id);
            }
            assert(false);
        }
        lemma_kept_keeps(st.0, st.2, k);
        let mm = choose|mm: int| 0 <= mm < res.len() && #[trigger] res[mm] == st.0[k];
        assert(res[mm].agent_id == id);
    }
}

/// Whether some sample has agent id `id`.
pub open spec fn sampled(samples: Seq<WorkerWorldAvatarSample>, id: Seq<char>) -> bool {
    exists|i: int| 0 <= i < samples.len() && #[trigger] sample_id(samples[i], i) == id
}

/// Whether sample `i` is the last with its agent id.
pub open spec fn last_with_id(samples: Seq<WorkerWorldAvatarSample>, i: int) -> bool {
    forall|j: int| i < j < samples.len() ==> #[trigger] sample_id(samples[j], j) != sample_id(samples[i], i)
}

/// An avatar after the staleness check: marked stale once past the window.
pub open spec fn aged_view(a: AvatarView, now: u64, stale_after: u64) -> AvatarView {
    if is_aged(a, now, stale_after) {
        AvatarView { stale: true, ..a }
    } else {
        a
    }
}

proof fn lemma_merge_samples_keeps_unsampled(
    av: Seq<AvatarView>,
    samples: Seq<WorkerWorldAvatarSample>,
    n: int,
    c: MergeContext,
    k: int,
)
    requires
        0 <= n <= samples.len(),
        0 <= k < av.len(),
        !sampled(samples, av[k].agent_id),
    ensures
        merge_samples(av, samples, n, c).0.len() >= av.len(),
        merge_samples(av, samples, n, c).0[k] == av[k],
    decreases n,
{
    if n > 0 {
        lemma_merge_samples_keeps_unsampled(av, samples, n - 1, c, k);
        let p = merge_samples(av, samples, n - 1, c).0;
        let id = sample_id(samples[n - 1], n - 1);
        lemma_find_from(p, id, 0);
        assert(sample_id(samples[n - 1], n - 1) != av[k].agent_id);
    }
}

proof fn lemma_merge_samples_last(
    av: Seq<AvatarView>,
    samples: Seq<WorkerWorldAvatarSample>,
    n: int,
    c: MergeContext,
    i: int,
)
    requires
        0 <= i < n <= samples.len(),
        last_with_id(samples, i),
    ensures
        exists|k: int|
            0 <= k < merge_samples(av, samples, n, c).0.len() && #[trigger] merge_samples(
                av,
                samples,
                n,
                c,
            ).0[k] == sample_avatar(samples[i], i, c),
    decreases n,
{
    let p = merge_samples(av, samples, n - 1, c).0;
    let r = merge_samples(av, samples, n, c).0;
    let id = sample_id(samples[n - 1], n - 1);
    lemma_find_from(p, id, 0);
    if n - 1 == i {
        match find_avatar(p, id) {
            Some(k) => {
                assert(r[k] == sample_avatar(samples[i], i, c));
            },
            None => {
                assert(r[p.len() as int] == sample_avatar(samples[i], i, c));
            },
        }
    } else {
        lemma_merge_samples_last(av, samples, n - 1, c, i);
        let k = choose|k: int| 0 <= k < p.len() && #[trigger] p[k] == sample_avatar(samples[i], i, c);
        assert(sample_id(samples[n - 1], n - 1) != sample_id(samples[i], i));
        match find_avatar(p, id) {
            Some(k2) => {
                assert(k2 != k);
                assert(r[k] == p[k]);
            },
            None => {
                assert(r[k] == p[k]);
            },
        }
    }
}

proof fn lemma_stale_pass_at(av: Seq<AvatarView>, n: int, now: u64, stale_after: u64)
    requires
        0 <= n <= av.len(),
    ensures
        forall|k: int|
            0 <= k < n ==> #[trigger] stale_pass(av, n, now, stale_after).0[k] == aged_view(
                av[k],
                now,
                stale_after,
            ),
        forall|k: int|
            0 <= k < n && is_expired(av[k], now, stale_after) ==> stale_pass(
                av,
                n,
                now,
                stale_after,
            ).2.contains(#[trigger] av[k].agent_id),
    decreases n,
{
    lemma_stale_pass_shape(av, n, now, stale_after);
    if n > 0 {
        lemma_stale_pass_at(av, n - 1, now, stale_after);
        lemma_stale_pass_shape(av, n - 1, now, stale_after);
        let prev = stale_pass(av, n - 1, now, stale_after);
        let cur = stale_pass(av, n, now, stale_after);
        assert forall|k: int| 0 <= k < n implies #[trigger] cur.0[k] == aged_view(
            av[k],
            now,
            stale_after,
        ) by {
            if k < n - 1 {
                assert(prev.0[k] == aged_view(av[k], now, stale_after));
            } else {
                assert(prev.0[k] == av[k]);
            }
        }
        assert forall|k: int| 0 <= k < n && is_expired(av[k], now, stale_after) implies cur.2.contains(
            #[trigger] av[k].agent_id,
        ) by {
            if k < n - 1 {
                assert(prev.2.contains(av[k].agent_id));
                let q = choose|q: int| 0 <= q < prev.2.len() && prev.2[q] == av[k].agent_id;
                assert(cur.2[q] == prev.2[q]);
            } else {
                assert(cur.2[prev.2.len() as int] == av[k].agent_id);
            }
        }
    }
}

proof fn lemma_kept_ids(av: Seq<AvatarView>, removed: Seq<Seq<char>>)
    ensures
        forall|m: int|
            0 <= m < kept(av, removed).len() ==> !removed.contains(
                #[trigger] kept(av, removed)[m].agent_id,
            ),
    decreases av.len(),
{
    if av.len() > 0 {
        lemma_kept_ids(av.drop_first(), removed);
        let kr = kept(av.drop_first(), removed);
        let k = kept(av, removed);
        if !removed.contains(av[0].agent_id) {
            assert forall|m: int| 0 <= m < k.len() implies !removed.contains(
                #[trigger] k[m].agent_id,
            ) by {
                if m > 0 {
                    assert(k[m] == kr[m - 1]);
                }
            }
        }
    }
}

/// What a merge does to each avatar: for each sample that is the last with
/// its agent id, exactly the avatar that sample gives is shown (its position,
/// region and label, updated now, not stale); an avatar that no sample
/// names is dropped exactly when it is past three staleness windows, and
/// otherwise kept as it was, marked stale once past one window (where no two
/// avatars shared an id before).
pub proof fn lemma_merge_updates_and_expires(
    av: Seq<AvatarView>,
    samples: Seq<WorkerWorldAvatarSample>,
    c: MergeContext,
)
    requires
        ids_distinct(av),
    ensures
        forall|i: int|
            0 <= i < samples.len() && last_with_id(samples, i) ==> exists|m: int|
                0 <= m < merge_result(av, samples, c).0.len() && #[trigger] merge_result(
                    av,
                    samples,
                    c,
                ).0[m] == sample_avatar(samples[i], i, c),
        forall|k: int|
            0 <= k < av.len() && !sampled(samples, av[k].agent_id) ==> ((exists|m: int|
                0 <= m < merge_result(av, samples, c).0.len() && #[trigger] merge_result(
                    av,
                    samples,
                    c,
                ).0[m].agent_id == av[k].agent_id) <==> !is_expired(
                #[trigger] av[k],
                c.now,
                c.stale_after_ms,
            )),
        forall|k: int, m: int|
            0 <= k < av.len() && !sampled(samples, av[k].agent_id) && 0 <= m < merge_result(
                av,
                samples,
                c,
            ).0.len() && #[trigger] merge_result(av, samples, c).0[m].agent_id == #[trigger] av[k].agent_id
                ==> merge_result(av, samples, c).0[m] == aged_view(av[k], c.now, c.stale_after_ms),
{
    let mm = merge_samples(av, samples, samples.len() as int, c);
    let m0 = mm.0;
    let st = stale_pass(m0, m0.len() as int, c.now, c.stale_after_ms);
    let res = merge_result(av, samples, c).0;
    lemma_merge_samples_distinct(av, samples, samples.len() as int, c);
    lemma_stale_pass_keeps_fresh(m0, m0.len() as int, c.now, c.stale_after_ms);
    lemma_stale_pass_at(m0, m0.len() as int, c.now, c.stale_after_ms);
    lemma_stale_pass_ids(m0, m0.len() as int, c.now, c.stale_after_ms);
    assert forall|i: int, j: int| 0 <= i < j < st.0.len() implies #[trigger] st.0[i].agent_id
        != #[trigger] st.0[j].agent_id by {
        assert(st.0[i].agent_id == m0[i].agent_id);
        assert(st.0[j].agent_id == m0[j].agent_id);
    }
    lemma_kept_distinct(st.0, st.2);
    lemma_kept_ids(st.0, st.2);
    assert forall|k: int|
        0 <= k < av.len() && !sampled(samples, av[k].agent_id) implies ((exists|m: int|
        0 <= m < res.len() && #[trigger] res[m].agent_id == av[k].agent_id) <==> !is_expired(
        #[trigger] av[k],
        c.now,
        c.stale_after_ms,
    )) by {
        lemma_merge_samples_keeps_unsampled(av, samples, samples.len() as int, c, k);
        assert(m0[k] == av[k]);
        assert(st.0[k] == aged_view(av[k], c.now, c.stale_after_ms));
        if is_expired(av[k], c.now, c.stale_after_ms) {
            assert(st.2.contains(m0[k].agent_id));
            assert forall|m: int| 0 <= m < res.len() implies #[trigger] res[m].agent_id
                != av[k].agent_id by {
                assert(!st.2.contains(res[m].agent_id));
            }
        } else {
            if st.2.contains(av[k].agent_id) {
                let q = choose|q: int| 0 <= q < st.2.len() && st.2[q] == av[k].agent_id;
                assert(expired_with_id(m0, m0.len() as int, c.now, c.stale_after_ms, st.2[q]));
                let k2 = choose|k2: int|
                    0 <= k2 < m0.len() && is_expired(m0[k2], c.now, c.stale_after_ms)
                        && #[trigger] m0[k2].agent_id == st.2[q];
                if k2 < k {
                    assert(m0[k2].agent_id != m0[k].agent_id);
                } else if k < k2 {
                    assert(m0[k].agent_id != m0[k2].agent_id);
                }
                assert(false);
            }
            lemma_kept_keeps(st.0, st.2, k);
            let m = choose|m: int| 0 <= m < res.len() && #[trigger] res[m] == st.0[k];
            assert(res[m].agent_id == av[k].agent_id);
        }
    }
    assert forall|k: int, m: int|
        0 <= k < av.len() && !sampled(samples, av[k].agent_id) && 0 <= m < res.len()
            && #[trigger] res[m].agent_id == #[trigger] av[k].agent_id implies res[m] == aged_view(
        av[k],
        c.now,
        c.stale_after_ms,
    ) by {
        lemma_merge_samples_keeps_unsampled(av, samples, samples.len() as int, c, k);
        assert(st.0[k] == aged_view(av[k], c.now, c.stale_after_ms));
        let j = choose|j: int| 0 <= j < st.0.len() && #[trigger] res[m] == st.0[j];
        if j < k {
            assert(st.0[j].agent_id != st.0[k].agent_id);
        } else if k < j {
            assert(st.0[k].agent_id != st.0[j].agent_id);
        }
    }
    assert forall|i: int| 0 <= i < samples.len() && last_with_id(samples, i) implies exists|m: int|
        0 <= m < res.len() && #[trigger] res[m] == sample_avatar(samples[i], i, c) by {
        lemma_merge_samples_last(av, samples, samples.len() as int, c, i);
        let k = choose|k: int| 0 <= k < m0.len() && #[trigger] m0[k] == sample_avatar(samples[i], i, c);
        assert(!is_aged(m0[k], c.now, c.stale_after_ms));
        assert(st.0[k] == m0[k]);
        if st.2.contains(m0[k].agent_id) {
            let q = choose|q: int| 0 <= q < st.2.len() && st.2[q] == m0[k].agent_id;
            assert(expired_with_id(m0, m0.len() as int, c.now, c.stale_after_ms, st.2[q]));
            let k2 = choose|k2: int|
                0 <= k2 < m0.len() && is_aged(m0[k2], c.now, c.stale_after_ms)
                    && #[trigger] m0[k2].agent_id == st.2[q];
            if k2 < k {
                assert(m0[k2].agent_id != m0[k].agent_id);
            } else if k < k2 {
                assert(m0[k].agent_id != m0[k2].agent_id);
            }
            assert(false);
        }
        lemma_kept_keeps(st.0, st.2, k);
        let m = choose|m: int| 0 <= m < res.len() && #[trigger] res[m] == st.0[k];
        assert(res[m] == sample_avatar(samples[i], i, c));
    }
}

pub open spec fn merge_context(
    friends: Seq<FriendEntry>,
    name_cache: Map<Seq<char>, Seq<char>>,
    decoded_sim_name: Option<&str>,
    startup_sim_name: Option<&str>,
    now: u64,
    stale_after_ms: u64,
) -> MergeContext {
    MergeContext {
        friends,
        name_cache,
        decoded_sim_name: opt_str(decoded_sim_name),
        startup_sim_name: opt_str(startup_sim_name),
        now,
        stale_after_ms,
    }
}

pub open spec fn id_views(s: Seq<String>) -> Seq<Seq<char>> {
    s.map_values(|id: String| id@)
}

proof fn lemma_stale_pass_shape(av: Seq<AvatarView>, n: int, now: u64, stale_after: u64)
    requires
        0 <= n <= av.len(),
    ensures
        stale_pass(av, n, now, stale_after).0.len() == av.len(),
        forall|k: int|
            n <= k < av.len() ==> #[trigger] stale_pass(av, n, now, stale_after).0[k] == av[k],
    decreases n,
{
    if n > 0 {
        lemma_stale_pass_shape(av, n - 1, now, stale_after);
    }
}

fn concat2(a: &str, b: &str) -> (r: String)
    ensures
        r@ == a@ + b@,
{
    let mut v: Vec<char> = Vec::new();
    push_str(&mut v, a);
    push_str(&mut v, b);
    string_of(v.as_slice())
}

fn concat3(a: &str, b: &str, c: &str) -> (r: String)
    ensures
        r@ == a@ + b@ + c@,
{
    let mut v: Vec<char> = Vec::new();
    push_str(&mut v, a);
    push_str(&mut v, b);
    push_str(&mut v, c);
    string_of(v.as_slice())
}

fn opt_as_str(o: &Option<String>) -> (r: Option<&str>)
    ensures
        opt_str(r) == match o {
            Some(s) => Some(s@),
            None => None::<Seq<char>>,
        },
{
    match o {
        Some(s) => Some(s.as_str()),
        None => None,
    }
}

/// The agent id of sample `idx` (see `sample_id`).
fn sample_agent_id(s: &WorkerWorldAvatarSample, idx: usize) -> (r: String)
    requires
        idx < usize::MAX,
    ensures
        r@ == sample_id(*s, idx as int),
{
    match &s.agent_id {
        Some(a) => a.clone(),
        None => if s.is_self {
            "self".to_owned()
        } else {
            let mut v: Vec<char> = Vec::new();
            push_str(&mut v, "coarse-");
            assert(usize::MAX <= u64::MAX);
            push_dec(&mut v, idx as u64 + 1);
            string_of(v.as_slice())
        },
    }
}

/// The index of the first avatar with `id`.
fn find_avatar_index(current: &Vec<WorldAvatar>, id: &String) -> (r: Option<usize>)
    ensures
        match r {
            Some(k) => k < current@.len() && find_avatar(avatar_views(current@), id@) == Some(
                k as int,
            ),
            None => find_avatar(avatar_views(current@), id@) is None,
        },
{
    let ghost av = avatar_views(current@);
    let mut i: usize = 0;
    while i < current.len()
        invariant
            i <= current@.len(),
            av == avatar_views(current@),
            find_avatar(av, id@) == find_avatar_from(av, id@, i as int),
        decreases current@.len() - i,
    {
        if current[i].agent_id == *id {
            return Some(i);
        }
        i += 1;
    }
    None
}

/// Whether `id` is among `ids`.
fn ids_contain(ids: &[String], id: &String) -> (r: bool)
    ensures
        r == id_views(ids@).contains(id@),
{
    let mut i: usize = 0;
    while i < ids.len()
        invariant
            i <= ids@.len(),
            forall|j: int| 0 <= j < i ==> id_views(ids@)[j] != id@,
        decreases ids@.len() - i,
    {
        if ids[i] == *id {
            assert(id_views(ids@)[i as int] == id@);
            return true;
        }
        i += 1;
    }
    false
}

/// One sample merged into `current`, its events appended to `events`.
fn merge_one(
    current: &mut Vec<WorldAvatar>,
    events: &mut Vec<(String, String)>,
    s: &WorkerWorldAvatarSample,
    idx: usize,
    friends: &[FriendEntry],
    avatar_name_cache: &BTreeMap<String, String>,
    decoded_world_sim_name: Option<&str>,
    startup_sim_name_fallback: Option<&str>,
    observed_at_unix_ms: u64,
    stale_after_ms: u64,
)
    requires
        idx < usize::MAX,
    ensures
        (avatar_views(final(current)@), event_views(final(events)@)) == merge_sample(
            avatar_views(old(current)@),
            event_views(old(events)@),
            *s,
            idx as int,
            merge_context(
                friends@,
                avatar_name_cache.deep_view(),
                decoded_world_sim_name,
                startup_sim_name_fallback,
                observed_at_unix_ms,
                stale_after_ms,
            ),
        ),
{
    let ghost c = merge_context(
        friends@,
        avatar_name_cache.deep_view(),
        decoded_world_sim_name,
        startup_sim_name_fallback,
        observed_at_unix_ms,
        stale_after_ms,
    );
    let ghost av = avatar_views(current@);
    let ghost ev = event_views(events@);
    let id = sample_agent_id(s, idx);
    let display = if s.is_self {
        "You".to_owned()
    } else {
        format_avatar_label_with_cache(id.as_str(), friends, avatar_name_cache)
    };
    let sim = resolve_avatar_sim_name(
        opt_as_str(&s.sim_name),
        decoded_world_sim_name,
        startup_sim_name_fallback,
    );
    assert(sim@ == sample_sim(*s, c));
    let fresh = WorldAvatar {
        agent_id: id.clone(),
        world_position_bits: s.world_position_bits,
        local_position: Some(s.xyz),
        sim_name: Some(sim),
        display_name: display.clone(),
        is_self: s.is_self,
        last_update_unix_ms: observed_at_unix_ms,
        stale: false,
    };
    match find_avatar_index(current, &id) {
        Some(k) => {
            let moved = !positions_equal(current[k].world_position_bits, s.world_position_bits)
                || current[k].stale;
            let renamed = !(current[k].display_name == display);
            current.set(k, fresh);
            assert(avatar_views(current@) =~= av.update(k as int, avatar_view(fresh)));
            if moved {
                events.push(("avatar_updated".to_owned(), concat2(id.as_str(), " moved")));
            }
            if renamed {
                events.push(
                    ("avatar_name_resolved".to_owned(), concat3(id.as_str(), " -> ", display.as_str())),
                );
            }
            assert(event_views(events@) =~= merge_sample(av, ev, *s, idx as int, c).1);
        },
        None => {
            current.push(fresh);
            events.push(("avatar_seen".to_owned(), concat3(id.as_str(), " ", display.as_str())));
            assert(avatar_views(current@) =~= av.push(avatar_view(fresh)));
            assert(event_views(events@) =~= merge_sample(av, ev, *s, idx as int, c).1);
        },
    }
}

/// Merges the avatar samples of one poll into `current`: each sample
/// refreshes the avatar with its agent id (`self`, or `coarse-<n>` for the
/// n-th sample, where the sample has none) or adds one; then every avatar not
/// updated within `stale_after_ms` is marked stale, and those older than
/// three such windows are dropped. Returns the relay events in order:
/// `avatar_seen`, `avatar_updated` (moved or no longer stale) and
/// `avatar_name_resolved` per sample, then `avatar_stale` per avatar newly
/// stale, then `avatar_removed` per avatar dropped.
pub fn merge_world_avatar_samples(
    current: &mut Vec<WorldAvatar>,
    friends: &[FriendEntry],
    avatar_name_cache: &BTreeMap<String, String>,
    decoded_world_sim_name: Option<&str>,
    startup_sim_name_fallback: Option<&str>,
    samples: &[WorkerWorldAvatarSample],
    observed_at_unix_ms: u64,
    stale_after_ms: u64,
) -> (r: Vec<(String, String)>)
    ensures
        (avatar_views(final(current)@), event_views(r@)) == merge_result(
            avatar_views(old(current)@),
            samples@,
            merge_context(
                friends@,
                avatar_name_cache.deep_view(),
                decoded_world_sim_name,
                startup_sim_name_fallback,
                observed_at_unix_ms,
                stale_after_ms,
            ),
        ),
{
    let ghost c = merge_context(
        friends@,
        avatar_name_cache.deep_view(),
        decoded_world_sim_name,
        startup_sim_name_fallback,
        observed_at_unix_ms,
        stale_after_ms,
    );
    let ghost av0 = avatar_views(current@);
    let mut events: Vec<(String, String)> = Vec::new();
    let mut i: usize = 0;
    while i < samples.len()
        invariant
            i <= samples@.len(),
            c == merge_context(
                friends@,
                avatar_name_cache.deep_view(),
                decoded_world_sim_name,
                startup_sim_name_fallback,
                observed_at_unix_ms,
                stale_after_ms,
            ),
            (avatar_views(current@), event_views(events@)) == merge_samples(
                av0,
                samples@,
                i as int,
                c,
            ),
        decreases samples@.len() - i,
    {
        merge_one(
            current,
            &mut events,
            &samples[i],
            i,
            friends,
            avatar_name_cache,
            decoded_world_sim_name,
            startup_sim_name_fallback,
            observed_at_unix_ms,
            stale_after_ms,
        );
        i += 1;
    }
    let ghost m = merge_samples(av0, samples@, samples@.len() as int, c);
    let ghost m0 = m.0;
    let limit: u64 = if stale_after_ms > u64::MAX / 3 {
        u64::MAX
    } else {
        stale_after_ms * 3
    };
    let mut removed: Vec<String> = Vec::new();
    let mut j: usize = 0;
    while j < current.len()
        invariant
            j <= m0.len(),
            current@.len() == m0.len(),
            limit == sat_mul3(stale_after_ms),
            avatar_views(current@) == stale_pass(m0, j as int, observed_at_unix_ms, stale_after_ms).0,
            event_views(events@) == m.1 + stale_pass(
                m0,
                j as int,
                observed_at_unix_ms,
                stale_after_ms,
            ).1,
            id_views(removed@) == stale_pass(m0, j as int, observed_at_unix_ms, stale_after_ms).2,
        decreases m0.len() - j,
    {
        proof {
            lemma_stale_pass_shape(m0, j as int, observed_at_unix_ms, stale_after_ms);
            assert(avatar_views(current@)[j as int] == m0[j as int]);
        }
        let ghost before = current@;
        let ghost evb = events@;
        let ghost rb = removed@;
        let last = current[j].last_update_unix_ms;
        let age: u64 = if observed_at_unix_ms >= last {
            observed_at_unix_ms - last
        } else {
            0
        };
        if age > stale_after_ms {
            if !current[j].stale {
                let mut a = current.remove(j);
                a.stale = true;
                current.insert(j, a);
                assert(current@ =~= before.update(j as int, a));
                events.push(("avatar_stale".to_owned(), current[j].agent_id.clone()));
                assert(event_views(events@) =~= event_views(evb).push(
                    ("avatar_stale"@, m0[j as int].agent_id),
                ));
            }
            if age > limit {
                removed.push(current[j].agent_id.clone());
                assert(id_views(removed@) =~= id_views(rb).push(m0[j as int].agent_id));
            }
        }
        assert(avatar_views(current@) =~= stale_pass(
            m0,
            j + 1,
            observed_at_unix_ms,
            stale_after_ms,
        ).0);
        j += 1;
    }
    let ghost st = stale_pass(m0, m0.len() as int, observed_at_unix_ms, stale_after_ms);
    let mut src: Vec<WorldAvatar> = Vec::new();
    std::mem::swap(current, &mut src);
    assert(avatar_views(current@) + kept(avatar_views(src@), st.2) =~= kept(st.0, st.2));
    while src.len() > 0
        invariant
            id_views(removed@) == st.2,
            avatar_views(current@) + kept(avatar_views(src@), st.2) == kept(st.0, st.2),
        decreases src@.len(),
    {
        let ghost before = src@;
        let a = src.remove(0);
        assert(avatar_views(src@) =~= avatar_views(before).drop_first());
        let gone = ids_contain(removed.as_slice(), &a.agent_id);
        if !gone {
            let ghost cb = current@;
            current.push(a);
            assert(avatar_views(current@) + kept(avatar_views(src@), st.2) =~= avatar_views(cb)
                + kept(avatar_views(before), st.2));
        }
    }
    assert(kept(avatar_views(src@), st.2) =~= Seq::<AvatarView>::empty());
    assert(avatar_views(current@) =~= kept(st.0, st.2));
    let ghost eb = event_views(events@);
    let mut t: usize = 0;
    while t < removed.len()
        invariant
            t <= removed@.len(),
            id_views(removed@) == st.2,
            event_views(events@) == eb + st.2.take(t as int).map_values(
                |id: Seq<char>| ("avatar_removed"@, id),
            ),
        decreases removed@.len() - t,
    {
        let ghost f = |id: Seq<char>| ("avatar_removed"@, id);
        let ghost evb = event_views(events@);
        let id = removed[t].clone();
        assert(id@ == st.2[t as int]);
        events.push(("avatar_removed".to_owned(), id));
        assert(event_views(events@) =~= evb.push(f(st.2[t as int])));
        assert(st.2.take(t + 1) =~= st.2.take(t as int).push(st.2[t as int]));
        assert(st.2.take(t + 1).map_values(f) =~= st.2.take(t as int).map_values(f).push(
            f(st.2[t as int]),
        ));
        assert(event_views(events@) =~= eb + st.2.take(t + 1).map_values(f));
        t += 1;
    }
    assert(st.2.take(st.2.len() as int) =~= st.2);
    events
}

/// How many poll ticks pass between two rounds of avatar name lookups.
pub const NAME_RESOLVE_EVERY_TICKS: u64 = 40;

/// The agent ids of `samples`, in order, that are neither the viewer's own
/// agent nor among the names already known.
pub open spec fn ids_to_resolve(
    samples: Seq<WorkerWorldAvatarSample>,
    local: Seq<char>,
    known: Seq<Seq<char>>,
) -> Seq<Seq<char>>
    decreases samples.len(),
{
    if samples.len() == 0 {
        seq![]
    } else {
        let prev = ids_to_resolve(samples.drop_last(), local, known);
        match samples.last().agent_id {
            Some(id) => if id@ != local && !known.contains(id@) {
                prev.push(id@)
            } else {
                prev
            },
            None => prev,
        }
    }
}

/// The avatar ids whose names the live session asks for on this tick: on
/// every `NAME_RESOLVE_EVERY_TICKS`-th tick, those of `ids_to_resolve`; on
/// other ticks none.
pub fn avatar_name_ids_to_resolve(
    worker_tick: u64,
    samples: &[WorkerWorldAvatarSample],
    local_agent_id: &str,
    known_avatar_name_ids: &[String],
) -> (r: Vec<String>)
    ensures
        id_views(r@) == if worker_tick % NAME_RESOLVE_EVERY_TICKS == 0 {
            ids_to_resolve(samples@, local_agent_id@, id_views(known_avatar_name_ids@))
        } else {
            Seq::<Seq<char>>::empty()
        },
{
    let mut ids: Vec<String> = Vec::new();
    if worker_tick % NAME_RESOLVE_EVERY_TICKS != 0 {
        assert(id_views(ids@) =~= Seq::<Seq<char>>::empty());
        return ids;
    }
    let local = local_agent_id.to_owned();
    let ghost known = id_views(known_avatar_name_ids@);
    let mut i: usize = 0;
    while i < samples.len()
        invariant
            i <= samples@.len(),
            local@ == local_agent_id@,
            known == id_views(known_avatar_name_ids@),
            id_views(ids@) == ids_to_resolve(samples@.take(i as int), local@, known),
        decreases samples@.len() - i,
    {
        assert(samples@.take(i + 1).drop_last() =~= samples@.take(i as int));
        assert(samples@.take(i + 1).last() == samples@[i as int]);
        match &samples[i].agent_id {
            Some(id) => {
                if !(*id == local) && !ids_contain(known_avatar_name_ids, id) {
                    let ghost before = ids@;
                    ids.push(id.clone());
                    assert(id_views(ids@) =~= id_views(before).push(id@));
                }
            },
            None => {},
        }
        i += 1;
    }
    assert(samples@.take(samples@.len() as int) =~= samples@);
    ids
}

} // verus!
