//! Region-handoff continuity: classification of handoff diagnostics and probe
//! results, the recovery actions a user can request, keepalive scheduling and
//! the continuity priorities given to asset requests.
use vstd::prelude::*;
use crate::asset::{AssetID, AssetPriority};
use crate::world::now_unix_ms;

verus! {

/// How long a profile refresh blocks the next one.
pub const PROFILE_REFRESH_COOLDOWN_MS: u64 = 10_000;

/// How long after a continuity probe another may be requested.
pub const RECOVERY_PROBE_COOLDOWN_MS: u64 = 15_000;

/// How long after a visible-asset refresh another may be requested.
pub const RECOVERY_ASSET_REFRESH_COOLDOWN_MS: u64 = 5_000;

/// The period of the agent-update keepalive.
pub const AGENT_UPDATE_KEEPALIVE_PERIOD_MS: u64 = 1_000;

/// Most visible assets that get the `Active` priority in one batch.
pub const A10_QUOTA_ACTIVE: usize = 96;

/// Most assets that get the `Previous` priority in one batch.
pub const A10_QUOTA_PREVIOUS: usize = 48;

/// Most assets that get the `Neighbor` priority in one batch.
pub const A10_QUOTA_NEIGHBOR: usize = 64;

/// Most neighbor regions that count towards the neighbor scope.
pub const A10_MAX_NEIGHBOR_SCOPES: usize = 8;

#[derive(Debug, Clone, Copy, PartialEq, Eq, Structural)]
pub enum HandoffPhase {
    NoHandoff,
    Crossed,
    Confirming,
    Completed,
}

#[derive(Debug, Clone, Copy, PartialEq, Eq, Structural)]
pub enum HandoffOutcome {
    Normal,
    Degraded,
    Stalled,
}

#[derive(Debug, Clone, Copy, PartialEq, Eq, Structural)]
pub enum HandoffReason {
    NoReason,
    LateConfirmation,
    StaleWindowExceeded,
}

#[derive(Debug, Clone, Copy, PartialEq, Eq, Structural)]
pub enum ProbeResultCode {
    Success,
    HttpFailure,
    Timeout,
    TransportError,
}

/// A neighbor region announced to the viewer.
#[derive(Debug, Clone, Copy, PartialEq, Eq, Structural)]
pub struct BoundedNeighborSummary {
    pub region_handle: u64,
    pub region_x: u32,
    pub region_y: u32,
}

/// What is known of the current region handoff.
#[derive(Debug, Clone, PartialEq, Eq)]
pub struct RegionContinuitySummary {
    pub phase: HandoffPhase,
    pub outcome: HandoffOutcome,
    pub reason: HandoffReason,
    pub phase_age_ms: u64,
    pub active_region_coords: Option<[u32; 2]>,
    pub previous_region_coords: Option<[u32; 2]>,
    pub neighbors: Vec<BoundedNeighborSummary>,
    pub last_probe_result: Option<ProbeResultCode>,
    pub last_probe_time_unix_ms: Option<u64>,
}

impl Default for RegionContinuitySummary {
    fn default() -> (r: RegionContinuitySummary)
        ensures
            r.phase == HandoffPhase::NoHandoff,
            r.outcome == HandoffOutcome::Normal,
            r.reason == HandoffReason::NoReason,
            r.phase_age_ms == 0,
            r.active_region_coords is None,
            r.previous_region_coords is None,
            r.neighbors@.len() == 0,
            r.last_probe_result is None,
            r.last_probe_time_unix_ms is None,
    {
        RegionContinuitySummary {
            phase: HandoffPhase::NoHandoff,
            outcome: HandoffOutcome::Normal,
            reason: HandoffReason::NoReason,
            phase_age_ms: 0,
            active_region_coords: None,
            previous_region_coords: None,
            neighbors: Vec::new(),
            last_probe_result: None,
            last_probe_time_unix_ms: None,
        }
    }
}

/// The classification of a handoff in `phase` that has lasted `age` milliseconds.
pub open spec fn handoff_class(phase: HandoffPhase, age: u64) -> (HandoffOutcome, HandoffReason) {
    match phase {
        HandoffPhase::Crossed => if age > 10_000 {
            (HandoffOutcome::Stalled, HandoffReason::StaleWindowExceeded)
        } else if age > 4_000 {
            (HandoffOutcome::Degraded, HandoffReason::LateConfirmation)
        } else {
            (HandoffOutcome::Normal, HandoffReason::NoReason)
        },
        HandoffPhase::Confirming => if age > 15_000 {
            (HandoffOutcome::Stalled, HandoffReason::StaleWindowExceeded)
        } else if age > 5_000 {
            (HandoffOutcome::Degraded, HandoffReason::LateConfirmation)
        } else {
            (HandoffOutcome::Normal, HandoffReason::NoReason)
        },
        _ => (HandoffOutcome::Normal, HandoffReason::NoReason),
    }
}

/// The severity of an outcome: `Normal` 0, `Degraded` 1, `Stalled` 2.
pub open spec fn severity(o: HandoffOutcome) -> int {
    match o {
        HandoffOutcome::Normal => 0,
        HandoffOutcome::Degraded => 1,
        HandoffOutcome::Stalled => 2,
    }
}

/// Maps a handoff's phase and age to a policy-level outcome and reason.
pub fn classify_handoff_diagnostics(summary: &RegionContinuitySummary) -> (r: (
    HandoffOutcome,
    HandoffReason,
))
    ensures
        r == handoff_class(summary.phase, summary.phase_age_ms),
        (r.0 == HandoffOutcome::Normal) <==> (r.1 == HandoffReason::NoReason),
{
    let phase = summary.phase;
    let age = summary.phase_age_ms;
    match phase {
        HandoffPhase::NoHandoff => (HandoffOutcome::Normal, HandoffReason::NoReason),
        HandoffPhase::Crossed => {
            if age > 10_000 {
                (HandoffOutcome::Stalled, HandoffReason::StaleWindowExceeded)
            } else if age > 4_000 {
                (HandoffOutcome::Degraded, HandoffReason::LateConfirmation)
            } else {
                (HandoffOutcome::Normal, HandoffReason::NoReason)
            }
        },
        HandoffPhase::Confirming => {
            if age > 15_000 {
                (HandoffOutcome::Stalled, HandoffReason::StaleWindowExceeded)
            } else if age > 5_000 {
                (HandoffOutcome::Degraded, HandoffReason::LateConfirmation)
            } else {
                (HandoffOutcome::Normal, HandoffReason::NoReason)
            }
        },
        HandoffPhase::Completed => (HandoffOutcome::Normal, HandoffReason::NoReason),
    }
}

/// A handoff that lasts longer in the same phase is never classified as less severe.
pub proof fn lemma_handoff_severity_monotonic(phase: HandoffPhase, a: u64, b: u64)
    requires
        a <= b,
    ensures
        severity(handoff_class(phase, a).0) <= severity(handoff_class(phase, b).0),
{
}

/// Classifies a one-shot probe: a timeout first, then a 2xx status as success,
/// any other status as an HTTP failure, no status as a transport error.
pub fn classify_probe_outcome(is_timeout: bool, status: Option<u16>) -> (r: ProbeResultCode)
    ensures
        r == (if is_timeout {
            ProbeResultCode::Timeout
        } else {
            match status {
                Some(code) => if 200 <= code < 300 {
                    ProbeResultCode::Success
                } else {
                    ProbeResultCode::HttpFailure
                },
                None => ProbeResultCode::TransportError,
            }
        }),
{
    if is_timeout {
        return ProbeResultCode::Timeout;
    }
    match status {
        Some(code) => {
            if 200 <= code && code < 300 {
                ProbeResultCode::Success
            } else {
                ProbeResultCode::HttpFailure
            }
        },
        None => ProbeResultCode::TransportError,
    }
}

fn copy_neighbors(v: &Vec<BoundedNeighborSummary>) -> (r: Vec<BoundedNeighborSummary>)
    ensures
        r@ == v@,
{
    let mut r: Vec<BoundedNeighborSummary> = Vec::new();
    let mut i: usize = 0;
    while i < v.len()
        invariant
            i <= v@.len(),
            r@ == v@.take(i as int),
        decreases v@.len() - i,
    {
        r.push(v[i]);
        assert(v@.take(i + 1) =~= v@.take(i as int).push(v@[i as int]));
        i += 1;
    }
    assert(v@.take(v@.len() as int) =~= v@);
    r
}

/// The summary as received, with its outcome and reason re-derived from phase and age.
pub fn map_net_continuity_to_core(summary: &RegionContinuitySummary) -> (r: RegionContinuitySummary)
    ensures
        r.phase == summary.phase,
        r.phase_age_ms == summary.phase_age_ms,
        r.active_region_coords == summary.active_region_coords,
        r.previous_region_coords == summary.previous_region_coords,
        r.neighbors@ == summary.neighbors@,
        r.last_probe_result == summary.last_probe_result,
        r.last_probe_time_unix_ms == summary.last_probe_time_unix_ms,
        (r.outcome, r.reason) == handoff_class(summary.phase, summary.phase_age_ms),
{
    let (outcome, reason) = classify_handoff_diagnostics(summary);
    RegionContinuitySummary {
        phase: summary.phase,
        outcome,
        reason,
        phase_age_ms: summary.phase_age_ms,
        active_region_coords: summary.active_region_coords,
        previous_region_coords: summary.previous_region_coords,
        neighbors: copy_neighbors(&summary.neighbors),
        last_probe_result: summary.last_probe_result,
        last_probe_time_unix_ms: summary.last_probe_time_unix_ms,
    }
}

#[derive(Debug, Clone, Copy, PartialEq, Eq, Structural)]
pub enum RecoveryAction {
    RetryContinuityProbe,
    RefreshVisibleAssets,
    ClearRecoveryBanner,
}

#[derive(Debug, Clone, Copy, PartialEq, Eq, Structural)]
pub enum RecoveryResultCode {
    Accepted,
    CooldownActive,
    Unavailable,
}

/// The answer to a recovery request.
#[derive(Debug, Clone, PartialEq, Eq)]
pub struct RecoveryActionResult {
    pub action: RecoveryAction,
    pub code: RecoveryResultCode,
    pub detail: Option<String>,
    pub cooldown_remaining_ms: Option<u64>,
}

/// `a - b`, or 0 when `b` exceeds `a` (`u64::saturating_sub`).
pub open spec fn sat_sub(a: u64, b: u64) -> u64 {
    if a >= b {
        (a - b) as u64
    } else {
        0
    }
}

/// Whether a cooldown of `cooldown` ms that started at `last` is still running at `now`.
pub open spec fn cooling(now: u64, last: Option<u64>, cooldown: u64) -> bool {
    match last {
        Some(t) => sat_sub(now, t) < cooldown,
        None => false,
    }
}

/// What is left of a running cooldown.
pub open spec fn remaining(now: u64, last: Option<u64>, cooldown: u64) -> u64 {
    match last {
        Some(t) => (cooldown - sat_sub(now, t)) as u64,
        None => cooldown,
    }
}

/// The characters of an optional string.
pub open spec fn opt_chars(o: Option<String>) -> Option<Seq<char>> {
    match o {
        Some(s) => Some(s@),
        None => None,
    }
}

/// Decides a recovery request. A probe retry is refused while the probe is
/// unavailable or in flight, and both cooldown-bound actions are refused while
/// their cooldown runs; a refusal leaves both timestamps as they were, and an
/// accepted request stamps its own timestamp with `now_ms`.
pub fn compute_recovery_action(
    action: RecoveryAction,
    now_ms: u64,
    last_probe_ms: Option<u64>,
    last_asset_ms: Option<u64>,
    probe_available: bool,
    probe_in_flight: bool,
    probe_cooldown: u64,
    asset_cooldown: u64,
) -> (r: (RecoveryActionResult, Option<u64>, Option<u64>))
    ensures
        r.0.action == action,
        opt_chars(r.0.detail) == (if action == RecoveryAction::RetryContinuityProbe
            && !probe_available {
            Some("continuity probe unavailable in current startup mode"@)
        } else if action == RecoveryAction::RetryContinuityProbe && probe_in_flight {
            Some("continuity probe already in flight"@)
        } else {
            None
        }),
        action == RecoveryAction::RetryContinuityProbe ==> {
            &&& r.2 == last_asset_ms
            &&& if !probe_available || probe_in_flight {
                &&& r.0.code == RecoveryResultCode::Unavailable
                &&& r.0.cooldown_remaining_ms is None
                &&& r.1 == last_probe_ms
            } else if cooling(now_ms, last_probe_ms, probe_cooldown) {
                &&& r.0.code == RecoveryResultCode::CooldownActive
                &&& r.0.cooldown_remaining_ms == Some(
                    remaining(now_ms, last_probe_ms, probe_cooldown),
                )
                &&& r.1 == last_probe_ms
            } else {
                &&& r.0.code == RecoveryResultCode::Accepted
                &&& r.0.cooldown_remaining_ms is None
                &&& r.1 == Some(now_ms)
            }
        },
        action == RecoveryAction::RefreshVisibleAssets ==> {
            &&& r.1 == last_probe_ms
            &&& if cooling(now_ms, last_asset_ms, asset_cooldown) {
                &&& r.0.code == RecoveryResultCode::CooldownActive
                &&& r.0.cooldown_remaining_ms == Some(
                    remaining(now_ms, last_asset_ms, asset_cooldown),
                )
                &&& r.2 == last_asset_ms
            } else {
                &&& r.0.code == RecoveryResultCode::Accepted
                &&& r.0.cooldown_remaining_ms is None
                &&& r.2 == Some(now_ms)
            }
        },
        action == RecoveryAction::ClearRecoveryBanner ==> {
            &&& r.0.code == RecoveryResultCode::Accepted
            &&& r.0.cooldown_remaining_ms is None
            &&& r.1 == last_probe_ms
            &&& r.2 == last_asset_ms
        },
{
    let mut new_probe = last_probe_ms;
    let mut new_asset = last_asset_ms;
    let (code, cooldown_remaining_ms) = match action {
        RecoveryAction::RetryContinuityProbe => {
            if !probe_available {
                (RecoveryResultCode::Unavailable, None)
            } else if probe_in_flight {
                (RecoveryResultCode::Unavailable, None)
            } else {
                match last_probe_ms {
                    Some(last) => {
                        let elapsed = now_ms.saturating_sub(last);
                        if elapsed < probe_cooldown {
                            (RecoveryResultCode::CooldownActive, Some(probe_cooldown - elapsed))
                        } else {
                            new_probe = Some(now_ms);
                            (RecoveryResultCode::Accepted, None)
                        }
                    },
                    None => {
                        new_probe = Some(now_ms);
                        (RecoveryResultCode::Accepted, None)
                    },
                }
            }
        },
        RecoveryAction::RefreshVisibleAssets => {
            match last_asset_ms {
                Some(last) => {
                    let elapsed = now_ms.saturating_sub(last);
                    if elapsed < asset_cooldown {
                        (RecoveryResultCode::CooldownActive, Some(asset_cooldown - elapsed))
                    } else {
                        new_asset = Some(now_ms);
                        (RecoveryResultCode::Accepted, None)
                    }
                },
                None => {
                    new_asset = Some(now_ms);
                    (RecoveryResultCode::Accepted, None)
                },
            }
        },
        RecoveryAction::ClearRecoveryBanner => (RecoveryResultCode::Accepted, None),
    };
    let detail = if action == RecoveryAction::RetryContinuityProbe && !probe_available {
        Some("continuity probe unavailable in current startup mode".to_owned())
    } else if action == RecoveryAction::RetryContinuityProbe && probe_in_flight {
        Some("continuity probe already in flight".to_owned())
    } else {
        None
    };
    let result = RecoveryActionResult { action, code, detail, cooldown_remaining_ms };
    (result, new_probe, new_asset)
}

/// A refused recovery request changes neither timestamp.
pub proof fn lemma_refused_recovery_keeps_bookkeeping(
    r: (RecoveryActionResult, Option<u64>, Option<u64>),
    action: RecoveryAction,
    now_ms: u64,
    last_probe_ms: Option<u64>,
    last_asset_ms: Option<u64>,
    probe_available: bool,
    probe_in_flight: bool,
    probe_cooldown: u64,
    asset_cooldown: u64,
)
    requires
        r.0.action == action,
        action == RecoveryAction::RetryContinuityProbe ==> {
            &&& r.2 == last_asset_ms
            &&& if !probe_available || probe_in_flight {
                r.0.code == RecoveryResultCode::Unavailable && r.1 == last_probe_ms
            } else if cooling(now_ms, last_probe_ms, probe_cooldown) {
                r.0.code == RecoveryResultCode::CooldownActive && r.1 == last_probe_ms
            } else {
                r.0.code == RecoveryResultCode::Accepted && r.1 == Some(now_ms)
            }
        },
        action == RecoveryAction::RefreshVisibleAssets ==> {
            &&& r.1 == last_probe_ms
            &&& if cooling(now_ms, last_asset_ms, asset_cooldown) {
                r.0.code == RecoveryResultCode::CooldownActive && r.2 == last_asset_ms
            } else {
                r.0.code == RecoveryResultCode::Accepted && r.2 == Some(now_ms)
            }
        },
        action == RecoveryAction::ClearRecoveryBanner ==> {
            &&& r.0.code == RecoveryResultCode::Accepted
            &&& r.1 == last_probe_ms
            &&& r.2 == last_asset_ms
        },
        r.0.code != RecoveryResultCode::Accepted,
    ensures
        r.1 == last_probe_ms,
        r.2 == last_asset_ms,
{
}

/// Whether the keepalive is due at `worker_tick`: always when none was sent,
/// else once `interval_ticks` (at least 1) ticks have passed.
pub fn should_send_agent_update_keepalive(
    worker_tick: u64,
    last_sent_tick: Option<u64>,
    interval_ticks: u64,
) -> (r: bool)
    ensures
        r == match last_sent_tick {
            Some(last) => sat_sub(worker_tick, last) >= (if interval_ticks == 0 {
                1
            } else {
                interval_ticks
            }),
            None => true,
        },
{
    let interval = if interval_ticks == 0 {
        1
    } else {
        interval_ticks
    };
    match last_sent_tick {
        Some(last) => worker_tick.saturating_sub(last) >= interval,
        None => true,
    }
}

/// The keepalive period in worker ticks of `worker_tick_ms` (at least 1 ms), rounded up.
pub fn agent_update_keepalive_interval_ticks(worker_tick_ms: u64) -> (r: u64)
    ensures
        ({
            let t: int = if worker_tick_ms == 0 {
                1
            } else {
                worker_tick_ms as int
            };
            r == (AGENT_UPDATE_KEEPALIVE_PERIOD_MS + t - 1) / t
        }),
{
    let t = if worker_tick_ms == 0 {
        1
    } else {
        worker_tick_ms
    };
    let sum = AGENT_UPDATE_KEEPALIVE_PERIOD_MS.saturating_add(t - 1);
    proof {
        if AGENT_UPDATE_KEEPALIVE_PERIOD_MS + t - 1 > u64::MAX {
            let m: int = u64::MAX as int;
            let ti: int = t as int;
            assert(m / ti == 1) by (nonlinear_arith)
                requires
                    ti <= m < 2 * ti,
            ;
            assert((ti + 999) / ti == 1) by (nonlinear_arith)
                requires
                    ti > 999,
            ;
        }
    }
    sum / t
}

/// The keepalive interval in ticks is the fewest ticks of `tick_ms` that
/// span the keepalive period: that many ticks cover it, one fewer do not.
pub proof fn lemma_keepalive_interval_spans_period(tick_ms: int)
    requires
        tick_ms >= 1,
    ensures
        ({
            let r = (AGENT_UPDATE_KEEPALIVE_PERIOD_MS + tick_ms - 1) / tick_ms;
            &&& r >= 1
            &&& r * tick_ms >= AGENT_UPDATE_KEEPALIVE_PERIOD_MS
            &&& (r - 1) * tick_ms < AGENT_UPDATE_KEEPALIVE_PERIOD_MS
        }),
{
    let p: int = AGENT_UPDATE_KEEPALIVE_PERIOD_MS as int;
    let t = tick_ms;
    let r = (p + t - 1) / t;
    assert(p == 1000);
    assert(r >= 1 && r * t >= p && (r - 1) * t < p) by (nonlinear_arith)
        requires
            t >= 1,
            p == 1000,
            r == (p + t - 1) / t,
    {
        let q = p + t - 1;
        assert(q == r * t + q % t);
        assert(0 <= q % t < t);
    }
}

/// The wait before reconnect attempt `attempt` when the clock reads
/// `now_ms`: 500 ms doubled once per attempt up to six doublings, plus a
/// jitter of the clock's low 32 bits modulo 350 ms, and at most 15 s.
pub open spec fn backoff_ms(attempt: u32, now_ms: u64) -> u64 {
    let capped: u32 = if attempt < 6 {
        attempt
    } else {
        6
    };
    let total = 500 * (1u64 << capped) + ((now_ms as u32) % 350);
    if total > 15_000 {
        15_000
    } else {
        total as u64
    }
}

proof fn lemma_shift_le(a: u32, b: u32)
    requires
        a <= b <= 6,
    ensures
        1 <= (1u64 << a) <= (1u64 << b) <= 64,
{
    assert(1 <= (1u64 << a) <= (1u64 << b) <= 64) by (bit_vector)
        requires
            a <= b <= 6,
    ;
}

/// The wait before reconnect attempt `attempt` at `now_ms`, in milliseconds
/// (see [`backoff_ms`]).
pub fn reconnect_backoff_ms_at(attempt: u32, now_ms: u64) -> (r: u64)
    ensures
        r == backoff_ms(attempt, now_ms),
{
    let capped: u32 = if attempt < 6 {
        attempt
    } else {
        6
    };
    proof {
        lemma_shift_le(capped, capped);
    }
    let base: u64 = 500 * (1u64 << capped);
    let jitter: u64 = ((now_ms as u32) % 350) as u64;
    let total = base + jitter;
    if total > 15_000 {
        15_000
    } else {
        total
    }
}

/// The wait before reconnect attempt `attempt`, in milliseconds, with the
/// jitter taken from the system clock (see [`backoff_ms`]).
pub fn reconnect_backoff_duration(attempt: u32) -> (r: u64)
    ensures
        exists|now: u64| r == #[trigger] backoff_ms(attempt, now),
{
    let now = now_unix_ms();
    reconnect_backoff_ms_at(attempt, now)
}

/// Reconnect waits never exceed 15 s, and at a given clock reading they
/// never shrink as attempts grow.
pub proof fn lemma_backoff_bounded_and_monotonic(a: u32, b: u32, now_ms: u64)
    requires
        a <= b,
    ensures
        backoff_ms(a, now_ms) <= 15_000,
        backoff_ms(a, now_ms) <= backoff_ms(b, now_ms),
{
    let ca: u32 = if a < 6 {
        a
    } else {
        6
    };
    let cb: u32 = if b < 6 {
        b
    } else {
        6
    };
    lemma_shift_le(ca, cb);
}

/// Whether a profile refresh at `now_unix_ms` falls within the cooldown of the last one.
pub fn profile_refresh_on_cooldown(now_unix_ms: u64, last_refresh_unix_ms: Option<u64>) -> (r:
    bool)
    ensures
        r == match last_refresh_unix_ms {
            Some(last) => now_unix_ms < (if last + PROFILE_REFRESH_COOLDOWN_MS > u64::MAX {
                u64::MAX as int
            } else {
                last + PROFILE_REFRESH_COOLDOWN_MS
            }),
            None => false,
        },
{
    match last_refresh_unix_ms {
        Some(last) => now_unix_ms < last.saturating_add(PROFILE_REFRESH_COOLDOWN_MS),
        None => false,
    }
}

/// An asset to request and the continuity priority it is requested with.
#[derive(Debug, Clone)]
pub struct AssetPriorityHint {
    pub id: AssetID,
    pub priority: AssetPriority,
}

/// The priorities given to the first `n` of `ids`, with the counts of `Active`,
/// `Previous` and `Neighbor` assigned so far: a visible asset is `Active` while
/// that quota lasts, else `Previous` when there is a previous region and that
/// quota lasts, else `Neighbor` when there are neighbors and that quota lasts,
/// else `Normal`.
pub open spec fn hint_state(
    ids: Seq<Seq<char>>,
    visible: Seq<Seq<char>>,
    has_previous: bool,
    has_neighbors: bool,
    n: nat,
) -> (Seq<AssetPriority>, nat, nat, nat)
    decreases n,
{
    if n == 0 {
        (seq![], 0, 0, 0)
    } else {
        let (ps, a, p, nb) = hint_state(ids, visible, has_previous, has_neighbors, (n - 1) as nat);
        let id = ids[n - 1];
        if visible.contains(id) && a < A10_QUOTA_ACTIVE {
            (ps.push(AssetPriority::Active), a + 1, p, nb)
        } else if has_previous && p < A10_QUOTA_PREVIOUS {
            (ps.push(AssetPriority::Previous), a, p + 1, nb)
        } else if has_neighbors && nb < A10_QUOTA_NEIGHBOR {
            (ps.push(AssetPriority::Neighbor), a, p, nb + 1)
        } else {
            (ps.push(AssetPriority::Normal), a, p, nb)
        }
    }
}

/// The identifiers of a list of assets, by their characters.
pub open spec fn id_views(v: Seq<AssetID>) -> Seq<Seq<char>> {
    v.map_values(|a: AssetID| a@)
}

/// The continuity scope of a summary: whether it has a previous region, and
/// whether it has at least one neighbor.
pub open spec fn continuity_scope(c: Option<&RegionContinuitySummary>) -> (bool, bool) {
    match c {
        Some(s) => (s.previous_region_coords is Some, s.neighbors@.len() > 0),
        None => (false, false),
    }
}

fn contains_id(ids: &[AssetID], id: &AssetID) -> (r: bool)
    ensures
        r == id_views(ids@).contains(id@),
{
    let mut j: usize = 0;
    while j < ids.len()
        invariant
            j <= ids@.len(),
            forall|k: int| 0 <= k < j ==> ids@[k]@ != id@,
        decreases ids@.len() - j,
    {
        if ids[j].same_as(id) {
            assert(id_views(ids@)[j as int] == id@);
            return true;
        }
        j += 1;
    }
    assert(!id_views(ids@).contains(id@)) by {
        if id_views(ids@).contains(id@) {
            let k = choose|k: int| 0 <= k < id_views(ids@).len() && id_views(ids@)[k] == id@;
            assert(ids@[k]@ == id@);
        }
    }
    false
}

/// Assigns each asset to request a continuity priority (see [`hint_state`]).
pub fn build_asset_priority_hints(
    ids_to_request: &[AssetID],
    visible_ids: &[AssetID],
    continuity: Option<&RegionContinuitySummary>,
) -> (r: Vec<AssetPriorityHint>)
    ensures
        r@.len() == ids_to_request@.len(),
        forall|i: int| 0 <= i < r@.len() ==> #[trigger] r@[i].id@ == ids_to_request@[i]@,
        r@.map_values(|h: AssetPriorityHint| h.priority) == hint_state(
            id_views(ids_to_request@),
            id_views(visible_ids@),
            continuity_scope(continuity).0,
            continuity_scope(continuity).1,
            ids_to_request@.len(),
        ).0,
{
    let has_previous = match continuity {
        Some(c) => c.previous_region_coords.is_some(),
        None => false,
    };
    let neighbor_scope_count: usize = match continuity {
        Some(c) => if c.neighbors.len() < A10_MAX_NEIGHBOR_SCOPES {
            c.neighbors.len()
        } else {
            A10_MAX_NEIGHBOR_SCOPES
        },
        None => 0,
    };
    let ghost ids = id_views(ids_to_request@);
    let ghost vis = id_views(visible_ids@);
    let ghost hn = continuity_scope(continuity).1;
    assert(hn == (neighbor_scope_count > 0));
    let mut active: usize = 0;
    let mut previous: usize = 0;
    let mut neighbor: usize = 0;
    let mut hints: Vec<AssetPriorityHint> = Vec::new();
    let n = ids_to_request.len();
    let mut i: usize = 0;
    while i < n
        invariant
            n == ids_to_request@.len(),
            ids == id_views(ids_to_request@),
            vis == id_views(visible_ids@),
            hn == (neighbor_scope_count > 0),
            i <= n,
            hints@.len() == i,
            forall|k: int| 0 <= k < i ==> #[trigger] hints@[k].id@ == ids_to_request@[k]@,
            hint_state(ids, vis, has_previous, hn, i as nat) == (
                hints@.map_values(|h: AssetPriorityHint| h.priority),
                active as nat,
                previous as nat,
                neighbor as nat,
            ),
            active <= A10_QUOTA_ACTIVE,
            previous <= A10_QUOTA_PREVIOUS,
            neighbor <= A10_QUOTA_NEIGHBOR,
        decreases n - i,
    {
        let id = &ids_to_request[i];
        assert(ids[i as int] == id@);
        let priority = if contains_id(visible_ids, id) && active < A10_QUOTA_ACTIVE {
            active += 1;
            AssetPriority::Active
        } else if has_previous && previous < A10_QUOTA_PREVIOUS {
            previous += 1;
            AssetPriority::Previous
        } else if neighbor_scope_count > 0 && neighbor < A10_QUOTA_NEIGHBOR {
            neighbor += 1;
            AssetPriority::Neighbor
        } else {
            AssetPriority::Normal
        };
        let ghost before = hints@.map_values(|h: AssetPriorityHint| h.priority);
        hints.push(AssetPriorityHint { id: AssetID::new(id.as_str()), priority });
        assert(hints@.map_values(|h: AssetPriorityHint| h.priority) =~= before.push(priority));
        i += 1;
    }
    hints
}

/// However many assets are requested, no priority is handed out beyond its quota.
pub proof fn lemma_priority_quotas(
    ids: Seq<Seq<char>>,
    visible: Seq<Seq<char>>,
    has_previous: bool,
    has_neighbors: bool,
    n: nat,
)
    ensures
        hint_state(ids, visible, has_previous, has_neighbors, n).0.len() == n,
        hint_state(ids, visible, has_previous, has_neighbors, n).0.filter(
            |p: AssetPriority| p == AssetPriority::Active,
        ).len() == hint_state(ids, visible, has_previous, has_neighbors, n).1,
        hint_state(ids, visible, has_previous, has_neighbors, n).0.filter(
            |p: AssetPriority| p == AssetPriority::Previous,
        ).len() == hint_state(ids, visible, has_previous, has_neighbors, n).2,
        hint_state(ids, visible, has_previous, has_neighbors, n).0.filter(
            |p: AssetPriority| p == AssetPriority::Neighbor,
        ).len() == hint_state(ids, visible, has_previous, has_neighbors, n).3,
        hint_state(ids, visible, has_previous, has_neighbors, n).1 <= A10_QUOTA_ACTIVE,
        hint_state(ids, visible, has_previous, has_neighbors, n).2 <= A10_QUOTA_PREVIOUS,
        hint_state(ids, visible, has_previous, has_neighbors, n).3 <= A10_QUOTA_NEIGHBOR,
    decreases n,
{
    if n > 0 {
        lemma_priority_quotas(ids, visible, has_previous, has_neighbors, (n - 1) as nat);
        let ps = hint_state(ids, visible, has_previous, has_neighbors, (n - 1) as nat).0;
        let ps2 = hint_state(ids, visible, has_previous, has_neighbors, n).0;
        let x = ps2.last();
        assert(ps2 =~= ps.push(x));
        ps.lemma_filter_push(x, |p: AssetPriority| p == AssetPriority::Active);
        ps.lemma_filter_push(x, |p: AssetPriority| p == AssetPriority::Previous);
        ps.lemma_filter_push(x, |p: AssetPriority| p == AssetPriority::Neighbor);
    }
}

} // verus!
