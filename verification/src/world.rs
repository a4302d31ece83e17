//! The live-visual snapshot that the session reports, and what the world view
//! derives from it: first-region presence, the diagnostic slice, the object
//! ingestion seam and the transition cue.
use vstd::prelude::*;
use crate::continuity::{
    HandoffOutcome, HandoffPhase, ProbeResultCode, RECOVERY_PROBE_COOLDOWN_MS,
    RegionContinuitySummary, sat_sub,
};
use crate::numtext::{
    dec, is_digit, lemma_dec_digits, lemma_parse_dec, parse_unsigned, parse_unsigned_exec, push_dec,
};
use crate::text::{chars_of, string_of};

verus! {

/// What the live session last reported.
#[derive(Debug, Clone)]
pub struct LiveVisualSnapshot {
    pub source: String,
    pub logged_in: bool,
    pub first_sim_endpoint: Option<String>,
    pub first_sim_region_x: Option<u32>,
    pub first_sim_region_y: Option<u32>,
    pub handshake_agent_movement_complete: bool,
    pub traffic_summary_available: bool,
    pub post_boundary_observations: u32,
    pub region_transition_control_observations: u32,
    pub crossed_region: u32,
    pub confirm_enable_simulator: u32,
    pub likely_broader_traffic: u32,
    pub unknown: u32,
    pub decoded_coarse_updates: u32,
    pub decoded_coarse_location_count: Option<u8>,
    pub decoded_coarse_first_x: Option<u8>,
    pub decoded_coarse_first_y: Option<u8>,
    pub decoded_coarse_first_z: Option<u8>,
    pub continuity: RegionContinuitySummary,
    pub observed_at_unix_ms: u64,
}

#[derive(Debug, Clone, Copy, PartialEq, Eq, Structural)]
pub enum WorldEntryStage {
    Offline,
    Connected,
    EnteredFirstRegion,
}

#[derive(Debug, Clone, Copy, PartialEq, Eq)]
pub struct FirstRegionPresence {
    pub stage: WorldEntryStage,
    pub has_sim_endpoint: bool,
    pub region_coords: Option<[u32; 2]>,
}

/// The entry stage a snapshot shows.
pub open spec fn stage_of(s: &LiveVisualSnapshot) -> WorldEntryStage {
    if s.logged_in && s.handshake_agent_movement_complete {
        WorldEntryStage::EnteredFirstRegion
    } else if s.logged_in {
        WorldEntryStage::Connected
    } else {
        WorldEntryStage::Offline
    }
}

/// The first region's coordinates, when both are known.
pub open spec fn coords_of(s: &LiveVisualSnapshot) -> Option<[u32; 2]> {
    match (s.first_sim_region_x, s.first_sim_region_y) {
        (Some(x), Some(y)) => Some([x, y]),
        _ => None,
    }
}

pub open spec fn presence_of(snapshot: Option<&LiveVisualSnapshot>) -> FirstRegionPresence {
    match snapshot {
        Some(s) => FirstRegionPresence {
            stage: stage_of(s),
            has_sim_endpoint: s.first_sim_endpoint is Some,
            region_coords: coords_of(s),
        },
        None => FirstRegionPresence {
            stage: WorldEntryStage::Offline,
            has_sim_endpoint: false,
            region_coords: None,
        },
    }
}

fn stage_exec(s: &LiveVisualSnapshot) -> (r: WorldEntryStage)
    ensures
        r == stage_of(s),
{
    if s.logged_in && s.handshake_agent_movement_complete {
        WorldEntryStage::EnteredFirstRegion
    } else if s.logged_in {
        WorldEntryStage::Connected
    } else {
        WorldEntryStage::Offline
    }
}

fn coords_exec(s: &LiveVisualSnapshot) -> (r: Option<[u32; 2]>)
    ensures
        r == coords_of(s),
{
    match (s.first_sim_region_x, s.first_sim_region_y) {
        (Some(x), Some(y)) => Some([x, y]),
        _ => None,
    }
}

impl FirstRegionPresence {
    pub fn from_live_snapshot(snapshot: Option<&LiveVisualSnapshot>) -> (r: Self)
        ensures
            r == presence_of(snapshot),
    {
        match snapshot {
            Some(state) => FirstRegionPresence {
                stage: stage_exec(state),
                has_sim_endpoint: state.first_sim_endpoint.is_some(),
                region_coords: coords_exec(state),
            },
            None => FirstRegionPresence {
                stage: WorldEntryStage::Offline,
                has_sim_endpoint: false,
                region_coords: None,
            },
        }
    }
}

#[derive(Debug, Clone, Copy, PartialEq, Eq, Structural)]
pub struct WorldTrafficSummary {
    pub available: bool,
    pub likely_broader: u32,
    pub unknown: u32,
    pub region_control: u32,
}

#[derive(Debug, Clone, Copy, PartialEq, Eq)]
pub struct WorldDiagnosticSlice {
    pub presence: FirstRegionPresence,
    pub traffic: WorldTrafficSummary,
}

pub open spec fn traffic_of(snapshot: Option<&LiveVisualSnapshot>) -> WorldTrafficSummary {
    match snapshot {
        Some(s) => WorldTrafficSummary {
            available: s.traffic_summary_available,
            likely_broader: s.likely_broader_traffic,
            unknown: s.unknown,
            region_control: s.region_transition_control_observations,
        },
        None => WorldTrafficSummary {
            available: false,
            likely_broader: 0,
            unknown: 0,
            region_control: 0,
        },
    }
}

impl WorldDiagnosticSlice {
    pub fn from_live_snapshot(snapshot: Option<&LiveVisualSnapshot>) -> (r: Self)
        ensures
            r.presence == presence_of(snapshot),
            r.traffic == traffic_of(snapshot),
    {
        let presence = FirstRegionPresence::from_live_snapshot(snapshot);
        let traffic = match snapshot {
            Some(state) => WorldTrafficSummary {
                available: state.traffic_summary_available,
                likely_broader: state.likely_broader_traffic,
                unknown: state.unknown,
                region_control: state.region_transition_control_observations,
            },
            None => WorldTrafficSummary {
                available: false,
                likely_broader: 0,
                unknown: 0,
                region_control: 0,
            },
        };
        WorldDiagnosticSlice { presence, traffic }
    }
}

#[derive(Debug, Clone, Copy, PartialEq, Eq, Structural)]
pub enum WorldObjectIngestionLane {
    FirstRegionPresenceProxy,
    TrafficSignalPayload,
    DecodedSimulatorEndpointPayload,
    DecodedCoarseLocationPayload,
}

/// One proxy object that the world view places for the session's state.
#[derive(Debug, Clone, Copy, PartialEq, Eq)]
pub struct WorldObjectIngestionItem {
    pub lane: WorldObjectIngestionLane,
    pub stage: WorldEntryStage,
    pub region_coords: Option<[u32; 2]>,
    pub simulator_target_present: bool,
    pub traffic_broader_count: u32,
    pub traffic_unknown_count: u32,
    pub traffic_region_control_count: u32,
    pub decoded_endpoint_port: Option<u16>,
    pub decoded_endpoint_host_tail: Option<u8>,
    pub decoded_coarse_location_count: Option<u8>,
    pub decoded_coarse_first_xyz: Option<[u8; 3]>,
}

/// The proxy objects derived from one snapshot.
#[derive(Debug, Clone, PartialEq, Eq)]
pub struct WorldObjectIngestionSeam {
    pub items: Vec<WorldObjectIngestionItem>,
}

impl Default for WorldObjectIngestionSeam {
    fn default() -> (r: Self)
        ensures
            r.items@.len() == 0,
    {
        WorldObjectIngestionSeam { items: Vec::new() }
    }
}

/// An item of `lane` with every count and decoded value empty.
pub open spec fn blank_item(
    lane: WorldObjectIngestionLane,
    stage: WorldEntryStage,
    region_coords: Option<[u32; 2]>,
) -> WorldObjectIngestionItem {
    WorldObjectIngestionItem {
        lane,
        stage,
        region_coords,
        simulator_target_present: false,
        traffic_broader_count: 0,
        traffic_unknown_count: 0,
        traffic_region_control_count: 0,
        decoded_endpoint_port: None,
        decoded_endpoint_host_tail: None,
        decoded_coarse_location_count: None,
        decoded_coarse_first_xyz: None,
    }
}

/// The items a diagnostic slice yields: none offline; otherwise the presence
/// proxy, then the traffic payload when a traffic summary is available.
pub open spec fn slice_items(slice: WorldDiagnosticSlice) -> Seq<WorldObjectIngestionItem> {
    if slice.presence.stage == WorldEntryStage::Offline {
        seq![]
    } else {
        let proxy = WorldObjectIngestionItem {
            simulator_target_present: slice.presence.has_sim_endpoint,
            ..blank_item(
                WorldObjectIngestionLane::FirstRegionPresenceProxy,
                slice.presence.stage,
                slice.presence.region_coords,
            )
        };
        if slice.traffic.available {
            seq![
                proxy,
                WorldObjectIngestionItem {
                    traffic_broader_count: slice.traffic.likely_broader,
                    traffic_unknown_count: slice.traffic.unknown,
                    traffic_region_control_count: slice.traffic.region_control,
                    ..blank_item(
                        WorldObjectIngestionLane::TrafficSignalPayload,
                        slice.presence.stage,
                        slice.presence.region_coords,
                    )
                },
            ]
        } else {
            seq![proxy]
        }
    }
}

/// The index of the last `c` in `s`.
pub open spec fn rfind(s: Seq<char>, c: char) -> Option<int>
    decreases s.len(),
{
    if s.len() == 0 {
        None
    } else if s.last() == c {
        Some(s.len() - 1)
    } else {
        rfind(s.drop_last(), c)
    }
}

/// The port and the last host octet of a `host:port` endpoint: the port after
/// the last `:` read as a `u16`, and the text after the host's last `.` (the
/// whole host when it has none) read as a `u8`.
pub open spec fn endpoint_parts(e: Seq<char>) -> Option<(u16, u8)> {
    match rfind(e, ':') {
        None => None,
        Some(i) => {
            let host = e.take(i);
            let tail = match rfind(host, '.') {
                Some(j) => host.skip(j + 1),
                None => host,
            };
            match (parse_unsigned(e.skip(i + 1), 65535), parse_unsigned(tail, 255)) {
                (Some(p), Some(t)) => Some((p as u16, t as u8)),
                _ => None,
            }
        },
    }
}

/// The characters of the snapshot's endpoint, if it has one.
pub open spec fn endpoint_of(snapshot: Option<&LiveVisualSnapshot>) -> Option<Seq<char>> {
    match snapshot {
        Some(s) => match s.first_sim_endpoint {
            Some(e) => Some(e@),
            None => None,
        },
        None => None,
    }
}

/// The decoded endpoint payload item, when the endpoint decodes.
pub open spec fn endpoint_items(snapshot: Option<&LiveVisualSnapshot>) -> Seq<
    WorldObjectIngestionItem,
> {
    match (snapshot, endpoint_of(snapshot)) {
        (Some(s), Some(e)) => match endpoint_parts(e) {
            Some((port, tail)) => seq![
                WorldObjectIngestionItem {
                    simulator_target_present: true,
                    decoded_endpoint_port: Some(port),
                    decoded_endpoint_host_tail: Some(tail),
                    ..blank_item(
                        WorldObjectIngestionLane::DecodedSimulatorEndpointPayload,
                        stage_of(s),
                        coords_of(s),
                    )
                },
            ],
            None => seq![],
        },
        _ => seq![],
    }
}

/// The first coarse location, when all three of its coordinates are known.
pub open spec fn first_xyz_of(s: &LiveVisualSnapshot) -> Option<[u8; 3]> {
    match (s.decoded_coarse_first_x, s.decoded_coarse_first_y, s.decoded_coarse_first_z) {
        (Some(x), Some(y), Some(z)) => Some([x, y, z]),
        _ => None,
    }
}

/// The decoded coarse-location payload item, when a location count was decoded.
pub open spec fn coarse_items(snapshot: Option<&LiveVisualSnapshot>) -> Seq<
    WorldObjectIngestionItem,
> {
    match snapshot {
        Some(s) => match s.decoded_coarse_location_count {
            Some(n) => seq![
                WorldObjectIngestionItem {
                    decoded_coarse_location_count: Some(n),
                    decoded_coarse_first_xyz: first_xyz_of(s),
                    ..blank_item(
                        WorldObjectIngestionLane::DecodedCoarseLocationPayload,
                        stage_of(s),
                        coords_of(s),
                    )
                },
            ],
            None => seq![],
        },
        None => seq![],
    }
}

/// All items of a snapshot, in order: the slice's, then the endpoint payload,
/// then the coarse-location payload.
pub open spec fn seam_items(snapshot: Option<&LiveVisualSnapshot>) -> Seq<
    WorldObjectIngestionItem,
> {
    slice_items(
        WorldDiagnosticSlice { presence: presence_of(snapshot), traffic: traffic_of(snapshot) },
    ) + endpoint_items(snapshot) + coarse_items(snapshot)
}

fn rfind_exec(s: &[char], c: char) -> (r: Option<usize>)
    ensures
        r matches Some(i) ==> i < s@.len(),
        match r {
            Some(i) => rfind(s@, c) == Some(i as int),
            None => rfind(s@, c) is None,
        },
{
    let mut k: usize = s.len();
    assert(s@.take(k as int) =~= s@);
    while k > 0
        invariant
            k <= s@.len(),
            rfind(s@, c) == rfind(s@.take(k as int), c),
        decreases k,
    {
        if s[k - 1] == c {
            return Some(k - 1);
        }
        assert(s@.take(k as int).drop_last() =~= s@.take(k - 1));
        k -= 1;
    }
    None
}

/// Decodes the port and the last host octet of a simulator endpoint.
pub fn decode_simulator_endpoint(endpoint: Option<&str>) -> (r: Option<(u16, u8)>)
    ensures
        r == match endpoint {
            Some(e) => endpoint_parts(e@),
            None => None,
        },
{
    let e = match endpoint {
        Some(e) => e,
        None => return None,
    };
    let s = chars_of(e);
    let i = match rfind_exec(s.as_slice(), ':') {
        Some(i) => i,
        None => return None,
    };
    let n = s.len();
    let mut host: Vec<char> = Vec::new();
    let mut k: usize = 0;
    while k < i
        invariant
            i < n == s@.len(),
            k <= i,
            host@ == s@.take(k as int),
        decreases i - k,
    {
        host.push(s[k]);
        assert(s@.take(k + 1) =~= s@.take(k as int).push(s@[k as int]));
        k += 1;
    }
    let mut port_text: Vec<char> = Vec::new();
    let mut k: usize = i + 1;
    while k < n
        invariant
            i < n == s@.len(),
            i + 1 <= k <= n,
            port_text@ == s@.subrange(i + 1, k as int),
        decreases n - k,
    {
        port_text.push(s[k]);
        assert(s@.subrange(i + 1, k + 1) =~= s@.subrange(i + 1, k as int).push(s@[k as int]));
        k += 1;
    }
    assert(port_text@ =~= s@.skip(i + 1));
    let port = match parse_unsigned_exec(port_text.as_slice(), 65535) {
        Some(p) => p,
        None => return None,
    };
    let hn = host.len();
    let start: usize = match rfind_exec(host.as_slice(), '.') {
        Some(j) => j + 1,
        None => 0,
    };
    let mut tail: Vec<char> = Vec::new();
    let mut k: usize = start;
    while k < hn
        invariant
            hn == host@.len(),
            start <= k <= hn,
            tail@ == host@.subrange(start as int, k as int),
        decreases hn - k,
    {
        tail.push(host[k]);
        assert(host@.subrange(start as int, k + 1) =~= host@.subrange(start as int, k as int).push(
            host@[k as int],
        ));
        k += 1;
    }
    assert(tail@ =~= host@.skip(start as int));
    assert(host@.skip(0) =~= host@);
    let t = match parse_unsigned_exec(tail.as_slice(), 255) {
        Some(t) => t,
        None => return None,
    };
    Some((port as u16, t as u8))
}

impl WorldObjectIngestionSeam {
    pub fn from_diagnostic_slice(slice: WorldDiagnosticSlice) -> (r: Self)
        ensures
            r.items@ == slice_items(slice),
    {
        if slice.presence.stage == WorldEntryStage::Offline {
            let r = WorldObjectIngestionSeam { items: Vec::new() };
            assert(r.items@ =~= slice_items(slice));
            return r;
        }
        let mut items: Vec<WorldObjectIngestionItem> = Vec::new();
        items.push(
            WorldObjectIngestionItem {
                lane: WorldObjectIngestionLane::FirstRegionPresenceProxy,
                stage: slice.presence.stage,
                region_coords: slice.presence.region_coords,
                simulator_target_present: slice.presence.has_sim_endpoint,
                traffic_broader_count: 0,
                traffic_unknown_count: 0,
                traffic_region_control_count: 0,
                decoded_endpoint_port: None,
                decoded_endpoint_host_tail: None,
                decoded_coarse_location_count: None,
                decoded_coarse_first_xyz: None,
            },
        );
        if slice.traffic.available {
            items.push(
                WorldObjectIngestionItem {
                    lane: WorldObjectIngestionLane::TrafficSignalPayload,
                    stage: slice.presence.stage,
                    region_coords: slice.presence.region_coords,
                    simulator_target_present: false,
                    traffic_broader_count: slice.traffic.likely_broader,
                    traffic_unknown_count: slice.traffic.unknown,
                    traffic_region_control_count: slice.traffic.region_control,
                    decoded_endpoint_port: None,
                    decoded_endpoint_host_tail: None,
                    decoded_coarse_location_count: None,
                    decoded_coarse_first_xyz: None,
                },
            );
        }
        assert(items@ =~= slice_items(slice));
        WorldObjectIngestionSeam { items }
    }

    pub fn from_live_snapshot(snapshot: Option<&LiveVisualSnapshot>) -> (r: Self)
        ensures
            r.items@ == seam_items(snapshot),
    {
        let mut seam = Self::from_diagnostic_slice(
            WorldDiagnosticSlice::from_live_snapshot(snapshot),
        );
        let ghost base = seam.items@;
        let endpoint: Option<&str> = match snapshot {
            Some(s) => match &s.first_sim_endpoint {
                Some(e) => Some(e.as_str()),
                None => None,
            },
            None => None,
        };
        match (snapshot, decode_simulator_endpoint(endpoint)) {
            (Some(s), Some((port, tail))) => {
                seam.items.push(
                    WorldObjectIngestionItem {
                        lane: WorldObjectIngestionLane::DecodedSimulatorEndpointPayload,
                        stage: stage_exec(s),
                        region_coords: coords_exec(s),
                        simulator_target_present: true,
                        traffic_broader_count: 0,
                        traffic_unknown_count: 0,
                        traffic_region_control_count: 0,
                        decoded_endpoint_port: Some(port),
                        decoded_endpoint_host_tail: Some(tail),
                        decoded_coarse_location_count: None,
                        decoded_coarse_first_xyz: None,
                    },
                );
            },
            _ => {},
        }
        assert(seam.items@ =~= base + endpoint_items(snapshot));
        let ghost mid = seam.items@;
        match snapshot {
            Some(s) => match s.decoded_coarse_location_count {
                Some(n) => {
                    let first_xyz = match (
                        s.decoded_coarse_first_x,
                        s.decoded_coarse_first_y,
                        s.decoded_coarse_first_z,
                    ) {
                        (Some(x), Some(y), Some(z)) => Some([x, y, z]),
                        _ => None,
                    };
                    seam.items.push(
                        WorldObjectIngestionItem {
                            lane: WorldObjectIngestionLane::DecodedCoarseLocationPayload,
                            stage: stage_exec(s),
                            region_coords: coords_exec(s),
                            simulator_target_present: false,
                            traffic_broader_count: 0,
                            traffic_unknown_count: 0,
                            traffic_region_control_count: 0,
                            decoded_endpoint_port: None,
                            decoded_endpoint_host_tail: None,
                            decoded_coarse_location_count: Some(n),
                            decoded_coarse_first_xyz: first_xyz,
                        },
                    );
                },
                None => {},
            },
            None => {},
        }
        assert(seam.items@ =~= mid + coarse_items(snapshot));
        seam
    }
}

/// Adapts a live snapshot to the ingestion seam that the scene consumes.
#[derive(Debug, Clone, Copy)]
pub struct WorldObjectIngestionAdapter;

impl WorldObjectIngestionAdapter {
    pub fn adapt(snapshot: Option<&LiveVisualSnapshot>) -> (r: WorldObjectIngestionSeam)
        ensures
            r.items@ == seam_items(snapshot),
    {
        WorldObjectIngestionSeam::from_live_snapshot(snapshot)
    }
}

#[derive(Debug, Clone, Copy, PartialEq, Eq, Structural)]
pub enum TransitionVisualCue {
    Healthy,
    Degraded,
    Stalled,
    Recovering,
}

/// The cue shown for a region transition, with its intensity in hundredths (0 to 100).
#[derive(Debug, Clone, Copy, PartialEq, Eq, Structural)]
pub struct TransitionVisualState {
    pub cue: TransitionVisualCue,
    pub intensity: u8,
}

impl Default for TransitionVisualState {
    fn default() -> (r: Self)
        ensures
            r.cue == TransitionVisualCue::Healthy,
            r.intensity == 0,
    {
        TransitionVisualState { cue: TransitionVisualCue::Healthy, intensity: 0 }
    }
}

impl TransitionVisualState {
    /// The state with its intensity clamped to at most 100.
    pub fn sanitized(self) -> (r: Self)
        ensures
            r.cue == self.cue,
            r.intensity == (if self.intensity > 100 {
                100
            } else {
                self.intensity
            }),
    {
        TransitionVisualState {
            cue: self.cue,
            intensity: if self.intensity > 100 {
                100
            } else {
                self.intensity
            },
        }
    }
}

/// Whether a snapshot records a successful probe no older than the probe cooldown.
pub open spec fn recent_probe_success(s: &LiveVisualSnapshot) -> bool {
    s.continuity.last_probe_result == Some(ProbeResultCode::Success) && match s.continuity.last_probe_time_unix_ms {
        Some(t) => sat_sub(s.observed_at_unix_ms, t) <= RECOVERY_PROBE_COOLDOWN_MS,
        None => false,
    }
}

/// The transition cue for a snapshot: `Healthy` (0) without one and for a
/// normal outcome; for a degraded or stalled outcome `Recovering` after a
/// recent probe success (60 after a degraded handoff, 50 after a stalled
/// one), else `Degraded` (60) or `Stalled` (90).
pub open spec fn transition_cue(snapshot: Option<&LiveVisualSnapshot>) -> TransitionVisualState {
    match snapshot {
        None => TransitionVisualState { cue: TransitionVisualCue::Healthy, intensity: 0 },
        Some(s) => match s.continuity.outcome {
            HandoffOutcome::Normal => TransitionVisualState {
                cue: TransitionVisualCue::Healthy,
                intensity: 0,
            },
            HandoffOutcome::Degraded => if recent_probe_success(s) {
                TransitionVisualState { cue: TransitionVisualCue::Recovering, intensity: 60 }
            } else {
                TransitionVisualState { cue: TransitionVisualCue::Degraded, intensity: 60 }
            },
            HandoffOutcome::Stalled => if recent_probe_success(s) {
                TransitionVisualState { cue: TransitionVisualCue::Recovering, intensity: 50 }
            } else {
                TransitionVisualState { cue: TransitionVisualCue::Stalled, intensity: 90 }
            },
        },
    }
}

/// Derives the transition cue from the current continuity snapshot.
pub fn derive_transition_visual_cue(snapshot: Option<&LiveVisualSnapshot>) -> (r:
    TransitionVisualState)
    ensures
        r == transition_cue(snapshot),
{
    let s = match snapshot {
        Some(s) => s,
        None => return TransitionVisualState::default(),
    };
    let recent = match (s.continuity.last_probe_result, s.continuity.last_probe_time_unix_ms) {
        (Some(ProbeResultCode::Success), Some(t)) => s.observed_at_unix_ms.saturating_sub(t)
            <= RECOVERY_PROBE_COOLDOWN_MS,
        _ => false,
    };
    let state = match s.continuity.outcome {
        HandoffOutcome::Normal => TransitionVisualState {
            cue: TransitionVisualCue::Healthy,
            intensity: 0,
        },
        HandoffOutcome::Degraded => {
            if recent {
                TransitionVisualState { cue: TransitionVisualCue::Recovering, intensity: 60 }
            } else {
                TransitionVisualState { cue: TransitionVisualCue::Degraded, intensity: 60 }
            }
        },
        HandoffOutcome::Stalled => {
            if recent {
                TransitionVisualState { cue: TransitionVisualCue::Recovering, intensity: 50 }
            } else {
                TransitionVisualState { cue: TransitionVisualCue::Stalled, intensity: 90 }
            }
        },
    };
    state.sanitized()
}

/// Milliseconds since the Unix epoch by the system clock (`SystemTime::now`);
/// nothing is stated of the value, which is 0 when the clock is before the epoch.
#[verifier::external_body]
pub(crate) fn now_unix_ms() -> u64 {
    std::time::SystemTime::now().duration_since(std::time::UNIX_EPOCH).map(
        |d| d.as_millis() as u64,
    ).unwrap_or(0)
}

/// A snapshot with no traffic, no decoded updates and no region handoff yet.
pub open spec fn quiet_snapshot(r: LiveVisualSnapshot) -> bool {
    &&& !r.handshake_agent_movement_complete
    &&& !r.traffic_summary_available
    &&& r.post_boundary_observations == 0
    &&& r.region_transition_control_observations == 0
    &&& r.crossed_region == 0
    &&& r.confirm_enable_simulator == 0
    &&& r.likely_broader_traffic == 0
    &&& r.unknown == 0
    &&& r.decoded_coarse_updates == 0
    &&& r.decoded_coarse_location_count is None
    &&& r.decoded_coarse_first_x is None
    &&& r.decoded_coarse_first_y is None
    &&& r.decoded_coarse_first_z is None
    &&& r.continuity.phase == HandoffPhase::NoHandoff
    &&& r.continuity.outcome == HandoffOutcome::Normal
    &&& r.continuity.phase_age_ms == 0
    &&& r.continuity.neighbors@.len() == 0
    &&& r.continuity.last_probe_result is None
    &&& r.continuity.last_probe_time_unix_ms is None
    &&& r.continuity.active_region_coords is None
    &&& r.continuity.previous_region_coords is None
}

/// The snapshot shown before the session has reported anything, stamped with `now`.
pub fn offline_snapshot_at(now: u64) -> (r: LiveVisualSnapshot)
    ensures
        r.source@ == "viewer_app_in_process:start"@,
        !r.logged_in,
        r.first_sim_endpoint is None,
        r.first_sim_region_x is None,
        r.first_sim_region_y is None,
        quiet_snapshot(r),
        r.observed_at_unix_ms == now,
{
    LiveVisualSnapshot {
        source: "viewer_app_in_process:start".to_owned(),
        logged_in: false,
        first_sim_endpoint: None,
        first_sim_region_x: None,
        first_sim_region_y: None,
        handshake_agent_movement_complete: false,
        traffic_summary_available: false,
        post_boundary_observations: 0,
        region_transition_control_observations: 0,
        crossed_region: 0,
        confirm_enable_simulator: 0,
        likely_broader_traffic: 0,
        unknown: 0,
        decoded_coarse_updates: 0,
        decoded_coarse_location_count: None,
        decoded_coarse_first_x: None,
        decoded_coarse_first_y: None,
        decoded_coarse_first_z: None,
        continuity: RegionContinuitySummary::default(),
        observed_at_unix_ms: now,
    }
}

/// The offline snapshot stamped with the current time.
pub fn offline_snapshot() -> (r: LiveVisualSnapshot)
    ensures
        !r.logged_in,
        r.first_sim_endpoint is None,
        r.continuity.outcome == HandoffOutcome::Normal,
        r.continuity.phase == HandoffPhase::NoHandoff,
        r.continuity.last_probe_result is None,
        seam_items(Some(&r)).len() == 0,
{
    let r = offline_snapshot_at(now_unix_ms());
    assert(seam_items(Some(&r)) =~= seq![]);
    r
}

/// What a successful grid login reports of the first simulator.
#[derive(Debug, Clone)]
pub struct LoginBootstrapSummary {
    pub sim_ip: String,
    pub sim_port: u16,
    pub region_x: u32,
    pub region_y: u32,
}

/// A simulator's endpoint as text: `ip:port`.
pub open spec fn endpoint_text(ip: Seq<char>, port: u16) -> Seq<char> {
    ip + seq![':'] + dec(port as nat)
}

/// The snapshot after a login attempt, stamped with `now`: logged in with
/// the first simulator's endpoint and region when the login succeeded (its
/// summary given), otherwise as offline; nothing observed yet either way.
pub fn live_snapshot_from_login_at(login: Option<&LoginBootstrapSummary>, now: u64) -> (r:
    LiveVisualSnapshot)
    ensures
        r.source@ == "viewer_app_in_process:login"@,
        r.logged_in == (login is Some),
        quiet_snapshot(r),
        r.observed_at_unix_ms == now,
        match login {
            Some(b) => {
                &&& r.first_sim_endpoint matches Some(e) && e@ == endpoint_text(b.sim_ip@, b.sim_port)
                &&& r.first_sim_region_x == Some(b.region_x)
                &&& r.first_sim_region_y == Some(b.region_y)
            },
            None => {
                &&& r.first_sim_endpoint is None
                &&& r.first_sim_region_x is None
                &&& r.first_sim_region_y is None
            },
        },
{
    let mut snapshot = offline_snapshot_at(now);
    snapshot.source = "viewer_app_in_process:login".to_owned();
    match login {
        Some(b) => {
            let mut text = chars_of(b.sim_ip.as_str());
            text.push(':');
            push_dec(&mut text, b.sim_port as u64);
            snapshot.logged_in = true;
            snapshot.first_sim_endpoint = Some(string_of(text.as_slice()));
            snapshot.first_sim_region_x = Some(b.region_x);
            snapshot.first_sim_region_y = Some(b.region_y);
            assert(text@ =~= endpoint_text(b.sim_ip@, b.sim_port));
        },
        None => {},
    }
    snapshot
}

/// The snapshot after a login attempt, stamped with the current time (see
/// [`live_snapshot_from_login_at`]).
pub fn build_live_visual_snapshot_from_result(login: Option<&LoginBootstrapSummary>) -> (r:
    LiveVisualSnapshot)
    ensures
        r.source@ == "viewer_app_in_process:login"@,
        r.logged_in == (login is Some),
        quiet_snapshot(r),
        match login {
            Some(b) => {
                &&& r.first_sim_endpoint matches Some(e) && e@ == endpoint_text(b.sim_ip@, b.sim_port)
                &&& r.first_sim_region_x == Some(b.region_x)
                &&& r.first_sim_region_y == Some(b.region_y)
            },
            None => {
                &&& r.first_sim_endpoint is None
                &&& r.first_sim_region_x is None
                &&& r.first_sim_region_y is None
            },
        },
{
    live_snapshot_from_login_at(login, now_unix_ms())
}

/// The host's text after its last `.` (all of it when it has none).
pub open spec fn host_tail(host: Seq<char>) -> Seq<char> {
    match rfind(host, '.') {
        Some(j) => host.skip(j + 1),
        None => host,
    }
}

proof fn lemma_rfind_append(s: Seq<char>, t: Seq<char>, c: char)
    requires
        forall|i: int| 0 <= i < t.len() ==> t[i] != c,
    ensures
        rfind(s + t, c) == rfind(s, c),
    decreases t.len(),
{
    if t.len() > 0 {
        assert((s + t).last() == t.last());
        assert((s + t).drop_last() =~= s + t.drop_last());
        lemma_rfind_append(s, t.drop_last(), c);
    } else {
        assert(s + t =~= s);
    }
}

/// A login's endpoint text decodes back to its port, and to the last octet
/// of its host when that reads as a byte.
pub proof fn lemma_endpoint_text_decodes(ip: Seq<char>, port: u16)
    ensures
        endpoint_parts(endpoint_text(ip, port)) == match parse_unsigned(host_tail(ip), 255) {
            Some(t) => Some((port, t as u8)),
            None => None::<(u16, u8)>,
        },
{
    let e = endpoint_text(ip, port);
    let d = dec(port as nat);
    lemma_dec_digits(port as nat);
    lemma_parse_dec(port as nat, 65535);
    assert forall|i: int| 0 <= i < d.len() implies d[i] != ':' by {
        assert(is_digit(d[i]));
    }
    lemma_rfind_append(ip + seq![':'], d, ':');
    assert((ip + seq![':']).last() == ':');
    assert(rfind(ip + seq![':'], ':') == Some(ip.len() as int));
    assert(e.take(ip.len() as int) =~= ip);
    assert(e.skip(ip.len() as int + 1) =~= d);
}

fn opt_pair_eq(a: Option<[u32; 2]>, b: Option<[u32; 2]>) -> (r: bool)
    ensures
        r == (a == b),
{
    match (a, b) {
        (Some(x), Some(y)) => {
            let r = x[0] == y[0] && x[1] == y[1];
            proof {
                if r {
                    assert(x@ =~= y@);
                    assert(x == y);
                } else if x[0] != y[0] {
                    assert(x@[0] != y@[0]);
                } else {
                    assert(x@[1] != y@[1]);
                }
            }
            r
        },
        (None, None) => true,
        _ => false,
    }
}

fn opt_triple_eq(a: Option<[u8; 3]>, b: Option<[u8; 3]>) -> (r: bool)
    ensures
        r == (a == b),
{
    match (a, b) {
        (Some(x), Some(y)) => {
            let r = x[0] == y[0] && x[1] == y[1] && x[2] == y[2];
            proof {
                if r {
                    assert(x@ =~= y@);
                    assert(x == y);
                } else if x[0] != y[0] {
                    assert(x@[0] != y@[0]);
                } else if x[1] != y[1] {
                    assert(x@[1] != y@[1]);
                } else {
                    assert(x@[2] != y@[2]);
                }
            }
            r
        },
        (None, None) => true,
        _ => false,
    }
}

fn item_eq(a: &WorldObjectIngestionItem, b: &WorldObjectIngestionItem) -> (r: bool)
    ensures
        r == (*a == *b),
{
    a.lane == b.lane && a.stage == b.stage && opt_pair_eq(a.region_coords, b.region_coords)
        && a.simulator_target_present == b.simulator_target_present && a.traffic_broader_count
        == b.traffic_broader_count && a.traffic_unknown_count == b.traffic_unknown_count
        && a.traffic_region_control_count == b.traffic_region_control_count
        && a.decoded_endpoint_port == b.decoded_endpoint_port && a.decoded_endpoint_host_tail
        == b.decoded_endpoint_host_tail && a.decoded_coarse_location_count
        == b.decoded_coarse_location_count && opt_triple_eq(
        a.decoded_coarse_first_xyz,
        b.decoded_coarse_first_xyz,
    )
}

/// Whether a new seam should replace the one applied before: when there was
/// none, or when their items differ.
pub fn should_apply_world_ingestion_seam(
    previous: Option<&WorldObjectIngestionSeam>,
    next: &WorldObjectIngestionSeam,
) -> (r: bool)
    ensures
        r == match previous {
            Some(p) => p.items@ != next.items@,
            None => true,
        },
{
    let prev = match previous {
        Some(p) => p,
        None => return true,
    };
    if prev.items.len() != next.items.len() {
        return true;
    }
    let mut i: usize = 0;
    while i < prev.items.len()
        invariant
            previous == Some(prev),
            prev.items@.len() == next.items@.len(),
            i <= prev.items@.len(),
            forall|j: int| 0 <= j < i ==> prev.items@[j] == next.items@[j],
        decreases prev.items@.len() - i,
    {
        if !item_eq(&prev.items[i], &next.items[i]) {
            assert(prev.items@[i as int] != next.items@[i as int]);
            return true;
        }
        i += 1;
    }
    assert(prev.items@ =~= next.items@);
    false
}

} // verus!
