//! The live session's configuration from `VIEWER_*` settings: the login
//! endpoint and credentials (required), the wire format, the start location,
//! and the timings and packet budgets of the first-simulator and polling
//! loops, each with its default and bounds; and the start-up plan that
//! follows from it and the live start-up mode.
use vstd::prelude::*;
use crate::numtext::{parse_unsigned, parse_unsigned_exec};
use crate::start_location::{
    parse_start_location, start_location_of, IntentView, StartLocation, StartLocationIntent,
};
use crate::startup::{
    bool_like, folded, folded_exec, opt_string, parse_bool_like, parse_live_startup_mode,
    startup_mode_of,
    LiveStartupFailure, LiveStartupFailureClass, LiveStartupMode, LiveStartupStatus,
};
use crate::text::{chars_of, eq_str, string_of, trim, trimmed};

verus! {

/// How the login request is encoded.
#[derive(Debug, Clone, Copy, PartialEq, Eq, Structural)]
pub enum LoginWireFormat {
    Llsd,
    Json,
    XmlRpc,
}

/// The wire format a setting names: `json`, `xmlrpc` or `xml-rpc` (trimmed,
/// in any case), else LLSD.
pub open spec fn wire_format_of(value: Seq<char>) -> LoginWireFormat {
    let f = folded(value);
    if f == "json"@ {
        LoginWireFormat::Json
    } else if f == "xmlrpc"@ || f == "xml-rpc"@ {
        LoginWireFormat::XmlRpc
    } else {
        LoginWireFormat::Llsd
    }
}

/// The wire format a setting names (see [`wire_format_of`]).
pub fn parse_wire_format(value: &str) -> (r: LoginWireFormat)
    ensures
        r == wire_format_of(value@),
{
    let f = folded_exec(value);
    if eq_str(f.as_slice(), "json") {
        LoginWireFormat::Json
    } else if eq_str(f.as_slice(), "xmlrpc") || eq_str(f.as_slice(), "xml-rpc") {
        LoginWireFormat::XmlRpc
    } else {
        LoginWireFormat::Llsd
    }
}

/// The live session's configuration.
#[derive(Debug, Clone, PartialEq, Eq)]
pub struct InProcessLiveFeedConfig {
    pub endpoint: String,
    pub username: String,
    pub password: String,
    pub connect_timeout_secs: u64,
    pub wire_format: LoginWireFormat,
    pub start_location: StartLocationIntent,
    pub agree_to_tos: bool,
    pub read_critical: bool,
    pub mfa_token: Option<String>,
    pub receive_bind: String,
    pub receive_timeout_secs: u64,
    pub receive_max_packets: usize,
    pub post_movement_tail_packets: usize,
    pub post_movement_timeout_secs: Option<u64>,
    pub stop_on_region_control: bool,
    pub auto_teleport_slurl: Option<String>,
    pub auto_teleport_delay_ticks: u32,
    pub run_probe: bool,
    pub worker_tick_ms: u64,
    pub event_queue_poll_timeout_ms: u64,
    pub event_queue_poll_every_ticks: u32,
    pub event_queue_failures_before_reconnect: u32,
    pub social_poll_timeout_ms: u64,
    pub social_poll_max_packets: usize,
    pub nearby_poll_timeout_ms: u64,
    pub nearby_poll_max_packets: usize,
    pub nearby_send_receive_timeout_ms: u64,
    pub nearby_send_receive_packets: usize,
    pub profile_cache_ttl_secs: u64,
    pub asset_live_timeout_ms: u64,
}

/// The raw settings, one per `VIEWER_*` key, as they were looked up.
#[derive(Debug, Clone)]
pub struct LiveFeedSettings {
    pub endpoint: Option<String>,
    pub username: Option<String>,
    pub password: Option<String>,
    pub timeout_secs: Option<String>,
    pub wire_format: Option<String>,
    pub start: Option<String>,
    pub agree_tos: Option<String>,
    pub read_critical: Option<String>,
    pub mfa_token: Option<String>,
    pub receive_bind: Option<String>,
    pub receive_timeout_secs: Option<String>,
    pub receive_max_packets: Option<String>,
    pub post_movement_tail_packets: Option<String>,
    pub post_movement_timeout_secs: Option<String>,
    pub stop_on_region_control: Option<String>,
    pub auto_teleport_slurl: Option<String>,
    pub auto_teleport_delay_ticks: Option<String>,
    pub in_process_probe: Option<String>,
    pub worker_tick_ms: Option<String>,
    pub event_queue_poll_timeout_ms: Option<String>,
    pub event_queue_poll_every_ticks: Option<String>,
    pub event_queue_failures_before_reconnect: Option<String>,
    pub social_poll_timeout_ms: Option<String>,
    pub social_poll_max_packets: Option<String>,
    pub nearby_poll_timeout_ms: Option<String>,
    pub nearby_poll_max_packets: Option<String>,
    pub nearby_send_receive_timeout_ms: Option<String>,
    pub nearby_send_receive_packets: Option<String>,
    pub profile_cache_ttl_secs: Option<String>,
    pub asset_live_timeout_ms: Option<String>,
}

/// The number a setting reads as (`FromStr` for an unsigned type whose
/// largest value is `max`), or `default` when absent or unreadable.
pub open spec fn number_setting(raw: Option<String>, max: nat, default: nat) -> nat {
    match raw {
        Some(s) => match parse_unsigned(s@, max) {
            Some(n) => n,
            None => default,
        },
        None => default,
    }
}

/// Whether a setting reads as true, or `default` when absent.
pub open spec fn flag_setting(raw: Option<String>, default: bool) -> bool {
    match raw {
        Some(s) => bool_like(s@),
        None => default,
    }
}

pub open spec fn clamp_nat(n: nat, lo: nat, hi: nat) -> nat {
    if n < lo {
        lo
    } else if n > hi {
        hi
    } else {
        n
    }
}

/// Whether the endpoint and both credentials are set.
pub open spec fn has_credentials(s: LiveFeedSettings) -> bool {
    s.endpoint is Some && s.username is Some && s.password is Some
}

/// The configuration that the settings give (with credentials present):
/// each value read with its default and bounds.
pub open spec fn config_matches(c: InProcessLiveFeedConfig, s: LiveFeedSettings) -> bool {
    &&& s.endpoint matches Some(e) && c.endpoint@ == e@
    &&& s.username matches Some(u) && c.username@ == u@
    &&& s.password matches Some(p) && c.password@ == p@
    &&& c.connect_timeout_secs == number_setting(s.timeout_secs, u64::MAX as nat, 15)
    &&& c.wire_format == match s.wire_format {
        Some(w) => wire_format_of(w@),
        None => LoginWireFormat::Llsd,
    }
    &&& c.start_location@ == match s.start {
        Some(v) => match start_location_of(v@) {
            Ok(i) => i,
            Err(_) => IntentView::Uri(v@),
        },
        None => IntentView::Saved(StartLocation::Last),
    }
    &&& c.agree_to_tos == flag_setting(s.agree_tos, false)
    &&& c.read_critical == flag_setting(s.read_critical, true)
    &&& opt_string(c.mfa_token) == opt_string(s.mfa_token)
    &&& c.receive_bind@ == match s.receive_bind {
        Some(b) => b@,
        None => "0.0.0.0:0"@,
    }
    &&& c.receive_timeout_secs == number_setting(s.receive_timeout_secs, u64::MAX as nat, 5)
    &&& c.receive_max_packets == number_setting(s.receive_max_packets, usize::MAX as nat, 8)
    &&& c.post_movement_tail_packets == number_setting(
        s.post_movement_tail_packets,
        usize::MAX as nat,
        4,
    )
    &&& c.post_movement_timeout_secs == match s.post_movement_timeout_secs {
        Some(t) => match parse_unsigned(t@, u64::MAX as nat) {
            Some(n) => Some(n as u64),
            None => None,
        },
        None => None,
    }
    &&& c.stop_on_region_control == flag_setting(s.stop_on_region_control, false)
    &&& opt_string(c.auto_teleport_slurl) == match s.auto_teleport_slurl {
        Some(v) => if trim(v@).len() == 0 {
            None
        } else {
            Some(trim(v@))
        },
        None => None,
    }
    &&& c.auto_teleport_delay_ticks == clamp_nat(
        number_setting(s.auto_teleport_delay_ticks, u32::MAX as nat, 40),
        0,
        10_000,
    )
    &&& c.run_probe == flag_setting(s.in_process_probe, true)
    &&& c.worker_tick_ms == clamp_nat(
        number_setting(s.worker_tick_ms, u64::MAX as nat, 60),
        10,
        u64::MAX as nat,
    )
    &&& c.event_queue_poll_timeout_ms == clamp_nat(
        number_setting(s.event_queue_poll_timeout_ms, u64::MAX as nat, 45_000),
        100,
        u64::MAX as nat,
    )
    &&& c.event_queue_poll_every_ticks == clamp_nat(
        number_setting(s.event_queue_poll_every_ticks, u32::MAX as nat, 10),
        1,
        u32::MAX as nat,
    )
    &&& c.event_queue_failures_before_reconnect == number_setting(
        s.event_queue_failures_before_reconnect,
        u32::MAX as nat,
        0,
    )
    &&& c.social_poll_timeout_ms == clamp_nat(
        number_setting(s.social_poll_timeout_ms, u64::MAX as nat, 35),
        5,
        u64::MAX as nat,
    )
    &&& c.social_poll_max_packets == number_setting(s.social_poll_max_packets, usize::MAX as nat, 4)
    &&& c.nearby_poll_timeout_ms == clamp_nat(
        number_setting(s.nearby_poll_timeout_ms, u64::MAX as nat, 40),
        5,
        u64::MAX as nat,
    )
    &&& c.nearby_poll_max_packets == number_setting(s.nearby_poll_max_packets, usize::MAX as nat, 2)
    &&& c.nearby_send_receive_timeout_ms == clamp_nat(
        number_setting(s.nearby_send_receive_timeout_ms, u64::MAX as nat, 40),
        5,
        u64::MAX as nat,
    )
    &&& c.nearby_send_receive_packets == number_setting(
        s.nearby_send_receive_packets,
        usize::MAX as nat,
        0,
    )
    &&& c.profile_cache_ttl_secs == number_setting(s.profile_cache_ttl_secs, u64::MAX as nat, 120)
    &&& c.asset_live_timeout_ms == clamp_nat(
        number_setting(s.asset_live_timeout_ms, u64::MAX as nat, 10_000),
        250,
        120_000,
    )
}

fn number_u64(raw: &Option<String>, default: u64) -> (r: u64)
    ensures
        r == number_setting(*raw, u64::MAX as nat, default as nat),
{
    match raw {
        Some(s) => {
            let c = chars_of(s.as_str());
            match parse_unsigned_exec(c.as_slice(), u64::MAX) {
                Some(n) => n,
                None => default,
            }
        },
        None => default,
    }
}

fn number_u32(raw: &Option<String>, default: u32) -> (r: u32)
    ensures
        r == number_setting(*raw, u32::MAX as nat, default as nat),
{
    match raw {
        Some(s) => {
            let c = chars_of(s.as_str());
            match parse_unsigned_exec(c.as_slice(), u32::MAX as u64) {
                Some(n) => n as u32,
                None => default,
            }
        },
        None => default,
    }
}

fn number_usize(raw: &Option<String>, default: usize) -> (r: usize)
    ensures
        r == number_setting(*raw, usize::MAX as nat, default as nat),
{
    match raw {
        Some(s) => {
            let c = chars_of(s.as_str());
            match parse_unsigned_exec(c.as_slice(), usize::MAX as u64) {
                Some(n) => n as usize,
                None => default,
            }
        },
        None => default,
    }
}

fn flag(raw: &Option<String>, default: bool) -> (r: bool)
    ensures
        r == flag_setting(*raw, default),
{
    match raw {
        Some(s) => parse_bool_like(s.as_str()),
        None => default,
    }
}

fn copy_text(raw: &Option<String>) -> (r: Option<String>)
    ensures
        opt_string(r) == opt_string(*raw),
{
    match raw {
        Some(s) => Some(s.clone()),
        None => None,
    }
}

/// The configuration from the settings (see [`config_matches`]); `None`
/// when the endpoint, the user name or the password is missing.
pub fn in_process_live_feed_config_from_settings(s: &LiveFeedSettings) -> (r: Option<
    InProcessLiveFeedConfig,
>)
    ensures
        r is Some <==> has_credentials(*s),
        r matches Some(c) ==> config_matches(c, *s),
{
    let endpoint = match &s.endpoint {
        Some(v) => v.clone(),
        None => return None,
    };
    let username = match &s.username {
        Some(v) => v.clone(),
        None => return None,
    };
    let password = match &s.password {
        Some(v) => v.clone(),
        None => return None,
    };
    let wire_format = match &s.wire_format {
        Some(v) => parse_wire_format(v.as_str()),
        None => LoginWireFormat::Llsd,
    };
    let start_location = match &s.start {
        Some(v) => parse_start_location(v.as_str()),
        None => StartLocationIntent::Saved(StartLocation::Last),
    };
    let receive_bind = match &s.receive_bind {
        Some(v) => v.clone(),
        None => "0.0.0.0:0".to_owned(),
    };
    let post_movement_timeout_secs = match &s.post_movement_timeout_secs {
        Some(v) => {
            let c = chars_of(v.as_str());
            parse_unsigned_exec(c.as_slice(), u64::MAX)
        },
        None => None,
    };
    let auto_teleport_slurl = match &s.auto_teleport_slurl {
        Some(v) => {
            let c = chars_of(v.as_str());
            let t = trimmed(c.as_slice());
            if t.len() == 0 {
                None
            } else {
                Some(string_of(t.as_slice()))
            }
        },
        None => None,
    };
    let delay = number_u32(&s.auto_teleport_delay_ticks, 40);
    let worker_tick_ms = number_u64(&s.worker_tick_ms, 60);
    let eq_timeout = number_u64(&s.event_queue_poll_timeout_ms, 45_000);
    let eq_every = number_u32(&s.event_queue_poll_every_ticks, 10);
    let social_timeout = number_u64(&s.social_poll_timeout_ms, 35);
    let nearby_timeout = number_u64(&s.nearby_poll_timeout_ms, 40);
    let nearby_sr_timeout = number_u64(&s.nearby_send_receive_timeout_ms, 40);
    let asset_timeout = number_u64(&s.asset_live_timeout_ms, 10_000);
    let c = InProcessLiveFeedConfig {
        endpoint,
        username,
        password,
        connect_timeout_secs: number_u64(&s.timeout_secs, 15),
        wire_format,
        start_location,
        agree_to_tos: flag(&s.agree_tos, false),
        read_critical: flag(&s.read_critical, true),
        mfa_token: copy_text(&s.mfa_token),
        receive_bind,
        receive_timeout_secs: number_u64(&s.receive_timeout_secs, 5),
        receive_max_packets: number_usize(&s.receive_max_packets, 8),
        post_movement_tail_packets: number_usize(&s.post_movement_tail_packets, 4),
        post_movement_timeout_secs,
        stop_on_region_control: flag(&s.stop_on_region_control, false),
        auto_teleport_slurl,
        auto_teleport_delay_ticks: if delay > 10_000 {
            10_000
        } else {
            delay
        },
        run_probe: flag(&s.in_process_probe, true),
        worker_tick_ms: if worker_tick_ms < 10 {
            10
        } else {
            worker_tick_ms
        },
        event_queue_poll_timeout_ms: if eq_timeout < 100 {
            100
        } else {
            eq_timeout
        },
        event_queue_poll_every_ticks: if eq_every < 1 {
            1
        } else {
            eq_every
        },
        event_queue_failures_before_reconnect: number_u32(
            &s.event_queue_failures_before_reconnect,
            0,
        ),
        social_poll_timeout_ms: if social_timeout < 5 {
            5
        } else {
            social_timeout
        },
        social_poll_max_packets: number_usize(&s.social_poll_max_packets, 4),
        nearby_poll_timeout_ms: if nearby_timeout < 5 {
            5
        } else {
            nearby_timeout
        },
        nearby_poll_max_packets: number_usize(&s.nearby_poll_max_packets, 2),
        nearby_send_receive_timeout_ms: if nearby_sr_timeout < 5 {
            5
        } else {
            nearby_sr_timeout
        },
        nearby_send_receive_packets: number_usize(&s.nearby_send_receive_packets, 0),
        profile_cache_ttl_secs: number_u64(&s.profile_cache_ttl_secs, 120),
        asset_live_timeout_ms: if asset_timeout < 250 {
            250
        } else if asset_timeout > 120_000 {
            120_000
        } else {
            asset_timeout
        },
    };
    Some(c)
}

/// Whether `s` holds what `lookup` gives for each key.
pub open spec fn settings_looked_up<F: Fn(&str) -> Option<String>>(lookup: F, s: LiveFeedSettings) -> bool {
    &&& lookup.ensures(("VIEWER_LOGIN_ENDPOINT",), s.endpoint)
    &&& lookup.ensures(("VIEWER_LOGIN_USERNAME",), s.username)
    &&& lookup.ensures(("VIEWER_LOGIN_PASSWORD",), s.password)
    &&& lookup.ensures(("VIEWER_LOGIN_TIMEOUT_SECS",), s.timeout_secs)
    &&& lookup.ensures(("VIEWER_LOGIN_WIRE_FORMAT",), s.wire_format)
    &&& lookup.ensures(("VIEWER_LOGIN_START",), s.start)
    &&& lookup.ensures(("VIEWER_LOGIN_AGREE_TOS",), s.agree_tos)
    &&& lookup.ensures(("VIEWER_LOGIN_READ_CRITICAL",), s.read_critical)
    &&& lookup.ensures(("VIEWER_LOGIN_MFA_TOKEN",), s.mfa_token)
    &&& lookup.ensures(("VIEWER_FIRST_SIM_RECEIVE_BIND",), s.receive_bind)
    &&& lookup.ensures(("VIEWER_FIRST_SIM_RECEIVE_TIMEOUT_SECS",), s.receive_timeout_secs)
    &&& lookup.ensures(("VIEWER_FIRST_SIM_RECEIVE_MAX_PACKETS",), s.receive_max_packets)
    &&& lookup.ensures(("VIEWER_FIRST_SIM_POST_MOVEMENT_TAIL_PACKETS",), s.post_movement_tail_packets)
    &&& lookup.ensures(("VIEWER_FIRST_SIM_POST_MOVEMENT_TIMEOUT_SECS",), s.post_movement_timeout_secs)
    &&& lookup.ensures(("VIEWER_FIRST_SIM_STOP_ON_REGION_CONTROL",), s.stop_on_region_control)
    &&& lookup.ensures(("VIEWER_APP_AUTO_TELEPORT_SLURL",), s.auto_teleport_slurl)
    &&& lookup.ensures(("VIEWER_APP_AUTO_TELEPORT_DELAY_TICKS",), s.auto_teleport_delay_ticks)
    &&& lookup.ensures(("VIEWER_APP_IN_PROCESS_PROBE",), s.in_process_probe)
    &&& lookup.ensures(("VIEWER_APP_WORKER_TICK_MS",), s.worker_tick_ms)
    &&& lookup.ensures(("VIEWER_APP_EVENT_QUEUE_POLL_TIMEOUT_MS",), s.event_queue_poll_timeout_ms)
    &&& lookup.ensures(("VIEWER_APP_EVENT_QUEUE_POLL_EVERY_TICKS",), s.event_queue_poll_every_ticks)
    &&& lookup.ensures(
        ("VIEWER_APP_EVENT_QUEUE_FAILURES_BEFORE_RECONNECT",),
        s.event_queue_failures_before_reconnect,
    )
    &&& lookup.ensures(("VIEWER_APP_SOCIAL_POLL_TIMEOUT_MS",), s.social_poll_timeout_ms)
    &&& lookup.ensures(("VIEWER_APP_SOCIAL_POLL_MAX_PACKETS",), s.social_poll_max_packets)
    &&& lookup.ensures(("VIEWER_APP_NEARBY_POLL_TIMEOUT_MS",), s.nearby_poll_timeout_ms)
    &&& lookup.ensures(("VIEWER_APP_NEARBY_POLL_MAX_PACKETS",), s.nearby_poll_max_packets)
    &&& lookup.ensures(("VIEWER_APP_NEARBY_SEND_RECEIVE_TIMEOUT_MS",), s.nearby_send_receive_timeout_ms)
    &&& lookup.ensures(("VIEWER_APP_NEARBY_SEND_RECEIVE_PACKETS",), s.nearby_send_receive_packets)
    &&& lookup.ensures(("VIEWER_APP_PROFILE_CACHE_TTL_SECS",), s.profile_cache_ttl_secs)
    &&& lookup.ensures(("VIEWER_ASSET_LIVE_TIMEOUT_MS",), s.asset_live_timeout_ms)
}

/// Every configuration read from settings keeps its values within their
/// bounds: the worker tick is at least 10 ms, the event-queue poll timeout at
/// least 100 ms and its interval at least one tick, the social and nearby
/// poll timeouts at least 5 ms, the auto-teleport delay at most 10 000 ticks,
/// and the asset timeout between 250 ms and 120 s.
pub proof fn lemma_config_within_bounds(c: InProcessLiveFeedConfig, s: LiveFeedSettings)
    requires
        config_matches(c, s),
    ensures
        c.worker_tick_ms >= 10,
        c.event_queue_poll_timeout_ms >= 100,
        c.event_queue_poll_every_ticks >= 1,
        c.social_poll_timeout_ms >= 5,
        c.nearby_poll_timeout_ms >= 5,
        c.nearby_send_receive_timeout_ms >= 5,
        c.auto_teleport_delay_ticks <= 10_000,
        250 <= c.asset_live_timeout_ms <= 120_000,
{
}

/// Looks up every setting of the live session.
fn live_feed_settings_from_lookup<F: Fn(&str) -> Option<String>>(lookup: &F) -> (r:
    LiveFeedSettings)
    requires
        forall|k: &str| #[trigger] lookup.requires((k,)),
    ensures
        settings_looked_up(*lookup, r),
{
    LiveFeedSettings {
        endpoint: lookup("VIEWER_LOGIN_ENDPOINT"),
        username: lookup("VIEWER_LOGIN_USERNAME"),
        password: lookup("VIEWER_LOGIN_PASSWORD"),
        timeout_secs: lookup("VIEWER_LOGIN_TIMEOUT_SECS"),
        wire_format: lookup("VIEWER_LOGIN_WIRE_FORMAT"),
        start: lookup("VIEWER_LOGIN_START"),
        agree_tos: lookup("VIEWER_LOGIN_AGREE_TOS"),
        read_critical: lookup("VIEWER_LOGIN_READ_CRITICAL"),
        mfa_token: lookup("VIEWER_LOGIN_MFA_TOKEN"),
        receive_bind: lookup("VIEWER_FIRST_SIM_RECEIVE_BIND"),
        receive_timeout_secs: lookup("VIEWER_FIRST_SIM_RECEIVE_TIMEOUT_SECS"),
        receive_max_packets: lookup("VIEWER_FIRST_SIM_RECEIVE_MAX_PACKETS"),
        post_movement_tail_packets: lookup("VIEWER_FIRST_SIM_POST_MOVEMENT_TAIL_PACKETS"),
        post_movement_timeout_secs: lookup("VIEWER_FIRST_SIM_POST_MOVEMENT_TIMEOUT_SECS"),
        stop_on_region_control: lookup("VIEWER_FIRST_SIM_STOP_ON_REGION_CONTROL"),
        auto_teleport_slurl: lookup("VIEWER_APP_AUTO_TELEPORT_SLURL"),
        auto_teleport_delay_ticks: lookup("VIEWER_APP_AUTO_TELEPORT_DELAY_TICKS"),
        in_process_probe: lookup("VIEWER_APP_IN_PROCESS_PROBE"),
        worker_tick_ms: lookup("VIEWER_APP_WORKER_TICK_MS"),
        event_queue_poll_timeout_ms: lookup("VIEWER_APP_EVENT_QUEUE_POLL_TIMEOUT_MS"),
        event_queue_poll_every_ticks: lookup("VIEWER_APP_EVENT_QUEUE_POLL_EVERY_TICKS"),
        event_queue_failures_before_reconnect: lookup(
            "VIEWER_APP_EVENT_QUEUE_FAILURES_BEFORE_RECONNECT",
        ),
        social_poll_timeout_ms: lookup("VIEWER_APP_SOCIAL_POLL_TIMEOUT_MS"),
        social_poll_max_packets: lookup("VIEWER_APP_SOCIAL_POLL_MAX_PACKETS"),
        nearby_poll_timeout_ms: lookup("VIEWER_APP_NEARBY_POLL_TIMEOUT_MS"),
        nearby_poll_max_packets: lookup("VIEWER_APP_NEARBY_POLL_MAX_PACKETS"),
        nearby_send_receive_timeout_ms: lookup("VIEWER_APP_NEARBY_SEND_RECEIVE_TIMEOUT_MS"),
        nearby_send_receive_packets: lookup("VIEWER_APP_NEARBY_SEND_RECEIVE_PACKETS"),
        profile_cache_ttl_secs: lookup("VIEWER_APP_PROFILE_CACHE_TTL_SECS"),
        asset_live_timeout_ms: lookup("VIEWER_ASSET_LIVE_TIMEOUT_MS"),
    }
}

/// The live session's configuration from the settings that `lookup` gives
/// (see [`config_matches`]); `None` without an endpoint, a user name and a
/// password.
pub fn in_process_live_feed_config_from_lookup<F: Fn(&str) -> Option<String>>(lookup: F) -> (r:
    Option<InProcessLiveFeedConfig>)
    requires
        forall|k: &str| #[trigger] lookup.requires((k,)),
    ensures
        exists|s: LiveFeedSettings|
            {
                &&& #[trigger] settings_looked_up(lookup, s)
                &&& (r is Some <==> has_credentials(s))
                &&& (r matches Some(c) ==> config_matches(c, s))
            },
{
    let s = live_feed_settings_from_lookup(&lookup);
    in_process_live_feed_config_from_settings(&s)
}

/// The keepalive period in worker ticks of the configured tick (at least
/// 1 ms), rounded up.
pub fn agent_update_keepalive_interval_ticks_for(config: &InProcessLiveFeedConfig) -> (r: u64)
    ensures
        ({
            let t: int = if config.worker_tick_ms == 0 {
                1
            } else {
                config.worker_tick_ms as int
            };
            r == (crate::continuity::AGENT_UPDATE_KEEPALIVE_PERIOD_MS + t - 1) / t
        }),
{
    crate::continuity::agent_update_keepalive_interval_ticks(config.worker_tick_ms)
}

/// The packet budget for draining the social circuit at start-up: eight
/// times the largest of the receive, social-poll and post-movement packet
/// budgets, kept within 32 to 256.
pub fn startup_social_drain_packet_budget(config: &InProcessLiveFeedConfig) -> (r: usize)
    ensures
        ({
            let m = if config.receive_max_packets >= config.social_poll_max_packets {
                config.receive_max_packets as int
            } else {
                config.social_poll_max_packets as int
            };
            let m = if m >= config.post_movement_tail_packets {
                m
            } else {
                config.post_movement_tail_packets as int
            };
            r == if m * 8 < 32 {
                32
            } else if m * 8 > 256 {
                256
            } else {
                m * 8
            }
        }),
{
    let mut m = config.receive_max_packets;
    if config.social_poll_max_packets > m {
        m = config.social_poll_max_packets;
    }
    if config.post_movement_tail_packets > m {
        m = config.post_movement_tail_packets;
    }
    if m >= 32 {
        256
    } else {
        let b = m * 8;
        if b < 32 {
            32
        } else {
            b
        }
    }
}

/// Whether the live session starts, with which configuration, and the
/// start-up status shown.
#[derive(Debug, Clone, PartialEq, Eq)]
pub struct LiveStartupPlan {
    pub config: Option<InProcessLiveFeedConfig>,
    pub enabled: bool,
    pub startup_status: LiveStartupStatus,
}

/// The start-up plan for a mode and the configuration found: `off` never
/// starts; `on` starts with a configuration and otherwise fails as missing
/// configuration; `auto` starts with a configuration and is otherwise
/// disabled for want of one.
pub open spec fn plan_matches(
    p: LiveStartupPlan,
    mode: LiveStartupMode,
    config: Option<InProcessLiveFeedConfig>,
) -> bool {
    match mode {
        LiveStartupMode::Off => p.config is None && !p.enabled && p.startup_status
            == LiveStartupStatus::DisabledByConfig,
        _ => match config {
            Some(c) => p.config == Some(c) && p.enabled && p.startup_status
                == LiveStartupStatus::Starting,
            None => p.config is None && !p.enabled && if mode == LiveStartupMode::On {
                p.startup_status matches LiveStartupStatus::Failed(f) && f.class
                    == LiveStartupFailureClass::MissingConfig && f.message@
                    == "missing required VIEWER_LOGIN_* env vars"@
            } else {
                p.startup_status == LiveStartupStatus::DisabledMissingConfig
            },
        },
    }
}

/// A start-up plan starts the live session exactly when the mode is not
/// `off` and a configuration was found, and it carries a configuration only
/// then: `off` wins even over complete credentials.
pub proof fn lemma_plan_enabled_iff(
    p: LiveStartupPlan,
    mode: LiveStartupMode,
    config: Option<InProcessLiveFeedConfig>,
)
    requires
        plan_matches(p, mode, config),
    ensures
        p.enabled <==> (mode != LiveStartupMode::Off && config is Some),
        p.config is Some <==> p.enabled,
        p.enabled ==> p.config == config,
{
}

/// The start-up plan for a mode and the configuration found (see
/// [`plan_matches`]).
pub fn live_startup_plan(mode: LiveStartupMode, config: Option<InProcessLiveFeedConfig>) -> (r:
    LiveStartupPlan)
    ensures
        plan_matches(r, mode, config),
{
    match mode {
        LiveStartupMode::Off => LiveStartupPlan {
            config: None,
            enabled: false,
            startup_status: LiveStartupStatus::DisabledByConfig,
        },
        LiveStartupMode::On => match config {
            Some(c) => LiveStartupPlan {
                config: Some(c),
                enabled: true,
                startup_status: LiveStartupStatus::Starting,
            },
            None => LiveStartupPlan {
                config: None,
                enabled: false,
                startup_status: LiveStartupStatus::Failed(
                    LiveStartupFailure {
                        class: LiveStartupFailureClass::MissingConfig,
                        message: "missing required VIEWER_LOGIN_* env vars".to_owned(),
                    },
                ),
            },
        },
        LiveStartupMode::Auto => match config {
            Some(c) => LiveStartupPlan {
                config: Some(c),
                enabled: true,
                startup_status: LiveStartupStatus::Starting,
            },
            None => LiveStartupPlan {
                config: None,
                enabled: false,
                startup_status: LiveStartupStatus::DisabledMissingConfig,
            },
        },
    }
}

/// The start-up plan from the settings that `lookup` gives: the mode from
/// `VIEWER_APP_LIVE_STARTUP` and the configuration from the other settings
/// (see [`plan_matches`] and [`config_matches`]).
pub fn live_startup_plan_from_lookup<F: Fn(&str) -> Option<String>>(lookup: F) -> (r:
    LiveStartupPlan)
    requires
        forall|k: &str| #[trigger] lookup.requires((k,)),
    ensures
        exists|mode_raw: Option<String>, s: LiveFeedSettings|
            {
                &&& #[trigger] lookup.ensures(("VIEWER_APP_LIVE_STARTUP",), mode_raw)
                &&& #[trigger] settings_looked_up(lookup, s)
                &&& exists|c: Option<InProcessLiveFeedConfig>|
                    {
                        &&& #[trigger] plan_matches(r, startup_mode_of(opt_string(mode_raw)), c)
                        &&& (c is Some <==> has_credentials(s))
                        &&& (c matches Some(cfg) ==> config_matches(cfg, s))
                    }
            },
{
    let mode_raw = lookup("VIEWER_APP_LIVE_STARTUP");
    let mode = match &mode_raw {
        Some(v) => parse_live_startup_mode(Some(v.as_str())),
        None => parse_live_startup_mode(None),
    };
    let s = live_feed_settings_from_lookup(&lookup);
    let config = in_process_live_feed_config_from_settings(&s);
    let ghost cfg = config;
    let r = live_startup_plan(mode, config);
    assert(plan_matches(r, startup_mode_of(opt_string(mode_raw)), cfg));
    r
}

} // verus!
