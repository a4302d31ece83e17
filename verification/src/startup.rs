//! Start-up settings read from configuration text, the start-up status shown
//! to the user, and simulator-name bookkeeping.
use vstd::prelude::*;
use crate::numtext::{parse_unsigned, parse_unsigned_exec};
use crate::text::{chars_of, eq_str, lower, lowercase, string_of, trim, trimmed};

verus! {

/// `value` trimmed and lower-cased (ASCII), as the settings compare it.
pub open spec fn folded(value: Seq<char>) -> Seq<char> {
    lower(trim(value))
}

pub(crate) fn folded_exec(value: &str) -> (r: Vec<char>)
    ensures
        r@ == folded(value@),
{
    let c = chars_of(value);
    let t = trimmed(c.as_slice());
    lowercase(t.as_slice())
}

/// Whether a setting reads as true: `1`, `true`, `yes` or `on`, in any case.
pub open spec fn bool_like(value: Seq<char>) -> bool {
    let f = folded(value);
    f == "1"@ || f == "true"@ || f == "yes"@ || f == "on"@
}

pub fn parse_bool_like(value: &str) -> (r: bool)
    ensures
        r == bool_like(value@),
{
    let f = folded_exec(value);
    eq_str(f.as_slice(), "1") || eq_str(f.as_slice(), "true") || eq_str(f.as_slice(), "yes")
        || eq_str(f.as_slice(), "on")
}

#[derive(Debug, Clone, Copy, PartialEq, Eq, Structural)]
pub enum StressTestMode {
    Disabled,
    SceneStress,
    GeometryTorture,
    AutoCamera,
    Screenshot,
}

pub open spec fn stress_mode_of(value: Option<Seq<char>>) -> StressTestMode {
    match value {
        None => StressTestMode::Disabled,
        Some(v) => {
            let f = folded(v);
            if f == "1"@ {
                StressTestMode::SceneStress
            } else if f == "2"@ {
                StressTestMode::GeometryTorture
            } else if f == "camera"@ || f == "auto_camera"@ || f == "auto-camera"@ || f == "5"@ {
                StressTestMode::AutoCamera
            } else if f == "screenshot"@ || f == "screenshots"@ || f == "capture"@ || f == "6"@ {
                StressTestMode::Screenshot
            } else {
                StressTestMode::Disabled
            }
        },
    }
}

proof fn lemma_trim_start_push_space(v: Seq<char>)
    ensures
        crate::text::trim_start(v + seq![' ']) == if crate::text::trim_start(v).len() == 0 {
            Seq::<char>::empty()
        } else {
            crate::text::trim_start(v) + seq![' ']
        },
    decreases v.len(),
{
    assert(crate::text::is_ws(' '));
    if v.len() == 0 {
        assert(v + seq![' '] =~= seq![' ']);
        assert(seq![' '].drop_first() =~= Seq::<char>::empty());
        assert(crate::text::trim_start(Seq::<char>::empty()) == Seq::<char>::empty());
        assert(crate::text::trim_start(seq![' ']) == crate::text::trim_start(seq![' '].drop_first()));
        assert(crate::text::trim_start(v) == v);
    } else {
        assert((v + seq![' '])[0] == v[0]);
        if crate::text::is_ws(v[0]) {
            assert((v + seq![' ']).drop_first() =~= v.drop_first() + seq![' ']);
            lemma_trim_start_push_space(v.drop_first());
            assert(crate::text::trim_start(v) == crate::text::trim_start(v.drop_first()));
            assert(crate::text::trim_start(v + seq![' ']) == crate::text::trim_start(
                (v + seq![' ']).drop_first(),
            ));
        } else {
            assert(crate::text::trim_start(v) == v);
            assert(crate::text::trim_start(v + seq![' ']) == v + seq![' ']);
        }
    }
}

/// A setting is read without the whitespace around it and in lower case:
/// a space before or after it changes nothing, and what is read holds no
/// upper-case ASCII letter.
#[verifier::spinoff_prover]
pub proof fn lemma_folded_setting(v: Seq<char>)
    ensures
        folded(seq![' '] + v) == folded(v),
        folded(v + seq![' ']) == folded(v),
        forall|i: int| 0 <= i < folded(v).len() ==> !('A' <= #[trigger] folded(v)[i] <= 'Z'),
{
    assert(crate::text::is_ws(' '));
    assert((seq![' '] + v)[0] == ' ');
    assert((seq![' '] + v).drop_first() =~= v);
    lemma_trim_start_push_space(v);
    let ts = crate::text::trim_start(v);
    if ts.len() > 0 {
        assert((ts + seq![' ']).last() == ' ');
        assert((ts + seq![' ']).drop_last() =~= ts);
    }
    assert forall|i: int| 0 <= i < folded(v).len() implies !('A' <= #[trigger] folded(v)[i] <= 'Z') by {
        let c = trim(v)[i];
        assert(folded(v)[i] == crate::text::lower_char(c));
        if 'A' <= c <= 'Z' {
            assert((c as u32) + 32 >= 97);
        }
    }
}

/// The `STRESS_TEST` names (in any case, around any whitespace): `1` is the
/// scene stress test, `2` the geometry torture scene, `camera`,
/// `auto_camera`, `auto-camera` and `5` the auto-camera test, `screenshot`,
/// `screenshots`, `capture` and `6` the screenshot test; no setting is no
/// stress test.
#[verifier::spinoff_prover]
pub proof fn lemma_stress_test_names(v: Seq<char>)
    ensures
        folded(v) == "1"@ ==> stress_mode_of(Some(v)) == StressTestMode::SceneStress,
        folded(v) == "2"@ ==> stress_mode_of(Some(v)) == StressTestMode::GeometryTorture,
        folded(v) == "camera"@ || folded(v) == "auto_camera"@ || folded(v) == "auto-camera"@ || folded(v)
            == "5"@ ==> stress_mode_of(Some(v)) == StressTestMode::AutoCamera,
        folded(v) == "screenshot"@ || folded(v) == "screenshots"@ || folded(v) == "capture"@ || folded(
            v,
        ) == "6"@ ==> stress_mode_of(Some(v)) == StressTestMode::Screenshot,
        stress_mode_of(None) == StressTestMode::Disabled,
{
    reveal_strlit("1");
    reveal_strlit("2");
    reveal_strlit("5");
    reveal_strlit("6");
    reveal_strlit("camera");
    reveal_strlit("auto_camera");
    reveal_strlit("auto-camera");
    reveal_strlit("screenshot");
    reveal_strlit("screenshots");
    reveal_strlit("capture");
    assert("1"@[0] == '1' && "2"@[0] == '2' && "5"@[0] == '5' && "6"@[0] == '6');
    assert("camera"@[0] == 'c' && "auto_camera"@[0] == 'a' && "auto-camera"@[0] == 'a');
    assert("screenshot"@[0] == 's' && "screenshots"@[0] == 's' && "capture"@[0] == 'c');
    assert("capture"@[2] == 'p' && "camera"@[2] == 'm');
}

/// The live start-up names (in any case, around any whitespace): `on`,
/// `enabled`, `true` and `1` turn it on, `off`, `disabled`, `false` and `0`
/// off; no setting is `Auto`. The asset source names: `fixture` and `live`;
/// no setting is `Auto`.
#[verifier::spinoff_prover]
pub proof fn lemma_startup_setting_names(v: Seq<char>)
    ensures
        folded(v) == "on"@ || folded(v) == "enabled"@ || folded(v) == "true"@ || folded(v) == "1"@
            ==> startup_mode_of(Some(v)) == LiveStartupMode::On,
        folded(v) == "off"@ || folded(v) == "disabled"@ || folded(v) == "false"@ || folded(v)
            == "0"@ ==> startup_mode_of(Some(v)) == LiveStartupMode::Off,
        startup_mode_of(None) == LiveStartupMode::Auto,
        folded(v) == "fixture"@ ==> asset_source_of(Some(v)) == AssetSourceMode::Fixture,
        folded(v) == "live"@ ==> asset_source_of(Some(v)) == AssetSourceMode::Live,
        asset_source_of(None) == AssetSourceMode::Auto,
{
    reveal_strlit("on");
    reveal_strlit("enabled");
    reveal_strlit("true");
    reveal_strlit("1");
    reveal_strlit("off");
    reveal_strlit("disabled");
    reveal_strlit("false");
    reveal_strlit("0");
    reveal_strlit("auto");
    reveal_strlit("fixture");
    reveal_strlit("live");
    assert("on"@[0] == 'o' && "enabled"@[0] == 'e' && "true"@[0] == 't' && "1"@[0] == '1');
    assert("off"@[0] == 'o' && "disabled"@[0] == 'd' && "false"@[0] == 'f' && "0"@[0] == '0');
    assert("off"@[1] == 'f' && "on"@[1] == 'n');
    assert("auto"@[0] == 'a' && "fixture"@[0] == 'f' && "live"@[0] == 'l');
}

/// The characters of an optional text.
pub open spec fn opt_str(value: Option<&str>) -> Option<Seq<char>> {
    match value {
        Some(v) => Some(v@),
        None => None,
    }
}

impl StressTestMode {
    /// The stress-test mode a setting names; `Disabled` when absent or unknown.
    pub fn from_value(value: Option<&str>) -> (r: Self)
        ensures
            r == stress_mode_of(opt_str(value)),
    {
        let v = match value {
            Some(v) => v,
            None => return StressTestMode::Disabled,
        };
        let f = folded_exec(v);
        let f = f.as_slice();
        if eq_str(f, "1") {
            StressTestMode::SceneStress
        } else if eq_str(f, "2") {
            StressTestMode::GeometryTorture
        } else if eq_str(f, "camera") || eq_str(f, "auto_camera") || eq_str(f, "auto-camera")
            || eq_str(f, "5") {
            StressTestMode::AutoCamera
        } else if eq_str(f, "screenshot") || eq_str(f, "screenshots") || eq_str(f, "capture")
            || eq_str(f, "6") {
            StressTestMode::Screenshot
        } else {
            StressTestMode::Disabled
        }
    }

    /// Whether the mode drives the camera automatically.
    pub fn uses_auto_camera(self) -> (r: bool)
        ensures
            r == (self == StressTestMode::AutoCamera || self == StressTestMode::Screenshot),
    {
        self == StressTestMode::AutoCamera || self == StressTestMode::Screenshot
    }
}

#[derive(Debug, Clone, Copy, PartialEq, Eq, Structural)]
pub enum LiveStartupMode {
    Auto,
    On,
    Off,
}

pub open spec fn startup_mode_of(value: Option<Seq<char>>) -> LiveStartupMode {
    let f = match value {
        Some(v) => folded(v),
        None => "auto"@,
    };
    if f == "on"@ || f == "enabled"@ || f == "true"@ || f == "1"@ {
        LiveStartupMode::On
    } else if f == "off"@ || f == "disabled"@ || f == "false"@ || f == "0"@ {
        LiveStartupMode::Off
    } else {
        LiveStartupMode::Auto
    }
}

/// The live start-up mode a setting names; `Auto` when absent or unknown.
pub fn parse_live_startup_mode(value: Option<&str>) -> (r: LiveStartupMode)
    ensures
        r == startup_mode_of(opt_str(value)),
{
    let f = match value {
        Some(v) => folded_exec(v),
        None => chars_of("auto"),
    };
    let f = f.as_slice();
    if eq_str(f, "on") || eq_str(f, "enabled") || eq_str(f, "true") || eq_str(f, "1") {
        LiveStartupMode::On
    } else if eq_str(f, "off") || eq_str(f, "disabled") || eq_str(f, "false") || eq_str(f, "0") {
        LiveStartupMode::Off
    } else {
        LiveStartupMode::Auto
    }
}

#[derive(Debug, Clone, Copy, PartialEq, Eq, Structural)]
pub enum AssetSourceMode {
    Fixture,
    Auto,
    Live,
}

pub open spec fn asset_source_of(value: Option<Seq<char>>) -> AssetSourceMode {
    let f = match value {
        Some(v) => folded(v),
        None => "auto"@,
    };
    if f == "fixture"@ {
        AssetSourceMode::Fixture
    } else if f == "live"@ {
        AssetSourceMode::Live
    } else {
        AssetSourceMode::Auto
    }
}

/// The asset source a setting names; `Auto` when absent or unknown.
pub fn parse_asset_source_mode(value: Option<&str>) -> (r: AssetSourceMode)
    ensures
        r == asset_source_of(opt_str(value)),
{
    let f = match value {
        Some(v) => folded_exec(v),
        None => chars_of("auto"),
    };
    let f = f.as_slice();
    if eq_str(f, "fixture") {
        AssetSourceMode::Fixture
    } else if eq_str(f, "live") {
        AssetSourceMode::Live
    } else {
        AssetSourceMode::Auto
    }
}

/// Where and how often screenshots are taken in screenshot mode.
#[derive(Debug, Clone, PartialEq, Eq)]
pub struct ScreenshotConfig {
    pub output_dir: String,
    pub every_n_frames: u64,
    pub max_frames: u32,
}

/// A setting read as a number no larger than `max`, with `default` when it is
/// absent or does not parse, and at least 1.
pub open spec fn count_setting(value: Option<Seq<char>>, max: nat, default: nat) -> nat {
    let v = match value {
        Some(s) => match parse_unsigned(s, max) {
            Some(n) => n,
            None => default,
        },
        None => default,
    };
    if v == 0 {
        1
    } else {
        v
    }
}

/// The characters of an optional string.
pub open spec fn opt_string(value: Option<String>) -> Option<Seq<char>> {
    match value {
        Some(v) => Some(v@),
        None => None,
    }
}

/// The screenshot settings, in screenshot mode only, from the settings that
/// `lookup` returns: the directory (default `artifacts/screenshots`), the frame
/// interval (default 30) and the number of frames (default 12).
pub fn screenshot_config_from_lookup<F: Fn(&str) -> Option<String>>(
    lookup: F,
    mode: StressTestMode,
) -> (r: Option<ScreenshotConfig>)
    requires
        forall|k: &str| #[trigger] lookup.requires((k,)),
    ensures
        r is Some <==> mode == StressTestMode::Screenshot,
        r matches Some(c) ==> exists|d: Option<String>, e: Option<String>, m: Option<String>|
            {
                &&& lookup.ensures(("VIEWER_TEST_SCREENSHOT_DIR",), d)
                &&& lookup.ensures(("VIEWER_TEST_SCREENSHOT_EVERY_N_FRAMES",), e)
                &&& lookup.ensures(("VIEWER_TEST_SCREENSHOT_MAX_FRAMES",), m)
                &&& c.output_dir@ == match d {
                    Some(s) => s@,
                    None => "artifacts/screenshots"@,
                }
                &&& c.every_n_frames == count_setting(opt_string(e), u64::MAX as nat, 30)
                &&& c.max_frames == count_setting(opt_string(m), u32::MAX as nat, 12)
            },
{
    if mode != StressTestMode::Screenshot {
        return None;
    }
    let d = lookup("VIEWER_TEST_SCREENSHOT_DIR");
    let e = lookup("VIEWER_TEST_SCREENSHOT_EVERY_N_FRAMES");
    let m = lookup("VIEWER_TEST_SCREENSHOT_MAX_FRAMES");
    let output_dir = match &d {
        Some(s) => s.clone(),
        None => "artifacts/screenshots".to_owned(),
    };
    let every: u64 = match &e {
        Some(s) => {
            let c = chars_of(s.as_str());
            match parse_unsigned_exec(c.as_slice(), u64::MAX) {
                Some(v) => v,
                None => 30,
            }
        },
        None => 30,
    };
    let max: u64 = match &m {
        Some(s) => {
            let c = chars_of(s.as_str());
            match parse_unsigned_exec(c.as_slice(), 4294967295) {
                Some(v) => v,
                None => 12,
            }
        },
        None => 12,
    };
    let every_n_frames = if every == 0 {
        1
    } else {
        every
    };
    let max_frames: u32 = if max == 0 {
        1
    } else {
        max as u32
    };
    let r = ScreenshotConfig { output_dir, every_n_frames, max_frames };
    assert(lookup.ensures(("VIEWER_TEST_SCREENSHOT_DIR",), d));
    assert(lookup.ensures(("VIEWER_TEST_SCREENSHOT_EVERY_N_FRAMES",), e));
    assert(lookup.ensures(("VIEWER_TEST_SCREENSHOT_MAX_FRAMES",), m));
    assert(r.output_dir@ == match d {
        Some(s) => s@,
        None => "artifacts/screenshots"@,
    });
    assert(r.every_n_frames == count_setting(opt_string(e), u64::MAX as nat, 30));
    assert(r.max_frames == count_setting(opt_string(m), u32::MAX as nat, 12));
    Some(r)
}

#[derive(Debug, Clone, Copy, PartialEq, Eq, Structural)]
pub enum LiveStartupFailureClass {
    MissingConfig,
    ConnectTransport,
    LoginRequestTransport,
    LoginRequestShape,
    LoginAuth,
    LoginRequiresTos,
    LoginRequiresMfa,
    LoginUpdateRequired,
    LoginOther,
    ConnectionLostReconnecting,
}

pub open spec fn failure_label(class: LiveStartupFailureClass) -> Seq<char> {
    match class {
        LiveStartupFailureClass::MissingConfig => "missing_config"@,
        LiveStartupFailureClass::ConnectTransport => "connect_transport"@,
        LiveStartupFailureClass::LoginRequestTransport => "login_transport"@,
        LiveStartupFailureClass::LoginRequestShape => "login_request_shape"@,
        LiveStartupFailureClass::LoginAuth => "login_auth"@,
        LiveStartupFailureClass::LoginRequiresTos => "login_requires_tos"@,
        LiveStartupFailureClass::LoginRequiresMfa => "login_requires_mfa"@,
        LiveStartupFailureClass::LoginUpdateRequired => "login_update_required"@,
        LiveStartupFailureClass::LoginOther => "login_other"@,
        LiveStartupFailureClass::ConnectionLostReconnecting => "connection_reconnecting"@,
    }
}

/// The label under which a start-up failure class is reported.
pub fn startup_failure_class_label(class: LiveStartupFailureClass) -> (r: &'static str)
    ensures
        r@ == failure_label(class),
{
    match class {
        LiveStartupFailureClass::MissingConfig => "missing_config",
        LiveStartupFailureClass::ConnectTransport => "connect_transport",
        LiveStartupFailureClass::LoginRequestTransport => "login_transport",
        LiveStartupFailureClass::LoginRequestShape => "login_request_shape",
        LiveStartupFailureClass::LoginAuth => "login_auth",
        LiveStartupFailureClass::LoginRequiresTos => "login_requires_tos",
        LiveStartupFailureClass::LoginRequiresMfa => "login_requires_mfa",
        LiveStartupFailureClass::LoginUpdateRequired => "login_update_required",
        LiveStartupFailureClass::LoginOther => "login_other",
        LiveStartupFailureClass::ConnectionLostReconnecting => "connection_reconnecting",
    }
}

/// Why live start-up failed, with a message for the user.
#[derive(Debug, Clone, PartialEq, Eq)]
pub struct LiveStartupFailure {
    pub class: LiveStartupFailureClass,
    pub message: String,
}

#[derive(Debug, Clone, PartialEq, Eq)]
pub enum LiveStartupStatus {
    DisabledByConfig,
    DisabledMissingConfig,
    Starting,
    Connected,
    Failed(LiveStartupFailure),
}

#[derive(Debug, Clone, PartialEq, Eq)]
pub enum ChatConnectionState {
    Disabled,
    Connecting,
    Connected,
    Reconnecting,
    Failed(String),
}

#[derive(Debug, Clone, Copy, PartialEq, Eq, Structural)]
pub enum SessionUxReason {
    DisabledByConfig,
    MissingConfig,
    ConnectTransport,
    LoginTransport,
    LoginAuth,
    LoginRequiresTos,
    LoginRequiresMfa,
    LoginUpdateRequired,
    Other,
    ConnectionLost,
}

/// The session status as the user interface shows it.
#[derive(Debug, Clone, Copy, PartialEq, Eq, Structural)]
pub enum SessionUxStatus {
    Disabled { reason: Option<SessionUxReason> },
    Starting,
    Connected,
    Reconnecting { reason: Option<SessionUxReason> },
    Failed { reason: SessionUxReason },
}

pub open spec fn failure_reason(class: LiveStartupFailureClass) -> SessionUxReason {
    match class {
        LiveStartupFailureClass::MissingConfig => SessionUxReason::MissingConfig,
        LiveStartupFailureClass::ConnectTransport => SessionUxReason::ConnectTransport,
        LiveStartupFailureClass::LoginRequestTransport => SessionUxReason::LoginTransport,
        LiveStartupFailureClass::LoginRequestShape => SessionUxReason::LoginTransport,
        LiveStartupFailureClass::LoginAuth => SessionUxReason::LoginAuth,
        LiveStartupFailureClass::LoginRequiresTos => SessionUxReason::LoginRequiresTos,
        LiveStartupFailureClass::LoginRequiresMfa => SessionUxReason::LoginRequiresMfa,
        LiveStartupFailureClass::LoginUpdateRequired => SessionUxReason::LoginUpdateRequired,
        LiveStartupFailureClass::LoginOther => SessionUxReason::Other,
        LiveStartupFailureClass::ConnectionLostReconnecting => SessionUxReason::ConnectionLost,
    }
}

pub open spec fn ux_status(status: LiveStartupStatus, chat: ChatConnectionState) -> SessionUxStatus {
    if chat is Reconnecting {
        SessionUxStatus::Reconnecting { reason: None }
    } else {
        match status {
            LiveStartupStatus::DisabledByConfig => SessionUxStatus::Disabled {
                reason: Some(SessionUxReason::DisabledByConfig),
            },
            LiveStartupStatus::DisabledMissingConfig => SessionUxStatus::Disabled {
                reason: Some(SessionUxReason::MissingConfig),
            },
            LiveStartupStatus::Starting => SessionUxStatus::Starting,
            LiveStartupStatus::Connected => SessionUxStatus::Connected,
            LiveStartupStatus::Failed(f) => if f.class
                == LiveStartupFailureClass::ConnectionLostReconnecting {
                SessionUxStatus::Reconnecting { reason: Some(failure_reason(f.class)) }
            } else {
                SessionUxStatus::Failed { reason: failure_reason(f.class) }
            },
        }
    }
}

fn failure_reason_exec(class: LiveStartupFailureClass) -> (r: SessionUxReason)
    ensures
        r == failure_reason(class),
{
    match class {
        LiveStartupFailureClass::MissingConfig => SessionUxReason::MissingConfig,
        LiveStartupFailureClass::ConnectTransport => SessionUxReason::ConnectTransport,
        LiveStartupFailureClass::LoginRequestTransport => SessionUxReason::LoginTransport,
        LiveStartupFailureClass::LoginRequestShape => SessionUxReason::LoginTransport,
        LiveStartupFailureClass::LoginAuth => SessionUxReason::LoginAuth,
        LiveStartupFailureClass::LoginRequiresTos => SessionUxReason::LoginRequiresTos,
        LiveStartupFailureClass::LoginRequiresMfa => SessionUxReason::LoginRequiresMfa,
        LiveStartupFailureClass::LoginUpdateRequired => SessionUxReason::LoginUpdateRequired,
        LiveStartupFailureClass::LoginOther => SessionUxReason::Other,
        LiveStartupFailureClass::ConnectionLostReconnecting => SessionUxReason::ConnectionLost,
    }
}

impl LiveStartupStatus {
    /// The status shown to the user; a reconnecting chat connection wins over all else.
    pub fn to_ux_status(&self, chat_connection: &ChatConnectionState) -> (r: SessionUxStatus)
        ensures
            r == ux_status(*self, *chat_connection),
    {
        match chat_connection {
            ChatConnectionState::Reconnecting => {
                return SessionUxStatus::Reconnecting { reason: None };
            },
            _ => {},
        }
        match self {
            LiveStartupStatus::DisabledByConfig => SessionUxStatus::Disabled {
                reason: Some(SessionUxReason::DisabledByConfig),
            },
            LiveStartupStatus::DisabledMissingConfig => SessionUxStatus::Disabled {
                reason: Some(SessionUxReason::MissingConfig),
            },
            LiveStartupStatus::Starting => SessionUxStatus::Starting,
            LiveStartupStatus::Connected => SessionUxStatus::Connected,
            LiveStartupStatus::Failed(failure) => {
                let reason = failure_reason_exec(failure.class);
                if failure.class == LiveStartupFailureClass::ConnectionLostReconnecting {
                    SessionUxStatus::Reconnecting { reason: Some(reason) }
                } else {
                    SessionUxStatus::Failed { reason }
                }
            },
        }
    }
}

/// Whether a relay category belongs to the network debug log.
pub open spec fn network_debug_category(c: Seq<char>) -> bool {
    ||| c == "parallel_protocol"@
    ||| c == "event_queue"@
    ||| c == "first_sim_socket"@
    ||| c == "first_sim_forensics"@
    ||| c == "first_sim_ack"@
    ||| c == "object_feed"@
    ||| c == "region_objects"@
    ||| c == "social"@
}

pub fn is_network_debug_category(category: &str) -> (r: bool)
    ensures
        r == network_debug_category(category@),
{
    let c = chars_of(category);
    let c = c.as_slice();
    eq_str(c, "parallel_protocol") || eq_str(c, "event_queue") || eq_str(c, "first_sim_socket")
        || eq_str(c, "first_sim_forensics") || eq_str(c, "first_sim_ack") || eq_str(
        c,
        "object_feed",
    ) || eq_str(c, "region_objects") || eq_str(c, "social")
}

/// A simulator name, trimmed, when it is not blank.
pub open spec fn sim_name_of(name: Option<Seq<char>>) -> Option<Seq<char>> {
    match name {
        Some(n) => if trim(n).len() > 0 {
            Some(trim(n))
        } else {
            None
        },
        None => None,
    }
}

pub fn normalize_sim_name(sim_name: Option<&str>) -> (r: Option<String>)
    ensures
        opt_string(r) == sim_name_of(opt_str(sim_name)),
{
    match sim_name {
        Some(n) => {
            let c = chars_of(n);
            let t = trimmed(c.as_slice());
            if t.len() > 0 {
                Some(string_of(t.as_slice()))
            } else {
                None
            }
        },
        None => None,
    }
}

/// The simulator name shown for an avatar: the sample's, else the decoded
/// world's, else the start-up fallback, else `unknown` (blank names skipped).
pub fn resolve_avatar_sim_name(
    sample_sim_name: Option<&str>,
    decoded_world_sim_name: Option<&str>,
    startup_sim_name_fallback: Option<&str>,
) -> (r: String)
    ensures
        r@ == match sim_name_of(opt_str(sample_sim_name)) {
            Some(n) => n,
            None => match sim_name_of(opt_str(decoded_world_sim_name)) {
                Some(n) => n,
                None => match sim_name_of(opt_str(startup_sim_name_fallback)) {
                    Some(n) => n,
                    None => "unknown"@,
                },
            },
        },
{
    match normalize_sim_name(sample_sim_name) {
        Some(n) => n,
        None => match normalize_sim_name(decoded_world_sim_name) {
            Some(n) => n,
            None => match normalize_sim_name(startup_sim_name_fallback) {
                Some(n) => n,
                None => "unknown".to_owned(),
            },
        },
    }
}

fn clone_opt_string(s: &Option<String>) -> (r: Option<String>)
    ensures
        opt_string(r) == opt_string(*s),
{
    match s {
        Some(v) => Some(v.clone()),
        None => None,
    }
}

/// Records a new start-up name when one is given, and the decoded world name
/// when one is given; otherwise a missing world name takes the start-up fallback.
pub fn update_world_sim_name_state(
    world_sim_name: &mut Option<String>,
    startup_sim_name_fallback: &mut Option<String>,
    decoded_sim_name: Option<&str>,
    startup_sim_name: Option<&str>,
)
    ensures
        opt_string(*final(startup_sim_name_fallback)) == match sim_name_of(
            opt_str(startup_sim_name),
        ) {
            Some(n) => Some(n),
            None => opt_string(*old(startup_sim_name_fallback)),
        },
        opt_string(*final(world_sim_name)) == match sim_name_of(opt_str(decoded_sim_name)) {
            Some(n) => Some(n),
            None => if old(world_sim_name).is_none() {
                opt_string(*final(startup_sim_name_fallback))
            } else {
                opt_string(*old(world_sim_name))
            },
        },
{
    match normalize_sim_name(startup_sim_name) {
        Some(n) => {
            *startup_sim_name_fallback = Some(n);
        },
        None => {},
    }
    match normalize_sim_name(decoded_sim_name) {
        Some(n) => {
            *world_sim_name = Some(n);
        },
        None => {
            if world_sim_name.is_none() {
                *world_sim_name = clone_opt_string(startup_sim_name_fallback);
            }
        },
    }
}

} // verus!
