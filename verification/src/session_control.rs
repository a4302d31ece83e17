//! Requests the user makes of the running session: the function-key
//! shortcuts that open the diagnostics and social panels, and teleports
//! carried out by reconnecting at a new start location.
use vstd::prelude::*;
use crate::start_location::{
    describe_start_location_intent, normalize_start_location_input, start_location_of,
    IntentView, StartLocation, StartLocationError, StartLocationIntent,
};
use crate::text::{push_str, string_of};

verus! {

/// The keys the panel shortcuts tell apart.
#[derive(Debug, Clone, Copy, PartialEq, Eq, Structural)]
pub enum ShortcutKey {
    F1,
    F2,
    F3,
    Other,
}

/// Applies a panel shortcut: F1 toggles the diagnostics panel; F2 shows it
/// and asks for focus on the continuity section; F3 shows the social panel
/// and asks for focus on it; any other key changes nothing.
pub fn apply_u09_shortcut(
    code: ShortcutKey,
    show_diagnostics: &mut bool,
    show_social: &mut bool,
    focus_continuity_requested: &mut bool,
    focus_social_requested: &mut bool,
)
    ensures
        *final(show_diagnostics) == match code {
            ShortcutKey::F1 => !*old(show_diagnostics),
            ShortcutKey::F2 => true,
            _ => *old(show_diagnostics),
        },
        *final(show_social) == (code == ShortcutKey::F3 || *old(show_social)),
        *final(focus_continuity_requested) == (code == ShortcutKey::F2
            || *old(focus_continuity_requested)),
        *final(focus_social_requested) == (code == ShortcutKey::F3
            || *old(focus_social_requested)),
{
    match code {
        ShortcutKey::F1 => *show_diagnostics = !*show_diagnostics,
        ShortcutKey::F2 => {
            *show_diagnostics = true;
            *focus_continuity_requested = true;
        },
        ShortcutKey::F3 => {
            *show_social = true;
            *focus_social_requested = true;
        },
        ShortcutKey::Other => {},
    }
}

/// How loud a runtime relay line is.
#[derive(Debug, Clone, Copy, PartialEq, Eq, Structural)]
pub enum RuntimeRelayLevel {
    Info,
    Warn,
}

/// A line for the runtime relay: level, category and message.
#[derive(Debug, Clone, PartialEq, Eq)]
pub struct RelayLine {
    pub level: RuntimeRelayLevel,
    pub category: String,
    pub message: String,
}

/// The text of a start location in the logs.
pub open spec fn intent_text(i: IntentView) -> Seq<char> {
    match i {
        IntentView::Saved(StartLocation::Home) => "home"@,
        IntentView::Saved(StartLocation::Last) => "last"@,
        IntentView::Uri(u) => u,
    }
}

/// The relay message for a teleport request from `source` for `input`:
/// ignored while a reconnect is pending; else accepted with its target, or
/// rejected with the reason the start location was refused.
pub open spec fn teleport_relay_message(
    pending: bool,
    input: Seq<char>,
    source: Seq<char>,
) -> Seq<char> {
    if pending {
        "teleport request ignored source="@ + source + " input="@ + input
            + " reason=reconnect_already_pending"@
    } else {
        match start_location_of(input) {
            Ok(i) => "reconnect teleport requested source="@ + source + " input="@ + input
                + " target="@ + intent_text(i),
            Err(e) => "teleport request rejected source="@ + source + " input="@ + input
                + " reason="@ + e.spec_message(),
        }
    }
}

/// Handles a request to teleport by reconnecting at `slurl`. While a
/// reconnect is pending the request is ignored; a start location that does
/// not read is rejected; otherwise it becomes the active start location, the
/// reconnect reason reads `teleporting to <target>` and a reconnect is
/// requested. Returns whether the request was taken, and the relay line to
/// report.
pub fn apply_reconnect_teleport_request(
    active_start_location: &mut StartLocationIntent,
    reconnect_reason: &mut Option<String>,
    should_reconnect: &mut bool,
    slurl: &str,
    source: &str,
) -> (r: (bool, RelayLine))
    ensures
        r.0 <==> (!*old(should_reconnect) && start_location_of(slurl@) is Ok),
        r.1.category@ == "teleport"@,
        r.1.level == if r.0 {
            RuntimeRelayLevel::Info
        } else {
            RuntimeRelayLevel::Warn
        },
        r.1.message@ == teleport_relay_message(*old(should_reconnect), slurl@, source@),
        r.0 ==> {
            &&& start_location_of(slurl@) == Ok::<IntentView, StartLocationError>(
                final(active_start_location)@,
            )
            &&& final(reconnect_reason)@ matches Some(m) && m@ == "teleporting to "@
                + intent_text(final(active_start_location)@)
            &&& *final(should_reconnect)
        },
        !r.0 ==> {
            &&& *final(active_start_location) == *old(active_start_location)
            &&& *final(reconnect_reason) == *old(reconnect_reason)
            &&& *final(should_reconnect) == *old(should_reconnect)
        },
{
    let mut msg: Vec<char> = Vec::new();
    if *should_reconnect {
        push_str(&mut msg, "teleport request ignored source=");
        push_str(&mut msg, source);
        push_str(&mut msg, " input=");
        push_str(&mut msg, slurl);
        push_str(&mut msg, " reason=reconnect_already_pending");
        let line = RelayLine {
            level: RuntimeRelayLevel::Warn,
            category: "teleport".to_owned(),
            message: string_of(msg.as_slice()),
        };
        return (false, line);
    }
    match normalize_start_location_input(slurl) {
        Ok(start_location) => {
            let target = describe_start_location_intent(&start_location);
            push_str(&mut msg, "reconnect teleport requested source=");
            push_str(&mut msg, source);
            push_str(&mut msg, " input=");
            push_str(&mut msg, slurl);
            push_str(&mut msg, " target=");
            push_str(&mut msg, target.as_str());
            let mut reason: Vec<char> = Vec::new();
            push_str(&mut reason, "teleporting to ");
            push_str(&mut reason, target.as_str());
            *active_start_location = start_location;
            *reconnect_reason = Some(string_of(reason.as_slice()));
            *should_reconnect = true;
            let line = RelayLine {
                level: RuntimeRelayLevel::Info,
                category: "teleport".to_owned(),
                message: string_of(msg.as_slice()),
            };
            (true, line)
        },
        Err(err) => {
            let why = err.message();
            push_str(&mut msg, "teleport request rejected source=");
            push_str(&mut msg, source);
            push_str(&mut msg, " input=");
            push_str(&mut msg, slurl);
            push_str(&mut msg, " reason=");
            push_str(&mut msg, why.as_str());
            let line = RelayLine {
                level: RuntimeRelayLevel::Warn,
                category: "teleport".to_owned(),
                message: string_of(msg.as_slice()),
            };
            (false, line)
        },
    }
}

} // verus!
