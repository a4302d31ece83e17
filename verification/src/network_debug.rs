//! The network debug view: titled sections that keep their last few lines,
//! and the JSON line that the network debug log gets for a relay event.
use vstd::prelude::*;
use crate::numtext::{dec, push_dec};
use crate::session_control::RuntimeRelayLevel;
use crate::text::{chars_of, push_str, string_of};

verus! {

/// How many lines a network debug section keeps.
pub const NETWORK_DEBUG_SECTION_MAX_LINES: usize = 8;

/// A titled section of the network debug view.
#[derive(Debug, Clone, PartialEq, Eq)]
pub struct NetworkDebugSection {
    pub title: String,
    pub lines: Vec<String>,
}

/// The network debug view: its sections, no two with one title.
#[derive(Debug, Clone, PartialEq, Eq)]
pub struct NetworkDebugState {
    pub sections: Vec<NetworkDebugSection>,
}

pub open spec fn line_views(s: Seq<String>) -> Seq<Seq<char>> {
    s.map_values(|l: String| l@)
}

/// The sections as the contracts see them: each title with its lines.
pub open spec fn section_views(s: Seq<NetworkDebugSection>) -> Seq<(Seq<char>, Seq<Seq<char>>)> {
    s.map_values(|sec: NetworkDebugSection| (sec.title@, line_views(sec.lines@)))
}

/// The first section titled `title` at index `i` or later.
pub open spec fn find_section_from(
    s: Seq<(Seq<char>, Seq<Seq<char>>)>,
    title: Seq<char>,
    i: int,
) -> Option<int>
    decreases s.len() - i,
{
    if i < 0 || i >= s.len() {
        None
    } else if s[i].0 == title {
        Some(i)
    } else {
        find_section_from(s, title, i + 1)
    }
}

/// The lines of the section titled `title`; none where there is no such
/// section.
pub open spec fn section_lines(s: Seq<(Seq<char>, Seq<Seq<char>>)>, title: Seq<char>) -> Seq<
    Seq<char>,
> {
    match find_section_from(s, title, 0) {
        Some(k) => s[k].1,
        None => Seq::empty(),
    }
}

/// The sections with those titled `title` given `lines`: the first such
/// section's lines replaced, or a new section appended.
pub open spec fn with_section_lines(
    s: Seq<(Seq<char>, Seq<Seq<char>>)>,
    title: Seq<char>,
    lines: Seq<Seq<char>>,
) -> Seq<(Seq<char>, Seq<Seq<char>>)> {
    match find_section_from(s, title, 0) {
        Some(k) => s.update(k, (title, lines)),
        None => s.push((title, lines)),
    }
}

/// The last lines that a section keeps.
pub open spec fn kept_lines(lines: Seq<Seq<char>>) -> Seq<Seq<char>> {
    if lines.len() > NETWORK_DEBUG_SECTION_MAX_LINES {
        lines.skip(lines.len() - NETWORK_DEBUG_SECTION_MAX_LINES)
    } else {
        lines
    }
}

fn clone_lines(lines: &Vec<String>) -> (r: Vec<String>)
    ensures
        line_views(r@) == line_views(lines@),
{
    let mut r: Vec<String> = Vec::new();
    let mut i: usize = 0;
    while i < lines.len()
        invariant
            i <= lines@.len(),
            line_views(r@) == line_views(lines@).take(i as int),
        decreases lines@.len() - i,
    {
        let ghost before = r@;
        r.push(lines[i].clone());
        assert(line_views(r@) =~= line_views(before).push(lines@[i as int]@));
        assert(line_views(lines@).take(i + 1) =~= line_views(lines@).take(i as int).push(
            lines@[i as int]@,
        ));
        i += 1;
    }
    assert(line_views(lines@).take(lines@.len() as int) =~= line_views(lines@));
    r
}

impl NetworkDebugState {
    /// The index of the first section titled `title`.
    fn find_section(&self, title: &str) -> (r: Option<usize>)
        ensures
            match r {
                Some(k) => k < self.sections@.len() && find_section_from(
                    section_views(self.sections@),
                    title@,
                    0,
                ) == Some(k as int),
                None => find_section_from(section_views(self.sections@), title@, 0) is None,
            },
    {
        let ghost s = section_views(self.sections@);
        let t = title.to_owned();
        let mut i: usize = 0;
        while i < self.sections.len()
            invariant
                i <= self.sections@.len(),
                t@ == title@,
                s == section_views(self.sections@),
                find_section_from(s, title@, 0) == find_section_from(s, title@, i as int),
            decreases self.sections@.len() - i,
        {
            assert(s[i as int].0 == self.sections@[i as int].title@);
            if self.sections[i].title == t {
                return Some(i);
            }
            i += 1;
        }
        None
    }

    /// Gives the section titled `title` these lines: the first such section's
    /// lines are replaced, or a new section is appended.
    pub fn set_section_lines(&mut self, title: &str, lines: Vec<String>)
        ensures
            section_views(final(self).sections@) == with_section_lines(
                section_views(old(self).sections@),
                title@,
                line_views(lines@),
            ),
    {
        let ghost before = self.sections@;
        let section = NetworkDebugSection { title: title.to_owned(), lines };
        match self.find_section(title) {
            Some(k) => {
                self.sections.set(k, section);
                assert(section_views(self.sections@) =~= section_views(before).update(
                    k as int,
                    (title@, line_views(lines@)),
                ));
            },
            None => {
                self.sections.push(section);
                assert(section_views(self.sections@) =~= section_views(before).push(
                    (title@, line_views(lines@)),
                ));
            },
        }
    }
}

/// Appends a line to the section titled `title` (a new section where there
/// is none), keeping its last `NETWORK_DEBUG_SECTION_MAX_LINES` lines.
pub fn append_network_debug_line(debug: &mut NetworkDebugState, title: &str, line: String)
    ensures
        section_views(final(debug).sections@) == with_section_lines(
            section_views(old(debug).sections@),
            title@,
            kept_lines(section_lines(section_views(old(debug).sections@), title@).push(line@)),
        ),
{
    let ghost s = section_views(debug.sections@);
    let mut lines = match debug.find_section(title) {
        Some(k) => clone_lines(&debug.sections[k].lines),
        None => Vec::new(),
    };
    assert(line_views(lines@) == section_lines(s, title@));
    let ghost before = lines@;
    lines.push(line);
    assert(line_views(lines@) =~= line_views(before).push(line@));
    if lines.len() > NETWORK_DEBUG_SECTION_MAX_LINES {
        let keep_from = lines.len() - NETWORK_DEBUG_SECTION_MAX_LINES;
        let ghost full = lines@;
        let tail = lines.split_off(keep_from);
        assert(line_views(tail@) =~= line_views(full).skip(keep_from as int));
        debug.set_section_lines(title, tail);
    } else {
        debug.set_section_lines(title, lines);
    }
}

/// The name a level has in the network debug log.
pub open spec fn level_name(level: RuntimeRelayLevel) -> Seq<char> {
    match level {
        RuntimeRelayLevel::Info => "Info"@,
        RuntimeRelayLevel::Warn => "Warn"@,
    }
}

/// Text with each double quote turned into a single quote.
pub open spec fn quotes_softened(s: Seq<char>) -> Seq<char> {
    s.map_values(|c: char| if c == '"' { '\'' } else { c })
}

fn push_softened(v: &mut Vec<char>, s: &str)
    ensures
        final(v)@ == old(v)@ + quotes_softened(s@),
{
    let cs = chars_of(s);
    let mut i: usize = 0;
    while i < cs.len()
        invariant
            i <= cs@.len(),
            cs@ == s@,
            v@ == old(v)@ + quotes_softened(s@).take(i as int),
        decreases cs@.len() - i,
    {
        let c = cs[i];
        let ghost before = v@;
        if c == '"' {
            v.push('\'');
        } else {
            v.push(c);
        }
        assert(quotes_softened(s@).take(i + 1) =~= quotes_softened(s@).take(i as int).push(
            quotes_softened(s@)[i as int],
        ));
        assert(v@ =~= before.push(quotes_softened(s@)[i as int]));
        i += 1;
    }
    assert(quotes_softened(s@).take(s@.len() as int) =~= quotes_softened(s@));
}

/// The line the network debug log gets for a relay event: a JSON object
/// with its time, level, category and message (double quotes in the last
/// two turned into single quotes), and a newline.
pub fn network_debug_json_line(
    at_unix_ms: u64,
    level: RuntimeRelayLevel,
    category: &str,
    message: &str,
) -> (r: String)
    ensures
        r@ == "{\"ts\":"@ + dec(at_unix_ms as nat) + ",\"level\":\""@ + level_name(level)
            + "\",\"category\":\""@ + quotes_softened(category@) + "\",\"message\":\""@
            + quotes_softened(message@) + "\"}\n"@,
{
    let mut v: Vec<char> = Vec::new();
    push_str(&mut v, "{\"ts\":");
    push_dec(&mut v, at_unix_ms);
    push_str(&mut v, ",\"level\":\"");
    match level {
        RuntimeRelayLevel::Info => push_str(&mut v, "Info"),
        RuntimeRelayLevel::Warn => push_str(&mut v, "Warn"),
    }
    push_str(&mut v, "\",\"category\":\"");
    push_softened(&mut v, category);
    push_str(&mut v, "\",\"message\":\"");
    push_softened(&mut v, message);
    push_str(&mut v, "\"}\n");
    string_of(v.as_slice())
}

} // verus!
