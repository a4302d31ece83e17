//! Text for the network diagnostics panel: the bounded protocol event log
//! and the one-line summaries of indices, message numbers, transcripts, key
//! lists and scalar maps (`none` when there is nothing to show).
use vstd::prelude::*;
use crate::numtext::{dec, hex_lower, push_dec, push_hex_lower};
use crate::text::{chars_eq, chars_of, eq_str, join, join_chars_from, push_all, push_str, string_of};
use crate::texture_cache::{chars_less, seq_lt};

verus! {

/// How many protocol events the log keeps.
pub const MAX_PROTOCOL_EVENTS: usize = 24;

/// Appends an event to the log, first dropping the oldest when the log is full.
pub fn push_protocol_event(events: &mut Vec<String>, entry: String)
    ensures
        final(events)@ == (if old(events)@.len() >= MAX_PROTOCOL_EVENTS {
            old(events)@.drop_first()
        } else {
            old(events)@
        }).push(entry),
{
    if events.len() >= MAX_PROTOCOL_EVENTS {
        events.remove(0);
    }
    events.push(entry);
}

/// `none`, or the pieces joined with `sep`.
pub open spec fn none_or_join(ws: Seq<Seq<char>>, sep: Seq<char>) -> Seq<char> {
    if ws.len() == 0 {
        "none"@
    } else {
        join(ws, sep)
    }
}

/// The big-endian bytes of `v`.
pub open spec fn be_bytes_u32(v: u32) -> Seq<u8> {
    seq![
        (v / 0x100_0000) as u8,
        ((v / 0x1_0000) % 256) as u8,
        ((v / 0x100) % 256) as u8,
        (v % 256) as u8,
    ]
}

/// `0x` and eight lower-case hexadecimal digits of `v` (`{:#010x}`).
pub open spec fn hex8(v: u32) -> Seq<char> {
    seq!['0', 'x'] + hex_lower(be_bytes_u32(v))
}

fn push_hex8(out: &mut Vec<char>, v: u32)
    ensures
        final(out)@ == old(out)@ + hex8(v),
{
    let bytes: [u8; 4] = [
        (v / 0x100_0000) as u8,
        ((v / 0x1_0000) % 256) as u8,
        ((v / 0x100) % 256) as u8,
        (v % 256) as u8,
    ];
    assert(bytes@ =~= be_bytes_u32(v));
    out.push('0');
    out.push('x');
    push_hex_lower(out, &bytes);
    assert(final(out)@ =~= old(out)@ + hex8(v));
}

pub(crate) fn join_or_none(pieces: &Vec<Vec<char>>, sep: &str) -> (r: String)
    ensures
        r@ == none_or_join(pieces@.map_values(|w: Vec<char>| w@), sep@),
{
    if pieces.len() == 0 {
        return "none".to_owned();
    }
    let sep_chars = chars_of(sep);
    let joined = join_chars_from(pieces.as_slice(), 0, sep_chars.as_slice());
    assert(pieces@.map_values(|w: Vec<char>| w@).skip(0) =~= pieces@.map_values(|w: Vec<char>| w@));
    string_of(joined.as_slice())
}

/// An index, or `none`.
pub fn format_optional_index(index: Option<usize>) -> (r: String)
    ensures
        r@ == match index {
            Some(v) => dec(v as nat),
            None => "none"@,
        },
{
    match index {
        Some(v) => {
            let mut out: Vec<char> = Vec::new();
            push_dec(&mut out, v as u64);
            assert(out@ =~= dec(v as nat));
            string_of(out.as_slice())
        },
        None => "none".to_owned(),
    }
}

/// The values in hexadecimal, comma-separated, or `none`.
pub fn format_u32_list_hex(values: &[u32]) -> (r: String)
    ensures
        r@ == none_or_join(values@.map_values(|v: u32| hex8(v)), ","@),
{
    let mut pieces: Vec<Vec<char>> = Vec::new();
    let mut i: usize = 0;
    while i < values.len()
        invariant
            i <= values@.len(),
            pieces@.len() == i,
            forall|j: int| 0 <= j < i ==> #[trigger] pieces@[j]@ == hex8(values@[j]),
        decreases values@.len() - i,
    {
        let mut piece: Vec<char> = Vec::new();
        push_hex8(&mut piece, values[i]);
        assert(piece@ =~= hex8(values@[i as int]));
        pieces.push(piece);
        i += 1;
    }
    assert(pieces@.map_values(|w: Vec<char>| w@) =~= values@.map_values(|v: u32| hex8(v)));
    join_or_none(&pieces, ",")
}

/// A message number and its count: `0x` and eight hex digits, `:`, the count.
pub open spec fn message_count_text(e: (u32, usize)) -> Seq<char> {
    hex8(e.0) + seq![':'] + dec(e.1 as nat)
}

/// The message numbers with their counts, comma-separated, or `none`.
pub fn format_message_number_counts(entries: &[(u32, usize)]) -> (r: String)
    ensures
        r@ == none_or_join(entries@.map_values(|e: (u32, usize)| message_count_text(e)), ","@),
{
    let mut pieces: Vec<Vec<char>> = Vec::new();
    let mut i: usize = 0;
    while i < entries.len()
        invariant
            i <= entries@.len(),
            pieces@.len() == i,
            forall|j: int| 0 <= j < i ==> #[trigger] pieces@[j]@ == message_count_text(entries@[j]),
        decreases entries@.len() - i,
    {
        let (number, count) = entries[i];
        let mut piece: Vec<char> = Vec::new();
        push_hex8(&mut piece, number);
        piece.push(':');
        push_dec(&mut piece, count as u64);
        assert(piece@ =~= message_count_text(entries@[i as int]));
        pieces.push(piece);
        i += 1;
    }
    assert(pieces@.map_values(|w: Vec<char>| w@) =~= entries@.map_values(
        |e: (u32, usize)| message_count_text(e),
    ));
    join_or_none(&pieces, ",")
}

fn text_pieces(items: &[String], limit: usize) -> (r: Vec<Vec<char>>)
    ensures
        r@.map_values(|w: Vec<char>| w@) == items@.take(
            if items@.len() < limit {
                items@.len() as int
            } else {
                limit as int
            },
        ).map_values(|s: String| s@),
{
    let n = if items.len() < limit {
        items.len()
    } else {
        limit
    };
    let mut pieces: Vec<Vec<char>> = Vec::new();
    let mut i: usize = 0;
    while i < n
        invariant
            n <= items@.len(),
            i <= n,
            pieces@.len() == i,
            forall|j: int| 0 <= j < i ==> #[trigger] pieces@[j]@ == items@[j]@,
        decreases n - i,
    {
        pieces.push(chars_of(items[i].as_str()));
        i += 1;
    }
    assert(pieces@.map_values(|w: Vec<char>| w@) =~= items@.take(n as int).map_values(
        |s: String| s@,
    ));
    pieces
}

/// One side of a transcript: its entries separated by ` | `, or `none`.
pub fn format_transcript_side(entries: &[String]) -> (r: String)
    ensures
        r@ == none_or_join(entries@.map_values(|s: String| s@), " | "@),
{
    let pieces = text_pieces(entries, entries.len());
    assert(entries@.take(entries@.len() as int) =~= entries@);
    join_or_none(&pieces, " | ")
}

/// The first eight keys, comma-separated, or `none`.
pub fn summarize_key_list(keys: &[String]) -> (r: String)
    ensures
        r@ == none_or_join(
            keys@.take(
                if keys@.len() < 8 {
                    keys@.len() as int
                } else {
                    8
                },
            ).map_values(|s: String| s@),
            ","@,
        ),
{
    let pieces = text_pieces(keys, 8);
    join_or_none(&pieces, ",")
}

/// A scalar entry: `key=value`.
pub open spec fn scalar_text(e: (String, String)) -> Seq<char> {
    e.0@ + seq!['='] + e.1@
}

/// The first eight entries as `key=value`, separated by `;`, or `none`
/// (entries in key order, as a sorted map walks them).
pub fn summarize_scalar_map(values: &[(String, String)]) -> (r: String)
    ensures
        r@ == none_or_join(
            values@.take(
                if values@.len() < 8 {
                    values@.len() as int
                } else {
                    8
                },
            ).map_values(|e: (String, String)| scalar_text(e)),
            ";"@,
        ),
{
    let n = if values.len() < 8 {
        values.len()
    } else {
        8
    };
    let mut pieces: Vec<Vec<char>> = Vec::new();
    let mut i: usize = 0;
    while i < n
        invariant
            n <= values@.len(),
            i <= n,
            pieces@.len() == i,
            forall|j: int| 0 <= j < i ==> #[trigger] pieces@[j]@ == scalar_text(values@[j]),
        decreases n - i,
    {
        let mut piece = chars_of(values[i].0.as_str());
        piece.push('=');
        push_str(&mut piece, values[i].1.as_str());
        assert(piece@ =~= scalar_text(values@[i as int]));
        pieces.push(piece);
        i += 1;
    }
    assert(pieces@.map_values(|w: Vec<char>| w@) =~= values@.take(n as int).map_values(
        |e: (String, String)| scalar_text(e),
    ));
    join_or_none(&pieces, ";")
}

/// The kind of host a capability URL points at.
#[derive(Debug, Clone, Copy, PartialEq, Eq, Structural)]
pub enum CapabilityUrlFamily {
    SimulatorHost12043,
    SimulatorHost12046,
    AssetCdn,
    BakeTextureCdn,
    MapCdn,
    PhoenixViewer,
    Analytics,
    GenericWeb,
    Unknown,
}

impl CapabilityUrlFamily {
    pub open spec fn label(self) -> Seq<char> {
        match self {
            CapabilityUrlFamily::SimulatorHost12043 => "simhost:12043"@,
            CapabilityUrlFamily::SimulatorHost12046 => "simhost:12046"@,
            CapabilityUrlFamily::AssetCdn => "asset-cdn"@,
            CapabilityUrlFamily::BakeTextureCdn => "bake-texture-cdn"@,
            CapabilityUrlFamily::MapCdn => "map-cdn"@,
            CapabilityUrlFamily::PhoenixViewer => "phoenixviewer"@,
            CapabilityUrlFamily::Analytics => "analytics"@,
            CapabilityUrlFamily::GenericWeb => "generic-web"@,
            CapabilityUrlFamily::Unknown => "unknown"@,
        }
    }
}

/// The label of a capability URL family.
pub fn format_capability_url_family(family: CapabilityUrlFamily) -> (r: &'static str)
    ensures
        r@ == family.label(),
{
    match family {
        CapabilityUrlFamily::SimulatorHost12043 => "simhost:12043",
        CapabilityUrlFamily::SimulatorHost12046 => "simhost:12046",
        CapabilityUrlFamily::AssetCdn => "asset-cdn",
        CapabilityUrlFamily::BakeTextureCdn => "bake-texture-cdn",
        CapabilityUrlFamily::MapCdn => "map-cdn",
        CapabilityUrlFamily::PhoenixViewer => "phoenixviewer",
        CapabilityUrlFamily::Analytics => "analytics",
        CapabilityUrlFamily::GenericWeb => "generic-web",
        CapabilityUrlFamily::Unknown => "unknown",
    }
}

/// What classifying a capability URL found: its family, host and port.
#[derive(Debug, Clone)]
pub struct CapabilityUrlClassification {
    pub family: CapabilityUrlFamily,
    pub host: Option<String>,
    pub port: Option<u16>,
}

/// `family@host:port` (`family@host` without a port; `?` for a missing host).
pub open spec fn classified_url_text(c: CapabilityUrlClassification) -> Seq<char> {
    let host = match c.host {
        Some(h) => h@,
        None => "?"@,
    };
    match c.port {
        Some(p) => c.family.label() + seq!['@'] + host + seq![':'] + dec(p as nat),
        None => c.family.label() + seq!['@'] + host,
    }
}

/// A classified capability URL as text (see [`classified_url_text`]).
pub fn format_classified_url(classification: &CapabilityUrlClassification) -> (r: String)
    ensures
        r@ == classified_url_text(*classification),
{
    let mut out = chars_of(format_capability_url_family(classification.family));
    out.push('@');
    match &classification.host {
        Some(h) => push_str(&mut out, h.as_str()),
        None => {
            out.push('?');
            proof {
                reveal_strlit("?");
            }
        },
    }
    match classification.port {
        Some(p) => {
            out.push(':');
            push_dec(&mut out, p as u64);
        },
        None => {},
    }
    assert(out@ =~= classified_url_text(*classification));
    string_of(out.as_slice())
}

/// The text of `s` before its first `c` (all of it when it has none).
pub open spec fn before_first(s: Seq<char>, c: char) -> Seq<char>
    decreases s.len(),
{
    if s.len() == 0 || s[0] == c {
        seq![]
    } else {
        seq![s[0]] + before_first(s.drop_first(), c)
    }
}

/// `host_family=` and the host's first label (`unknown-host` without a host).
pub open spec fn host_family_tag_text(c: CapabilityUrlClassification) -> Seq<char> {
    "host_family="@ + match c.host {
        Some(h) => before_first(h@, '.'),
        None => "unknown-host"@,
    }
}

/// The text of `host` before its first `.`.
pub(crate) fn first_label(host: &str) -> (r: Vec<char>)
    ensures
        r@ == before_first(host@, '.'),
{
    let hs = chars_of(host);
    let mut out: Vec<char> = Vec::new();
    let mut i: usize = 0;
    assert(hs@.skip(0) =~= hs@);
    assert(hs@.take(0) + hs@ =~= hs@);
    while i < hs.len() && hs[i] != '.'
        invariant
            i <= hs@.len(),
            hs@ == host@,
            out@ == hs@.take(i as int),
            before_first(hs@, '.') == hs@.take(i as int) + before_first(hs@.skip(i as int), '.'),
        decreases hs@.len() - i,
    {
        out.push(hs[i]);
        assert(hs@.skip(i as int)[0] == hs@[i as int]);
        assert(hs@.skip(i as int).drop_first() =~= hs@.skip(i + 1));
        assert(hs@.take(i + 1) =~= hs@.take(i as int) + seq![hs@[i as int]]);
        i += 1;
    }
    proof {
        if i < hs@.len() {
            assert(hs@.skip(i as int)[0] == '.');
        } else {
            assert(hs@.skip(i as int).len() == 0);
        }
        assert(hs@.take(i as int) + seq![] =~= hs@.take(i as int));
    }
    out
}

/// The host-family tag of a classified capability URL (see [`host_family_tag_text`]).
pub fn format_capability_host_family_tag(classification: &CapabilityUrlClassification) -> (r:
    String)
    ensures
        r@ == host_family_tag_text(*classification),
{
    let mut out = chars_of("host_family=");
    match &classification.host {
        Some(h) => {
            let label = first_label(h.as_str());
            push_all(&mut out, label.as_slice());
        },
        None => push_str(&mut out, "unknown-host"),
    }
    assert(out@ =~= host_family_tag_text(*classification));
    string_of(out.as_slice())
}

/// The message number of `RegionHandshakeReply`.
pub const REGION_HANDSHAKE_REPLY_MESSAGE_NUMBER: u32 = 0xFFFF_0095u32;

/// How many sent packets were `RegionHandshakeReply`.
pub open spec fn reply_count(s: Seq<Option<u32>>) -> nat
    decreases s.len(),
{
    if s.len() == 0 {
        0
    } else {
        reply_count(s.drop_last()) + if s.last() == Some(REGION_HANDSHAKE_REPLY_MESSAGE_NUMBER) {
            1nat
        } else {
            0nat
        }
    }
}

/// Where the first `RegionHandshakeReply` was sent.
pub open spec fn first_reply(s: Seq<Option<u32>>) -> Option<int>
    decreases s.len(),
{
    if s.len() == 0 {
        None
    } else if s[0] == Some(REGION_HANDSHAKE_REPLY_MESSAGE_NUMBER) {
        Some(0)
    } else {
        match first_reply(s.drop_first()) {
            Some(i) => Some(i + 1),
            None => None,
        }
    }
}

proof fn lemma_first_reply_extend(s: Seq<Option<u32>>, i: int)
    requires
        0 <= i < s.len(),
        forall|j: int| 0 <= j < i ==> s[j] != Some(REGION_HANDSHAKE_REPLY_MESSAGE_NUMBER),
    ensures
        s[i] == Some(REGION_HANDSHAKE_REPLY_MESSAGE_NUMBER) ==> first_reply(s) == Some(i),
        s[i] != Some(REGION_HANDSHAKE_REPLY_MESSAGE_NUMBER) ==> first_reply(s.take(i + 1)) is None,
    decreases i,
{
    if i > 0 {
        let t = s.drop_first();
        assert forall|j: int| 0 <= j < i - 1 implies t[j] != Some(REGION_HANDSHAKE_REPLY_MESSAGE_NUMBER) by {
            assert(t[j] == s[j + 1]);
        }
        lemma_first_reply_extend(t, i - 1);
        assert(t[i - 1] == s[i]);
        assert(s.take(i + 1).drop_first() =~= t.take(i));
        assert(s.take(i + 1)[0] == s[0]);
        assert(s[0] != Some(REGION_HANDSHAKE_REPLY_MESSAGE_NUMBER));
    } else {
        assert(s.take(1).drop_first() =~= Seq::<Option<u32>>::empty());
        assert(s.take(1)[0] == s[0]);
        assert(first_reply(Seq::<Option<u32>>::empty()) is None);
    }
}

/// How many of the sent packets (by message number) were
/// `RegionHandshakeReply`, and the one-based position of the first.
pub fn summarize_region_handshake_reply_send_evidence(message_numbers: &[Option<u32>]) -> (r: (
    usize,
    Option<usize>,
))
    ensures
        r.0 == reply_count(message_numbers@),
        r.1 == match first_reply(message_numbers@) {
            Some(i) => Some((i + 1) as usize),
            None => None::<usize>,
        },
{
    let ghost s = message_numbers@;
    let mut count: usize = 0;
    let mut first: Option<usize> = None;
    let mut i: usize = 0;
    while i < message_numbers.len()
        invariant
            s == message_numbers@,
            i <= s.len(),
            count == reply_count(s.take(i as int)),
            count <= i,
            first is None ==> forall|j: int| 0 <= j < i ==> s[j] != Some(REGION_HANDSHAKE_REPLY_MESSAGE_NUMBER),
            first is None ==> first_reply(s.take(i as int)) is None,
            first matches Some(f) ==> 1 <= f <= i && first_reply(s) == Some(f - 1),
        decreases s.len() - i,
    {
        assert(s.take(i + 1).drop_last() =~= s.take(i as int));
        if message_numbers[i] == Some(REGION_HANDSHAKE_REPLY_MESSAGE_NUMBER) {
            count = count + 1;
            if first.is_none() {
                proof {
                    lemma_first_reply_extend(s, i as int);
                }
                first = Some(i + 1);
            }
        } else if first.is_none() {
            proof {
                lemma_first_reply_extend(s, i as int);
            }
        }
        i += 1;
    }
    assert(s.take(i as int) =~= s);
    (count, first)
}

/// A capability the seed offered, with its URL's classification.
#[derive(Debug, Clone)]
pub struct SeedCapabilityInventoryEntry {
    pub name: String,
    pub classification: CapabilityUrlClassification,
}

/// The families in the order of their labels.
pub open spec fn families_by_label() -> Seq<CapabilityUrlFamily> {
    seq![
        CapabilityUrlFamily::Analytics,
        CapabilityUrlFamily::AssetCdn,
        CapabilityUrlFamily::BakeTextureCdn,
        CapabilityUrlFamily::GenericWeb,
        CapabilityUrlFamily::MapCdn,
        CapabilityUrlFamily::PhoenixViewer,
        CapabilityUrlFamily::SimulatorHost12043,
        CapabilityUrlFamily::SimulatorHost12046,
        CapabilityUrlFamily::Unknown,
    ]
}

/// How many entries are of `family`.
pub open spec fn family_count(es: Seq<SeedCapabilityInventoryEntry>, family: CapabilityUrlFamily) -> nat
    decreases es.len(),
{
    if es.len() == 0 {
        0
    } else {
        family_count(es.drop_last(), family) + if es.last().classification.family == family {
            1nat
        } else {
            0nat
        }
    }
}

/// `label:count` for each family that occurs, in label order.
pub open spec fn family_counts_text(es: Seq<SeedCapabilityInventoryEntry>, n: int) -> Seq<Seq<char>>
    decreases n,
{
    if n <= 0 {
        seq![]
    } else {
        let f = families_by_label()[n - 1];
        let rest = family_counts_text(es, n - 1);
        if family_count(es, f) > 0 {
            rest.push(f.label() + seq![':'] + dec(family_count(es, f)))
        } else {
            rest
        }
    }
}

/// `name=` and the classified URL.
pub open spec fn inventory_entry_text(e: SeedCapabilityInventoryEntry) -> Seq<char> {
    e.name@ + seq!['='] + classified_url_text(e.classification)
}

/// The seed's capabilities: how many of each family, then each one.
pub open spec fn inventory_text(es: Seq<SeedCapabilityInventoryEntry>) -> Seq<char> {
    if es.len() == 0 {
        "none"@
    } else {
        "families="@ + join(family_counts_text(es, 9), ","@) + " entries="@ + join(
            es.map_values(|e: SeedCapabilityInventoryEntry| inventory_entry_text(e)),
            ";"@,
        )
    }
}

fn family_at(i: usize) -> (r: CapabilityUrlFamily)
    requires
        i < 9,
    ensures
        r == families_by_label()[i as int],
{
    if i == 0 {
        CapabilityUrlFamily::Analytics
    } else if i == 1 {
        CapabilityUrlFamily::AssetCdn
    } else if i == 2 {
        CapabilityUrlFamily::BakeTextureCdn
    } else if i == 3 {
        CapabilityUrlFamily::GenericWeb
    } else if i == 4 {
        CapabilityUrlFamily::MapCdn
    } else if i == 5 {
        CapabilityUrlFamily::PhoenixViewer
    } else if i == 6 {
        CapabilityUrlFamily::SimulatorHost12043
    } else if i == 7 {
        CapabilityUrlFamily::SimulatorHost12046
    } else {
        CapabilityUrlFamily::Unknown
    }
}

fn count_family(entries: &[SeedCapabilityInventoryEntry], family: CapabilityUrlFamily) -> (r: usize)
    ensures
        r == family_count(entries@, family),
{
    let mut n: usize = 0;
    let mut i: usize = 0;
    while i < entries.len()
        invariant
            i <= entries@.len(),
            n == family_count(entries@.take(i as int), family),
            n <= i,
        decreases entries@.len() - i,
    {
        assert(entries@.take(i + 1).drop_last() =~= entries@.take(i as int));
        if entries[i].classification.family == family {
            n = n + 1;
        }
        i += 1;
    }
    assert(entries@.take(i as int) =~= entries@);
    n
}

/// The seed's capabilities: how many of each URL family (in label order),
/// then each capability with its classified URL, or `none`.
pub fn summarize_seed_capability_inventory(entries: &[SeedCapabilityInventoryEntry]) -> (r: String)
    ensures
        r@ == inventory_text(entries@),
{
    if entries.len() == 0 {
        return "none".to_owned();
    }
    let mut counts: Vec<Vec<char>> = Vec::new();
    let mut k: usize = 0;
    while k < 9
        invariant
            k <= 9,
            counts@.map_values(|w: Vec<char>| w@) == family_counts_text(entries@, k as int),
        decreases 9 - k,
    {
        let family = family_at(k);
        let c = count_family(entries, family);
        if c > 0 {
            let mut t = chars_of(format_capability_url_family(family));
            t.push(':');
            push_dec(&mut t, c as u64);
            assert(t@ =~= family.label() + seq![':'] + dec(family_count(entries@, family)));
            let ghost before = counts@.map_values(|w: Vec<char>| w@);
            counts.push(t);
            assert(counts@.map_values(|w: Vec<char>| w@) =~= before.push(t@));
        }
        assert(family_counts_text(entries@, k + 1) == if family_count(entries@, family) > 0 {
            family_counts_text(entries@, k as int).push(
                family.label() + seq![':'] + dec(family_count(entries@, family)),
            )
        } else {
            family_counts_text(entries@, k as int)
        });
        k += 1;
    }
    let mut items: Vec<Vec<char>> = Vec::new();
    let mut i: usize = 0;
    while i < entries.len()
        invariant
            i <= entries@.len(),
            items@.len() == i,
            forall|j: int| 0 <= j < i ==> #[trigger] items@[j]@ == inventory_entry_text(entries@[j]),
        decreases entries@.len() - i,
    {
        let mut t = chars_of(entries[i].name.as_str());
        t.push('=');
        let url = format_classified_url(&entries[i].classification);
        push_str(&mut t, url.as_str());
        assert(t@ =~= inventory_entry_text(entries@[i as int]));
        items.push(t);
        i += 1;
    }
    assert(items@.map_values(|w: Vec<char>| w@) =~= entries@.map_values(
        |e: SeedCapabilityInventoryEntry| inventory_entry_text(e),
    ));
    let comma = chars_of(",");
    let semi = chars_of(";");
    let families = join_chars_from(counts.as_slice(), 0, comma.as_slice());
    let listed = join_chars_from(items.as_slice(), 0, semi.as_slice());
    assert(counts@.map_values(|w: Vec<char>| w@).skip(0) =~= counts@.map_values(|w: Vec<char>| w@));
    assert(items@.map_values(|w: Vec<char>| w@).skip(0) =~= items@.map_values(|w: Vec<char>| w@));
    let mut out = chars_of("families=");
    push_all(&mut out, families.as_slice());
    push_str(&mut out, " entries=");
    push_all(&mut out, listed.as_slice());
    assert(out@ =~= inventory_text(entries@));
    string_of(out.as_slice())
}

/// The capabilities the object feed needs in any case, in name order.
pub open spec fn baseline_cap_names() -> Seq<Seq<char>> {
    seq!["EventQueueGet"@, "InterestList"@, "RegionObjects"@, "UntrustedSimulatorMessage"@]
}

/// The first label of a classified URL's host, or `unknown-host`.
pub open spec fn host_family(c: CapabilityUrlClassification) -> Seq<char> {
    match c.host {
        Some(h) => before_first(h@, '.'),
        None => "unknown-host"@,
    }
}

/// `w` put into the ordered list `ws` of distinct names.
pub open spec fn insert_name(ws: Seq<Seq<char>>, w: Seq<char>) -> Seq<Seq<char>>
    decreases ws.len(),
{
    if ws.len() == 0 {
        seq![w]
    } else if ws[0] == w {
        ws
    } else if seq_lt(w, ws[0]) {
        seq![w] + ws
    } else {
        seq![ws[0]] + insert_name(ws.drop_first(), w)
    }
}

/// The groups, ordered by host family, with `name` added to the group of `host`.
pub open spec fn group_name(gs: Seq<(Seq<char>, Seq<Seq<char>>)>, host: Seq<char>, name: Seq<char>) -> Seq<
    (Seq<char>, Seq<Seq<char>>),
>
    decreases gs.len(),
{
    if gs.len() == 0 {
        seq![(host, seq![name])]
    } else if gs[0].0 == host {
        seq![(host, insert_name(gs[0].1, name))] + gs.drop_first()
    } else if seq_lt(host, gs[0].0) {
        seq![(host, seq![name])] + gs
    } else {
        seq![gs[0]] + group_name(gs.drop_first(), host, name)
    }
}

/// The non-baseline capabilities grouped by host family.
pub open spec fn host_groups(es: Seq<(String, CapabilityUrlClassification)>) -> Seq<(Seq<char>, Seq<Seq<char>>)>
    decreases es.len(),
{
    if es.len() == 0 {
        seq![]
    } else {
        let gs = host_groups(es.drop_last());
        let (name, c) = es.last();
        if baseline_cap_names().contains(name@) {
            gs
        } else {
            group_name(gs, host_family(c), name@)
        }
    }
}

/// One host family's group: its name count, the first names shown and how
/// many more there are.
pub open spec fn host_group_text(g: (Seq<char>, Seq<Seq<char>>), max_per_host: usize) -> Seq<char> {
    let limit: int = if max_per_host < 1 {
        1
    } else {
        max_per_host as int
    };
    let shown = if g.1.len() <= limit {
        g.1
    } else {
        g.1.take(limit)
    };
    g.0 + ":count="@ + dec(g.1.len()) + if shown.len() == 0 {
        " names=none"@
    } else {
        " names="@ + join(shown, ","@) + if g.1.len() > shown.len() {
            " (+"@ + dec((g.1.len() - shown.len()) as nat) + " more)"@
        } else {
            seq![]
        }
    }
}

fn is_baseline(name: &str) -> (r: bool)
    ensures
        r == baseline_cap_names().contains(name@),
{
    let n = chars_of(name);
    let r = eq_str(n.as_slice(), "EventQueueGet") || eq_str(n.as_slice(), "InterestList") || eq_str(
        n.as_slice(),
        "RegionObjects",
    ) || eq_str(n.as_slice(), "UntrustedSimulatorMessage");
    proof {
        let b = baseline_cap_names();
        if b.contains(name@) {
            let i = choose|i: int| 0 <= i < b.len() && b[i] == name@;
            assert(i == 0 || i == 1 || i == 2 || i == 3);
        }
        if r {
            if name@ == "EventQueueGet"@ {
                assert(b[0] == name@);
            } else if name@ == "InterestList"@ {
                assert(b[1] == name@);
            } else if name@ == "RegionObjects"@ {
                assert(b[2] == name@);
            } else {
                assert(b[3] == name@);
            }
        }
    }
    r
}

fn host_family_of(c: &CapabilityUrlClassification) -> (r: Vec<char>)
    ensures
        r@ == host_family(*c),
{
    match &c.host {
        Some(h) => first_label(h.as_str()),
        None => chars_of("unknown-host"),
    }
}

fn insert_name_exec(names: &mut Vec<Vec<char>>, name: &Vec<char>)
    ensures
        final(names)@.map_values(|w: Vec<char>| w@) == insert_name(
            old(names)@.map_values(|w: Vec<char>| w@),
            name@,
        ),
{
    let ghost e0 = names@.map_values(|w: Vec<char>| w@);
    let mut i: usize = 0;
    assert(e0.skip(0) =~= e0);
    while i < names.len() && !(chars_eq(names[i].as_slice(), name.as_slice()) || chars_less(
        name.as_slice(),
        names[i].as_slice(),
    ))
        invariant
            i <= names@.len(),
            e0 == names@.map_values(|w: Vec<char>| w@),
            insert_name(e0, name@) == e0.take(i as int) + insert_name(e0.skip(i as int), name@),
        decreases names@.len() - i,
    {
        assert(e0.skip(i as int)[0] == e0[i as int]);
        assert(e0.skip(i as int).drop_first() =~= e0.skip(i + 1));
        assert(e0.take(i + 1) =~= e0.take(i as int) + seq![e0[i as int]]);
        assert(e0.take(i as int) + insert_name(e0.skip(i as int), name@) =~= e0.take(i + 1)
            + insert_name(e0.skip(i + 1), name@));
        i += 1;
    }
    if i < names.len() && chars_eq(names[i].as_slice(), name.as_slice()) {
        assert(e0.skip(i as int)[0] == e0[i as int]);
        assert(e0.take(i as int) + e0.skip(i as int) =~= e0);
        return;
    }
    let ghost old_names = names@;
    names.insert(i, name.clone());
    proof {
        if i < old_names.len() {
            assert(e0.skip(i as int)[0] == e0[i as int]);
        } else {
            assert(e0.skip(i as int) =~= Seq::<Seq<char>>::empty());
        }
        assert(names@.map_values(|w: Vec<char>| w@) =~= e0.take(i as int) + seq![name@] + e0.skip(
            i as int,
        ));
    }
}

pub open spec fn groups_view(gs: Seq<(Vec<char>, Vec<Vec<char>>)>) -> Seq<(Seq<char>, Seq<Seq<char>>)> {
    gs.map_values(|g: (Vec<char>, Vec<Vec<char>>)| (g.0@, g.1@.map_values(|w: Vec<char>| w@)))
}

fn group_name_exec(groups: &mut Vec<(Vec<char>, Vec<Vec<char>>)>, host: Vec<char>, name: &Vec<char>)
    ensures
        groups_view(final(groups)@) == group_name(groups_view(old(groups)@), host@, name@),
{
    let ghost e0 = groups_view(groups@);
    let mut i: usize = 0;
    assert(e0.skip(0) =~= e0);
    while i < groups.len() && !(chars_eq(groups[i].0.as_slice(), host.as_slice()) || chars_less(
        host.as_slice(),
        groups[i].0.as_slice(),
    ))
        invariant
            i <= groups@.len(),
            e0 == groups_view(groups@),
            group_name(e0, host@, name@) == e0.take(i as int) + group_name(e0.skip(i as int), host@, name@),
        decreases groups@.len() - i,
    {
        assert(e0.skip(i as int)[0] == e0[i as int]);
        assert(e0.skip(i as int).drop_first() =~= e0.skip(i + 1));
        assert(e0.take(i + 1) =~= e0.take(i as int) + seq![e0[i as int]]);
        assert(e0.take(i as int) + group_name(e0.skip(i as int), host@, name@) =~= e0.take(i + 1)
            + group_name(e0.skip(i + 1), host@, name@));
        i += 1;
    }
    if i < groups.len() && chars_eq(groups[i].0.as_slice(), host.as_slice()) {
        assert(e0.skip(i as int)[0] == e0[i as int]);
        assert(e0.skip(i as int).drop_first() =~= e0.skip(i + 1));
        let (h, mut names) = groups.remove(i);
        insert_name_exec(&mut names, name);
        groups.insert(i, (h, names));
        assert(groups_view(groups@) =~= group_name(e0, host@, name@));
    } else {
        let ghost old_groups = groups@;
        let mut names: Vec<Vec<char>> = Vec::new();
        let copy = name.clone();
        assert(copy@ =~= name@);
        names.push(copy);
        assert(names@.map_values(|w: Vec<char>| w@) =~= seq![name@]);
        let ghost hv = host@;
        groups.insert(i, (host, names));
        proof {
            assert(groups@[i as int].0@ == hv);
            assert(groups_view(groups@) =~= e0.take(i as int) + seq![(hv, seq![name@])] + e0.skip(i as int));
            if i < old_groups.len() {
                assert(e0.skip(i as int)[0] == e0[i as int]);
            } else {
                assert(e0.skip(i as int) =~= Seq::<(Seq<char>, Seq<Seq<char>>)>::empty());
            }
            assert(groups_view(groups@) =~= group_name(e0, host@, name@));
        }
    }
}

fn host_group_text_exec(host: &Vec<char>, names: &Vec<Vec<char>>, max_per_host: usize) -> (r: Vec<char>)
    ensures
        r@ == host_group_text((host@, names@.map_values(|w: Vec<char>| w@)), max_per_host),
{
    let ghost nv = names@.map_values(|w: Vec<char>| w@);
    let limit: usize = if max_per_host < 1 {
        1
    } else {
        max_per_host
    };
    let shown_len: usize = if names.len() <= limit {
        names.len()
    } else {
        limit
    };
    let mut out = host.clone();
    push_str(&mut out, ":count=");
    push_dec(&mut out, names.len() as u64);
    let ghost shown = if nv.len() <= limit {
        nv
    } else {
        nv.take(limit as int)
    };
    assert(shown =~= nv.take(shown_len as int));
    if shown_len == 0 {
        push_str(&mut out, " names=none");
    } else {
        push_str(&mut out, " names=");
        let mut shown_pieces: Vec<Vec<char>> = Vec::new();
        let mut i: usize = 0;
        while i < shown_len
            invariant
                shown_len <= names@.len(),
                nv == names@.map_values(|w: Vec<char>| w@),
                i <= shown_len,
                shown_pieces@.len() == i,
                forall|j: int| 0 <= j < i ==> #[trigger] shown_pieces@[j]@ == nv[j],
            decreases shown_len - i,
        {
            shown_pieces.push(names[i].clone());
            i += 1;
        }
        assert(shown_pieces@.map_values(|w: Vec<char>| w@) =~= shown);
        let comma = chars_of(",");
        let joined = join_chars_from(shown_pieces.as_slice(), 0, comma.as_slice());
        assert(shown_pieces@.map_values(|w: Vec<char>| w@).skip(0) =~= shown);
        push_all(&mut out, joined.as_slice());
        if names.len() > shown_len {
            push_str(&mut out, " (+");
            push_dec(&mut out, (names.len() - shown_len) as u64);
            push_str(&mut out, " more)");
        }
    }
    assert(out@ =~= host_group_text((host@, nv), max_per_host));
    out
}

/// The capabilities beyond the baseline, grouped by host family in order:
/// each group's count, its first `max_per_host` (at least one) names in
/// order and how many more, separated by `; `, or `none` (entries in name
/// order, as a sorted map walks them).
pub fn summarize_non_baseline_caps_by_host(
    entries: &[(String, CapabilityUrlClassification)],
    max_per_host: usize,
) -> (r: String)
    ensures
        r@ == none_or_join(
            host_groups(entries@).map_values(
                |g: (Seq<char>, Seq<Seq<char>>)| host_group_text(g, max_per_host),
            ),
            "; "@,
        ),
{
    let mut groups: Vec<(Vec<char>, Vec<Vec<char>>)> = Vec::new();
    let mut i: usize = 0;
    assert(groups_view(groups@) =~= host_groups(entries@.take(0)));
    while i < entries.len()
        invariant
            i <= entries@.len(),
            groups_view(groups@) == host_groups(entries@.take(i as int)),
        decreases entries@.len() - i,
    {
        assert(entries@.take(i + 1).drop_last() =~= entries@.take(i as int));
        assert(entries@.take(i + 1).last() == entries@[i as int]);
        if !is_baseline(entries[i].0.as_str()) {
            let host = host_family_of(&entries[i].1);
            let name = chars_of(entries[i].0.as_str());
            group_name_exec(&mut groups, host, &name);
        }
        i += 1;
    }
    assert(entries@.take(i as int) =~= entries@);
    let ghost gv = groups_view(groups@);
    let mut pieces: Vec<Vec<char>> = Vec::new();
    let mut k: usize = 0;
    while k < groups.len()
        invariant
            k <= groups@.len(),
            gv == groups_view(groups@),
            pieces@.len() == k,
            forall|j: int| 0 <= j < k ==> #[trigger] pieces@[j]@ == host_group_text(gv[j], max_per_host),
        decreases groups@.len() - k,
    {
        pieces.push(host_group_text_exec(&groups[k].0, &groups[k].1, max_per_host));
        k += 1;
    }
    assert(pieces@.map_values(|w: Vec<char>| w@) =~= gv.map_values(
        |g: (Seq<char>, Seq<Seq<char>>)| host_group_text(g, max_per_host),
    ));
    join_or_none(&pieces, "; ")
}

/// First-simulator start-up milestones: the packet indices of the first
/// AgentMovementComplete, object update, RegionHandshake,
/// RegionHandshakeReply, PacketAck, camera constraint and generic message.
#[derive(Debug, Clone, Copy, PartialEq, Eq, Default)]
pub struct StartupTimelineIndices {
    pub first_agent_movement_complete_index: Option<usize>,
    pub first_object_update_index: Option<usize>,
    pub first_region_handshake_index: Option<usize>,
    pub first_region_handshake_reply_index: Option<usize>,
    pub first_packet_ack_index: Option<usize>,
    pub first_camera_constraint_index: Option<usize>,
    pub first_generic_message_index: Option<usize>,
}

/// How often region-transition control messages were seen: in all, and
/// CrossedRegion and the simulator-enable confirmations among them.
#[derive(Debug, Clone, Copy, PartialEq, Eq, Default)]
pub struct RegionTransitionCounts {
    pub observations: usize,
    pub crossed_region: usize,
    pub confirm_enable_simulator: usize,
}

/// What the event queue has seen so far.
#[derive(Debug, Clone, Copy, PartialEq, Eq, Default)]
pub struct EventQueueEvidence {
    pub has_observed_ok: bool,
    pub consecutive_failures: u32,
    pub cap_not_found_failures: u32,
    pub simulator_target_messages: usize,
    pub enable_simulator_messages: usize,
}

/// Whether the session is the root agent on the region, a child agent, or
/// degraded, with the evidence for the judgement.
#[derive(Debug, Clone, PartialEq, Eq)]
pub struct SessionResidencyClassification {
    pub state: &'static str,
    pub evidence: Vec<String>,
}

pub open spec fn bool_text(b: bool) -> Seq<char> {
    if b {
        "true"@
    } else {
        "false"@
    }
}

pub open spec fn index_text(index: Option<usize>) -> Seq<char> {
    match index {
        Some(v) => dec(v as nat),
        None => "none"@,
    }
}

/// The residency state: `degraded` after any event-queue failure;
/// `child_likely` once a region crossing, a simulator confirmation or an
/// EnableSimulator was seen; `root_likely` once movement completed, the
/// region handshake arrived and the event queue answered; else `unknown`.
pub open spec fn residency_state(
    timeline: StartupTimelineIndices,
    region: RegionTransitionCounts,
    eq: EventQueueEvidence,
) -> Seq<char> {
    if eq.consecutive_failures > 0 || eq.cap_not_found_failures > 0 {
        "degraded"@
    } else if region.crossed_region > 0 || region.confirm_enable_simulator > 0
        || eq.enable_simulator_messages > 0 {
        "child_likely"@
    } else if timeline.first_agent_movement_complete_index is Some
        && timeline.first_region_handshake_index is Some && eq.has_observed_ok {
        "root_likely"@
    } else {
        "unknown"@
    }
}

/// The evidence lines, `name=value`, in a fixed order.
pub open spec fn residency_evidence(
    timeline: StartupTimelineIndices,
    region: RegionTransitionCounts,
    eq: EventQueueEvidence,
) -> Seq<Seq<char>> {
    seq![
        "amc="@ + index_text(timeline.first_agent_movement_complete_index),
        "region_handshake="@ + index_text(timeline.first_region_handshake_index),
        "region_handshake_reply="@ + index_text(timeline.first_region_handshake_reply_index),
        "eq_ok="@ + bool_text(eq.has_observed_ok),
        "eq_failures="@ + dec(eq.consecutive_failures as nat),
        "eq_cap_not_found="@ + dec(eq.cap_not_found_failures as nat),
        "eq_sim_targets="@ + dec(eq.simulator_target_messages as nat),
        "eq_enable_simulator="@ + dec(eq.enable_simulator_messages as nat),
        "region_crossed="@ + dec(region.crossed_region as nat),
        "region_confirm_enable="@ + dec(region.confirm_enable_simulator as nat),
    ]
}

fn labeled_dec(label: &str, n: u64) -> (r: String)
    ensures
        r@ == label@ + dec(n as nat),
{
    let mut out: Vec<char> = Vec::new();
    push_str(&mut out, label);
    push_dec(&mut out, n);
    string_of(out.as_slice())
}

fn labeled_text(label: &str, text: &str) -> (r: String)
    ensures
        r@ == label@ + text@,
{
    let mut out: Vec<char> = Vec::new();
    push_str(&mut out, label);
    push_str(&mut out, text);
    string_of(out.as_slice())
}

fn labeled_index(label: &str, index: Option<usize>) -> (r: String)
    ensures
        r@ == label@ + index_text(index),
{
    match index {
        Some(v) => labeled_dec(label, v as u64),
        None => labeled_text(label, "none"),
    }
}

/// Judges whether the session is resident on its region as root or child
/// agent (see [`residency_state`] and [`residency_evidence`]).
pub fn classify_session_residency(
    timeline: &StartupTimelineIndices,
    region: &RegionTransitionCounts,
    event_queue: &EventQueueEvidence,
) -> (r: SessionResidencyClassification)
    ensures
        r.state@ == residency_state(*timeline, *region, *event_queue),
        r.evidence@.map_values(|e: String| e@) == residency_evidence(*timeline, *region, *event_queue),
{
    let mut evidence: Vec<String> = Vec::new();
    evidence.push(labeled_index("amc=", timeline.first_agent_movement_complete_index));
    evidence.push(labeled_index("region_handshake=", timeline.first_region_handshake_index));
    evidence.push(
        labeled_index("region_handshake_reply=", timeline.first_region_handshake_reply_index),
    );
    evidence.push(
        labeled_text(
            "eq_ok=",
            if event_queue.has_observed_ok {
                "true"
            } else {
                "false"
            },
        ),
    );
    evidence.push(labeled_dec("eq_failures=", event_queue.consecutive_failures as u64));
    evidence.push(labeled_dec("eq_cap_not_found=", event_queue.cap_not_found_failures as u64));
    evidence.push(labeled_dec("eq_sim_targets=", event_queue.simulator_target_messages as u64));
    evidence.push(
        labeled_dec("eq_enable_simulator=", event_queue.enable_simulator_messages as u64),
    );
    evidence.push(labeled_dec("region_crossed=", region.crossed_region as u64));
    evidence.push(labeled_dec("region_confirm_enable=", region.confirm_enable_simulator as u64));
    let state = if event_queue.consecutive_failures > 0 || event_queue.cap_not_found_failures > 0 {
        "degraded"
    } else if region.crossed_region > 0 || region.confirm_enable_simulator > 0
        || event_queue.enable_simulator_messages > 0 {
        "child_likely"
    } else if timeline.first_agent_movement_complete_index.is_some()
        && timeline.first_region_handshake_index.is_some() && event_queue.has_observed_ok {
        "root_likely"
    } else {
        "unknown"
    };
    assert(evidence@.map_values(|e: String| e@) =~= residency_evidence(*timeline, *region, *event_queue));
    SessionResidencyClassification { state, evidence }
}

/// One fetch attempt for a mesh, as the attempt line reports it: the
/// family of the URL tried, the range asked for, the HTTP status (none on a
/// transport error), the bucket the status and body were classified into,
/// and the error.
#[derive(Debug, Clone, PartialEq, Eq)]
pub struct AssetFetchAttemptSummary {
    pub url_family: CapabilityUrlFamily,
    pub range_header: Option<String>,
    pub status: Option<u16>,
    pub status_bucket: Option<String>,
    pub error: Option<String>,
}

pub open spec fn text_or(s: Option<String>, default: Seq<char>) -> Seq<char> {
    match s {
        Some(t) => t@,
        None => default,
    }
}

pub open spec fn suffix_if(s: Option<String>, label: Seq<char>) -> Seq<char> {
    match s {
        Some(t) => label + t@,
        None => seq![],
    }
}

/// The attempt line for a mesh fetch: the id, the level of detail, the
/// capability and URL variant of the candidate (`unknown` without one), the
/// URL family, the range (`none`), the status (`transport_error`), and the
/// bucket and error when there are any.
pub open spec fn mesh_fetch_attempt_text(
    id: Seq<char>,
    lod: u32,
    candidate: Option<crate::capability::MeshCapabilityRequestCandidate>,
    attempt: AssetFetchAttemptSummary,
) -> Seq<char> {
    let (cap, variant) = match candidate {
        Some(c) => (c.capability_name@, c.url_variant@),
        None => ("unknown"@, "unknown"@),
    };
    "attempt id="@ + id + " lod="@ + dec(lod as nat) + " cap="@ + cap + " family="@
        + attempt.url_family.label() + " url_variant="@ + variant + " range="@ + text_or(
        attempt.range_header,
        "none"@,
    ) + " status="@ + match attempt.status {
        Some(s) => dec(s as nat),
        None => "transport_error"@,
    } + suffix_if(attempt.status_bucket, " bucket="@) + suffix_if(attempt.error, " error="@)
}

fn push_opt(out: &mut Vec<char>, s: &Option<String>, default: &str)
    ensures
        final(out)@ == old(out)@ + text_or(*s, default@),
{
    match s {
        Some(t) => push_str(out, t.as_str()),
        None => push_str(out, default),
    }
}

fn push_suffix(out: &mut Vec<char>, s: &Option<String>, label: &str)
    ensures
        final(out)@ == old(out)@ + suffix_if(*s, label@),
{
    match s {
        Some(t) => {
            push_str(out, label);
            push_str(out, t.as_str());
        },
        None => {
            assert(old(out)@ + seq![] =~= old(out)@);
        },
    }
}

/// The diagnostics line for one mesh fetch attempt (see
/// [`mesh_fetch_attempt_text`]).
pub fn format_mesh_fetch_attempt_line(
    id: &str,
    lod: u32,
    candidate: Option<&crate::capability::MeshCapabilityRequestCandidate>,
    attempt: &AssetFetchAttemptSummary,
) -> (r: String)
    ensures
        r@ == mesh_fetch_attempt_text(
            id@,
            lod,
            match candidate {
                Some(c) => Some(*c),
                None => None,
            },
            *attempt,
        ),
{
    let mut out: Vec<char> = Vec::new();
    push_str(&mut out, "attempt id=");
    push_str(&mut out, id);
    push_str(&mut out, " lod=");
    push_dec(&mut out, lod as u64);
    push_str(&mut out, " cap=");
    match candidate {
        Some(c) => push_str(&mut out, c.capability_name.as_str()),
        None => push_str(&mut out, "unknown"),
    }
    push_str(&mut out, " family=");
    push_str(&mut out, format_capability_url_family(attempt.url_family));
    push_str(&mut out, " url_variant=");
    match candidate {
        Some(c) => push_str(&mut out, c.url_variant.as_str()),
        None => push_str(&mut out, "unknown"),
    }
    push_str(&mut out, " range=");
    push_opt(&mut out, &attempt.range_header, "none");
    push_str(&mut out, " status=");
    match attempt.status {
        Some(s) => push_dec(&mut out, s as u64),
        None => push_str(&mut out, "transport_error"),
    }
    push_suffix(&mut out, &attempt.status_bucket, " bucket=");
    push_suffix(&mut out, &attempt.error, " error=");
    string_of(out.as_slice())
}

/// The two parallel-protocol relay lines, each starting with `label`: the
/// capability inventory, then the flow (the event queue's classified URL or
/// `none`, the ack, the failures, the region-control counts and the protocol
/// events separated by ` | `).
pub open spec fn parallel_protocol_lines(
    label: Seq<char>,
    capability_inventory: Seq<char>,
    protocol_events: Seq<String>,
    event_queue: Option<CapabilityUrlClassification>,
    event_ack: u64,
    event_queue_consecutive_failures: u32,
    region: RegionTransitionCounts,
) -> Seq<Seq<char>> {
    seq![
        label + " caps: "@ + capability_inventory,
        label + " flow: event_queue_url="@ + match event_queue {
            Some(c) => classified_url_text(c),
            None => "none"@,
        } + " event_ack="@ + dec(event_ack as nat) + " eq_failures="@ + dec(
            event_queue_consecutive_failures as nat,
        ) + " region_ctrl="@ + dec(region.observations as nat) + " crossed="@ + dec(
            region.crossed_region as nat,
        ) + " confirm="@ + dec(region.confirm_enable_simulator as nat) + " events="@ + none_or_join(
            protocol_events.map_values(|s: String| s@),
            " | "@,
        ),
    ]
}

/// The parallel-protocol summary as the relay reports it (see
/// [`parallel_protocol_lines`]).
pub fn parallel_protocol_summary(
    label: &str,
    capability_inventory: &str,
    protocol_events: &[String],
    event_queue: Option<&CapabilityUrlClassification>,
    event_ack: u64,
    event_queue_consecutive_failures: u32,
    region: &RegionTransitionCounts,
) -> (r: Vec<String>)
    ensures
        r@.map_values(|s: String| s@) == parallel_protocol_lines(
            label@,
            capability_inventory@,
            protocol_events@,
            match event_queue {
                Some(c) => Some(*c),
                None => None,
            },
            event_ack,
            event_queue_consecutive_failures,
            *region,
        ),
{
    let mut a: Vec<char> = Vec::new();
    push_str(&mut a, label);
    push_str(&mut a, " caps: ");
    push_str(&mut a, capability_inventory);
    let mut b: Vec<char> = Vec::new();
    push_str(&mut b, label);
    push_str(&mut b, " flow: event_queue_url=");
    match event_queue {
        Some(c) => {
            let t = format_classified_url(c);
            push_str(&mut b, t.as_str());
        },
        None => push_str(&mut b, "none"),
    }
    push_str(&mut b, " event_ack=");
    push_dec(&mut b, event_ack);
    push_str(&mut b, " eq_failures=");
    push_dec(&mut b, event_queue_consecutive_failures as u64);
    push_str(&mut b, " region_ctrl=");
    push_dec(&mut b, region.observations as u64);
    push_str(&mut b, " crossed=");
    push_dec(&mut b, region.crossed_region as u64);
    push_str(&mut b, " confirm=");
    push_dec(&mut b, region.confirm_enable_simulator as u64);
    push_str(&mut b, " events=");
    let t = format_transcript_side(protocol_events);
    push_str(&mut b, t.as_str());
    let mut r: Vec<String> = Vec::new();
    r.push(string_of(a.as_slice()));
    r.push(string_of(b.as_slice()));
    assert(r@.map_values(|s: String| s@) =~= parallel_protocol_lines(
        label@,
        capability_inventory@,
        protocol_events@,
        match event_queue {
            Some(c) => Some(*c),
            None => None,
        },
        event_ack,
        event_queue_consecutive_failures,
        *region,
    ));
    r
}

} // verus!
