//! Start locations: `home`, `last`, login URIs and SLURLs
//! (`secondlife://Region/x/y/z` and the map-site form), normalised to the
//! `uri:Region&x&y&z` form that the login request takes.
use vstd::prelude::*;
use vstd::string::StringSliceAdditionalSpecFns;
use vstd::utf8::{decode_utf8, encode_utf8, valid_utf8};
use crate::capability::trim_end_slashes;
use crate::numtext::{int_dec, parse_i32, parse_i32_exec, push_i32_dec};
use crate::text::{
    chars_of, eq_str, find, find_exec, occurs_at, lower, lowercase, push_all, push_str, slice_chars,
    starts_with, starts_with_exec, string_of, trim, trimmed,
};

verus! {

#[derive(Debug, Clone, Copy, PartialEq, Eq, Structural)]
pub enum StartLocation {
    Home,
    Last,
}

/// Where the login asks to start: a saved location, or a login URI.
#[derive(Debug, Clone, PartialEq, Eq)]
pub enum StartLocationIntent {
    Saved(StartLocation),
    Uri(String),
}

/// A start location as the contracts speak of it.
pub enum IntentView {
    Saved(StartLocation),
    Uri(Seq<char>),
}

impl View for StartLocationIntent {
    type V = IntentView;

    open spec fn view(&self) -> IntentView {
        match self {
            StartLocationIntent::Saved(l) => IntentView::Saved(*l),
            StartLocationIntent::Uri(u) => IntentView::Uri(u@),
        }
    }
}

/// Why a start location was refused.
#[derive(Debug, Clone, Copy, PartialEq, Eq, Structural)]
pub enum StartLocationError {
    Empty,
    UnsupportedFormat,
}

impl StartLocationError {
    pub open spec fn spec_message(self) -> Seq<char> {
        match self {
            StartLocationError::Empty => "empty start location"@,
            StartLocationError::UnsupportedFormat => "unsupported SLURL/start-location format"@,
        }
    }

    /// The message shown for the error.
    pub fn message(&self) -> (r: String)
        ensures
            r@ == self.spec_message(),
    {
        match self {
            StartLocationError::Empty => "empty start location".to_owned(),
            StartLocationError::UnsupportedFormat => "unsupported SLURL/start-location format".to_owned(),
        }
    }
}

/// The value of an ASCII hexadecimal digit.
pub open spec fn hex_val(b: u8) -> Option<u8> {
    if 48 <= b <= 57 {
        Some((b - 48) as u8)
    } else if 97 <= b <= 102 {
        Some((b - 97 + 10) as u8)
    } else if 65 <= b <= 70 {
        Some((b - 65 + 10) as u8)
    } else {
        None
    }
}

pub fn decode_hex_digit(byte: u8) -> (r: Option<u8>)
    ensures
        r == hex_val(byte),
{
    if 48 <= byte && byte <= 57 {
        Some(byte - 48)
    } else if 97 <= byte && byte <= 102 {
        Some(byte - 97 + 10)
    } else if 65 <= byte && byte <= 70 {
        Some(byte - 65 + 10)
    } else {
        None
    }
}

/// Percent-decoding of bytes: `%` and two hexadecimal digits give one byte
/// (`None` when a digit is not hexadecimal), `+` gives a space, and a `%`
/// without two bytes after it stays as it is.
pub open spec fn pct_decode(b: Seq<u8>) -> Option<Seq<u8>>
    decreases b.len(),
{
    if b.len() == 0 {
        Some(seq![])
    } else if b[0] == 37 && b.len() > 2 {
        match (hex_val(b[1]), hex_val(b[2]), pct_decode(b.skip(3))) {
            (Some(h), Some(l), Some(rest)) => Some(seq![(h * 16 + l) as u8] + rest),
            _ => None,
        }
    } else {
        match pct_decode(b.skip(1)) {
            Some(rest) => Some(seq![if b[0] == 43 {
                32u8
            } else {
                b[0]
            }] + rest),
            None => None,
        }
    }
}

/// A percent-decoded component, when the decoded bytes are valid UTF-8.
pub open spec fn percent_decoded(v: Seq<char>) -> Option<Seq<char>> {
    match pct_decode(encode_utf8(v)) {
        Some(b) => if valid_utf8(b) {
            Some(decode_utf8(b))
        } else {
            None
        },
        None => None,
    }
}

/// `String::from_utf8`: the text the bytes encode, when they are valid UTF-8.
#[verifier::external_body]
pub(crate) fn string_from_utf8(bytes: Vec<u8>) -> (r: Option<String>)
    ensures
        r is Some <==> valid_utf8(bytes@),
        r matches Some(s) ==> s@ == decode_utf8(bytes@),
{
    String::from_utf8(bytes).ok()
}

pub fn percent_decode_component(value: &str) -> (r: Option<String>)
    ensures
        match r {
            Some(s) => percent_decoded(value@) == Some(s@),
            None => percent_decoded(value@) is None,
        },
{
    let bytes = value.as_bytes();
    let ghost b = bytes@;
    let n = bytes.len();
    let mut decoded: Vec<u8> = Vec::new();
    let mut idx: usize = 0;
    assert(b.skip(0) =~= b);
    while idx < n
        invariant
            n == b.len(),
            b == bytes@,
            b == value.spec_bytes(),
            idx <= n,
            pct_decode(b) == match pct_decode(b.skip(idx as int)) {
                Some(rest) => Some(decoded@ + rest),
                None => None,
            },
        decreases n - idx,
    {
        let ghost rest = b.skip(idx as int);
        let byte = bytes[idx];
        assert(rest.len() == n - idx && rest[0] == byte);
        if byte == 37 && n - idx > 2 {
            assert(rest[1] == bytes@[idx + 1] && rest[2] == bytes@[idx + 2]);
            assert(rest.skip(3) =~= b.skip(idx + 3));
            let hi = match decode_hex_digit(bytes[idx + 1]) {
                Some(h) => h,
                None => {
                    assert(pct_decode(rest) is None);
                    return None;
                },
            };
            let lo = match decode_hex_digit(bytes[idx + 2]) {
                Some(l) => l,
                None => {
                    assert(pct_decode(rest) is None);
                    return None;
                },
            };
            assert(hi * 16 + lo < 256);
            let ghost before = decoded@;
            decoded.push(hi * 16 + lo);
            proof {
                match pct_decode(b.skip(idx + 3)) {
                    Some(r2) => {
                        assert(pct_decode(rest) == Some(seq![(hi * 16 + lo) as u8] + r2));
                        assert(before + (seq![(hi * 16 + lo) as u8] + r2) =~= decoded@ + r2);
                    },
                    None => {
                        assert(pct_decode(rest) is None);
                    },
                }
            }
            idx += 3;
        } else {
            assert(rest.skip(1) =~= b.skip(idx + 1));
            let out = if byte == 43 {
                32u8
            } else {
                byte
            };
            let ghost before = decoded@;
            decoded.push(out);
            proof {
                match pct_decode(b.skip(idx + 1)) {
                    Some(r2) => {
                        assert(pct_decode(rest) == Some(seq![out] + r2));
                        assert(before + (seq![out] + r2) =~= decoded@ + r2);
                    },
                    None => {
                        assert(pct_decode(rest) is None);
                    },
                }
            }
            idx += 1;
        }
    }
    assert(b.skip(n as int) =~= seq![]);
    assert(decoded@ + seq![] =~= decoded@);
    string_from_utf8(decoded)
}

/// A percent-decoded path segment read as an `i32`.
pub open spec fn i32_segment(v: Seq<char>) -> Option<i32> {
    match percent_decoded(v) {
        Some(d) => parse_i32(d),
        None => None,
    }
}

pub fn parse_i32_segment(value: &str) -> (r: Option<i32>)
    ensures
        r == i32_segment(value@),
{
    let decoded = match percent_decode_component(value) {
        Some(d) => d,
        None => return None,
    };
    let c = chars_of(decoded.as_str());
    parse_i32_exec(c.as_slice())
}

/// `s` without its leading slashes.
pub open spec fn trim_start_slashes(s: Seq<char>) -> Seq<char>
    decreases s.len(),
{
    if s.len() > 0 && s[0] == '/' {
        trim_start_slashes(s.drop_first())
    } else {
        s
    }
}

/// `s` without slashes at either end (`trim_matches('/')`).
pub open spec fn strip_slashes(s: Seq<char>) -> Seq<char> {
    trim_end_slashes(trim_start_slashes(s))
}

/// The index of the first `?` or `#` in `s`, or its length when it has none.
pub open spec fn first_cut(s: Seq<char>) -> nat
    decreases s.len(),
{
    if s.len() == 0 || s[0] == '?' || s[0] == '#' {
        0
    } else {
        1 + first_cut(s.drop_first())
    }
}

/// The pieces of `s` between the occurrences of `c` (`str::split`).
pub open spec fn split_char(s: Seq<char>, c: char) -> Seq<Seq<char>>
    decreases s.len(),
{
    if s.len() == 0 {
        seq![seq![]]
    } else {
        let p = split_char(s.drop_last(), c);
        if s.last() == c {
            p.push(seq![])
        } else {
            p.update(p.len() - 1, p.last().push(s.last()))
        }
    }
}

/// The non-empty `/`-separated segments of `s`.
pub open spec fn segments(s: Seq<char>) -> Seq<Seq<char>> {
    split_char(s, '/').filter(|p: Seq<char>| p.len() > 0)
}

/// Segment `k` read as a coordinate, or `default` when it is missing or unreadable.
pub open spec fn coord(segs: Seq<Seq<char>>, k: int, default: i32) -> i32 {
    if k < segs.len() {
        match i32_segment(segs[k]) {
            Some(v) => v,
            None => default,
        }
    } else {
        default
    }
}

/// The region and coordinates in the tail of a location URL: the first
/// segment, percent-decoded, then x and y (default 128) and z (default 0).
pub open spec fn location_tail(tail: Seq<char>) -> Option<(Seq<char>, i32, i32, i32)> {
    let t = strip_slashes(tail);
    if t.len() == 0 {
        None
    } else {
        let segs = segments(t.take(first_cut(t) as int));
        if segs.len() == 0 {
            None
        } else {
            match percent_decoded(segs[0]) {
                Some(region) => Some(
                    (region, coord(segs, 1, 128), coord(segs, 2, 128), coord(segs, 3, 0)),
                ),
                None => None,
            }
        }
    }
}

fn strip_slashes_exec(s: &[char]) -> (r: Vec<char>)
    ensures
        r@ == strip_slashes(s@),
{
    let n = s.len();
    let mut i: usize = 0;
    assert(s@.subrange(0, n as int) =~= s@);
    while i < n && s[i] == '/'
        invariant
            i <= n == s@.len(),
            trim_start_slashes(s@) == trim_start_slashes(s@.subrange(i as int, n as int)),
        decreases n - i,
    {
        assert(s@.subrange(i as int, n as int).drop_first() =~= s@.subrange(i + 1, n as int));
        i += 1;
    }
    let mut j: usize = n;
    while j > i && s[j - 1] == '/'
        invariant
            i <= j <= n == s@.len(),
            trim_start_slashes(s@) == s@.subrange(i as int, n as int),
            strip_slashes(s@) == trim_end_slashes(s@.subrange(i as int, j as int)),
        decreases j - i,
    {
        assert(s@.subrange(i as int, j as int).drop_last() =~= s@.subrange(i as int, j - 1));
        j -= 1;
    }
    slice_chars(s, i, j)
}

proof fn lemma_first_cut_bound(s: Seq<char>)
    ensures
        first_cut(s) <= s.len(),
    decreases s.len(),
{
    if s.len() > 0 && s[0] != '?' && s[0] != '#' {
        lemma_first_cut_bound(s.drop_first());
    }
}

fn cut_query(s: &[char]) -> (r: Vec<char>)
    ensures
        r@ == s@.take(first_cut(s@) as int),
{
    let n = s.len();
    let mut i: usize = 0;
    assert(s@.skip(0) =~= s@);
    while i < n && s[i] != '?' && s[i] != '#'
        invariant
            i <= n == s@.len(),
            first_cut(s@) == i + first_cut(s@.skip(i as int)),
        decreases n - i,
    {
        assert(s@.skip(i as int).drop_first() =~= s@.skip(i + 1));
        i += 1;
    }
    slice_chars(s, 0, i)
}

/// The pieces of `s` between the occurrences of `c`.
fn split_pieces(s: &[char], c: char) -> (r: Vec<Vec<char>>)
    ensures
        r@.map_values(|w: Vec<char>| w@) == split_char(s@, c),
{
    let n = s.len();
    let mut done: Vec<Vec<char>> = Vec::new();
    let mut cur: Vec<char> = Vec::new();
    let mut i: usize = 0;
    assert(s@.take(0) =~= seq![]);
    assert(done@.map_values(|w: Vec<char>| w@).push(cur@) =~= seq![seq![]]);
    while i < n
        invariant
            i <= n == s@.len(),
            split_char(s@.take(i as int), c) == done@.map_values(|w: Vec<char>| w@).push(cur@),
        decreases n - i,
    {
        let ch = s[i];
        let ghost dv = done@.map_values(|w: Vec<char>| w@);
        let ghost cv = cur@;
        assert(s@.take(i + 1).drop_last() =~= s@.take(i as int));
        assert(s@.take(i + 1).last() == ch);
        if ch == c {
            let finished = cur;
            cur = Vec::new();
            done.push(finished);
            assert(done@.map_values(|w: Vec<char>| w@) =~= dv.push(cv));
            assert(split_char(s@.take(i + 1), c) =~= dv.push(cv).push(seq![]));
        } else {
            cur.push(ch);
            assert(split_char(s@.take(i + 1), c) =~= dv.push(cv.push(ch)));
        }
        i += 1;
    }
    let ghost dv = done@.map_values(|w: Vec<char>| w@);
    done.push(cur);
    assert(done@.map_values(|w: Vec<char>| w@) =~= dv.push(cur@));
    assert(s@.take(n as int) =~= s@);
    done
}

/// The non-empty pieces of `s` between slashes.
fn segments_exec(s: &[char]) -> (r: Vec<Vec<char>>)
    ensures
        r@.map_values(|w: Vec<char>| w@) == segments(s@),
{
    let pieces = split_pieces(s, '/');
    let ghost pv = pieces@.map_values(|w: Vec<char>| w@);
    let mut out: Vec<Vec<char>> = Vec::new();
    let mut i: usize = 0;
    assert(pv.take(0) =~= seq![]);
    while i < pieces.len()
        invariant
            i <= pieces@.len(),
            pv == pieces@.map_values(|w: Vec<char>| w@),
            out@.map_values(|w: Vec<char>| w@) == pv.take(i as int).filter(
                |p: Seq<char>| p.len() > 0,
            ),
        decreases pieces@.len() - i,
    {
        let ghost before = out@.map_values(|w: Vec<char>| w@);
        assert(pv.take(i + 1) =~= pv.take(i as int).push(pv[i as int]));
        proof {
            pv.take(i as int).lemma_filter_push(pv[i as int], |p: Seq<char>| p.len() > 0);
        }
        if pieces[i].len() > 0 {
            let w = slice_chars(pieces[i].as_slice(), 0, pieces[i].len());
            assert(w@ =~= pv[i as int]);
            out.push(w);
            assert(out@.map_values(|w: Vec<char>| w@) =~= before.push(pv[i as int]));
        }
        i += 1;
    }
    assert(pv.take(pieces@.len() as int) =~= pv);
    out
}

fn coord_exec(segs: &Vec<Vec<char>>, k: usize, default: i32) -> (r: i32)
    ensures
        r == coord(segs@.map_values(|w: Vec<char>| w@), k as int, default),
{
    if k < segs.len() {
        let s = string_of(segs[k].as_slice());
        match parse_i32_segment(s.as_str()) {
            Some(v) => v,
            None => default,
        }
    } else {
        default
    }
}

pub fn parse_location_tail(tail: &str) -> (r: Option<(String, i32, i32, i32)>)
    ensures
        match r {
            Some(v) => location_tail(tail@) == Some((v.0@, v.1, v.2, v.3)),
            None => location_tail(tail@) is None,
        },
{
    let c = chars_of(tail);
    let t = strip_slashes_exec(c.as_slice());
    if t.len() == 0 {
        return None;
    }
    let q = cut_query(t.as_slice());
    let segs = segments_exec(q.as_slice());
    if segs.len() == 0 {
        return None;
    }
    let first = string_of(segs[0].as_slice());
    let region = match percent_decode_component(first.as_str()) {
        Some(r) => r,
        None => return None,
    };
    let x = coord_exec(&segs, 1, 128);
    let y = coord_exec(&segs, 2, 128);
    let z = coord_exec(&segs, 3, 0);
    Some((region, x, y, z))
}

/// The location in a supported SLURL: `secondlife:///app/teleport/`,
/// `secondlife:///app/region/`, `secondlife://` (prefixes in any case), or
/// the map site's `http(s)://maps.secondlife.com/secondlife/` form.
pub open spec fn slurl_components(value: Seq<char>) -> Option<(Seq<char>, i32, i32, i32)> {
    let raw = trim(value);
    let low = lower(raw);
    if raw.len() == 0 {
        None
    } else if starts_with(low, "secondlife:///app/teleport/"@) {
        location_tail(raw.skip("secondlife:///app/teleport/"@.len() as int))
    } else if starts_with(low, "secondlife:///app/region/"@) {
        location_tail(raw.skip("secondlife:///app/region/"@.len() as int))
    } else if starts_with(low, "secondlife://"@) {
        location_tail(raw.skip("secondlife://"@.len() as int))
    } else if starts_with(low, "https://maps.secondlife.com/secondlife/"@) || starts_with(
        low,
        "http://maps.secondlife.com/secondlife/"@,
    ) {
        match find(low, "/secondlife/"@) {
            Some(idx) => location_tail(raw.skip(idx + "/secondlife/"@.len())),
            None => None,
        }
    } else {
        None
    }
}

proof fn lemma_trim_end_prefixed(p: Seq<char>, t: Seq<char>)
    requires
        p.len() > 0,
        !crate::text::is_ws(p.last()),
    ensures
        crate::text::trim_end(p + t) == p + crate::text::trim_end(t),
    decreases t.len(),
{
    if t.len() == 0 {
        assert(p + t =~= p);
        assert(p + crate::text::trim_end(t) =~= p);
    } else {
        assert((p + t).last() == t.last());
        if crate::text::is_ws(t.last()) {
            assert((p + t).drop_last() =~= p + t.drop_last());
            lemma_trim_end_prefixed(p, t.drop_last());
        }
    }
}

/// The parts of a map-site SLURL `prefix + t`, for one of the two prefixes
/// (`http` or `https`), when `prefix` is lower case, its `/secondlife/` is
/// its last twelve characters and occurs nowhere earlier.
#[verifier::spinoff_prover]
proof fn lemma_map_site_prefix(p: Seq<char>, t: Seq<char>)
    requires
        p.len() > 12,
        !crate::text::is_ws(p[0]),
        !crate::text::is_ws(p.last()),
        p[0] == 'h',
        forall|i: int| 0 <= i < p.len() ==> !('A' <= #[trigger] p[i] <= 'Z'),
        p.subrange(p.len() - 12, p.len() as int) == "/secondlife/"@,
        forall|j: int| 0 <= j < p.len() - 12 ==> !occurs_at(p, "/secondlife/"@, j),
        starts_with(p, "https://maps.secondlife.com/secondlife/"@) || starts_with(
            p,
            "http://maps.secondlife.com/secondlife/"@,
        ),
    ensures
        slurl_components(p + t) == location_tail(crate::text::trim_end(t)),
{
    reveal_strlit("/secondlife/");
    reveal_strlit("secondlife:///app/teleport/");
    reveal_strlit("secondlife:///app/region/");
    reveal_strlit("secondlife://");
    let q = "/secondlife/"@;
    let te = crate::text::trim_end(t);
    let raw = trim(p + t);
    assert(crate::text::trim_start(p + t) == p + t) by {
        assert((p + t)[0] == p[0]);
    }
    lemma_trim_end_prefixed(p, t);
    assert(raw == p + te);
    let low = lower(raw);
    assert(low =~= p + lower(te)) by {
        assert forall|i: int| 0 <= i < low.len() implies low[i] == (p + lower(te))[i] by {
            if i < p.len() {
                assert(raw[i] == p[i]);
                assert(!('A' <= p[i] <= 'Z'));
            } else {
                assert(raw[i] == te[i - p.len()]);
            }
        }
    }
    assert(low[0] == 'h');
    assert(!starts_with(low, "secondlife:///app/teleport/"@)) by {
        if starts_with(low, "secondlife:///app/teleport/"@) {
            assert(low.subrange(0, 27)[0] == low[0]);
        }
    }
    assert(!starts_with(low, "secondlife:///app/region/"@)) by {
        if starts_with(low, "secondlife:///app/region/"@) {
            assert(low.subrange(0, 25)[0] == low[0]);
        }
    }
    assert(!starts_with(low, "secondlife://"@)) by {
        if starts_with(low, "secondlife://"@) {
            assert(low.subrange(0, 13)[0] == low[0]);
        }
    }
    let idx0 = p.len() - 12;
    assert(starts_with(low, "https://maps.secondlife.com/secondlife/"@) || starts_with(
        low,
        "http://maps.secondlife.com/secondlife/"@,
    )) by {
        let a = "https://maps.secondlife.com/secondlife/"@;
        let b = "http://maps.secondlife.com/secondlife/"@;
        if starts_with(p, a) {
            assert(low.subrange(0, a.len() as int) =~= p.subrange(0, a.len() as int));
        } else {
            assert(low.subrange(0, b.len() as int) =~= p.subrange(0, b.len() as int));
        }
    }
    assert(occurs_at(low, q, idx0)) by {
        assert(low.subrange(idx0, idx0 + 12) =~= p.subrange(idx0, idx0 + 12));
    }
    assert forall|j: int| 0 <= j < idx0 implies !occurs_at(low, q, j) by {
        assert(low.subrange(j, j + 12) =~= p.subrange(j, j + 12));
        assert(!occurs_at(p, q, j));
    }
    let f = find(low, q);
    assert(f == Some(idx0)) by {
        let i = choose|i: int| occurs_at(low, q, i) && forall|j: int| 0 <= j < i ==> !occurs_at(low, q, j);
        assert(occurs_at(low, q, i));
        if i < idx0 {
            assert(!occurs_at(low, q, i));
        } else if i > idx0 {
            assert(!occurs_at(low, q, idx0));
        }
    }
    assert(raw.skip(idx0 + 12) =~= te);
}

/// No occurrence of `q` in `s` begins before `n`.
spec fn no_occurrence_before(s: Seq<char>, q: Seq<char>, n: nat) -> bool
    decreases n,
{
    n == 0 || (!occurs_at(s, q, n - 1) && no_occurrence_before(s, q, (n - 1) as nat))
}

/// No character of `s` before `n` is an upper-case ASCII letter.
spec fn no_upper_before(s: Seq<char>, n: nat) -> bool
    decreases n,
{
    n == 0 || (!('A' <= s[n - 1] <= 'Z') && no_upper_before(s, (n - 1) as nat))
}

proof fn lemma_no_occurrence_before(s: Seq<char>, q: Seq<char>, n: nat)
    requires
        no_occurrence_before(s, q, n),
    ensures
        forall|j: int| 0 <= j < n ==> !occurs_at(s, q, j),
    decreases n,
{
    if n > 0 {
        lemma_no_occurrence_before(s, q, (n - 1) as nat);
    }
}

proof fn lemma_no_upper_before(s: Seq<char>, n: nat)
    requires
        no_upper_before(s, n),
    ensures
        forall|i: int| 0 <= i < n ==> !('A' <= #[trigger] s[i] <= 'Z'),
    decreases n,
{
    if n > 0 {
        lemma_no_upper_before(s, (n - 1) as nat);
    }
}

proof fn lemma_not_at(s: Seq<char>, q: Seq<char>, j: int)
    requires
        0 <= j,
        q.len() >= 2,
        j + 1 < s.len(),
        s[j] != q[0] || s[j + 1] != q[1],
    ensures
        !occurs_at(s, q, j),
{
    if occurs_at(s, q, j) {
        assert(s.subrange(j, j + q.len())[0] == s[j]);
        assert(s.subrange(j, j + q.len())[1] == s[j + 1]);
    }
}

#[verifier::spinoff_prover]
proof fn lemma_http_prefix_facts()
    ensures
        ({
            let h = "http://maps.secondlife.com/secondlife/"@;
            &&& h.len() == 38
            &&& h[0] == 'h'
            &&& h[37] == '/'
            &&& no_upper_before(h, 38)
            &&& no_occurrence_before(h, "/secondlife/"@, 26)
            &&& h.subrange(26, 38) == "/secondlife/"@
        }),
{
    reveal_strlit("http://maps.secondlife.com/secondlife/");
    reveal_strlit("/secondlife/");
    let h = "http://maps.secondlife.com/secondlife/"@;
    let q = "/secondlife/"@;
    reveal_with_fuel(no_upper_before, 39);
    lemma_not_at(h, q, 0);
    lemma_not_at(h, q, 1);
    lemma_not_at(h, q, 2);
    lemma_not_at(h, q, 3);
    lemma_not_at(h, q, 4);
    lemma_not_at(h, q, 5);
    lemma_not_at(h, q, 6);
    lemma_not_at(h, q, 7);
    lemma_not_at(h, q, 8);
    lemma_not_at(h, q, 9);
    lemma_not_at(h, q, 10);
    lemma_not_at(h, q, 11);
    lemma_not_at(h, q, 12);
    lemma_not_at(h, q, 13);
    lemma_not_at(h, q, 14);
    lemma_not_at(h, q, 15);
    lemma_not_at(h, q, 16);
    lemma_not_at(h, q, 17);
    lemma_not_at(h, q, 18);
    lemma_not_at(h, q, 19);
    lemma_not_at(h, q, 20);
    lemma_not_at(h, q, 21);
    lemma_not_at(h, q, 22);
    lemma_not_at(h, q, 23);
    lemma_not_at(h, q, 24);
    lemma_not_at(h, q, 25);
    reveal_with_fuel(no_occurrence_before, 27);
    assert(h.subrange(26, 38) =~= q);
}

#[verifier::spinoff_prover]
proof fn lemma_https_prefix_facts()
    ensures
        ({
            let h = "https://maps.secondlife.com/secondlife/"@;
            &&& h.len() == 39
            &&& h[0] == 'h'
            &&& h[38] == '/'
            &&& no_upper_before(h, 39)
            &&& no_occurrence_before(h, "/secondlife/"@, 27)
            &&& h.subrange(27, 39) == "/secondlife/"@
        }),
{
    reveal_strlit("https://maps.secondlife.com/secondlife/");
    reveal_strlit("/secondlife/");
    let h = "https://maps.secondlife.com/secondlife/"@;
    let q = "/secondlife/"@;
    reveal_with_fuel(no_upper_before, 40);
    lemma_not_at(h, q, 0);
    lemma_not_at(h, q, 1);
    lemma_not_at(h, q, 2);
    lemma_not_at(h, q, 3);
    lemma_not_at(h, q, 4);
    lemma_not_at(h, q, 5);
    lemma_not_at(h, q, 6);
    lemma_not_at(h, q, 7);
    lemma_not_at(h, q, 8);
    lemma_not_at(h, q, 9);
    lemma_not_at(h, q, 10);
    lemma_not_at(h, q, 11);
    lemma_not_at(h, q, 12);
    lemma_not_at(h, q, 13);
    lemma_not_at(h, q, 14);
    lemma_not_at(h, q, 15);
    lemma_not_at(h, q, 16);
    lemma_not_at(h, q, 17);
    lemma_not_at(h, q, 18);
    lemma_not_at(h, q, 19);
    lemma_not_at(h, q, 20);
    lemma_not_at(h, q, 21);
    lemma_not_at(h, q, 22);
    lemma_not_at(h, q, 23);
    lemma_not_at(h, q, 24);
    lemma_not_at(h, q, 25);
    lemma_not_at(h, q, 26);
    reveal_with_fuel(no_occurrence_before, 28);
    assert(h.subrange(27, 39) =~= q);
}

proof fn lemma_lower_prefixed(p: Seq<char>, te: Seq<char>)
    requires
        no_upper_before(p, p.len()),
    ensures
        lower(p + te) == p + lower(te),
{
    lemma_no_upper_before(p, p.len());
    assert forall|i: int| 0 <= i < (p + te).len() implies lower(p + te)[i] == (p + lower(te))[i] by {
        if i < p.len() {
            assert((p + te)[i] == p[i]);
        } else {
            assert((p + te)[i] == te[i - p.len()]);
        }
    }
    assert(lower(p + te) =~= p + lower(te));
}

#[verifier::spinoff_prover]
proof fn lemma_teleport_prefix_facts()
    ensures
        ({
            let p = "secondlife:///app/teleport/"@;
            let r = "secondlife:///app/region/"@;
            &&& p.len() == 27 && r.len() == 25
            &&& p[0] == 's' && p[26] == '/' && r[0] == 's' && r[24] == '/'
            &&& p[18] == 't' && r[18] == 'r'
            &&& no_upper_before(p, 27)
            &&& no_upper_before(r, 25)
            &&& "secondlife://"@.len() == 13
        }),
{
    reveal_strlit("secondlife:///app/teleport/");
    reveal_strlit("secondlife:///app/region/");
    reveal_strlit("secondlife://");
    reveal_with_fuel(no_upper_before, 28);
}

/// The `secondlife:///app/teleport/` and `secondlife:///app/region/` forms
/// (any case in the prefix) give the location parts of their tail `t`
/// (without its trailing whitespace).
#[verifier::spinoff_prover]
pub proof fn lemma_app_slurls(t: Seq<char>)
    ensures
        slurl_components("secondlife:///app/teleport/"@ + t) == location_tail(
            crate::text::trim_end(t),
        ),
        slurl_components("secondlife:///app/region/"@ + t) == location_tail(crate::text::trim_end(t)),
{
    let p = "secondlife:///app/teleport/"@;
    let r = "secondlife:///app/region/"@;
    lemma_teleport_prefix_facts();
    let te = crate::text::trim_end(t);
    assert(!crate::text::is_ws(p[0]) && !crate::text::is_ws(p.last()));
    assert(!crate::text::is_ws(r[0]) && !crate::text::is_ws(r.last()));
    assert(crate::text::trim_start(p + t) == p + t) by {
        assert((p + t)[0] == p[0]);
    }
    assert(crate::text::trim_start(r + t) == r + t) by {
        assert((r + t)[0] == r[0]);
    }
    lemma_trim_end_prefixed(p, t);
    lemma_trim_end_prefixed(r, t);
    lemma_lower_prefixed(p, te);
    lemma_lower_prefixed(r, te);
    let lp = lower(p + te);
    let lr = lower(r + te);
    assert(starts_with(lp, p)) by {
        assert(lp.subrange(0, p.len() as int) =~= p);
    }
    assert((p + te).skip(p.len() as int) =~= te);
    assert(starts_with(lr, r)) by {
        assert(lr.subrange(0, r.len() as int) =~= r);
    }
    assert(!starts_with(lr, p)) by {
        if starts_with(lr, p) {
            assert(lr.subrange(0, p.len() as int)[18] == lr[18]);
            assert(lr[18] == r[18]);
        }
    }
    assert((r + te).skip(r.len() as int) =~= te);
}

/// A map-site SLURL reads the same under `http://` and `https://`: for
/// every tail `t`, the location parts of
/// `http://maps.secondlife.com/secondlife/` + `t` and of
/// `https://maps.secondlife.com/secondlife/` + `t` are both those of the
/// tail (without its trailing whitespace).
#[verifier::spinoff_prover]
pub proof fn lemma_map_site_slurls(t: Seq<char>)
    ensures
        slurl_components("http://maps.secondlife.com/secondlife/"@ + t) == location_tail(
            crate::text::trim_end(t),
        ),
        slurl_components("https://maps.secondlife.com/secondlife/"@ + t) == location_tail(
            crate::text::trim_end(t),
        ),
{
    let h = "http://maps.secondlife.com/secondlife/"@;
    let hs = "https://maps.secondlife.com/secondlife/"@;
    let q = "/secondlife/"@;
    lemma_http_prefix_facts();
    lemma_https_prefix_facts();
    lemma_no_upper_before(h, 38);
    lemma_no_upper_before(hs, 39);
    lemma_no_occurrence_before(h, q, 26);
    lemma_no_occurrence_before(hs, q, 27);
    assert(!crate::text::is_ws(h[0]) && !crate::text::is_ws(h.last()));
    assert(!crate::text::is_ws(hs[0]) && !crate::text::is_ws(hs.last()));
    assert(starts_with(h, h)) by {
        assert(h.subrange(0, h.len() as int) =~= h);
    }
    assert(starts_with(hs, hs)) by {
        assert(hs.subrange(0, hs.len() as int) =~= hs);
    }
    lemma_map_site_prefix(h, t);
    lemma_map_site_prefix(hs, t);
}

fn tail_after(raw: &[char], k: usize) -> (r: String)
    requires
        k <= raw@.len(),
    ensures
        r@ == raw@.skip(k as int),
{
    let t = slice_chars(raw, k, raw.len());
    assert(t@ =~= raw@.skip(k as int));
    string_of(t.as_slice())
}

/// The text of `raw` after the prefix `p`, when the lower-cased `low` starts with it.
fn tail_if_prefix(raw: &[char], low: &[char], p: &str) -> (r: Option<String>)
    requires
        low@.len() == raw@.len(),
    ensures
        match r {
            Some(t) => starts_with(low@, p@) && t@ == raw@.skip(p@.len() as int),
            None => !starts_with(low@, p@),
        },
{
    let pc = chars_of(p);
    if starts_with_exec(low, pc.as_slice()) {
        Some(tail_after(raw, pc.len()))
    } else {
        None
    }
}

/// The text of `raw` after the first `/secondlife/` of the lower-cased `low`.
fn map_site_tail(raw: &[char], low: &[char]) -> (r: Option<String>)
    requires
        low@.len() == raw@.len(),
    ensures
        match r {
            Some(t) => find(low@, "/secondlife/"@) matches Some(idx) && t@ == raw@.skip(
                idx + "/secondlife/"@.len(),
            ),
            None => find(low@, "/secondlife/"@) is None,
        },
{
    let p6 = chars_of("/secondlife/");
    proof {
        crate::text::lemma_find_some(low@, p6@);
    }
    match find_exec(low, p6.as_slice()) {
        Some(idx) => {
            assert(occurs_at(low@, p6@, idx as int));
            assert(low@.len() == low.len());
            Some(tail_after(raw, idx + p6.len()))
        },
        None => None,
    }
}

pub fn parse_secondlife_location_components(value: &str) -> (r: Option<(String, i32, i32, i32)>)
    ensures
        match r {
            Some(v) => slurl_components(value@) == Some((v.0@, v.1, v.2, v.3)),
            None => slurl_components(value@) is None,
        },
{
    let c = chars_of(value);
    let raw = trimmed(c.as_slice());
    if raw.len() == 0 {
        return None;
    }
    let low = lowercase(raw.as_slice());
    match tail_if_prefix(raw.as_slice(), low.as_slice(), "secondlife:///app/teleport/") {
        Some(t) => return parse_location_tail(t.as_str()),
        None => {},
    }
    match tail_if_prefix(raw.as_slice(), low.as_slice(), "secondlife:///app/region/") {
        Some(t) => return parse_location_tail(t.as_str()),
        None => {},
    }
    match tail_if_prefix(raw.as_slice(), low.as_slice(), "secondlife://") {
        Some(t) => return parse_location_tail(t.as_str()),
        None => {},
    }
    let p4 = chars_of("https://maps.secondlife.com/secondlife/");
    let p5 = chars_of("http://maps.secondlife.com/secondlife/");
    if starts_with_exec(low.as_slice(), p4.as_slice()) || starts_with_exec(
        low.as_slice(),
        p5.as_slice(),
    ) {
        return match map_site_tail(raw.as_slice(), low.as_slice()) {
            Some(t) => parse_location_tail(t.as_str()),
            None => None,
        };
    }
    None
}

/// The login URI for a region and position.
pub open spec fn login_uri(region: Seq<char>, x: i32, y: i32, z: i32) -> Seq<char> {
    "uri:"@ + region + "&"@ + int_dec(x as int) + "&"@ + int_dec(y as int) + "&"@ + int_dec(
        z as int,
    )
}

pub fn normalize_slurl_to_login_uri(value: &str) -> (r: Option<String>)
    ensures
        match r {
            Some(u) => slurl_components(value@) matches Some(p) && u@ == login_uri(
                p.0,
                p.1,
                p.2,
                p.3,
            ),
            None => slurl_components(value@) is None,
        },
{
    match parse_secondlife_location_components(value) {
        Some((region, x, y, z)) => {
            let mut v: Vec<char> = Vec::new();
            push_str(&mut v, "uri:");
            push_str(&mut v, region.as_str());
            push_str(&mut v, "&");
            push_i32_dec(&mut v, x);
            push_str(&mut v, "&");
            push_i32_dec(&mut v, y);
            push_str(&mut v, "&");
            push_i32_dec(&mut v, z);
            Some(string_of(v.as_slice()))
        },
        None => None,
    }
}

/// What a start-location setting asks for: refused when blank; `home` and
/// `last` (any case) are saved locations; a `uri:` value (any case) is kept;
/// a supported SLURL becomes its login URI; any other `://` URL is refused;
/// other text is kept as a URI.
pub open spec fn start_location_of(value: Seq<char>) -> Result<IntentView, StartLocationError> {
    let raw = trim(value);
    if raw.len() == 0 {
        Err(StartLocationError::Empty)
    } else if lower(raw) == "home"@ {
        Ok(IntentView::Saved(StartLocation::Home))
    } else if lower(raw) == "last"@ {
        Ok(IntentView::Saved(StartLocation::Last))
    } else if starts_with(lower(raw), "uri:"@) {
        Ok(IntentView::Uri(raw))
    } else {
        match slurl_components(raw) {
            Some(p) => Ok(IntentView::Uri(login_uri(p.0, p.1, p.2, p.3))),
            None => if find(raw, "://"@) is Some {
                Err(StartLocationError::UnsupportedFormat)
            } else {
                Ok(IntentView::Uri(raw))
            },
        }
    }
}

pub fn normalize_start_location_input(value: &str) -> (r: Result<
    StartLocationIntent,
    StartLocationError,
>)
    ensures
        match r {
            Ok(i) => start_location_of(value@) == Ok::<IntentView, StartLocationError>(i@),
            Err(e) => start_location_of(value@) == Err::<IntentView, StartLocationError>(e),
        },
{
    let c = chars_of(value);
    let raw = trimmed(c.as_slice());
    if raw.len() == 0 {
        return Err(StartLocationError::Empty);
    }
    let low = lowercase(raw.as_slice());
    if eq_str(low.as_slice(), "home") {
        return Ok(StartLocationIntent::Saved(StartLocation::Home));
    }
    if eq_str(low.as_slice(), "last") {
        return Ok(StartLocationIntent::Saved(StartLocation::Last));
    }
    let raw_s = string_of(raw.as_slice());
    let p = chars_of("uri:");
    if starts_with_exec(low.as_slice(), p.as_slice()) {
        return Ok(StartLocationIntent::Uri(raw_s));
    }
    match normalize_slurl_to_login_uri(raw_s.as_str()) {
        Some(uri) => {
            return Ok(StartLocationIntent::Uri(uri));
        },
        None => {},
    }
    let sep = chars_of("://");
    match find_exec(raw.as_slice(), sep.as_slice()) {
        Some(_) => Err(StartLocationError::UnsupportedFormat),
        None => Ok(StartLocationIntent::Uri(raw_s)),
    }
}

/// The start location a setting asks for, keeping the setting as a URI when it is refused.
pub fn parse_start_location(value: &str) -> (r: StartLocationIntent)
    ensures
        r@ == match start_location_of(value@) {
            Ok(i) => i,
            Err(_) => IntentView::Uri(value@),
        },
{
    match normalize_start_location_input(value) {
        Ok(i) => i,
        Err(_) => StartLocationIntent::Uri(value.to_owned()),
    }
}

/// The start location as the logs show it.
pub fn describe_start_location_intent(start_location: &StartLocationIntent) -> (r: String)
    ensures
        r@ == match start_location@ {
            IntentView::Saved(StartLocation::Home) => "home"@,
            IntentView::Saved(StartLocation::Last) => "last"@,
            IntentView::Uri(u) => u,
        },
{
    match start_location {
        StartLocationIntent::Saved(StartLocation::Home) => "home".to_owned(),
        StartLocationIntent::Saved(StartLocation::Last) => "last".to_owned(),
        StartLocationIntent::Uri(uri) => uri.clone(),
    }
}

/// The region a start-location setting names, if it names one: the text after
/// `secondlife://` up to the next `/`, else after `uri:` up to the next `&`,
/// trimmed and non-empty; never for `home`, `last` or a blank setting.
pub open spec fn region_name_of(value: Seq<char>) -> Option<Seq<char>> {
    let raw = trim(value);
    if raw.len() == 0 || lower(raw) == "last"@ || lower(raw) == "home"@ {
        None
    } else {
        let a = match find(raw, "secondlife://"@) {
            Some(pos) => trim(split_char(raw.skip(pos + "secondlife://"@.len()), '/')[0]),
            None => seq![],
        };
        if a.len() > 0 {
            Some(a)
        } else {
            let b = match find(raw, "uri:"@) {
                Some(pos) => trim(split_char(raw.skip(pos + "uri:"@.len()), '&')[0]),
                None => seq![],
            };
            if b.len() > 0 {
                Some(b)
            } else {
                None
            }
        }
    }
}

/// The trimmed first `sep`-separated piece of `raw` after the first `marker`.
fn name_after(raw: &[char], marker: &str, sep: char) -> (r: Vec<char>)
    ensures
        r@ == match find(raw@, marker@) {
            Some(pos) => trim(split_char(raw@.skip(pos + marker@.len()), sep)[0]),
            None => seq![],
        },
{
    let m = chars_of(marker);
    proof {
        crate::text::lemma_find_some(raw@, m@);
    }
    match find_exec(raw, m.as_slice()) {
        Some(pos) => {
            if pos <= raw.len() && m.len() <= raw.len() - pos {
                let t = slice_chars(raw, pos + m.len(), raw.len());
                assert(t@ =~= raw@.skip(pos + m@.len()));
                let pieces = split_pieces(t.as_slice(), sep);
                proof {
                    lemma_split_nonempty(t@, sep);
                }
                assert(pieces@.map_values(|w: Vec<char>| w@)[0] == pieces@[0]@);
                trimmed(pieces[0].as_slice())
            } else {
                Vec::new()
            }
        },
        None => Vec::new(),
    }
}

proof fn lemma_split_nonempty(s: Seq<char>, c: char)
    ensures
        split_char(s, c).len() >= 1,
    decreases s.len(),
{
    if s.len() > 0 {
        lemma_split_nonempty(s.drop_last(), c);
    }
}

pub fn parse_region_name_from_start_location(value: &str) -> (r: Option<String>)
    ensures
        match r {
            Some(n) => region_name_of(value@) == Some(n@),
            None => region_name_of(value@) is None,
        },
{
    let c = chars_of(value);
    let raw = trimmed(c.as_slice());
    if raw.len() == 0 {
        return None;
    }
    let low = lowercase(raw.as_slice());
    if eq_str(low.as_slice(), "last") || eq_str(low.as_slice(), "home") {
        return None;
    }
    let a = name_after(raw.as_slice(), "secondlife://", '/');
    if a.len() > 0 {
        return Some(string_of(a.as_slice()));
    }
    let b = name_after(raw.as_slice(), "uri:", '&');
    if b.len() > 0 {
        return Some(string_of(b.as_slice()));
    }
    None
}

/// An ASCII hexadecimal digit byte.
pub open spec fn is_hex_byte(b: u8) -> bool {
    (48 <= b <= 57) || (97 <= b <= 102) || (65 <= b <= 70)
}

/// Whether the bytes have the canonical UUID shape: 36 bytes, `-` at 8, 13,
/// 18 and 23, hexadecimal digits elsewhere.
pub open spec fn uuid_shape(b: Seq<u8>) -> bool {
    &&& b.len() == 36
    &&& forall|i: int|
        0 <= i < 36 ==> if i == 8 || i == 13 || i == 18 || i == 23 {
            b[i] == 45
        } else {
            is_hex_byte(#[trigger] b[i])
        }
}

pub fn is_canonical_uuid_like(value: &str) -> (r: bool)
    ensures
        r == uuid_shape(value.spec_bytes()),
{
    let bytes = value.as_bytes();
    if bytes.len() != 36 {
        return false;
    }
    let mut i: usize = 0;
    while i < 36
        invariant
            bytes@.len() == 36,
            bytes@ == value.spec_bytes(),
            i <= 36,
            forall|k: int|
                0 <= k < i ==> if k == 8 || k == 13 || k == 18 || k == 23 {
                    bytes@[k] == 45
                } else {
                    is_hex_byte(#[trigger] bytes@[k])
                },
        decreases 36 - i,
    {
        let ch = bytes[i];
        if i == 8 || i == 13 || i == 18 || i == 23 {
            if ch != 45 {
                return false;
            }
        } else {
            if !((48 <= ch && ch <= 57) || (97 <= ch && ch <= 102) || (65 <= ch && ch <= 70)) {
                assert(!is_hex_byte(bytes@[i as int]));
                return false;
            }
        }
        i += 1;
    }
    true
}

} // verus!
