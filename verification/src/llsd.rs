//! Binary LLSD, the serialisation of Second Life mesh headers and LOD blocks:
//! values, a parser over bytes and an encoder, specified over a mathematical
//! model of the values.
use vstd::prelude::*;
use vstd::string::StringSliceAdditionalSpecFns;
use vstd::utf8::{decode_utf8, encode_utf8, valid_utf8};
use crate::start_location::string_from_utf8;
use crate::texture_cache::{seq_lt, str_less};

verus! {

/// A binary LLSD value. Reals and dates keep the bits of their `f64`; a map
/// keeps its entries ordered by key, each key once.
#[derive(Debug, PartialEq)]
pub enum BinaryLlsdValue {
    Undefined,
    Bool(bool),
    Integer(i32),
    Real(u64),
    Date(u64),
    String(String),
    Binary(Vec<u8>),
    Array(Vec<BinaryLlsdValue>),
    Dict(Vec<(String, BinaryLlsdValue)>),
    Uuid([u8; 16]),
}

/// A binary LLSD value as the contracts see it.
pub enum LlsdView {
    Undefined,
    Bool(bool),
    Integer(i32),
    Real(u64),
    Date(u64),
    Str(Seq<char>),
    Binary(Seq<u8>),
    Array(Seq<LlsdView>),
    Dict(Seq<(Seq<char>, LlsdView)>),
    Uuid(Seq<u8>),
}

pub open spec fn llsd_view(v: BinaryLlsdValue) -> LlsdView
    decreases v,
{
    match v {
        BinaryLlsdValue::Undefined => LlsdView::Undefined,
        BinaryLlsdValue::Bool(b) => LlsdView::Bool(b),
        BinaryLlsdValue::Integer(i) => LlsdView::Integer(i),
        BinaryLlsdValue::Real(r) => LlsdView::Real(r),
        BinaryLlsdValue::Date(d) => LlsdView::Date(d),
        BinaryLlsdValue::String(s) => LlsdView::Str(s@),
        BinaryLlsdValue::Binary(b) => LlsdView::Binary(b@),
        BinaryLlsdValue::Array(vs) => LlsdView::Array(views_of(vs@)),
        BinaryLlsdValue::Dict(es) => LlsdView::Dict(entries_of(es@)),
        BinaryLlsdValue::Uuid(u) => LlsdView::Uuid(u@),
    }
}

pub open spec fn views_of(vs: Seq<BinaryLlsdValue>) -> Seq<LlsdView>
    decreases vs,
{
    if vs.len() == 0 {
        seq![]
    } else {
        views_of(vs.drop_last()).push(llsd_view(vs.last()))
    }
}

pub open spec fn entries_of(es: Seq<(String, BinaryLlsdValue)>) -> Seq<(Seq<char>, LlsdView)>
    decreases es,
{
    if es.len() == 0 {
        seq![]
    } else {
        entries_of(es.drop_last()).push((es.last().0@, llsd_view(es.last().1)))
    }
}

impl View for BinaryLlsdValue {
    type V = LlsdView;

    open spec fn view(&self) -> LlsdView {
        llsd_view(*self)
    }
}

impl BinaryLlsdValue {
    /// The entries of a map.
    pub fn as_map(&self) -> (r: Option<&Vec<(String, BinaryLlsdValue)>>)
        ensures
            match self {
                BinaryLlsdValue::Dict(es) => r == Some(es),
                _ => r is None,
            },
    {
        match self {
            BinaryLlsdValue::Dict(es) => Some(es),
            _ => None,
        }
    }

    /// The items of an array.
    pub fn as_array(&self) -> (r: Option<&Vec<BinaryLlsdValue>>)
        ensures
            match self {
                BinaryLlsdValue::Array(vs) => r == Some(vs),
                _ => r is None,
            },
    {
        match self {
            BinaryLlsdValue::Array(vs) => Some(vs),
            _ => None,
        }
    }

    /// The value of a boolean.
    pub fn as_bool(&self) -> (r: Option<bool>)
        ensures
            match self {
                BinaryLlsdValue::Bool(b) => r == Some(*b),
                _ => r is None,
            },
    {
        match self {
            BinaryLlsdValue::Bool(b) => Some(*b),
            _ => None,
        }
    }

    /// The value of an integer.
    pub fn as_i32(&self) -> (r: Option<i32>)
        ensures
            match self {
                BinaryLlsdValue::Integer(i) => r == Some(*i),
                _ => r is None,
            },
    {
        match self {
            BinaryLlsdValue::Integer(i) => Some(*i),
            _ => None,
        }
    }

    /// The bytes of a binary value.
    pub fn as_binary(&self) -> (r: Option<&Vec<u8>>)
        ensures
            match self {
                BinaryLlsdValue::Binary(b) => r == Some(b),
                _ => r is None,
            },
    {
        match self {
            BinaryLlsdValue::Binary(b) => Some(b),
            _ => None,
        }
    }
}

/// Why bytes are not binary LLSD.
#[derive(Debug, Clone, Copy, PartialEq, Eq, Structural)]
pub enum LlsdError {
    UnexpectedEnd,
    UnsupportedToken(u8),
    UnsupportedKeyToken(u8),
    MissingMapTerminator,
    MissingArrayTerminator,
    InvalidUtf8,
    InvalidHexEscape(u8),
    TooDeep,
}

/// The big-endian `u32` at `p`.
pub open spec fn be_u32(d: Seq<u8>, p: int) -> u32 {
    (d[p] * 16777216 + d[p + 1] * 65536 + d[p + 2] * 256 + d[p + 3]) as u32
}

/// The big-endian `u64` at `p`.
pub open spec fn be_u64(d: Seq<u8>, p: int) -> u64 {
    (be_u32(d, p) * 4294967296 + be_u32(d, p + 4)) as u64
}

/// The value of an ASCII hexadecimal digit.
pub open spec fn nybble(b: u8) -> Option<u8> {
    if 48 <= b <= 57 {
        Some((b - 48) as u8)
    } else if 97 <= b <= 102 {
        Some((b - 97 + 10) as u8)
    } else if 65 <= b <= 70 {
        Some((b - 65 + 10) as u8)
    } else {
        None
    }
}

/// The byte an escape `\b` stands for.
pub open spec fn escaped(b: u8) -> u8 {
    if b == 97 {
        7
    } else if b == 98 {
        8
    } else if b == 102 {
        12
    } else if b == 110 {
        10
    } else if b == 114 {
        13
    } else if b == 116 {
        9
    } else if b == 118 {
        11
    } else {
        b
    }
}

/// The bytes of a delimited string from `p` up to its closing `delim`, with
/// `\` escapes (`\a \b \f \n \r \t \v`, `\xHH`, else the byte itself), and the
/// position after the delimiter; `out`, `esc` and `hex` carry the scan state.
pub open spec fn scan_delimited(
    d: Seq<u8>,
    p: nat,
    delim: u8,
    out: Seq<u8>,
    esc: bool,
    hex: nat,
    hv: u8,
) -> Option<(Seq<u8>, nat)>
    decreases d.len() - p,
{
    if p >= d.len() {
        None
    } else {
        let b = d[p as int];
        if hex > 0 {
            match nybble(b) {
                None => None,
                Some(n) => {
                    let v = ((hv * 16 + n) % 256) as u8;
                    if hex == 1 {
                        scan_delimited(d, p + 1, delim, out.push(v), false, 0, 0)
                    } else {
                        scan_delimited(d, p + 1, delim, out, esc, (hex - 1) as nat, v)
                    }
                },
            }
        } else if esc {
            if b == 120 {
                scan_delimited(d, p + 1, delim, out, true, 2, 0)
            } else {
                scan_delimited(d, p + 1, delim, out.push(escaped(b)), false, 0, 0)
            }
        } else if b == 92 {
            scan_delimited(d, p + 1, delim, out, true, 0, 0)
        } else if b == delim {
            Some((out, p + 1))
        } else {
            scan_delimited(d, p + 1, delim, out.push(b), false, 0, 0)
        }
    }
}

/// A length-prefixed byte string at `p` and the position after it.
pub open spec fn len_prefixed(d: Seq<u8>, p: nat) -> Option<(Seq<u8>, nat)> {
    if p + 4 <= d.len() && p + 4 + be_u32(d, p as int) <= d.len() {
        let q = p + 4;
        let e = q + be_u32(d, p as int);
        Some((d.subrange(q as int, e as int), e as nat))
    } else {
        None
    }
}

/// Text from UTF-8 bytes, when they are valid.
pub open spec fn utf8_text(b: Seq<u8>) -> Option<Seq<char>> {
    if valid_utf8(b) {
        Some(decode_utf8(b))
    } else {
        None
    }
}

/// A string value: delimited (`'` or `"`) or length-prefixed (`s`, `l`, `k`),
/// by its token `t` at `p - 1`, and the position after it.
pub open spec fn string_at(d: Seq<u8>, t: u8, p: nat) -> Option<(Seq<char>, nat)> {
    let raw = if t == 39 || t == 34 {
        scan_delimited(d, p, t, seq![], false, 0, 0)
    } else {
        len_prefixed(d, p)
    };
    match raw {
        Some((b, q)) => match utf8_text(b) {
            Some(s) => Some((s, q)),
            None => None,
        },
        None => None,
    }
}

/// A token that starts a length-prefixed string.
pub open spec fn is_len_string_token(t: u8) -> bool {
    t == 115 || t == 108 || t == 107
}

/// `entries` with `(k, v)` in key order, replacing an entry with key `k`.
pub open spec fn map_insert(entries: Seq<(Seq<char>, LlsdView)>, k: Seq<char>, v: LlsdView) -> Seq<
    (Seq<char>, LlsdView),
>
    decreases entries.len(),
{
    if entries.len() == 0 {
        seq![(k, v)]
    } else if entries[0].0 == k {
        seq![(k, v)] + entries.drop_first()
    } else if seq_lt(k, entries[0].0) {
        seq![(k, v)] + entries
    } else {
        seq![entries[0]] + map_insert(entries.drop_first(), k, v)
    }
}

/// The value at `p` and the position after it, nesting at most `fuel` deep.
pub open spec fn parse_value(d: Seq<u8>, p: nat, fuel: nat) -> Option<(LlsdView, nat)>
    decreases fuel, 0nat,
{
    if fuel == 0 || p >= d.len() {
        None
    } else {
        let t = d[p as int];
        let q = p + 1;
        if t == 123 || t == 91 {
            if q + 4 <= d.len() {
                let n = be_u32(d, q as int) as nat;
                if t == 123 {
                    parse_map(d, q + 4, n, seq![], (fuel - 1) as nat)
                } else {
                    parse_array(d, q + 4, n, seq![], (fuel - 1) as nat)
                }
            } else {
                None
            }
        } else if t == 33 {
            Some((LlsdView::Undefined, q))
        } else if t == 48 {
            Some((LlsdView::Bool(false), q))
        } else if t == 49 {
            Some((LlsdView::Bool(true), q))
        } else if t == 105 {
            if q + 4 <= d.len() {
                Some((LlsdView::Integer(be_u32(d, q as int) as i32), q + 4))
            } else {
                None
            }
        } else if t == 114 || t == 100 {
            if q + 8 <= d.len() {
                let bits = be_u64(d, q as int);
                Some(
                    (
                        if t == 114 {
                            LlsdView::Real(bits)
                        } else {
                            LlsdView::Date(bits)
                        },
                        q + 8,
                    ),
                )
            } else {
                None
            }
        } else if t == 39 || t == 34 || is_len_string_token(t) {
            match string_at(d, t, q) {
                Some((s, e)) => Some((LlsdView::Str(s), e)),
                None => None,
            }
        } else if t == 98 {
            match len_prefixed(d, q) {
                Some((b, e)) => Some((LlsdView::Binary(b), e)),
                None => None,
            }
        } else if t == 117 {
            if q + 16 <= d.len() {
                Some((LlsdView::Uuid(d.subrange(q as int, q + 16int)), q + 16))
            } else {
                None
            }
        } else {
            None
        }
    }
}

/// The remaining `n` items of an array, then its `]`.
pub open spec fn parse_array(d: Seq<u8>, p: nat, n: nat, acc: Seq<LlsdView>, fuel: nat) -> Option<
    (LlsdView, nat),
>
    decreases fuel, n + 1,
{
    if n == 0 {
        if p < d.len() && d[p as int] == 93 {
            Some((LlsdView::Array(acc), p + 1))
        } else {
            None
        }
    } else {
        match parse_value(d, p, fuel) {
            Some((v, q)) => parse_array(d, q, (n - 1) as nat, acc.push(v), fuel),
            None => None,
        }
    }
}

/// A map key at `p` (length-prefixed or delimited) and the position after it.
pub open spec fn map_key(d: Seq<u8>, p: nat) -> Option<(Seq<char>, nat)> {
    if p < d.len() && (is_len_string_token(d[p as int]) || d[p as int] == 39 || d[p as int]
        == 34) {
        string_at(d, d[p as int], p + 1)
    } else {
        None
    }
}

/// The remaining `n` entries of a map, then its `}`.
pub open spec fn parse_map(
    d: Seq<u8>,
    p: nat,
    n: nat,
    acc: Seq<(Seq<char>, LlsdView)>,
    fuel: nat,
) -> Option<(LlsdView, nat)>
    decreases fuel, n + 1,
{
    if n == 0 {
        if p < d.len() && d[p as int] == 125 {
            Some((LlsdView::Dict(acc), p + 1))
        } else {
            None
        }
    } else {
        match map_key(d, p) {
            Some((k, q)) => match parse_value(d, q, fuel) {
                Some((v, r)) => parse_map(d, r, (n - 1) as nat, map_insert(acc, k, v), fuel),
                None => None,
            },
            None => None,
        }
    }
}

/// The value that bytes begin with, and how many bytes it takes.
pub open spec fn parse_llsd(d: Seq<u8>) -> Option<(LlsdView, nat)> {
    parse_value(d, 0, d.len())
}


pub proof fn lemma_views_of(vs: Seq<BinaryLlsdValue>)
    ensures
        views_of(vs).len() == vs.len(),
        forall|i: int| 0 <= i < vs.len() ==> #[trigger] views_of(vs)[i] == llsd_view(vs[i]),
    decreases vs.len(),
{
    if vs.len() > 0 {
        lemma_views_of(vs.drop_last());
    }
}

pub proof fn lemma_entries_of(es: Seq<(String, BinaryLlsdValue)>)
    ensures
        entries_of(es).len() == es.len(),
        forall|i: int|
            0 <= i < es.len() ==> #[trigger] entries_of(es)[i] == (es[i].0@, llsd_view(es[i].1)),
    decreases es.len(),
{
    if es.len() > 0 {
        lemma_entries_of(es.drop_last());
    }
}

/// Two sequences of entries with equal views everywhere have equal views.
proof fn lemma_entries_ext(a: Seq<(String, BinaryLlsdValue)>, b: Seq<(Seq<char>, LlsdView)>)
    requires
        a.len() == b.len(),
        forall|i: int| 0 <= i < a.len() ==> #[trigger] b[i] == (a[i].0@, llsd_view(a[i].1)),
    ensures
        entries_of(a) == b,
{
    lemma_entries_of(a);
    assert(entries_of(a) =~= b);
}

fn read_u32_at(data: &[u8], p: usize) -> (r: u32)
    requires
        p + 4 <= data@.len(),
    ensures
        r == be_u32(data@, p as int),
{
    (data[p] as u32) * 16777216 + (data[p + 1] as u32) * 65536 + (data[p + 2] as u32) * 256
        + (data[p + 3] as u32)
}

fn read_u64_at(data: &[u8], p: usize) -> (r: u64)
    requires
        p + 8 <= data@.len(),
    ensures
        r == be_u64(data@, p as int),
{
    assert(data@.len() == data.len());
    let hi = read_u32_at(data, p);
    let lo = read_u32_at(data, p + 4);
    (hi as u64) * 4294967296 + (lo as u64)
}

/// Whether `len` more bytes are there at `p`.
fn has_bytes(data: &[u8], p: usize, len: usize) -> (r: bool)
    ensures
        r == (p + len <= data@.len()),
{
    p <= data.len() && len <= data.len() - p
}

pub fn hex_nybble(byte: u8) -> (r: Option<u8>)
    ensures
        r == nybble(byte),
{
    if 48 <= byte && byte <= 57 {
        Some(byte - 48)
    } else if 97 <= byte && byte <= 102 {
        Some(byte - 97 + 10)
    } else if 65 <= byte && byte <= 70 {
        Some(byte - 65 + 10)
    } else {
        None
    }
}

fn escaped_exec(b: u8) -> (r: u8)
    ensures
        r == escaped(b),
{
    if b == 97 {
        7
    } else if b == 98 {
        8
    } else if b == 102 {
        12
    } else if b == 110 {
        10
    } else if b == 114 {
        13
    } else if b == 116 {
        9
    } else if b == 118 {
        11
    } else {
        b
    }
}

/// The raw bytes of a delimited string starting at `p` and the position after it.
pub fn read_delimited_bytes(data: &[u8], p: usize, delimiter: u8) -> (r: Result<(Vec<u8>, usize), LlsdError>)
    ensures
        match r {
            Ok((b, q)) => scan_delimited(data@, p as nat, delimiter, seq![], false, 0, 0) == Some(
                (b@, q as nat),
            ),
            Err(_) => scan_delimited(data@, p as nat, delimiter, seq![], false, 0, 0) is None,
        },
{
    let mut out: Vec<u8> = Vec::new();
    let mut escaping = false;
    let mut hex_needed: usize = 0;
    let mut hex_value: u8 = 0;
    let mut c = p;
    while c < data.len()
        invariant
            hex_needed <= 2,
            hex_needed == 0 ==> hex_value == 0,
            scan_delimited(data@, p as nat, delimiter, seq![], false, 0, 0) == scan_delimited(
                data@,
                c as nat,
                delimiter,
                out@,
                escaping,
                hex_needed as nat,
                hex_value,
            ),
        decreases data@.len() - c,
    {
        let byte = data[c];
        if hex_needed > 0 {
            let n = match hex_nybble(byte) {
                Some(n) => n,
                None => return Err(LlsdError::InvalidHexEscape(byte)),
            };
            let v = (((hex_value as u32) * 16 + (n as u32)) % 256) as u8;
            if hex_needed == 1 {
                out.push(v);
                escaping = false;
                hex_needed = 0;
                hex_value = 0;
            } else {
                hex_needed = hex_needed - 1;
                hex_value = v;
            }
        } else if escaping {
            if byte == 120 {
                hex_needed = 2;
                hex_value = 0;
            } else {
                out.push(escaped_exec(byte));
                escaping = false;
            }
        } else if byte == 92 {
            escaping = true;
            hex_value = 0;
        } else if byte == delimiter {
            return Ok((out, c + 1));
        } else {
            out.push(byte);
        }
        c += 1;
    }
    Err(LlsdError::UnexpectedEnd)
}

/// A length-prefixed byte string at `p` and the position after it.
pub fn read_len_prefixed_bytes(data: &[u8], p: usize) -> (r: Result<(Vec<u8>, usize), LlsdError>)
    ensures
        match r {
            Ok((b, q)) => len_prefixed(data@, p as nat) == Some((b@, q as nat)),
            Err(_) => len_prefixed(data@, p as nat) is None,
        },
{
    assert(data@.len() == data.len());
    if !has_bytes(data, p, 4) {
        return Err(LlsdError::UnexpectedEnd);
    }
    let len = read_u32_at(data, p) as usize;
    let q = p + 4;
    if !has_bytes(data, q, len) {
        return Err(LlsdError::UnexpectedEnd);
    }
    let mut out: Vec<u8> = Vec::new();
    let end = q + len;
    let mut i = q;
    while i < end
        invariant
            end == q + len,
            q <= i <= q + len <= data@.len(),
            out@ == data@.subrange(q as int, i as int),
        decreases end - i,
    {
        out.push(data[i]);
        assert(data@.subrange(q as int, i + 1) =~= data@.subrange(q as int, i as int).push(
            data@[i as int],
        ));
        i += 1;
    }
    Ok((out, end))
}

/// A string whose token `t` stood at `p - 1`, and the position after it.
fn read_string_at(data: &[u8], t: u8, p: usize) -> (r: Result<(String, usize), LlsdError>)
    ensures
        match r {
            Ok((s, q)) => string_at(data@, t, p as nat) == Some((s@, q as nat)),
            Err(_) => string_at(data@, t, p as nat) is None,
        },
{
    let raw = if t == 39 || t == 34 {
        read_delimited_bytes(data, p, t)
    } else {
        read_len_prefixed_bytes(data, p)
    };
    match raw {
        Ok((b, q)) => match string_from_utf8(b) {
            Some(s) => Ok((s, q)),
            None => Err(LlsdError::InvalidUtf8),
        },
        Err(e) => Err(e),
    }
}

/// Inserts `(k, v)` in key order, replacing the entry with key `k`.
pub fn dict_insert(entries: &mut Vec<(String, BinaryLlsdValue)>, k: String, v: BinaryLlsdValue)
    ensures
        entries_of(final(entries)@) == map_insert(entries_of(old(entries)@), k@, v@),
{
    let ghost e0 = entries_of(entries@);
    proof {
        lemma_entries_of(entries@);
    }
    let mut i: usize = 0;
    assert(e0.skip(0) =~= e0);
    while i < entries.len() && !(entries[i].0 == k || str_less(
        k.as_str(),
        entries[i].0.as_str(),
    ))
        invariant
            i <= entries@.len(),
            e0 == entries_of(entries@),
            e0.len() == entries@.len(),
            forall|j: int|
                0 <= j < entries@.len() ==> #[trigger] e0[j] == (
                    entries@[j].0@,
                    llsd_view(entries@[j].1),
                ),
            map_insert(e0, k@, v@) == e0.take(i as int) + map_insert(e0.skip(i as int), k@, v@),
        decreases entries@.len() - i,
    {
        assert(e0.skip(i as int)[0] == e0[i as int]);
        assert(e0.skip(i as int).drop_first() =~= e0.skip(i + 1));
        assert(e0.take(i + 1) =~= e0.take(i as int) + seq![e0[i as int]]);
        assert(e0.take(i as int) + map_insert(e0.skip(i as int), k@, v@) =~= e0.take(i + 1)
            + map_insert(e0.skip(i + 1), k@, v@));
        i += 1;
    }
    proof {
        if i < entries@.len() {
            assert(e0.skip(i as int)[0] == e0[i as int]);
        }
    }
    let ghost old_es = entries@;
    let ghost vv = v@;
    let ghost kk = k@;
    if i < entries.len() && entries[i].0 == k {
        entries.remove(i);
        entries.insert(i, (k, v));
        proof {
            let target = map_insert(e0, kk, vv);
            assert(e0.skip(i as int)[0].0 == kk);
            assert(e0.skip(i as int).drop_first() =~= e0.skip(i + 1));
            assert(target =~= e0.take(i as int) + seq![(kk, vv)] + e0.skip(i + 1));
            assert(entries@ =~= old_es.update(i as int, entries@[i as int]));
            lemma_entries_ext(entries@, target);
        }
    } else {
        entries.insert(i, (k, v));
        proof {
            let target = map_insert(e0, kk, vv);
            if i < old_es.len() {
                assert(e0.skip(i as int)[0].0 != kk);
                assert(target =~= e0.take(i as int) + seq![(kk, vv)] + e0.skip(i as int));
            } else {
                assert(e0.skip(i as int) =~= Seq::<(Seq<char>, LlsdView)>::empty());
                assert(target =~= e0.take(i as int) + seq![(kk, vv)]);
            }
            assert forall|j: int| 0 <= j < entries@.len() implies #[trigger] target[j] == (
                entries@[j].0@,
                llsd_view(entries@[j].1),
            ) by {
                if j < i {
                    assert(entries@[j] == old_es[j]);
                } else if j > i {
                    assert(entries@[j] == old_es[j - 1]);
                }
            }
            lemma_entries_ext(entries@, target);
        }
    }
}

fn is_len_token(t: u8) -> (r: bool)
    ensures
        r == is_len_string_token(t),
{
    t == 115 || t == 108 || t == 107
}

/// Parses the value at `p`, nesting at most `fuel` deep (see [`parse_value`]).
pub fn parse_value_at(data: &[u8], p: usize, fuel: usize) -> (r: Result<
    (BinaryLlsdValue, usize),
    LlsdError,
>)
    ensures
        match r {
            Ok((v, q)) => parse_value(data@, p as nat, fuel as nat) == Some((v@, q as nat)),
            Err(_) => parse_value(data@, p as nat, fuel as nat) is None,
        },
    decreases fuel, 0nat,
{
    if fuel == 0 {
        return Err(LlsdError::TooDeep);
    }
    if p >= data.len() {
        return Err(LlsdError::UnexpectedEnd);
    }
    let t = data[p];
    let q = p + 1;
    if t == 123 || t == 91 {
        if !has_bytes(data, q, 4) {
            return Err(LlsdError::UnexpectedEnd);
        }
        let n = read_u32_at(data, q);
        if t == 123 {
            parse_dict_items(data, q + 4, n, fuel - 1)
        } else {
            parse_array_items(data, q + 4, n, fuel - 1)
        }
    } else if t == 33 {
        Ok((BinaryLlsdValue::Undefined, q))
    } else if t == 48 {
        Ok((BinaryLlsdValue::Bool(false), q))
    } else if t == 49 {
        Ok((BinaryLlsdValue::Bool(true), q))
    } else if t == 105 {
        if !has_bytes(data, q, 4) {
            return Err(LlsdError::UnexpectedEnd);
        }
        Ok((BinaryLlsdValue::Integer(read_u32_at(data, q) as i32), q + 4))
    } else if t == 114 || t == 100 {
        if !has_bytes(data, q, 8) {
            return Err(LlsdError::UnexpectedEnd);
        }
        let bits = read_u64_at(data, q);
        if t == 114 {
            Ok((BinaryLlsdValue::Real(bits), q + 8))
        } else {
            Ok((BinaryLlsdValue::Date(bits), q + 8))
        }
    } else if t == 39 || t == 34 || is_len_token(t) {
        match read_string_at(data, t, q) {
            Ok((s, e)) => Ok((BinaryLlsdValue::String(s), e)),
            Err(e) => Err(e),
        }
    } else if t == 98 {
        match read_len_prefixed_bytes(data, q) {
            Ok((b, e)) => Ok((BinaryLlsdValue::Binary(b), e)),
            Err(e) => Err(e),
        }
    } else if t == 117 {
        if !has_bytes(data, q, 16) {
            return Err(LlsdError::UnexpectedEnd);
        }
        let u: [u8; 16] = [
            data[q],
            data[q + 1],
            data[q + 2],
            data[q + 3],
            data[q + 4],
            data[q + 5],
            data[q + 6],
            data[q + 7],
            data[q + 8],
            data[q + 9],
            data[q + 10],
            data[q + 11],
            data[q + 12],
            data[q + 13],
            data[q + 14],
            data[q + 15],
        ];
        assert(u@ =~= data@.subrange(q as int, q + 16int));
        Ok((BinaryLlsdValue::Uuid(u), q + 16))
    } else {
        Err(LlsdError::UnsupportedToken(t))
    }
}

fn parse_array_items(data: &[u8], p: usize, n: u32, fuel: usize) -> (r: Result<
    (BinaryLlsdValue, usize),
    LlsdError,
>)
    ensures
        match r {
            Ok((v, q)) => parse_array(data@, p as nat, n as nat, seq![], fuel as nat) == Some(
                (v@, q as nat),
            ),
            Err(_) => parse_array(data@, p as nat, n as nat, seq![], fuel as nat) is None,
        },
    decreases fuel, 1nat,
{
    let mut items: Vec<BinaryLlsdValue> = Vec::new();
    let mut cur = p;
    let mut left = n;
    while left > 0
        invariant
            parse_array(data@, p as nat, n as nat, seq![], fuel as nat) == parse_array(
                data@,
                cur as nat,
                left as nat,
                views_of(items@),
                fuel as nat,
            ),
        decreases left,
    {
        match parse_value_at(data, cur, fuel) {
            Ok((v, q)) => {
                let ghost vv = v@;
                let ghost before = items@;
                items.push(v);
                assert(items@.drop_last() =~= before);
                cur = q;
                left = left - 1;
            },
            Err(e) => return Err(e),
        }
    }
    if cur < data.len() && data[cur] == 93 {
        Ok((BinaryLlsdValue::Array(items), cur + 1))
    } else if cur >= data.len() {
        Err(LlsdError::UnexpectedEnd)
    } else {
        Err(LlsdError::MissingArrayTerminator)
    }
}

fn parse_dict_items(data: &[u8], p: usize, n: u32, fuel: usize) -> (r: Result<
    (BinaryLlsdValue, usize),
    LlsdError,
>)
    ensures
        match r {
            Ok((v, q)) => parse_map(data@, p as nat, n as nat, seq![], fuel as nat) == Some(
                (v@, q as nat),
            ),
            Err(_) => parse_map(data@, p as nat, n as nat, seq![], fuel as nat) is None,
        },
    decreases fuel, 1nat,
{
    let mut entries: Vec<(String, BinaryLlsdValue)> = Vec::new();
    let mut cur = p;
    let mut left = n;
    while left > 0
        invariant
            parse_map(data@, p as nat, n as nat, seq![], fuel as nat) == parse_map(
                data@,
                cur as nat,
                left as nat,
                entries_of(entries@),
                fuel as nat,
            ),
        decreases left,
    {
        if cur >= data.len() {
            return Err(LlsdError::UnexpectedEnd);
        }
        let kt = data[cur];
        if !(is_len_token(kt) || kt == 39 || kt == 34) {
            return Err(LlsdError::UnsupportedKeyToken(kt));
        }
        let (k, q) = match read_string_at(data, kt, cur + 1) {
            Ok(x) => x,
            Err(e) => return Err(e),
        };
        match parse_value_at(data, q, fuel) {
            Ok((v, r2)) => {
                dict_insert(&mut entries, k, v);
                cur = r2;
                left = left - 1;
            },
            Err(e) => return Err(e),
        }
    }
    if cur < data.len() && data[cur] == 125 {
        Ok((BinaryLlsdValue::Dict(entries), cur + 1))
    } else if cur >= data.len() {
        Err(LlsdError::UnexpectedEnd)
    } else {
        Err(LlsdError::MissingMapTerminator)
    }
}

/// Parses the value that `data` begins with and says how many bytes it took.
pub fn parse_binary_llsd(data: &[u8]) -> (r: Result<(BinaryLlsdValue, usize), LlsdError>)
    ensures
        match r {
            Ok((v, n)) => parse_llsd(data@) == Some((v@, n as nat)),
            Err(_) => parse_llsd(data@) is None,
        },
{
    parse_value_at(data, 0, data.len())
}


/// The big-endian bytes of `x`.
pub open spec fn be32(x: u32) -> Seq<u8> {
    seq![
        (x / 16777216) as u8,
        ((x / 65536) % 256) as u8,
        ((x / 256) % 256) as u8,
        (x % 256) as u8,
    ]
}

/// The big-endian bytes of `x`.
pub open spec fn be64(x: u64) -> Seq<u8> {
    be32((x / 4294967296) as u32) + be32((x % 4294967296) as u32)
}

/// A length-prefixed byte string: its length as a big-endian `u32`, then the bytes.
pub open spec fn len_bytes(b: Seq<u8>) -> Seq<u8> {
    be32(b.len() as u32) + b
}

/// The binary LLSD encoding of a value; strings as `s`, map keys as `k`.
pub open spec fn encode(v: LlsdView) -> Seq<u8>
    decreases v,
{
    match v {
        LlsdView::Undefined => seq![33u8],
        LlsdView::Bool(b) => if b {
            seq![49u8]
        } else {
            seq![48u8]
        },
        LlsdView::Integer(i) => seq![105u8] + be32(i as u32),
        LlsdView::Real(r) => seq![114u8] + be64(r),
        LlsdView::Date(d) => seq![100u8] + be64(d),
        LlsdView::Str(s) => seq![115u8] + len_bytes(encode_utf8(s)),
        LlsdView::Binary(b) => seq![98u8] + len_bytes(b),
        LlsdView::Array(vs) => seq![91u8] + be32(vs.len() as u32) + encode_items(vs) + seq![93u8],
        LlsdView::Dict(es) => seq![123u8] + be32(es.len() as u32) + encode_entries(es) + seq![
            125u8,
        ],
        LlsdView::Uuid(u) => seq![117u8] + u,
    }
}

pub open spec fn encode_items(vs: Seq<LlsdView>) -> Seq<u8>
    decreases vs,
{
    if vs.len() == 0 {
        seq![]
    } else {
        encode_items(vs.drop_last()) + encode(vs.last())
    }
}

pub open spec fn encode_entries(es: Seq<(Seq<char>, LlsdView)>) -> Seq<u8>
    decreases es,
{
    if es.len() == 0 {
        seq![]
    } else {
        encode_entries(es.drop_last()) + seq![107u8] + len_bytes(encode_utf8(es.last().0))
            + encode(es.last().1)
    }
}

fn push_be32(out: &mut Vec<u8>, x: u32)
    ensures
        final(out)@ == old(out)@ + be32(x),
{
    out.push((x / 16777216) as u8);
    out.push(((x / 65536) % 256) as u8);
    out.push(((x / 256) % 256) as u8);
    out.push((x % 256) as u8);
    assert(final(out)@ =~= old(out)@ + be32(x));
}

fn push_be64(out: &mut Vec<u8>, x: u64)
    ensures
        final(out)@ == old(out)@ + be64(x),
{
    let ghost o = out@;
    push_be32(out, (x / 4294967296) as u32);
    push_be32(out, (x % 4294967296) as u32);
    assert(out@ =~= o + be64(x));
}

fn push_bytes(out: &mut Vec<u8>, b: &[u8])
    ensures
        final(out)@ == old(out)@ + b@,
{
    let ghost o = out@;
    let mut i: usize = 0;
    while i < b.len()
        invariant
            i <= b@.len(),
            out@ == o + b@.take(i as int),
        decreases b@.len() - i,
    {
        out.push(b[i]);
        assert(b@.take(i + 1) =~= b@.take(i as int).push(b@[i as int]));
        i += 1;
    }
    assert(b@.take(b@.len() as int) =~= b@);
}

/// Appends a length prefix (truncated to 32 bits, as the format has it) and the bytes.
pub fn encode_len_prefixed_bytes(bytes: &[u8], out: &mut Vec<u8>)
    ensures
        final(out)@ == old(out)@ + len_bytes(bytes@),
{
    let ghost o = out@;
    push_be32(out, bytes.len() as u32);
    push_bytes(out, bytes);
    assert(out@ =~= o + len_bytes(bytes@));
}

/// Appends the encoding of `value`.
pub fn encode_binary_llsd_value_into(value: &BinaryLlsdValue, out: &mut Vec<u8>)
    ensures
        final(out)@ == old(out)@ + encode(value@),
    decreases value,
{
    let ghost o = out@;
    match value {
        BinaryLlsdValue::Undefined => {
            out.push(33);
        },
        BinaryLlsdValue::Bool(b) => {
            if *b {
                out.push(49);
            } else {
                out.push(48);
            }
        },
        BinaryLlsdValue::Integer(i) => {
            out.push(105);
            push_be32(out, *i as u32);
        },
        BinaryLlsdValue::Real(r) => {
            out.push(114);
            push_be64(out, *r);
        },
        BinaryLlsdValue::Date(d) => {
            out.push(100);
            push_be64(out, *d);
        },
        BinaryLlsdValue::String(st) => {
            out.push(115);
            encode_len_prefixed_bytes(st.as_str().as_bytes(), out);
        },
        BinaryLlsdValue::Binary(b) => {
            out.push(98);
            encode_len_prefixed_bytes(b.as_slice(), out);
        },
        BinaryLlsdValue::Array(vs) => {
            out.push(91);
            push_be32(out, vs.len() as u32);
            let ghost mid = out@;
            let mut i: usize = 0;
            while i < vs.len()
                invariant
                    i <= vs@.len(),
                    *value == BinaryLlsdValue::Array(*vs),
                    out@ == mid + encode_items(views_of(vs@).take(i as int)),
                decreases vs@.len() - i,
            {
                proof {
                    lemma_views_of(vs@);
                    assert(views_of(vs@).take(i + 1).drop_last() =~= views_of(vs@).take(i as int));
                }
                proof {
                    assert(decreases_to!(*value => (*value)->Array_0));
                    assert(decreases_to!((*value)->Array_0 => vs@));
                    assert(decreases_to!(vs@ => vs@[i as int]));
                }
                encode_binary_llsd_value_into(&vs[i], out);
                i += 1;
            }
            out.push(93);
            proof {
                lemma_views_of(vs@);
                assert(views_of(vs@).take(vs@.len() as int) =~= views_of(vs@));
            }
        },
        BinaryLlsdValue::Dict(es) => {
            out.push(123);
            push_be32(out, es.len() as u32);
            let ghost mid = out@;
            let mut i: usize = 0;
            while i < es.len()
                invariant
                    i <= es@.len(),
                    *value == BinaryLlsdValue::Dict(*es),
                    out@ == mid + encode_entries(entries_of(es@).take(i as int)),
                decreases es@.len() - i,
            {
                proof {
                    lemma_entries_of(es@);
                    assert(entries_of(es@).take(i + 1).drop_last() =~= entries_of(es@).take(
                        i as int,
                    ));
                }
                out.push(107);
                encode_len_prefixed_bytes(es[i].0.as_str().as_bytes(), out);
                proof {
                    assert(decreases_to!(*value => (*value)->Dict_0));
                    assert(decreases_to!((*value)->Dict_0 => es@));
                    assert(decreases_to!(es@ => es@[i as int]));
                    assert(decreases_to!(es@[i as int] => es@[i as int].1));
                }
                encode_binary_llsd_value_into(&es[i].1, out);
                i += 1;
            }
            out.push(125);
            proof {
                lemma_entries_of(es@);
                assert(entries_of(es@).take(es@.len() as int) =~= entries_of(es@));
            }
        },
        BinaryLlsdValue::Uuid(u) => {
            out.push(117);
            push_bytes(out, u);
        },
    }
    assert(out@ =~= o + encode(value@));
}

/// The encoding of `value`.
pub fn encode_binary_llsd_value(value: &BinaryLlsdValue) -> (r: Vec<u8>)
    ensures
        r@ == encode(value@),
{
    let mut out: Vec<u8> = Vec::new();
    encode_binary_llsd_value_into(value, &mut out);
    assert(out@ =~= encode(value@));
    out
}


/// Keys in strictly increasing order.
pub open spec fn keys_sorted(es: Seq<(Seq<char>, LlsdView)>) -> bool {
    forall|i: int, j: int| 0 <= i < j < es.len() ==> seq_lt(#[trigger] es[i].0, #[trigger] es[j].0)
}

/// A value the encoding represents faithfully: every length and count fits
/// in 32 bits, map keys are strictly increasing, and UUIDs have 16 bytes.
pub open spec fn llsd_wf(v: LlsdView) -> bool
    decreases v,
{
    match v {
        LlsdView::Str(s) => encode_utf8(s).len() < 0x1_0000_0000,
        LlsdView::Binary(b) => b.len() < 0x1_0000_0000,
        LlsdView::Array(vs) => vs.len() < 0x1_0000_0000 && items_wf(vs),
        LlsdView::Dict(es) => es.len() < 0x1_0000_0000 && keys_sorted(es) && entries_wf(es),
        LlsdView::Uuid(u) => u.len() == 16,
        _ => true,
    }
}

pub open spec fn items_wf(vs: Seq<LlsdView>) -> bool
    decreases vs,
{
    vs.len() == 0 || (items_wf(vs.drop_last()) && llsd_wf(vs.last()))
}

pub open spec fn entries_wf(es: Seq<(Seq<char>, LlsdView)>) -> bool
    decreases es,
{
    es.len() == 0 || (entries_wf(es.drop_last()) && encode_utf8(es.last().0).len() < 0x1_0000_0000
        && llsd_wf(es.last().1))
}

/// How deeply a value nests (a scalar is 1).
pub open spec fn depth(v: LlsdView) -> nat
    decreases v,
{
    match v {
        LlsdView::Array(vs) => 1 + items_depth(vs),
        LlsdView::Dict(es) => 1 + entries_depth(es),
        _ => 1,
    }
}

pub open spec fn items_depth(vs: Seq<LlsdView>) -> nat
    decreases vs,
{
    if vs.len() == 0 {
        0
    } else {
        let a = items_depth(vs.drop_last());
        let b = depth(vs.last());
        if a > b {
            a
        } else {
            b
        }
    }
}

pub open spec fn entries_depth(es: Seq<(Seq<char>, LlsdView)>) -> nat
    decreases es,
{
    if es.len() == 0 {
        0
    } else {
        let a = entries_depth(es.drop_last());
        let b = depth(es.last().1);
        if a > b {
            a
        } else {
            b
        }
    }
}

proof fn lemma_sub(d: Seq<u8>, p: int, e: Seq<u8>, a: int, b: int)
    requires
        0 <= p,
        p + e.len() <= d.len(),
        d.subrange(p, p + e.len()) == e,
        0 <= a <= b <= e.len(),
    ensures
        d.subrange(p + a, p + b) == e.subrange(a, b),
        forall|i: int| a <= i < b ==> d[p + i] == #[trigger] e[i],
{
    assert forall|i: int| a <= i < b implies d[p + i] == #[trigger] e[i] by {
        assert(d.subrange(p, p + e.len())[i] == d[p + i]);
    }
    assert(d.subrange(p + a, p + b) =~= e.subrange(a, b));
}

proof fn lemma_be32(d: Seq<u8>, p: int, x: u32)
    requires
        0 <= p,
        p + 4 <= d.len(),
        d.subrange(p, p + 4) == be32(x),
    ensures
        be_u32(d, p) == x,
{
    assert(d[p] == be32(x)[0]);
    assert(d[p + 1] == be32(x)[1]);
    assert(d[p + 2] == be32(x)[2]);
    assert(d[p + 3] == be32(x)[3]);
    let a: u32 = x / 16777216;
    let b: u32 = (x / 65536) % 256;
    let c: u32 = (x / 256) % 256;
    let e: u32 = x % 256;
    assert(a * 16777216 + b * 65536 + c * 256 + e == x && a < 256) by (bit_vector)
        requires
            a == x / 16777216,
            b == (x / 65536) % 256,
            c == (x / 256) % 256,
            e == x % 256,
    ;
}

proof fn lemma_be64(d: Seq<u8>, p: int, x: u64)
    requires
        0 <= p,
        p + 8 <= d.len(),
        d.subrange(p, p + 8) == be64(x),
    ensures
        be_u64(d, p) == x,
{
    let hi = (x / 4294967296) as u32;
    let lo = (x % 4294967296) as u32;
    lemma_sub(d, p, be64(x), 0, 4);
    lemma_sub(d, p, be64(x), 4, 8);
    assert(be64(x).subrange(0, 4) =~= be32(hi));
    assert(be64(x).subrange(4, 8) =~= be32(lo));
    lemma_be32(d, p, hi);
    lemma_be32(d, p + 4, lo);
    let h: u64 = x / 4294967296;
    let l: u64 = x % 4294967296;
    assert(h < 4294967296 && l < 4294967296 && h * 4294967296 + l == x) by (bit_vector)
        requires
            h == x / 4294967296,
            l == x % 4294967296,
    ;
}

proof fn lemma_items_prefix(vs: Seq<LlsdView>, k: int, j: int)
    requires
        0 <= k <= j <= vs.len(),
    ensures
        encode_items(vs.take(k)).len() <= encode_items(vs.take(j)).len(),
        encode_items(vs.take(j)).subrange(0, encode_items(vs.take(k)).len() as int)
            == encode_items(vs.take(k)),
    decreases j - k,
{
    if k < j {
        lemma_items_prefix(vs, k, j - 1);
        assert(vs.take(j).drop_last() =~= vs.take(j - 1));
        let a = encode_items(vs.take(k));
        let b = encode_items(vs.take(j - 1));
        let c = encode_items(vs.take(j));
        assert(c == b + encode(vs[j - 1]));
        assert(c.subrange(0, a.len() as int) =~= b.subrange(0, a.len() as int));
    } else {
        assert(encode_items(vs.take(j)).subrange(0, encode_items(vs.take(k)).len() as int)
            =~= encode_items(vs.take(k)));
    }
}

proof fn lemma_entries_prefix(es: Seq<(Seq<char>, LlsdView)>, k: int, j: int)
    requires
        0 <= k <= j <= es.len(),
    ensures
        encode_entries(es.take(k)).len() <= encode_entries(es.take(j)).len(),
        encode_entries(es.take(j)).subrange(0, encode_entries(es.take(k)).len() as int)
            == encode_entries(es.take(k)),
    decreases j - k,
{
    if k < j {
        lemma_entries_prefix(es, k, j - 1);
        assert(es.take(j).drop_last() =~= es.take(j - 1));
        let a = encode_entries(es.take(k));
        let b = encode_entries(es.take(j - 1));
        let c = encode_entries(es.take(j));
        assert(c.subrange(0, a.len() as int) =~= b.subrange(0, a.len() as int));
    } else {
        assert(encode_entries(es.take(j)).subrange(0, encode_entries(es.take(k)).len() as int)
            =~= encode_entries(es.take(k)));
    }
}

proof fn lemma_items_facts(vs: Seq<LlsdView>, k: int)
    requires
        0 <= k < vs.len(),
        items_wf(vs),
    ensures
        llsd_wf(vs[k]),
        depth(vs[k]) <= items_depth(vs),
    decreases vs.len(),
{
    if k < vs.len() - 1 {
        lemma_items_facts(vs.drop_last(), k);
    }
}

proof fn lemma_entries_facts(es: Seq<(Seq<char>, LlsdView)>, k: int)
    requires
        0 <= k < es.len(),
        entries_wf(es),
    ensures
        llsd_wf(es[k].1),
        encode_utf8(es[k].0).len() < 0x1_0000_0000,
        depth(es[k].1) <= entries_depth(es),
    decreases es.len(),
{
    if k < es.len() - 1 {
        lemma_entries_facts(es.drop_last(), k);
    }
}

proof fn lemma_map_insert_last(acc: Seq<(Seq<char>, LlsdView)>, k: Seq<char>, v: LlsdView)
    requires
        forall|i: int| 0 <= i < acc.len() ==> seq_lt(#[trigger] acc[i].0, k),
    ensures
        map_insert(acc, k, v) == acc.push((k, v)),
    decreases acc.len(),
{
    if acc.len() > 0 {
        crate::texture_cache::lemma_seq_lt_asym(acc[0].0, k);
        lemma_map_insert_last(acc.drop_first(), k, v);
        assert(seq![acc[0]] + acc.drop_first().push((k, v)) =~= acc.push((k, v)));
    } else {
        assert(seq![(k, v)] =~= acc.push((k, v)));
    }
}

/// A length-prefixed UTF-8 text that the bytes at `p` hold is read back.
proof fn lemma_string_at(d: Seq<u8>, t: u8, p: int, s: Seq<char>)
    requires
        0 <= p,
        is_len_string_token(t),
        encode_utf8(s).len() < 0x1_0000_0000,
        p + 4 + encode_utf8(s).len() <= d.len(),
        d.subrange(p, p + 4 + encode_utf8(s).len()) == len_bytes(encode_utf8(s)),
    ensures
        string_at(d, t, p as nat) == Some((s, (p + 4 + encode_utf8(s).len()) as nat)),
{
    let b = encode_utf8(s);
    let n = b.len();
    assert((n as u32) as nat == n);
    let lb = len_bytes(b);
    lemma_sub(d, p, lb, 0, 4);
    lemma_sub(d, p, lb, 4, lb.len() as int);
    assert(lb.subrange(0, 4) =~= be32(n as u32));
    assert(lb.subrange(4, lb.len() as int) =~= b);
    lemma_be32(d, p, n as u32);
    vstd::utf8::encode_utf8_valid_utf8(s);
    vstd::utf8::encode_utf8_decode_utf8(s);
}

/// Parsing the encoding of a faithful value gives the value back, wherever
/// the encoding stands in the bytes and whatever follows it.
/// Parsing the encoding of a scalar (a value without nesting) gives it back.
proof fn lemma_parse_scalar(d: Seq<u8>, p: int, v: LlsdView, fuel: nat)
    requires
        0 <= p,
        llsd_wf(v),
        fuel >= 1,
        !(v is Array),
        !(v is Dict),
        p + encode(v).len() <= d.len(),
        d.subrange(p, p + encode(v).len()) == encode(v),
    ensures
        parse_value(d, p as nat, fuel) == Some((v, (p + encode(v).len()) as nat)),
{
    let e = encode(v);
    lemma_sub(d, p, e, 0, e.len() as int);
    assert(d[p] == e[0]);
    match v {
        LlsdView::Integer(i) => {
            lemma_sub(d, p, e, 1, 5);
            assert(e.subrange(1, 5) =~= be32(i as u32));
            lemma_be32(d, p + 1, i as u32);
            let u: u32 = i as u32;
            assert((u as i32) == i) by (bit_vector)
                requires
                    u == i as u32,
            ;
        },
        LlsdView::Real(r) => {
            lemma_sub(d, p, e, 1, 9);
            assert(e.subrange(1, 9) =~= be64(r));
            lemma_be64(d, p + 1, r);
        },
        LlsdView::Date(x) => {
            lemma_sub(d, p, e, 1, 9);
            assert(e.subrange(1, 9) =~= be64(x));
            lemma_be64(d, p + 1, x);
        },
        LlsdView::Str(s) => {
            lemma_sub(d, p, e, 1, e.len() as int);
            assert(e.subrange(1, e.len() as int) =~= len_bytes(encode_utf8(s)));
            lemma_string_at(d, 115, p + 1, s);
        },
        LlsdView::Binary(b) => {
            let n = b.len();
            assert((n as u32) as nat == n);
            lemma_sub(d, p, e, 1, 5);
            lemma_sub(d, p, e, 5, e.len() as int);
            assert(e.subrange(1, 5) =~= be32(n as u32));
            assert(e.subrange(5, e.len() as int) =~= b);
            lemma_be32(d, p + 1, n as u32);
        },
        LlsdView::Uuid(u) => {
            lemma_sub(d, p, e, 1, 17);
            assert(e.subrange(1, 17) =~= u);
        },
        _ => {},
    }
}

proof fn lemma_array_header(d: Seq<u8>, p: int, vs: Seq<LlsdView>)
    requires
        0 <= p,
        vs.len() < 0x1_0000_0000,
        p + encode(LlsdView::Array(vs)).len() <= d.len(),
        d.subrange(p, p + encode(LlsdView::Array(vs)).len()) == encode(LlsdView::Array(vs)),
    ensures
        encode(LlsdView::Array(vs)).len() == encode_items(vs).len() + 6,
        d[p] == 91,
        be_u32(d, p + 1) == vs.len(),
        d.subrange(p + 5, p + 5 + encode_items(vs).len()) == encode_items(vs),
        d[p + 5 + encode_items(vs).len()] == 93,
{
    let e = encode(LlsdView::Array(vs));
    let n = vs.len();
    let en = encode_items(vs);
    assert((n as u32) as nat == n);
    lemma_sub(d, p, e, 0, e.len() as int);
    lemma_sub(d, p, e, 1, 5);
    lemma_sub(d, p, e, 5, 5 + en.len() as int);
    assert(e.subrange(1, 5) =~= be32(n as u32));
    assert(e.subrange(5, 5 + en.len() as int) =~= en);
    assert(e[0] == 91);
    assert(e[5 + en.len() as int] == 93);
    lemma_be32(d, p + 1, n as u32);
}

proof fn lemma_dict_header(d: Seq<u8>, p: int, es: Seq<(Seq<char>, LlsdView)>)
    requires
        0 <= p,
        es.len() < 0x1_0000_0000,
        p + encode(LlsdView::Dict(es)).len() <= d.len(),
        d.subrange(p, p + encode(LlsdView::Dict(es)).len()) == encode(LlsdView::Dict(es)),
    ensures
        encode(LlsdView::Dict(es)).len() == encode_entries(es).len() + 6,
        d[p] == 123,
        be_u32(d, p + 1) == es.len(),
        d.subrange(p + 5, p + 5 + encode_entries(es).len()) == encode_entries(es),
        d[p + 5 + encode_entries(es).len()] == 125,
{
    let e = encode(LlsdView::Dict(es));
    let n = es.len();
    let en = encode_entries(es);
    assert((n as u32) as nat == n);
    lemma_sub(d, p, e, 0, e.len() as int);
    lemma_sub(d, p, e, 1, 5);
    lemma_sub(d, p, e, 5, 5 + en.len() as int);
    assert(e.subrange(1, 5) =~= be32(n as u32));
    assert(e.subrange(5, 5 + en.len() as int) =~= en);
    assert(e[0] == 123);
    assert(e[5 + en.len() as int] == 125);
    lemma_be32(d, p + 1, n as u32);
}

/// Parsing the encoding of a faithful value gives the value back, wherever
/// the encoding stands in the bytes and whatever follows it.
pub proof fn lemma_parse_encoded(d: Seq<u8>, p: int, v: LlsdView, fuel: nat)
    requires
        0 <= p,
        llsd_wf(v),
        fuel >= depth(v),
        p + encode(v).len() <= d.len(),
        d.subrange(p, p + encode(v).len()) == encode(v),
    ensures
        parse_value(d, p as nat, fuel) == Some((v, (p + encode(v).len()) as nat)),
    decreases v, 0int,
{
    match v {
        LlsdView::Array(vs) => {
            lemma_array_header(d, p, vs);
            assert(vs.take(vs.len() as int) =~= vs);
            assert(vs.take(0) =~= Seq::<LlsdView>::empty());
            lemma_parse_items(d, p + 5, vs, 0, (fuel - 1) as nat);
        },
        LlsdView::Dict(es) => {
            lemma_dict_header(d, p, es);
            assert(es.take(es.len() as int) =~= es);
            assert(es.take(0) =~= Seq::<(Seq<char>, LlsdView)>::empty());
            lemma_parse_entries(d, p + 5, es, 0, (fuel - 1) as nat);
        },
        _ => {
            lemma_parse_scalar(d, p, v, fuel);
        },
    }
}

proof fn lemma_parse_items(d: Seq<u8>, q: int, vs: Seq<LlsdView>, k: int, fuel: nat)
    requires
        0 <= q,
        0 <= k <= vs.len(),
        vs.len() < 0x1_0000_0000,
        items_wf(vs),
        fuel >= items_depth(vs),
        q + encode_items(vs).len() < d.len(),
        d.subrange(q, q + encode_items(vs).len()) == encode_items(vs),
        d[q + encode_items(vs).len()] == 93,
    ensures
        parse_array(
            d,
            (q + encode_items(vs.take(k)).len()) as nat,
            (vs.len() - k) as nat,
            vs.take(k),
            fuel,
        ) == Some((LlsdView::Array(vs), (q + encode_items(vs).len() + 1) as nat)),
    decreases vs, vs.len() - k,
{
    let n = vs.len() as int;
    if k == n {
        assert(vs.take(k) =~= vs);
    } else {
        let ek = encode_items(vs.take(k));
        let ek1 = encode_items(vs.take(k + 1));
        let en = encode_items(vs);
        assert(vs.take(k + 1).drop_last() =~= vs.take(k));
        assert(ek1 == ek + encode(vs[k]));
        lemma_items_prefix(vs, k + 1, n);
        assert(vs.take(n) =~= vs);
        let off = q + ek.len();
        let vl: int = encode(vs[k]).len() as int;
        assert(d.subrange(off, off + vl) =~= en.subrange(ek.len() as int, ek.len() as int + vl));
        assert(en.subrange(ek.len() as int, ek.len() as int + vl) =~= ek1.subrange(
            ek.len() as int,
            ek.len() as int + vl,
        ));
        assert(ek1.subrange(ek.len() as int, ek.len() as int + vl) =~= encode(vs[k]));
        lemma_items_facts(vs, k);
        lemma_parse_encoded(d, off, vs[k], fuel);
        assert(vs.take(k).push(vs[k]) =~= vs.take(k + 1));
        lemma_parse_items(d, q, vs, k + 1, fuel);
    }
}

/// Where entry `k` of an encoded map stands and what its key reads as.
proof fn lemma_entry_at(d: Seq<u8>, q: int, es: Seq<(Seq<char>, LlsdView)>, k: int)
    requires
        0 <= q,
        0 <= k < es.len(),
        entries_wf(es),
        q + encode_entries(es).len() <= d.len(),
        d.subrange(q, q + encode_entries(es).len()) == encode_entries(es),
    ensures
        ({
            let off = q + encode_entries(es.take(k)).len();
            let voff = off + 5 + encode_utf8(es[k].0).len();
            &&& map_key(d, off as nat) == Some((es[k].0, voff as nat))
            &&& voff + encode(es[k].1).len() <= d.len()
            &&& d.subrange(voff, voff + encode(es[k].1).len()) == encode(es[k].1)
            &&& q + encode_entries(es.take(k + 1)).len() == voff + encode(es[k].1).len()
        }),
{
    let n = es.len() as int;
    let ek = encode_entries(es.take(k));
    let ek1 = encode_entries(es.take(k + 1));
    let en = encode_entries(es);
    let key = es[k].0;
    let val = es[k].1;
    let kb = len_bytes(encode_utf8(key));
    assert(es.take(k + 1).drop_last() =~= es.take(k));
    assert(ek1 == ek + seq![107u8] + kb + encode(val));
    lemma_entries_prefix(es, k + 1, n);
    assert(es.take(n) =~= es);
    let off = q + ek.len();
    let total: int = (1 + kb.len() + encode(val).len()) as int;
    lemma_sub(d, q, en, ek.len() as int, ek.len() as int + total);
    assert(en.subrange(ek.len() as int, ek.len() as int + total) =~= ek1.subrange(
        ek.len() as int,
        ek.len() as int + total,
    ));
    let part = seq![107u8] + kb + encode(val);
    assert(ek1.subrange(ek.len() as int, ek.len() as int + total) =~= part);
    assert(d.subrange(off, off + total) == part);
    lemma_sub(d, off, part, 0, total);
    lemma_sub(d, off, part, 1, 1 + kb.len() as int);
    lemma_sub(d, off, part, 1 + kb.len() as int, total);
    assert(part[0] == 107u8);
    assert(part.subrange(1, 1 + kb.len() as int) =~= kb);
    assert(part.subrange(1 + kb.len() as int, total) =~= encode(val));
    lemma_entries_facts(es, k);
    lemma_string_at(d, 107, off + 1, key);
}

#[verifier::rlimit(40)]
proof fn lemma_parse_entries(d: Seq<u8>, q: int, es: Seq<(Seq<char>, LlsdView)>, k: int, fuel: nat)
    requires
        0 <= q,
        0 <= k <= es.len(),
        es.len() < 0x1_0000_0000,
        keys_sorted(es),
        entries_wf(es),
        fuel >= entries_depth(es),
        q + encode_entries(es).len() < d.len(),
        d.subrange(q, q + encode_entries(es).len()) == encode_entries(es),
        d[q + encode_entries(es).len()] == 125,
    ensures
        parse_map(
            d,
            (q + encode_entries(es.take(k)).len()) as nat,
            (es.len() - k) as nat,
            es.take(k),
            fuel,
        ) == Some((LlsdView::Dict(es), (q + encode_entries(es).len() + 1) as nat)),
    decreases es, es.len() - k,
{
    let n = es.len() as int;
    if k == n {
        assert(es.take(k) =~= es);
    } else {
        let key = es[k].0;
        let val = es[k].1;
        lemma_entry_at(d, q, es, k);
        let off = q + encode_entries(es.take(k)).len();
        let voff = off + 5 + encode_utf8(key).len();
        lemma_entries_facts(es, k);
        lemma_parse_encoded(d, voff, val, fuel);
        assert forall|i: int| 0 <= i < es.take(k).len() implies seq_lt(#[trigger] es.take(k)[i].0, key) by {
            assert(es.take(k)[i] == es[i]);
        }
        lemma_map_insert_last(es.take(k), key, val);
        assert(es.take(k).push((key, val)) =~= es.take(k + 1));
        lemma_parse_entries(d, q, es, k + 1, fuel);
    }
}

proof fn lemma_depth_bound(v: LlsdView)
    ensures
        depth(v) <= encode(v).len(),
    decreases v, 0nat,
{
    match v {
        LlsdView::Array(vs) => {
            lemma_items_depth_bound(vs);
        },
        LlsdView::Dict(es) => {
            lemma_entries_depth_bound(es);
        },
        _ => {},
    }
}

proof fn lemma_items_depth_bound(vs: Seq<LlsdView>)
    ensures
        items_depth(vs) <= encode_items(vs).len(),
    decreases vs, 1nat,
{
    if vs.len() > 0 {
        lemma_items_depth_bound(vs.drop_last());
        lemma_depth_bound(vs.last());
    }
}

proof fn lemma_entries_depth_bound(es: Seq<(Seq<char>, LlsdView)>)
    ensures
        entries_depth(es) <= encode_entries(es).len(),
    decreases es, 1nat,
{
    if es.len() > 0 {
        lemma_entries_depth_bound(es.drop_last());
        lemma_depth_bound(es.last().1);
    }
}

#[verifier::spinoff_prover]
proof fn lemma_one_byte_token(t: u8, rest: Seq<u8>)
    requires
        t == 0x21 || t == 0x30 || t == 0x31,
    ensures
        parse_llsd(seq![t] + rest) == Some(
            (
                if t == 0x21 {
                    LlsdView::Undefined
                } else {
                    LlsdView::Bool(t == 0x31)
                },
                1nat,
            ),
        ),
{
    let d = seq![t] + rest;
    assert(d[0] == t);
}

#[verifier::spinoff_prover]
proof fn lemma_integer_token(rest: Seq<u8>, a: u8, b: u8, c: u8, d: u8)
    ensures
        parse_llsd(seq![0x69u8, a, b, c, d] + rest) == Some(
            (
                LlsdView::Integer(
                    ((a as int) * 16777216 + (b as int) * 65536 + (c as int) * 256 + (d as int)) as u32 as i32,
                ),
                5nat,
            ),
        ),
{
    let n = seq![0x69u8, a, b, c, d] + rest;
    assert(n[0] == 0x69u8 && n[1] == a && n[2] == b && n[3] == c && n[4] == d);
}

/// The binary LLSD wire tokens, whatever bytes follow: `!` (0x21) is
/// undefined, `0` (0x30) is false and `1` (0x31) is true, each one byte long;
/// `i` (0x69) is followed by the integer's four bytes, most significant
/// first; and the encoder writes the same tokens.
#[verifier::spinoff_prover]
pub proof fn lemma_llsd_wire_tokens(rest: Seq<u8>, a: u8, b: u8, c: u8, d: u8)
    ensures
        parse_llsd(seq![0x31u8] + rest) == Some((LlsdView::Bool(true), 1nat)),
        parse_llsd(seq![0x30u8] + rest) == Some((LlsdView::Bool(false), 1nat)),
        parse_llsd(seq![0x21u8] + rest) == Some((LlsdView::Undefined, 1nat)),
        parse_llsd(seq![0x69u8, a, b, c, d] + rest) == Some(
            (
                LlsdView::Integer(
                    ((a as int) * 16777216 + (b as int) * 65536 + (c as int) * 256 + (d as int)) as u32 as i32,
                ),
                5nat,
            ),
        ),
        encode(LlsdView::Bool(true)) == seq![0x31u8],
        encode(LlsdView::Bool(false)) == seq![0x30u8],
        encode(LlsdView::Undefined) == seq![0x21u8],
        encode(LlsdView::Integer(0x01020304)) == seq![0x69u8, 1, 2, 3, 4],
{
    lemma_one_byte_token(0x31u8, rest);
    lemma_one_byte_token(0x30u8, rest);
    lemma_one_byte_token(0x21u8, rest);
    lemma_integer_token(rest, a, b, c, d);
    assert(be32(0x01020304u32) == seq![1u8, 2, 3, 4]);
}

/// The other fixed-size wire tokens: `r` (0x72) is a real and `d` (0x64) a
/// date, each eight bytes after the token; `u` (0x75) is a UUID of the
/// sixteen bytes after the token; an empty array is `[` (0x5b), a count of
/// zero and `]` (0x5d), an empty map `{` (0x7b), a count of zero and `}`
/// (0x7d). The encoder writes the same tokens.
#[verifier::spinoff_prover]
pub proof fn lemma_llsd_more_wire_tokens(e: Seq<u8>)
    requires
        e.len() >= 16,
    ensures
        parse_llsd(seq![0x72u8] + e) matches Some((LlsdView::Real(_), n)) && n == 9,
        parse_llsd(seq![0x64u8] + e) matches Some((LlsdView::Date(_), n)) && n == 9,
        parse_llsd(seq![0x75u8] + e) == Some((LlsdView::Uuid(e.subrange(0, 16)), 17nat)),
        parse_llsd(seq![0x5bu8, 0, 0, 0, 0, 0x5d] + e) == Some((LlsdView::Array(seq![]), 6nat)),
        parse_llsd(seq![0x7bu8, 0, 0, 0, 0, 0x7d] + e) == Some((LlsdView::Dict(seq![]), 6nat)),
        forall|x: u64| encode(LlsdView::Real(x))[0] == 0x72u8,
        forall|x: u64| encode(LlsdView::Date(x))[0] == 0x64u8,
        forall|u: Seq<u8>| encode(LlsdView::Uuid(u))[0] == 0x75u8,
        encode(LlsdView::Array(seq![])) == seq![0x5bu8, 0, 0, 0, 0, 0x5d],
        encode(LlsdView::Dict(seq![])) == seq![0x7bu8, 0, 0, 0, 0, 0x7d],
{
    let r = seq![0x72u8] + e;
    assert(r[0] == 0x72u8);
    let d = seq![0x64u8] + e;
    assert(d[0] == 0x64u8);
    let u = seq![0x75u8] + e;
    assert(u[0] == 0x75u8);
    assert(u.subrange(1, 17) =~= e.subrange(0, 16));
    let a = seq![0x5bu8, 0, 0, 0, 0, 0x5d] + e;
    assert(a[0] == 0x5bu8 && a[1] == 0 && a[2] == 0 && a[3] == 0 && a[4] == 0 && a[5] == 0x5du8);
    let m = seq![0x7bu8, 0, 0, 0, 0, 0x7d] + e;
    assert(m[0] == 0x7bu8 && m[1] == 0 && m[2] == 0 && m[3] == 0 && m[4] == 0 && m[5] == 0x7du8);
    assert forall|x: u64| encode(LlsdView::Real(x))[0] == 0x72u8 by {
        assert((seq![114u8] + be64(x))[0] == 114u8);
    }
    assert forall|x: u64| encode(LlsdView::Date(x))[0] == 0x64u8 by {
        assert((seq![100u8] + be64(x))[0] == 100u8);
    }
    assert forall|v: Seq<u8>| encode(LlsdView::Uuid(v))[0] == 0x75u8 by {
        assert((seq![117u8] + v)[0] == 117u8);
    }
    assert(be32(0u32) == seq![0u8, 0, 0, 0]);
    assert(encode_items(seq![]) == Seq::<u8>::empty());
    assert(encode_entries(seq![]) == Seq::<u8>::empty());
    assert(encode(LlsdView::Array(seq![])) =~= seq![0x5bu8, 0, 0, 0, 0, 0x5d]);
    assert(encode(LlsdView::Dict(seq![])) =~= seq![0x7bu8, 0, 0, 0, 0, 0x7d]);
}

/// What the encoder writes, the parser reads back: for a faithful value,
/// bytes that begin with its encoding parse to the value, using exactly the
/// encoding's length, whatever bytes follow.
pub proof fn lemma_llsd_round_trip(v: LlsdView, rest: Seq<u8>)
    requires
        llsd_wf(v),
    ensures
        parse_llsd(encode(v) + rest) == Some((v, encode(v).len())),
{
    let d = encode(v) + rest;
    lemma_depth_bound(v);
    assert(d.subrange(0, encode(v).len() as int) =~= encode(v));
    lemma_parse_encoded(d, 0, v, d.len());
}

} // verus!
