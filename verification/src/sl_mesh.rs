//! Second Life mesh assets: format detection, the binary LLSD header that
//! locates each LOD block, the zlib-compressed LOD blocks themselves, and the
//! single-triangle debug asset.
use std::io::{Read, Write};
use vstd::prelude::*;
use vstd::utf8::encode_utf8;
use crate::texture_cache::seq_lt;
use crate::llsd::{
    be32, encode, encode_binary_llsd_value, lemma_llsd_round_trip, encode_entries, entries_of, entries_wf, items_wf,
    keys_sorted, lemma_entries_of, lemma_views_of, llsd_view, llsd_wf, parse_binary_llsd,
    parse_llsd, views_of, BinaryLlsdValue, LlsdError, LlsdView,
};

verus! {

#[derive(Debug, Clone, Copy, PartialEq, Eq, Structural)]
pub enum MeshSourceFormat {
    Unknown,
    Gltf,
    SecondLifeMesh,
}

/// The deprecated `<? LLSD/Binary ?>` header that some assets begin with.
pub open spec fn deprecated_header() -> Seq<u8> {
    seq![60u8, 63, 32, 76, 76, 83, 68, 47, 66, 105, 110, 97, 114, 121, 32, 63, 62]
}

fn deprecated_header_bytes() -> (r: [u8; 17])
    ensures
        r@ == deprecated_header(),
{
    let r: [u8; 17] = [60, 63, 32, 76, 76, 83, 68, 47, 66, 105, 110, 97, 114, 121, 32, 63, 62];
    assert(r@ =~= deprecated_header());
    r
}

pub open spec fn starts_with_bytes(d: Seq<u8>, p: Seq<u8>) -> bool {
    p.len() <= d.len() && d.subrange(0, p.len() as int) == p
}

fn starts_with_exec(d: &[u8], p: &[u8]) -> (r: bool)
    ensures
        r == starts_with_bytes(d@, p@),
{
    if p.len() > d.len() {
        return false;
    }
    let mut i: usize = 0;
    while i < p.len()
        invariant
            p@.len() <= d@.len(),
            i <= p@.len(),
            forall|k: int| 0 <= k < i ==> d@[k] == p@[k],
        decreases p@.len() - i,
    {
        if d[i] != p[i] {
            assert(d@.subrange(0, p@.len() as int)[i as int] != p@[i as int]);
            return false;
        }
        i += 1;
    }
    assert(d@.subrange(0, p@.len() as int) =~= p@);
    true
}

/// The format of mesh bytes: glTF by its magic, a Second Life mesh by the
/// deprecated header or by a binary LLSD map whose count has a zero byte.
pub open spec fn mesh_format(d: Seq<u8>) -> MeshSourceFormat {
    if d.len() >= 4 && d[0] == 103 && d[1] == 108 && d[2] == 84 && d[3] == 70 {
        MeshSourceFormat::Gltf
    } else if starts_with_bytes(d, deprecated_header()) {
        MeshSourceFormat::SecondLifeMesh
    } else if d.len() >= 5 && d[0] == 123 && (d[1] == 0 || d[2] == 0 || d[3] == 0 || d[4] == 0) {
        MeshSourceFormat::SecondLifeMesh
    } else {
        MeshSourceFormat::Unknown
    }
}

pub fn detect_mesh_source_format(data: &[u8]) -> (r: MeshSourceFormat)
    ensures
        r == mesh_format(data@),
{
    if data.len() >= 4 && data[0] == 103 && data[1] == 108 && data[2] == 84 && data[3] == 70 {
        return MeshSourceFormat::Gltf;
    }
    let h = deprecated_header_bytes();
    if starts_with_exec(data, &h) {
        return MeshSourceFormat::SecondLifeMesh;
    }
    if data.len() >= 5 && data[0] == 123 && (data[1] == 0 || data[2] == 0 || data[3] == 0 || data[4]
        == 0) {
        return MeshSourceFormat::SecondLifeMesh;
    }
    MeshSourceFormat::Unknown
}

/// The bytes without the deprecated header, if they begin with it.
pub open spec fn stripped(d: Seq<u8>) -> Seq<u8> {
    if starts_with_bytes(d, deprecated_header()) {
        d.skip(17)
    } else {
        d
    }
}

pub fn strip_deprecated_header(data: &[u8]) -> (r: Vec<u8>)
    ensures
        r@ == stripped(data@),
{
    let h = deprecated_header_bytes();
    let start: usize = if starts_with_exec(data, &h) {
        17
    } else {
        0
    };
    let mut out: Vec<u8> = Vec::new();
    let mut i = start;
    while i < data.len()
        invariant
            start <= i <= data@.len(),
            start == 0 || (start == 17 && 17 <= data@.len()),
            out@ == data@.subrange(start as int, i as int),
        decreases data@.len() - i,
    {
        out.push(data[i]);
        assert(data@.subrange(start as int, i + 1) =~= data@.subrange(start as int, i as int).push(
            data@[i as int],
        ));
        i += 1;
    }
    assert(out@ =~= stripped(data@));
    out
}

/// Why a mesh asset's LOD block could not be had.
#[derive(Debug, Clone, Copy, PartialEq, Eq, Structural)]
pub enum MeshError {
    HeaderParse(LlsdError),
    HeaderNotMap,
    OffsetMissing,
    SizeMissing,
    NoUsableLod,
    BlockOutOfBounds,
    Decompress,
    LodParse(LlsdError),
}

/// Where a LOD block lies after the header.
#[derive(Debug, Clone, PartialEq, Eq)]
pub struct MeshBlockLocation {
    pub name: String,
    pub offset: usize,
    pub size: usize,
}

/// The LOD names by index, finest first.
pub open spec fn lod_name(i: int) -> Seq<char> {
    if i == 0 {
        "high_lod"@
    } else if i == 1 {
        "medium_lod"@
    } else if i == 2 {
        "low_lod"@
    } else {
        "lowest_lod"@
    }
}

/// The order in which LODs are tried for a requested LOD.
pub open spec fn lod_preference(lod: u32) -> Seq<int> {
    if lod == 0 {
        seq![0, 1, 2, 3]
    } else if lod == 1 {
        seq![1, 0, 2, 3]
    } else if lod == 2 {
        seq![2, 1, 3, 0]
    } else {
        seq![3, 2, 1, 0]
    }
}

/// The value of the first entry with key `k`.
pub open spec fn dict_get(es: Seq<(Seq<char>, LlsdView)>, k: Seq<char>) -> Option<LlsdView>
    decreases es.len(),
{
    if es.len() == 0 {
        None
    } else if es[0].0 == k {
        Some(es[0].1)
    } else {
        dict_get(es.drop_first(), k)
    }
}

/// The first usable LOD block in preference order: a map entry with integer
/// `offset` and `size` (missing ones are errors) where the offset is not
/// negative and the size positive; others are skipped.
pub open spec fn lod_search(header: Seq<(Seq<char>, LlsdView)>, prefs: Seq<int>) -> Result<
    (Seq<char>, nat, nat),
    MeshError,
>
    decreases prefs.len(),
{
    if prefs.len() == 0 {
        Err(MeshError::NoUsableLod)
    } else {
        let name = lod_name(prefs[0]);
        match dict_get(header, name) {
            Some(LlsdView::Dict(block)) => match dict_get(block, "offset"@) {
                Some(LlsdView::Integer(o)) => match dict_get(block, "size"@) {
                    Some(LlsdView::Integer(s)) => if o < 0 || s <= 0 {
                        lod_search(header, prefs.drop_first())
                    } else {
                        Ok((name, o as nat, s as nat))
                    },
                    _ => Err(MeshError::SizeMissing),
                },
                _ => Err(MeshError::OffsetMissing),
            },
            _ => lod_search(header, prefs.drop_first()),
        }
    }
}

/// Whether a header's entry `name` is a usable LOD block: a map with an
/// integer `offset` that is not negative and an integer `size` that is
/// positive.
pub open spec fn lod_block_usable(header: Seq<(Seq<char>, LlsdView)>, name: Seq<char>) -> bool {
    &&& dict_get(header, name) matches Some(LlsdView::Dict(block))
    &&& dict_get(block, "offset"@) matches Some(LlsdView::Integer(o))
    &&& o >= 0
    &&& dict_get(block, "size"@) matches Some(LlsdView::Integer(sz))
    &&& sz > 0
}

/// The LOD names in the order they are tried for a requested level: the
/// requested one first (`high_lod` for 0, `medium_lod` for 1, `low_lod` for
/// 2, `lowest_lod` for 3 and above), then its neighbours.
pub open spec fn documented_lod_order(requested: u32) -> Seq<Seq<char>> {
    if requested == 0 {
        seq!["high_lod"@, "medium_lod"@, "low_lod"@, "lowest_lod"@]
    } else if requested == 1 {
        seq!["medium_lod"@, "high_lod"@, "low_lod"@, "lowest_lod"@]
    } else if requested == 2 {
        seq!["low_lod"@, "medium_lod"@, "lowest_lod"@, "high_lod"@]
    } else {
        seq!["lowest_lod"@, "low_lod"@, "medium_lod"@, "high_lod"@]
    }
}

proof fn lemma_lod_skip_absent(header: Seq<(Seq<char>, LlsdView)>, p: Seq<int>, j: int)
    requires
        0 <= j < p.len(),
        dict_get(header, lod_name(p[j])) is None,
    ensures
        lod_search(header, p.skip(j)) == lod_search(header, p.skip(j + 1)),
{
    assert(p.skip(j)[0] == p[j]);
    assert(p.skip(j).drop_first() =~= p.skip(j + 1));
}

/// Which LOD block is chosen: the requested level's own block whenever it
/// is usable, and otherwise, where the blocks tried before are absent, the
/// first usable one in the order of [`documented_lod_order`] (for a request
/// of medium detail: medium, high, low, lowest).
#[verifier::spinoff_prover]
pub proof fn lemma_lod_choice(header: Seq<(Seq<char>, LlsdView)>, requested: u32, m: int)
    requires
        0 <= m < 4,
        forall|j: int| 0 <= j < m ==> dict_get(header, #[trigger] documented_lod_order(requested)[j]) is None,
        lod_block_usable(header, documented_lod_order(requested)[m]),
    ensures
        lod_search(header, lod_preference(requested)) matches Ok((name, _, _)) && name
            == documented_lod_order(requested)[m],
        requested < 4 ==> documented_lod_order(requested)[0] == lod_name(requested as int),
{
    let p = lod_preference(requested);
    let o = documented_lod_order(requested);
    assert(p.len() == 4);
    assert forall|j: int| 0 <= j < 4 implies lod_name(#[trigger] p[j]) == o[j] by {}
    assert(p.skip(0) =~= p);
    if m > 0 {
        lemma_lod_skip_absent(header, p, 0);
    }
    if m > 1 {
        lemma_lod_skip_absent(header, p, 1);
    }
    if m > 2 {
        lemma_lod_skip_absent(header, p, 2);
    }
    assert(p.skip(m)[0] == p[m]);
}

/// The value of the first entry of `es` with key `key`.
pub fn dict_lookup<'a>(es: &'a Vec<(String, BinaryLlsdValue)>, key: &str) -> (r: Option<
    &'a BinaryLlsdValue,
>)
    ensures
        match r {
            Some(v) => dict_get(entries_of(es@), key@) == Some(v@),
            None => dict_get(entries_of(es@), key@) is None,
        },
{
    let k = key.to_owned();
    let ghost ev = entries_of(es@);
    proof {
        lemma_entries_of(es@);
    }
    let mut i: usize = 0;
    assert(ev.skip(0) =~= ev);
    while i < es.len()
        invariant
            i <= es@.len(),
            ev == entries_of(es@),
            ev.len() == es@.len(),
            k@ == key@,
            forall|j: int| 0 <= j < es@.len() ==> #[trigger] ev[j] == (es@[j].0@, llsd_view(es@[j].1)),
            dict_get(ev, key@) == dict_get(ev.skip(i as int), key@),
        decreases es@.len() - i,
    {
        assert(ev.skip(i as int)[0] == ev[i as int]);
        if es[i].0 == k {
            return Some(&es[i].1);
        }
        assert(ev.skip(i as int).drop_first() =~= ev.skip(i + 1));
        i += 1;
    }
    assert(ev.skip(i as int).len() == 0);
    None
}

fn lod_name_exec(i: usize) -> (r: &'static str)
    ensures
        r@ == lod_name(i as int),
{
    if i == 0 {
        "high_lod"
    } else if i == 1 {
        "medium_lod"
    } else if i == 2 {
        "low_lod"
    } else {
        "lowest_lod"
    }
}

fn lod_preference_exec(lod: u32) -> (r: [usize; 4])
    ensures
        r@.map_values(|x: usize| x as int) == lod_preference(lod),
{
    let r: [usize; 4] = if lod == 0 {
        [0, 1, 2, 3]
    } else if lod == 1 {
        [1, 0, 2, 3]
    } else if lod == 2 {
        [2, 1, 3, 0]
    } else {
        [3, 2, 1, 0]
    };
    assert(r@.map_values(|x: usize| x as int) =~= lod_preference(lod));
    r
}

/// Finds the LOD block to decode for `requested_lod` (see [`lod_search`]).
pub fn select_lod_block(header: &Vec<(String, BinaryLlsdValue)>, requested_lod: u32) -> (r: Result<
    MeshBlockLocation,
    MeshError,
>)
    ensures
        match r {
            Ok(b) => lod_search(entries_of(header@), lod_preference(requested_lod)) == Ok::<
                (Seq<char>, nat, nat),
                MeshError,
            >((b.name@, b.offset as nat, b.size as nat)),
            Err(e) => lod_search(entries_of(header@), lod_preference(requested_lod)) == Err::<
                (Seq<char>, nat, nat),
                MeshError,
            >(e),
        },
{
    let prefs = lod_preference_exec(requested_lod);
    let ghost pv = prefs@.map_values(|x: usize| x as int);
    let ghost hv = entries_of(header@);
    let mut k: usize = 0;
    assert(pv.skip(0) =~= pv);
    while k < 4
        invariant
            k <= 4,
            prefs@.len() == 4,
            pv == prefs@.map_values(|x: usize| x as int),
            pv == lod_preference(requested_lod),
            hv == entries_of(header@),
            lod_search(hv, pv) == lod_search(hv, pv.skip(k as int)),
        decreases 4 - k,
    {
        let idx = prefs[k];
        assert(pv.skip(k as int)[0] == idx as int);
        assert(pv.skip(k as int).drop_first() =~= pv.skip(k + 1));
        let name = lod_name_exec(idx);
        match dict_lookup(header, name) {
            Some(BinaryLlsdValue::Dict(block)) => {
                let offset = match dict_lookup(block, "offset") {
                    Some(BinaryLlsdValue::Integer(o)) => *o,
                    _ => return Err(MeshError::OffsetMissing),
                };
                let size = match dict_lookup(block, "size") {
                    Some(BinaryLlsdValue::Integer(s)) => *s,
                    _ => return Err(MeshError::SizeMissing),
                };
                if !(offset < 0 || size <= 0) {
                    return Ok(
                        MeshBlockLocation {
                            name: name.to_owned(),
                            offset: offset as usize,
                            size: size as usize,
                        },
                    );
                }
            },
            _ => {},
        }
        k += 1;
    }
    Err(MeshError::NoUsableLod)
}

/// The bytes that zlib (`flate2`) inflates `data` to, or `None` when `data` is not a zlib stream.
pub uninterp spec fn zlib_inflated(data: Seq<u8>) -> Option<Seq<u8>>;

/// The zlib stream (`flate2`, default compression) of `data`.
pub uninterp spec fn zlib_deflated(data: Seq<u8>) -> Seq<u8>;

/// `flate2::read::ZlibDecoder` read to the end: the inflated bytes named by
/// [`zlib_inflated`], or `None` when the stream is invalid. A stream that
/// `flate2`'s encoder made (see [`zlib_deflated`]) inflates back to the bytes
/// it was made from.
#[verifier::external_body]
fn zlib_decompress_bytes(data: &[u8]) -> (r: Option<Vec<u8>>)
    ensures
        match r {
            Some(v) => zlib_inflated(data@) == Some(v@),
            None => zlib_inflated(data@) is None,
        },
        r is Some || !exists|x: Seq<u8>| #[trigger] zlib_deflated(x) == data@,
        r matches Some(v) ==> forall|x: Seq<u8>| #[trigger] zlib_deflated(x) == data@ ==> v@ == x,
{
    let mut out = Vec::new();
    match flate2::read::ZlibDecoder::new(data).read_to_end(&mut out) {
        Ok(_) => Some(out),
        Err(_) => None,
    }
}

/// `flate2::write::ZlibEncoder` with default compression over a `Vec`: the
/// stream named by [`zlib_deflated`]. Writing to a `Vec` does not fail.
#[verifier::external_body]
pub(crate) fn zlib_compress_bytes(bytes: &[u8]) -> (r: Vec<u8>)
    ensures
        r@ == zlib_deflated(bytes@),
{
    let mut encoder = flate2::write::ZlibEncoder::new(Vec::new(), flate2::Compression::default());
    match encoder.write_all(bytes) {
        Ok(()) => {},
        Err(_) => {},
    }
    match encoder.finish() {
        Ok(v) => v,
        Err(_) => Vec::new(),
    }
}

/// The inflated bytes of the LOD block to decode for `lod`: the header is the
/// binary LLSD map at the start (after any deprecated header), and the block
/// lies at its offset after the header, with its size.
pub open spec fn lod_block_bytes(data: Seq<u8>, lod: u32) -> Result<Seq<u8>, MeshError> {
    let d = stripped(data);
    match parse_llsd(d) {
        None => Err(MeshError::HeaderParse(LlsdError::UnexpectedEnd)),
        Some((h, hs)) => match h {
            LlsdView::Dict(es) => match lod_search(es, lod_preference(lod)) {
                Err(e) => Err(e),
                Ok((name, off, size)) => if hs + off + size > d.len() {
                    Err(MeshError::BlockOutOfBounds)
                } else {
                    match zlib_inflated(d.subrange((hs + off) as int, (hs + off + size) as int)) {
                        Some(b) => Ok(b),
                        None => Err(MeshError::Decompress),
                    }
                },
            },
            _ => Err(MeshError::HeaderNotMap),
        },
    }
}

/// Same outcome, errors compared by kind only (a header that does not parse
/// is one kind whatever the parser's reason).
pub open spec fn same_outcome(r: Result<Seq<u8>, MeshError>, s: Result<Seq<u8>, MeshError>) -> bool {
    match (r, s) {
        (Ok(a), Ok(b)) => a == b,
        (Err(MeshError::HeaderParse(_)), Err(MeshError::HeaderParse(_))) => true,
        (Err(a), Err(b)) => a == b,
        _ => false,
    }
}

/// The inflated bytes of the LOD block for `requested_lod` (see [`lod_block_bytes`]).
#[verifier::spinoff_prover]
pub fn load_lod_block_bytes(data: &[u8], requested_lod: u32) -> (r: Result<Vec<u8>, MeshError>)
    ensures
        same_outcome(
            match r {
                Ok(v) => Ok(v@),
                Err(e) => Err(e),
            },
            lod_block_bytes(data@, requested_lod),
        ),
{
    let d = strip_deprecated_header(data);
    let (header, header_size) = match parse_binary_llsd(d.as_slice()) {
        Ok(x) => x,
        Err(e) => return Err(MeshError::HeaderParse(e)),
    };
    let es = match &header {
        BinaryLlsdValue::Dict(es) => es,
        _ => return Err(MeshError::HeaderNotMap),
    };
    let block = match select_lod_block(es, requested_lod) {
        Ok(b) => b,
        Err(e) => return Err(e),
    };
    let ghost dv = stripped(data@);
    assert(d@ == dv);
    assert(parse_llsd(dv) == Some((header@, header_size as nat)));
    assert(header@ == LlsdView::Dict(entries_of(es@)));
    let start = match header_size.checked_add(block.offset) {
        Some(s) => s,
        None => {
            assert(header_size + block.offset + block.size > dv.len());
            return Err(MeshError::BlockOutOfBounds);
        },
    };
    let end = match start.checked_add(block.size) {
        Some(e) => e,
        None => {
            assert(header_size + block.offset + block.size > dv.len());
            return Err(MeshError::BlockOutOfBounds);
        },
    };
    if end > d.len() {
        return Err(MeshError::BlockOutOfBounds);
    }
    let mut slice: Vec<u8> = Vec::new();
    let mut i = start;
    while i < end
        invariant
            start <= i <= end <= d@.len(),
            slice@ == d@.subrange(start as int, i as int),
        decreases end - i,
    {
        slice.push(d[i]);
        assert(d@.subrange(start as int, i + 1) =~= d@.subrange(start as int, i as int).push(
            d@[i as int],
        ));
        i += 1;
    }
    match zlib_decompress_bytes(slice.as_slice()) {
        Some(b) => Ok(b),
        None => Err(MeshError::Decompress),
    }
}

/// The LOD block's binary LLSD value for `requested_lod`.
pub fn load_lod_block_value(data: &[u8], requested_lod: u32) -> (r: Result<
    BinaryLlsdValue,
    MeshError,
>)
    ensures
        match r {
            Ok(v) => lod_block_bytes(data@, requested_lod) matches Ok(b) && parse_llsd(b) matches Some(
                p,
            ) && p.0 == v@,
            Err(e) => {
                ||| (lod_block_bytes(data@, requested_lod) is Err && same_outcome(
                    Err(e),
                    lod_block_bytes(data@, requested_lod),
                ))
                ||| (e is LodParse && (lod_block_bytes(data@, requested_lod) matches Ok(b)
                    && parse_llsd(b) is None))
            },
        },
{
    let bytes = match load_lod_block_bytes(data, requested_lod) {
        Ok(b) => b,
        Err(e) => return Err(e),
    };
    match parse_binary_llsd(bytes.as_slice()) {
        Ok((v, _)) => Ok(v),
        Err(e) => Err(MeshError::LodParse(e)),
    }
}

/// Little-endian `u16` pairs of `b`; an odd last byte is ignored.
pub open spec fn le_u16s(b: Seq<u8>) -> Seq<u16>
    decreases b.len(),
{
    if b.len() < 2 {
        seq![]
    } else {
        seq![(b[0] + b[1] * 256) as u16] + le_u16s(b.skip(2))
    }
}

/// The triangle indices of a `TriangleList`: little-endian `u16` values.
pub fn decode_triangle_indices(bytes: &[u8]) -> (r: Vec<u16>)
    ensures
        r@ == le_u16s(bytes@),
{
    let mut out: Vec<u16> = Vec::new();
    let mut i: usize = 0;
    assert(bytes@.skip(0) =~= bytes@);
    while i < bytes.len() && bytes.len() - i > 1
        invariant
            i <= bytes@.len(),
            le_u16s(bytes@) == out@ + le_u16s(bytes@.skip(i as int)),
        decreases bytes@.len() - i,
    {
        let v = (bytes[i] as u16) + (bytes[i + 1] as u16) * 256;
        let ghost rest = bytes@.skip(i as int);
        assert(rest[0] == bytes@[i as int] && rest[1] == bytes@[i + 1]);
        assert(rest.skip(2) =~= bytes@.skip(i + 2));
        let ghost before = out@;
        out.push(v);
        assert(before + le_u16s(rest) =~= out@ + le_u16s(bytes@.skip(i + 2)));
        i += 2;
    }
    assert(le_u16s(bytes@.skip(i as int)) =~= Seq::<u16>::empty());
    assert(out@ + Seq::<u16>::empty() =~= out@);
    out
}

/// The little-endian bytes of `vals`, two per value.
pub open spec fn le_bytes(vals: Seq<u16>) -> Seq<u8>
    decreases vals.len(),
{
    if vals.len() == 0 {
        seq![]
    } else {
        seq![(vals[0] % 256) as u8, (vals[0] / 256) as u8] + le_bytes(vals.drop_first())
    }
}

fn u16_le_bytes(vals: &[u16]) -> (r: Vec<u8>)
    ensures
        r@ == le_bytes(vals@),
{
    let mut out: Vec<u8> = Vec::new();
    let mut i: usize = 0;
    assert(vals@.skip(0) =~= vals@);
    assert(out@ + le_bytes(vals@) =~= le_bytes(vals@));
    while i < vals.len()
        invariant
            i <= vals@.len(),
            le_bytes(vals@) == out@ + le_bytes(vals@.skip(i as int)),
        decreases vals@.len() - i,
    {
        let v = vals[i];
        let ghost rest = vals@.skip(i as int);
        assert(rest[0] == v);
        assert(rest.drop_first() =~= vals@.skip(i + 1));
        let ghost before = out@;
        out.push((v % 256) as u8);
        out.push((v / 256) as u8);
        assert(before + le_bytes(rest) =~= out@ + le_bytes(vals@.skip(i + 1)));
        i += 1;
    }
    assert(vals@.skip(i as int).len() == 0);
    assert(out@ + le_bytes(vals@.skip(i as int)) =~= out@);
    out
}

/// Reading little-endian values back gives what was written.
pub proof fn lemma_le_u16s_of_le_bytes(vals: Seq<u16>)
    ensures
        le_u16s(le_bytes(vals)) == vals,
    decreases vals.len(),
{
    if vals.len() > 0 {
        let b = le_bytes(vals);
        lemma_le_u16s_of_le_bytes(vals.drop_first());
        assert(b.skip(2) =~= le_bytes(vals.drop_first()));
        assert(((vals[0] % 256) as u8 + ((vals[0] / 256) as u8) * 256) as u16 == vals[0]);
        assert(le_u16s(b) =~= vals);
    }
}

/// The bits of the `f64` value one half.
pub const REAL_HALF_BITS: u64 = 0x3FE0_0000_0000_0000u64;

/// The bits of the `f64` value minus one half.
pub const REAL_MINUS_HALF_BITS: u64 = 0xBFE0_0000_0000_0000u64;

/// The bits of the `f64` value one.
pub const REAL_ONE_BITS: u64 = 0x3FF0_0000_0000_0000u64;

/// Real values with the given bits.
pub open spec fn reals(bits: Seq<u64>) -> Seq<LlsdView> {
    bits.map_values(|b: u64| LlsdView::Real(b))
}

/// A domain map: `Max` and `Min` arrays of reals.
pub open spec fn domain(min: Seq<u64>, max: Seq<u64>) -> LlsdView {
    LlsdView::Dict(
        seq![("Max"@, LlsdView::Array(reals(max))), ("Min"@, LlsdView::Array(reals(min)))],
    )
}

/// The submesh of the debug asset: one triangle with quantised positions,
/// normals and texture coordinates, keys in order.
pub open spec fn triangle_submesh() -> LlsdView {
    LlsdView::Dict(
        seq![
            (
                "Normal"@,
                LlsdView::Binary(
                    le_bytes(seq![32767u16, 32767, 65535, 32767, 32767, 65535, 32767, 32767, 65535]),
                ),
            ),
            (
                "Position"@,
                LlsdView::Binary(le_bytes(seq![0u16, 0, 0, 65535, 0, 0, 32767, 65535, 0])),
            ),
            (
                "PositionDomain"@,
                domain(
                    seq![REAL_MINUS_HALF_BITS, REAL_MINUS_HALF_BITS, 0u64],
                    seq![REAL_HALF_BITS, REAL_HALF_BITS, 0u64],
                ),
            ),
            ("TexCoord0"@, LlsdView::Binary(le_bytes(seq![0u16, 0, 65535, 0, 32767, 65535]))),
            ("TexCoord0Domain"@, domain(seq![0u64, 0], seq![REAL_ONE_BITS, REAL_ONE_BITS])),
            ("TriangleList"@, LlsdView::Binary(le_bytes(seq![0u16, 1, 2]))),
        ],
    )
}

/// The LOD block of the debug asset: an array of one submesh.
pub open spec fn triangle_lod_block() -> LlsdView {
    LlsdView::Array(seq![triangle_submesh()])
}

/// An asset whose header has one LOD entry, `lod`, at offset zero with the
/// size of `block`, followed by `block`.
pub open spec fn single_lod_asset(lod: Seq<char>, block: Seq<u8>) -> Seq<u8> {
    encode(
        LlsdView::Dict(
            seq![
                (
                    lod,
                    LlsdView::Dict(
                        seq![
                            ("offset"@, LlsdView::Integer(0)),
                            ("size"@, LlsdView::Integer(block.len() as i32)),
                        ],
                    ),
                ),
            ],
        ),
    ) + block
}

/// The debug asset with its one LOD block under `lod`: the zlib stream of
/// the triangle's block at offset zero.
pub open spec fn triangle_asset(lod: Seq<char>) -> Seq<u8> {
    single_lod_asset(lod, zlib_deflated(encode(triangle_lod_block())))
}

fn real_array(bits: &[u64]) -> (r: BinaryLlsdValue)
    ensures
        r@ == LlsdView::Array(reals(bits@)),
{
    let mut vs: Vec<BinaryLlsdValue> = Vec::new();
    let mut i: usize = 0;
    while i < bits.len()
        invariant
            i <= bits@.len(),
            vs@.len() == i,
            forall|j: int| 0 <= j < i ==> #[trigger] llsd_view(vs@[j]) == LlsdView::Real(bits@[j]),
        decreases bits@.len() - i,
    {
        vs.push(BinaryLlsdValue::Real(bits[i]));
        i += 1;
    }
    proof {
        lemma_views_of(vs@);
        assert(views_of(vs@) =~= reals(bits@));
    }
    BinaryLlsdValue::Array(vs)
}

fn domain_value(min: &[u64], max: &[u64]) -> (r: BinaryLlsdValue)
    ensures
        r@ == domain(min@, max@),
{
    let mut es: Vec<(String, BinaryLlsdValue)> = Vec::new();
    es.push(("Max".to_owned(), real_array(max)));
    es.push(("Min".to_owned(), real_array(min)));
    proof {
        lemma_entries_of(es@);
        assert(entries_of(es@) =~= seq![
            ("Max"@, LlsdView::Array(reals(max@))),
            ("Min"@, LlsdView::Array(reals(min@))),
        ]);
    }
    BinaryLlsdValue::Dict(es)
}

fn binary_u16s(vals: &[u16]) -> (r: BinaryLlsdValue)
    ensures
        r@ == LlsdView::Binary(le_bytes(vals@)),
{
    BinaryLlsdValue::Binary(u16_le_bytes(vals))
}

fn single_triangle_submesh() -> (r: BinaryLlsdValue)
    ensures
        r@ == triangle_submesh(),
{
    let normal: [u16; 9] = [32767, 32767, 65535, 32767, 32767, 65535, 32767, 32767, 65535];
    let position: [u16; 9] = [0, 0, 0, 65535, 0, 0, 32767, 65535, 0];
    let tex: [u16; 6] = [0, 0, 65535, 0, 32767, 65535];
    let tris: [u16; 3] = [0, 1, 2];
    let pos_min: [u64; 3] = [REAL_MINUS_HALF_BITS, REAL_MINUS_HALF_BITS, 0];
    let pos_max: [u64; 3] = [REAL_HALF_BITS, REAL_HALF_BITS, 0];
    let tex_min: [u64; 2] = [0, 0];
    let tex_max: [u64; 2] = [REAL_ONE_BITS, REAL_ONE_BITS];
    assert(normal@ =~= seq![32767u16, 32767, 65535, 32767, 32767, 65535, 32767, 32767, 65535]);
    assert(position@ =~= seq![0u16, 0, 0, 65535, 0, 0, 32767, 65535, 0]);
    assert(tex@ =~= seq![0u16, 0, 65535, 0, 32767, 65535]);
    assert(tris@ =~= seq![0u16, 1, 2]);
    assert(pos_min@ =~= seq![REAL_MINUS_HALF_BITS, REAL_MINUS_HALF_BITS, 0u64]);
    assert(pos_max@ =~= seq![REAL_HALF_BITS, REAL_HALF_BITS, 0u64]);
    assert(tex_min@ =~= seq![0u64, 0]);
    assert(tex_max@ =~= seq![REAL_ONE_BITS, REAL_ONE_BITS]);
    let mut es: Vec<(String, BinaryLlsdValue)> = Vec::new();
    es.push(("Normal".to_owned(), binary_u16s(&normal)));
    es.push(("Position".to_owned(), binary_u16s(&position)));
    es.push(("PositionDomain".to_owned(), domain_value(&pos_min, &pos_max)));
    es.push(("TexCoord0".to_owned(), binary_u16s(&tex)));
    es.push(("TexCoord0Domain".to_owned(), domain_value(&tex_min, &tex_max)));
    es.push(("TriangleList".to_owned(), binary_u16s(&tris)));
    proof {
        lemma_entries_of(es@);
        let t = triangle_submesh();
        assert(entries_of(es@) =~= t->Dict_0);
    }
    BinaryLlsdValue::Dict(es)
}

fn single_triangle_submesh_array() -> (r: BinaryLlsdValue)
    ensures
        r@ == triangle_lod_block(),
{
    let mut vs: Vec<BinaryLlsdValue> = Vec::new();
    vs.push(single_triangle_submesh());
    proof {
        lemma_views_of(vs@);
        assert(views_of(vs@) =~= seq![triangle_submesh()]);
    }
    BinaryLlsdValue::Array(vs)
}

/// A mesh asset holding the debug triangle as its only LOD block, under `lod_name`.
pub fn build_triangle_second_life_mesh_asset(lod_name: &str) -> (r: Vec<u8>)
    ensures
        r@ == triangle_asset(lod_name@),
{
    let lod_block = encode_binary_llsd_value(&single_triangle_submesh_array());
    let compressed = zlib_compress_bytes(lod_block.as_slice());
    let size: i32 = compressed.len() as i32;
    let mut block: Vec<(String, BinaryLlsdValue)> = Vec::new();
    block.push(("offset".to_owned(), BinaryLlsdValue::Integer(0)));
    block.push(("size".to_owned(), BinaryLlsdValue::Integer(size)));
    let mut header: Vec<(String, BinaryLlsdValue)> = Vec::new();
    header.push((lod_name.to_owned(), BinaryLlsdValue::Dict(block)));
    let header_value = BinaryLlsdValue::Dict(header);
    let mut bytes = encode_binary_llsd_value(&header_value);
    proof {
        lemma_entries_of(block@);
        lemma_entries_of(header@);
        assert(entries_of(block@) =~= seq![
            ("offset"@, LlsdView::Integer(0)),
            ("size"@, LlsdView::Integer(compressed@.len() as i32)),
        ]);
        assert(entries_of(header@) =~= seq![(lod_name@, llsd_view(header@[0].1))]);
    }
    let ghost head = bytes@;
    let mut i: usize = 0;
    while i < compressed.len()
        invariant
            i <= compressed@.len(),
            bytes@ == head + compressed@.take(i as int),
        decreases compressed@.len() - i,
    {
        bytes.push(compressed[i]);
        assert(compressed@.take(i + 1) =~= compressed@.take(i as int).push(compressed@[i as int]));
        i += 1;
    }
    assert(compressed@.take(i as int) =~= compressed@);
    bytes
}

/// The debug asset: the single triangle under `high_lod`. Its bytes are
/// taken for a Second Life mesh.
pub fn debug_triangle_second_life_mesh_bytes() -> (r: Vec<u8>)
    ensures
        r@ == triangle_asset("high_lod"@),
        mesh_format(r@) == MeshSourceFormat::SecondLifeMesh,
{
    let r = build_triangle_second_life_mesh_asset("high_lod");
    proof {
        lemma_triangle_asset_is_second_life_mesh("high_lod"@);
    }
    r
}

/// Whatever the LOD name, the debug asset begins with a binary LLSD map of
/// one entry, so it is detected as a Second Life mesh.
pub proof fn lemma_triangle_asset_is_second_life_mesh(lod: Seq<char>)
    ensures
        mesh_format(triangle_asset(lod)) == MeshSourceFormat::SecondLifeMesh,
{
    lemma_single_lod_asset_start(lod, zlib_deflated(encode(triangle_lod_block())));
}

proof fn lemma_single_lod_asset_start(lod: Seq<char>, block: Seq<u8>)
    ensures
        single_lod_asset(lod, block)[0] == 123u8,
        single_lod_asset(lod, block)[1] == 0u8,
        single_lod_asset(lod, block).len() >= 5,
        !starts_with_bytes(single_lod_asset(lod, block), deprecated_header()),
        mesh_format(single_lod_asset(lod, block)) == MeshSourceFormat::SecondLifeMesh,
{
    let d = single_lod_asset(lod, block);
    let es = seq![
        (
            lod,
            LlsdView::Dict(
                seq![
                    ("offset"@, LlsdView::Integer(0)),
                    ("size"@, LlsdView::Integer(block.len() as i32)),
                ],
            ),
        ),
    ];
    let e = encode(LlsdView::Dict(es));
    assert(e == seq![123u8] + be32(1) + encode_entries(es) + seq![125u8]);
    assert(be32(1) == seq![0u8, 0, 0, 1]);
    assert(d[0] == 123u8);
    assert(d[1] == 0u8);
    assert(d.len() >= 5);
    assert(!starts_with_bytes(d, deprecated_header())) by {
        if starts_with_bytes(d, deprecated_header()) {
            assert(d.subrange(0, 17)[0] == d[0]);
        }
    }
}

/// The header of [`single_lod_asset`].
pub open spec fn single_lod_header(lod: Seq<char>, size: nat) -> LlsdView {
    LlsdView::Dict(
        seq![
            (
                lod,
                LlsdView::Dict(
                    seq![
                        ("offset"@, LlsdView::Integer(0)),
                        ("size"@, LlsdView::Integer(size as i32)),
                    ],
                ),
            ),
        ],
    )
}

#[verifier::spinoff_prover]
proof fn lemma_single_lod_header_parses(lod: Seq<char>, block: Seq<u8>)
    requires
        lod.len() < 0x1000_0000,
    ensures
        single_lod_asset(lod, block) == encode(single_lod_header(lod, block.len())) + block,
        parse_llsd(single_lod_asset(lod, block)) == Some(
            (
                single_lod_header(lod, block.len()),
                encode(single_lod_header(lod, block.len())).len(),
            ),
        ),
{
    reveal_strlit("offset");
    reveal_strlit("size");
    let h = single_lod_header(lod, block.len());
    let inner = h->Dict_0[0].1->Dict_0;
    lemma_short_key(lod);
    lemma_short_key("offset"@);
    lemma_short_key("size"@);
    assert(seq_lt("offset"@, "size"@)) by {
        reveal_with_fuel(seq_lt, 2);
    }
    lemma_entries_wf(inner);
    lemma_entries_wf(h->Dict_0);
    assert(llsd_wf(h));
    lemma_llsd_round_trip(h, block);
}

#[verifier::spinoff_prover]
proof fn lemma_single_lod_search(k: int, lod: u32, size: nat)
    requires
        0 <= k < 4,
        0 < size <= 0x7fff_ffff,
    ensures
        lod_search(single_lod_header(lod_name(k), size)->Dict_0, lod_preference(lod)) == Ok::<
            (Seq<char>, nat, nat),
            MeshError,
        >((lod_name(k), 0nat, size)),
{
    reveal_strlit("high_lod");
    reveal_strlit("medium_lod");
    reveal_strlit("low_lod");
    reveal_strlit("lowest_lod");
    reveal_strlit("offset");
    reveal_strlit("size");
    let name = lod_name(k);
    let es = single_lod_header(name, size)->Dict_0;
    let inner = es[0].1->Dict_0;
    assert(dict_get(inner, "offset"@) == Some(LlsdView::Integer(0)));
    assert(dict_get(inner, "size"@) == Some(LlsdView::Integer(size as i32))) by {
        reveal_with_fuel(dict_get, 3);
        assert("offset"@.len() == 6 && "size"@.len() == 4);
    }
    assert(dict_get(es, name) == Some(LlsdView::Dict(inner)));
    assert(lod_name(0).len() == 8 && lod_name(1).len() == 10 && lod_name(2).len() == 7
        && lod_name(3).len() == 10);
    assert(lod_name(1)[0] != lod_name(3)[0]);
    assert(forall|j: int| 0 <= j < 4 && j != k ==> dict_get(es, #[trigger] lod_name(j)) is None) by {
        reveal_with_fuel(dict_get, 3);
    }
    reveal_with_fuel(lod_search, 5);
}

/// LOD fallback: an asset with one LOD entry, under any of the four LOD
/// names, yields that entry's block for every requested LOD; the block is
/// what zlib inflates it to.
#[verifier::spinoff_prover]
pub proof fn lemma_single_lod_asset_loads(k: int, lod: u32, block: Seq<u8>)
    requires
        0 <= k < 4,
        0 < block.len() <= 0x7fff_ffff,
    ensures
        lod_block_bytes(single_lod_asset(lod_name(k), block), lod) == match zlib_inflated(block) {
            Some(b) => Ok::<Seq<u8>, MeshError>(b),
            None => Err(MeshError::Decompress),
        },
{
    reveal_strlit("high_lod");
    reveal_strlit("medium_lod");
    reveal_strlit("low_lod");
    reveal_strlit("lowest_lod");
    let name = lod_name(k);
    let d = single_lod_asset(name, block);
    let h = single_lod_header(name, block.len());
    lemma_single_lod_asset_start(name, block);
    assert(stripped(d) == d);
    lemma_single_lod_header_parses(name, block);
    lemma_single_lod_search(k, lod, block.len());
    let hs = encode(h).len();
    assert(d.subrange(hs as int, (hs + block.len()) as int) =~= block);
}

/// The triangle's LOD block parses back from its encoding.
pub proof fn lemma_triangle_block_parses()
    ensures
        parse_llsd(encode(triangle_lod_block())) == Some(
            (triangle_lod_block(), encode(triangle_lod_block()).len()),
        ),
{
    lemma_triangle_block_wf();
    lemma_llsd_round_trip(triangle_lod_block(), seq![]);
    assert(encode(triangle_lod_block()) + seq![] =~= encode(triangle_lod_block()));
}

proof fn lemma_encode_utf8_len(s: Seq<char>)
    ensures
        encode_utf8(s).len() <= 4 * s.len(),
    decreases s.len(),
{
    if s.len() > 0 {
        lemma_encode_utf8_len(s.drop_first());
    }
}

proof fn lemma_le_bytes_len(vals: Seq<u16>)
    ensures
        le_bytes(vals).len() == 2 * vals.len(),
    decreases vals.len(),
{
    if vals.len() > 0 {
        lemma_le_bytes_len(vals.drop_first());
    }
}

proof fn lemma_items_wf(vs: Seq<LlsdView>)
    requires
        forall|i: int| 0 <= i < vs.len() ==> llsd_wf(#[trigger] vs[i]),
    ensures
        items_wf(vs),
    decreases vs.len(),
{
    if vs.len() > 0 {
        lemma_items_wf(vs.drop_last());
    }
}

proof fn lemma_entries_wf(es: Seq<(Seq<char>, LlsdView)>)
    requires
        forall|i: int|
            0 <= i < es.len() ==> encode_utf8(#[trigger] es[i].0).len() < 0x1_0000_0000
                && llsd_wf(es[i].1),
    ensures
        entries_wf(es),
    decreases es.len(),
{
    if es.len() > 0 {
        let d = es.drop_last();
        assert forall|i: int| 0 <= i < d.len() implies encode_utf8(#[trigger] d[i].0).len()
            < 0x1_0000_0000 && llsd_wf(d[i].1) by {
            assert(d[i] == es[i]);
        }
        lemma_entries_wf(d);
    }
}

proof fn lemma_short_key(k: Seq<char>)
    requires
        k.len() < 0x1000_0000,
    ensures
        encode_utf8(k).len() < 0x1_0000_0000,
{
    lemma_encode_utf8_len(k);
}

proof fn lemma_domain_wf(min: Seq<u64>, max: Seq<u64>)
    requires
        min.len() < 0x1_0000_0000,
        max.len() < 0x1_0000_0000,
    ensures
        llsd_wf(domain(min, max)),
{
    reveal_strlit("Max");
    reveal_strlit("Min");
    lemma_short_key("Max"@);
    lemma_short_key("Min"@);
    lemma_items_wf(reals(min));
    lemma_items_wf(reals(max));
    let es = domain(min, max)->Dict_0;
    assert(seq_lt("Max"@, "Min"@)) by {
        reveal_with_fuel(seq_lt, 2);
        assert("Max"@.drop_first()[0] == 'a');
        assert("Min"@.drop_first()[0] == 'i');
    }
    lemma_entries_wf(es);
}

proof fn lemma_binary_wf(vals: Seq<u16>)
    requires
        vals.len() < 0x1000_0000,
    ensures
        llsd_wf(LlsdView::Binary(le_bytes(vals))),
{
    lemma_le_bytes_len(vals);
}

proof fn lemma_triangle_block_wf()
    ensures
        llsd_wf(triangle_lod_block()),
{
    reveal_strlit("Normal");
    reveal_strlit("Position");
    reveal_strlit("PositionDomain");
    reveal_strlit("TexCoord0");
    reveal_strlit("TexCoord0Domain");
    reveal_strlit("TriangleList");
    let es = triangle_submesh()->Dict_0;
    lemma_binary_wf(seq![32767u16, 32767, 65535, 32767, 32767, 65535, 32767, 32767, 65535]);
    lemma_binary_wf(seq![0u16, 0, 0, 65535, 0, 0, 32767, 65535, 0]);
    lemma_binary_wf(seq![0u16, 0, 65535, 0, 32767, 65535]);
    lemma_binary_wf(seq![0u16, 1, 2]);
    lemma_domain_wf(
        seq![REAL_MINUS_HALF_BITS, REAL_MINUS_HALF_BITS, 0u64],
        seq![REAL_HALF_BITS, REAL_HALF_BITS, 0u64],
    );
    lemma_domain_wf(seq![0u64, 0], seq![REAL_ONE_BITS, REAL_ONE_BITS]);
    assert forall|i: int| 0 <= i < es.len() implies encode_utf8(#[trigger] es[i].0).len()
        < 0x1_0000_0000 && llsd_wf(es[i].1) by {
        lemma_short_key(es[i].0);
    }
    lemma_entries_wf(es);
    assert(keys_sorted(es)) by {
        reveal_with_fuel(seq_lt, 11);
        assert(seq_lt(es[0].0, es[1].0));
        assert(seq_lt(es[1].0, es[2].0));
        assert(seq_lt(es[2].0, es[3].0));
        assert(seq_lt(es[3].0, es[4].0));
        assert(seq_lt(es[4].0, es[5].0));
        assert(seq_lt(es[0].0, es[2].0));
        assert(seq_lt(es[0].0, es[3].0));
        assert(seq_lt(es[0].0, es[4].0));
        assert(seq_lt(es[0].0, es[5].0));
        assert(seq_lt(es[1].0, es[3].0));
        assert(seq_lt(es[1].0, es[4].0));
        assert(seq_lt(es[1].0, es[5].0));
        assert(seq_lt(es[2].0, es[4].0));
        assert(seq_lt(es[2].0, es[5].0));
        assert(seq_lt(es[3].0, es[5].0));
        assert forall|i: int, j: int| 0 <= i < j < es.len() implies seq_lt(
            #[trigger] es[i].0,
            #[trigger] es[j].0,
        ) by {
            assert(i == 0 || i == 1 || i == 2 || i == 3 || i == 4);
            assert(j == 1 || j == 2 || j == 3 || j == 4 || j == 5);
        }
    }
    let vs = triangle_lod_block()->Array_0;
    lemma_items_wf(vs);
}

} // verus!
