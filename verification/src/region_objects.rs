//! The one-line summary of a RegionObjects capability answer as the
//! diagnostics inspected it: its keys, array lengths, value types, child
//! maps, pathfinding summaries, typed object samples and the analysis of
//! tuple-shaped descriptions, each section cut to its first few entries.
use vstd::prelude::*;
use crate::diagnostics::none_or_join;
use crate::numtext::{dec, push_dec};
use crate::text::{chars_of, join, push_all, push_str, string_of};

verus! {

/// The typed summary of one pathfinding child map.
#[derive(Debug, Clone, PartialEq, Eq, Default)]
pub struct RegionObjectsPathfindingSummary {
    pub profile: String,
    pub variant_hint: Option<String>,
    pub linkset_use: Option<String>,
    pub walkability_coefficients: Option<[u32; 4]>,
    pub name: Option<String>,
    pub position: Option<String>,
    pub position_key_present: bool,
    pub position_shape: Option<String>,
    pub description_shape: Option<String>,
    pub description_numeric_tuple: Option<Vec<String>>,
    pub description: Option<String>,
    pub owner: Option<String>,
    pub landimpact: Option<u32>,
    pub navmesh_category: Option<u32>,
    pub can_be_volume: Option<bool>,
    pub phantom: Option<bool>,
}

/// One object of the answer, read as a typed sample.
#[derive(Debug, Clone, PartialEq, Eq, Default)]
pub struct RegionObjectsTypedObjectSample {
    pub object_id: String,
    pub profile: String,
    pub name: Option<String>,
    pub owner: Option<String>,
    pub position: Option<String>,
    pub description_shape: Option<String>,
    pub linkset_use: Option<String>,
    pub walkability_coefficients: Option<[u32; 4]>,
}

/// What the descriptions shaped as tuples showed: how many were sampled,
/// how many slots they have, the distinct values of each slot, sample
/// name/description pairs and the distinct names.
#[derive(Debug, Clone, PartialEq, Eq, Default)]
pub struct RegionObjectsTupleDescriptionAnalysis {
    pub sample_count: usize,
    pub slot_count: usize,
    pub slot_distinct_values: Vec<Vec<String>>,
    pub sample_pairs: Vec<String>,
    pub distinct_names: Vec<String>,
}

/// What inspecting a RegionObjects answer found, each list in the order
/// the inspection produced it.
#[derive(Debug, Clone, PartialEq, Eq, Default)]
pub struct RegionObjectsInspection {
    pub top_level_keys: Vec<String>,
    pub array_lengths: Vec<(String, usize)>,
    pub first_array_item_keys: Vec<(String, Vec<String>)>,
    pub complex_value_types: Vec<(String, String)>,
    pub scalar_values: Vec<(String, String)>,
    pub child_map_keys: Vec<(String, Vec<String>)>,
    pub child_map_scalar_values: Vec<(String, Vec<String>)>,
    pub child_map_profiles: Vec<(String, String)>,
    pub child_map_semantic_values: Vec<(String, Vec<String>)>,
    pub child_map_pathfinding_summaries: Vec<(String, RegionObjectsPathfindingSummary)>,
    pub tuple_description_analysis: Option<RegionObjectsTupleDescriptionAnalysis>,
    pub typed_object_samples: Vec<RegionObjectsTypedObjectSample>,
}

/// The first `n` of `s` (all of it when shorter).
pub open spec fn first_n<T>(s: Seq<T>, n: int) -> Seq<T> {
    if n < s.len() {
        s.take(n)
    } else {
        s
    }
}

pub open spec fn texts(s: Seq<String>) -> Seq<Seq<char>> {
    s.map_values(|x: String| x@)
}

pub open spec fn piece_texts(s: Seq<Vec<char>>) -> Seq<Seq<char>> {
    s.map_values(|x: Vec<char>| x@)
}

/// `key:len`.
pub open spec fn length_text(e: (String, usize)) -> Seq<char> {
    e.0@ + seq![':'] + dec(e.1 as nat)
}

/// `key=value`.
pub open spec fn pair_text(e: (String, String)) -> Seq<char> {
    e.0@ + seq!['='] + e.1@
}

/// `key=` and the first `m` values joined with `|`.
pub open spec fn key_values_text(e: (String, Vec<String>), m: int) -> Seq<char> {
    e.0@ + seq!['='] + join(first_n(texts(e.1@), m), "|"@)
}

/// The pieces `ws[..k]` joined with `sep`.
fn join_upto(ws: &[Vec<char>], k: usize, sep: &[char]) -> (r: Vec<char>)
    requires
        k <= ws@.len(),
    ensures
        r@ == join(piece_texts(ws@).take(k as int), sep@),
{
    let ghost views = piece_texts(ws@);
    let mut out: Vec<char> = Vec::new();
    let mut i: usize = 0;
    while i < k
        invariant
            k <= ws@.len(),
            i <= k,
            views == piece_texts(ws@),
            out@ == join(views.take(i as int), sep@),
        decreases k - i,
    {
        if i > 0 {
            push_all(&mut out, sep);
        }
        push_all(&mut out, ws[i].as_slice());
        proof {
            let t = views.take(i + 1);
            assert(t.drop_last() =~= views.take(i as int));
            assert(t.last() == ws@[i as int]@);
            if i == 0 {
                assert(join(t, sep@) == t[0]);
            }
        }
        i += 1;
    }
    out
}

/// The first `n` pieces joined with `sep`.
fn join_first(ws: &Vec<Vec<char>>, n: usize, sep: &str) -> (r: Vec<char>)
    ensures
        r@ == join(first_n(piece_texts(ws@), n as int), sep@),
{
    let k = if n < ws.len() {
        n
    } else {
        ws.len()
    };
    let s = chars_of(sep);
    let r = join_upto(ws.as_slice(), k, s.as_slice());
    assert(piece_texts(ws@).take(k as int) =~= first_n(piece_texts(ws@), n as int));
    r
}

/// `none`, or the first `n` pieces joined with `sep`.
fn listing(ws: &Vec<Vec<char>>, n: usize, sep: &str) -> (r: Vec<char>)
    requires
        n >= 1,
    ensures
        r@ == none_or_join(first_n(piece_texts(ws@), n as int), sep@),
{
    if ws.len() == 0 {
        assert(first_n(piece_texts(ws@), n as int).len() == 0);
        chars_of("none")
    } else {
        join_first(ws, n, sep)
    }
}

/// The characters of each string.
fn string_pieces(items: &Vec<String>) -> (r: Vec<Vec<char>>)
    ensures
        piece_texts(r@) == texts(items@),
{
    let mut out: Vec<Vec<char>> = Vec::new();
    let mut i: usize = 0;
    while i < items.len()
        invariant
            i <= items@.len(),
            out@.len() == i,
            forall|j: int| 0 <= j < i ==> #[trigger] out@[j]@ == items@[j]@,
        decreases items@.len() - i,
    {
        out.push(chars_of(items[i].as_str()));
        i += 1;
    }
    assert(piece_texts(out@) =~= texts(items@));
    out
}

/// The first `m` strings joined with `sep`.
fn join_first_strings(items: &Vec<String>, m: usize, sep: &str) -> (r: Vec<char>)
    ensures
        r@ == join(first_n(texts(items@), m as int), sep@),
{
    let ps = string_pieces(items);
    join_first(&ps, m, sep)
}

/// `none`, or the first `n` strings joined with `sep`.
fn list_strings(items: &Vec<String>, n: usize, sep: &str) -> (r: Vec<char>)
    requires
        n >= 1,
    ensures
        r@ == none_or_join(first_n(texts(items@), n as int), sep@),
{
    let ps = string_pieces(items);
    listing(&ps, n, sep)
}

fn list_lengths(items: &Vec<(String, usize)>, n: usize) -> (r: Vec<char>)
    requires
        n >= 1,
    ensures
        r@ == none_or_join(
            first_n(items@.map_values(|e: (String, usize)| length_text(e)), n as int),
            ","@,
        ),
{
    let mut ps: Vec<Vec<char>> = Vec::new();
    let mut i: usize = 0;
    while i < items.len()
        invariant
            i <= items@.len(),
            ps@.len() == i,
            forall|j: int| 0 <= j < i ==> #[trigger] ps@[j]@ == length_text(items@[j]),
        decreases items@.len() - i,
    {
        let mut p = chars_of(items[i].0.as_str());
        p.push(':');
        push_dec(&mut p, items[i].1 as u64);
        assert(p@ =~= length_text(items@[i as int]));
        ps.push(p);
        i += 1;
    }
    assert(piece_texts(ps@) =~= items@.map_values(|e: (String, usize)| length_text(e)));
    listing(&ps, n, ",")
}

fn list_pairs(items: &Vec<(String, String)>, n: usize) -> (r: Vec<char>)
    requires
        n >= 1,
    ensures
        r@ == none_or_join(
            first_n(items@.map_values(|e: (String, String)| pair_text(e)), n as int),
            ","@,
        ),
{
    let mut ps: Vec<Vec<char>> = Vec::new();
    let mut i: usize = 0;
    while i < items.len()
        invariant
            i <= items@.len(),
            ps@.len() == i,
            forall|j: int| 0 <= j < i ==> #[trigger] ps@[j]@ == pair_text(items@[j]),
        decreases items@.len() - i,
    {
        let mut p = chars_of(items[i].0.as_str());
        p.push('=');
        push_str(&mut p, items[i].1.as_str());
        assert(p@ =~= pair_text(items@[i as int]));
        ps.push(p);
        i += 1;
    }
    assert(piece_texts(ps@) =~= items@.map_values(|e: (String, String)| pair_text(e)));
    listing(&ps, n, ",")
}

fn list_key_values(items: &Vec<(String, Vec<String>)>, n: usize, m: usize) -> (r: Vec<char>)
    requires
        n >= 1,
    ensures
        r@ == none_or_join(
            first_n(
                items@.map_values(|e: (String, Vec<String>)| key_values_text(e, m as int)),
                n as int,
            ),
            ","@,
        ),
{
    let mut ps: Vec<Vec<char>> = Vec::new();
    let mut i: usize = 0;
    while i < items.len()
        invariant
            i <= items@.len(),
            ps@.len() == i,
            forall|j: int| 0 <= j < i ==> #[trigger] ps@[j]@ == key_values_text(items@[j], m as int),
        decreases items@.len() - i,
    {
        let mut p = chars_of(items[i].0.as_str());
        p.push('=');
        let joined = join_first_strings(&items[i].1, m, "|");
        push_all(&mut p, joined.as_slice());
        assert(p@ =~= key_values_text(items@[i as int], m as int));
        ps.push(p);
        i += 1;
    }
    assert(piece_texts(ps@) =~= items@.map_values(
        |e: (String, Vec<String>)| key_values_text(e, m as int),
    ));
    listing(&ps, n, ",")
}

pub open spec fn bool_text(b: bool) -> Seq<char> {
    if b {
        "true"@
    } else {
        "false"@
    }
}

/// `label` and the value, when there is one.
pub open spec fn opt_part(label: Seq<char>, o: Option<String>) -> Seq<Seq<char>> {
    match o {
        Some(v) => seq![label + v@],
        None => seq![],
    }
}

pub open spec fn opt_number_part(label: Seq<char>, o: Option<u32>) -> Seq<Seq<char>> {
    match o {
        Some(v) => seq![label + dec(v as nat)],
        None => seq![],
    }
}

pub open spec fn opt_bool_part(label: Seq<char>, o: Option<bool>) -> Seq<Seq<char>> {
    match o {
        Some(v) => seq![label + bool_text(v)],
        None => seq![],
    }
}

pub open spec fn flag_part(label: Seq<char>, b: bool) -> Seq<Seq<char>> {
    if b {
        seq![label]
    } else {
        seq![]
    }
}

/// `walkability=a/b/c/d`, when the coefficients are known.
pub open spec fn walkability_part(o: Option<[u32; 4]>) -> Seq<Seq<char>> {
    match o {
        Some(w) => seq![
            "walkability="@ + dec(w@[0] as nat) + seq!['/'] + dec(w@[1] as nat) + seq!['/'] + dec(
                w@[2] as nat,
            ) + seq!['/'] + dec(w@[3] as nat),
        ],
        None => seq![],
    }
}

/// `description_tuple=` and the tuple's values joined with `|`, when known.
pub open spec fn tuple_part(o: Option<Vec<String>>) -> Seq<Seq<char>> {
    match o {
        Some(v) => seq!["description_tuple="@ + join(texts(v@), "|"@)],
        None => seq![],
    }
}

/// The parts of a pathfinding summary, in order, each only when known.
pub open spec fn pathfinding_parts(s: RegionObjectsPathfindingSummary) -> Seq<Seq<char>> {
    seq!["profile="@ + s.profile@] + opt_part("variant="@, s.variant_hint) + opt_part(
        "linkset_use="@,
        s.linkset_use,
    ) + walkability_part(s.walkability_coefficients) + opt_part("name="@, s.name) + opt_part(
        "position="@,
        s.position,
    ) + flag_part("position_key=present"@, s.position_key_present) + opt_part(
        "position_shape="@,
        s.position_shape,
    ) + opt_part("description_shape="@, s.description_shape) + tuple_part(
        s.description_numeric_tuple,
    ) + opt_part("description="@, s.description) + opt_part("owner="@, s.owner) + opt_number_part(
        "landimpact="@,
        s.landimpact,
    ) + opt_number_part("navmesh_category="@, s.navmesh_category) + opt_bool_part(
        "can_be_volume="@,
        s.can_be_volume,
    ) + opt_bool_part("phantom="@, s.phantom)
}

/// `key=` and the first ten parts of its pathfinding summary, joined with `|`.
pub open spec fn pathfinding_text(e: (String, RegionObjectsPathfindingSummary)) -> Seq<char> {
    e.0@ + seq!['='] + join(first_n(pathfinding_parts(e.1), 10), "|"@)
}

/// The parts of a typed object sample, in order, each only when known.
pub open spec fn sample_parts(s: RegionObjectsTypedObjectSample) -> Seq<Seq<char>> {
    seq!["profile="@ + s.profile@] + opt_part("name="@, s.name) + opt_part(
        "linkset_use="@,
        s.linkset_use,
    ) + walkability_part(s.walkability_coefficients) + opt_part("position="@, s.position)
        + opt_part("description_shape="@, s.description_shape) + opt_part("owner="@, s.owner)
}

/// The object id, `=`, and the first seven parts of the sample joined with `|`.
pub open spec fn sample_text(s: RegionObjectsTypedObjectSample) -> Seq<char> {
    s.object_id@ + seq!['='] + join(first_n(sample_parts(s), 7), "|"@)
}

fn push_part(parts: &mut Vec<Vec<char>>, label: &str, value: &[char])
    ensures
        piece_texts(final(parts)@) == piece_texts(old(parts)@).push(label@ + value@),
{
    let mut p = chars_of(label);
    push_all(&mut p, value);
    parts.push(p);
    assert(piece_texts(final(parts)@) =~= piece_texts(old(parts)@).push(label@ + value@));
}

fn push_opt_part(parts: &mut Vec<Vec<char>>, label: &str, o: &Option<String>)
    ensures
        piece_texts(final(parts)@) == piece_texts(old(parts)@) + opt_part(label@, *o),
{
    match o {
        Some(v) => {
            let c = chars_of(v.as_str());
            push_part(parts, label, c.as_slice());
            assert(piece_texts(old(parts)@).push(label@ + v@) =~= piece_texts(old(parts)@)
                + opt_part(label@, *o));
        },
        None => {
            assert(piece_texts(old(parts)@) =~= piece_texts(old(parts)@) + opt_part(label@, *o));
        },
    }
}

fn push_opt_number_part(parts: &mut Vec<Vec<char>>, label: &str, o: Option<u32>)
    ensures
        piece_texts(final(parts)@) == piece_texts(old(parts)@) + opt_number_part(label@, o),
{
    match o {
        Some(v) => {
            let mut c: Vec<char> = Vec::new();
            push_dec(&mut c, v as u64);
            assert(c@ =~= dec(v as nat));
            push_part(parts, label, c.as_slice());
            assert(piece_texts(old(parts)@).push(label@ + dec(v as nat)) =~= piece_texts(
                old(parts)@,
            ) + opt_number_part(label@, o));
        },
        None => {
            assert(piece_texts(old(parts)@) =~= piece_texts(old(parts)@) + opt_number_part(
                label@,
                o,
            ));
        },
    }
}

fn push_opt_bool_part(parts: &mut Vec<Vec<char>>, label: &str, o: Option<bool>)
    ensures
        piece_texts(final(parts)@) == piece_texts(old(parts)@) + opt_bool_part(label@, o),
{
    match o {
        Some(v) => {
            let c = chars_of(
                if v {
                    "true"
                } else {
                    "false"
                },
            );
            push_part(parts, label, c.as_slice());
            assert(piece_texts(old(parts)@).push(label@ + bool_text(v)) =~= piece_texts(
                old(parts)@,
            ) + opt_bool_part(label@, o));
        },
        None => {
            assert(piece_texts(old(parts)@) =~= piece_texts(old(parts)@) + opt_bool_part(
                label@,
                o,
            ));
        },
    }
}

fn push_flag_part(parts: &mut Vec<Vec<char>>, label: &str, b: bool)
    ensures
        piece_texts(final(parts)@) == piece_texts(old(parts)@) + flag_part(label@, b),
{
    if b {
        let c = chars_of(label);
        parts.push(c);
        assert(piece_texts(final(parts)@) =~= piece_texts(old(parts)@) + flag_part(label@, b));
    } else {
        assert(piece_texts(old(parts)@) =~= piece_texts(old(parts)@) + flag_part(label@, b));
    }
}

fn push_walkability_part(parts: &mut Vec<Vec<char>>, o: Option<[u32; 4]>)
    ensures
        piece_texts(final(parts)@) == piece_texts(old(parts)@) + walkability_part(o),
{
    match o {
        Some(w) => {
            let mut c: Vec<char> = Vec::new();
            push_dec(&mut c, w[0] as u64);
            c.push('/');
            push_dec(&mut c, w[1] as u64);
            c.push('/');
            push_dec(&mut c, w[2] as u64);
            c.push('/');
            push_dec(&mut c, w[3] as u64);
            let ghost v = dec(w@[0] as nat) + seq!['/'] + dec(w@[1] as nat) + seq!['/'] + dec(
                w@[2] as nat,
            ) + seq!['/'] + dec(w@[3] as nat);
            assert(c@ =~= v);
            push_part(parts, "walkability=", c.as_slice());
            assert("walkability="@ + v =~= "walkability="@ + dec(w@[0] as nat) + seq!['/'] + dec(
                w@[1] as nat,
            ) + seq!['/'] + dec(w@[2] as nat) + seq!['/'] + dec(w@[3] as nat));
            assert(piece_texts(old(parts)@).push("walkability="@ + v) =~= piece_texts(old(parts)@)
                + walkability_part(o));
        },
        None => {
            assert(piece_texts(old(parts)@) =~= piece_texts(old(parts)@) + walkability_part(o));
        },
    }
}

fn push_tuple_part(parts: &mut Vec<Vec<char>>, o: &Option<Vec<String>>)
    ensures
        piece_texts(final(parts)@) == piece_texts(old(parts)@) + tuple_part(*o),
{
    match o {
        Some(v) => {
            let joined = join_first_strings(v, v.len(), "|");
            assert(first_n(texts(v@), v@.len() as int) =~= texts(v@));
            push_part(parts, "description_tuple=", joined.as_slice());
            assert(piece_texts(old(parts)@).push("description_tuple="@ + join(texts(v@), "|"@))
                =~= piece_texts(old(parts)@) + tuple_part(*o));
        },
        None => {
            assert(piece_texts(old(parts)@) =~= piece_texts(old(parts)@) + tuple_part(*o));
        },
    }
}

fn pathfinding_piece(key: &String, s: &RegionObjectsPathfindingSummary) -> (r: Vec<char>)
    ensures
        r@ == pathfinding_text((*key, *s)),
{
    let mut parts: Vec<Vec<char>> = Vec::new();
    let profile = chars_of(s.profile.as_str());
    push_part(&mut parts, "profile=", profile.as_slice());
    assert(piece_texts(parts@) =~= seq!["profile="@ + s.profile@]);
    push_opt_part(&mut parts, "variant=", &s.variant_hint);
    push_opt_part(&mut parts, "linkset_use=", &s.linkset_use);
    push_walkability_part(&mut parts, s.walkability_coefficients);
    push_opt_part(&mut parts, "name=", &s.name);
    push_opt_part(&mut parts, "position=", &s.position);
    push_flag_part(&mut parts, "position_key=present", s.position_key_present);
    push_opt_part(&mut parts, "position_shape=", &s.position_shape);
    push_opt_part(&mut parts, "description_shape=", &s.description_shape);
    push_tuple_part(&mut parts, &s.description_numeric_tuple);
    push_opt_part(&mut parts, "description=", &s.description);
    push_opt_part(&mut parts, "owner=", &s.owner);
    push_opt_number_part(&mut parts, "landimpact=", s.landimpact);
    push_opt_number_part(&mut parts, "navmesh_category=", s.navmesh_category);
    push_opt_bool_part(&mut parts, "can_be_volume=", s.can_be_volume);
    push_opt_bool_part(&mut parts, "phantom=", s.phantom);
    assert(piece_texts(parts@) == pathfinding_parts(*s));
    let mut out = chars_of(key.as_str());
    out.push('=');
    let joined = join_first(&parts, 10, "|");
    push_all(&mut out, joined.as_slice());
    assert(out@ =~= pathfinding_text((*key, *s)));
    out
}

fn sample_piece(s: &RegionObjectsTypedObjectSample) -> (r: Vec<char>)
    ensures
        r@ == sample_text(*s),
{
    let mut parts: Vec<Vec<char>> = Vec::new();
    let profile = chars_of(s.profile.as_str());
    push_part(&mut parts, "profile=", profile.as_slice());
    assert(piece_texts(parts@) =~= seq!["profile="@ + s.profile@]);
    push_opt_part(&mut parts, "name=", &s.name);
    push_opt_part(&mut parts, "linkset_use=", &s.linkset_use);
    push_walkability_part(&mut parts, s.walkability_coefficients);
    push_opt_part(&mut parts, "position=", &s.position);
    push_opt_part(&mut parts, "description_shape=", &s.description_shape);
    push_opt_part(&mut parts, "owner=", &s.owner);
    assert(piece_texts(parts@) == sample_parts(*s));
    let mut out = chars_of(s.object_id.as_str());
    out.push('=');
    let joined = join_first(&parts, 7, "|");
    push_all(&mut out, joined.as_slice());
    assert(out@ =~= sample_text(*s));
    out
}

/// Slot `idx` of the tuple analysis: `s<idx>=none` without values,
/// `s<idx>=const:<v>` with one, `s<idx>=var:<v|...>` with more.
pub open spec fn slot_text(idx: int, values: Seq<Seq<char>>) -> Seq<char> {
    seq!['s'] + dec(idx as nat) + if values.len() == 0 {
        "=none"@
    } else if values.len() == 1 {
        "=const:"@ + join(values, "|"@)
    } else {
        "=var:"@ + join(values, "|"@)
    }
}

pub open spec fn slot_texts(slots: Seq<Vec<String>>) -> Seq<Seq<char>> {
    Seq::new(slots.len(), |i: int| slot_text(i, texts(slots[i]@)))
}

/// The tuple analysis: sample and slot counts, the distinct names (`|`), the
/// slots (`,`) and the sample pairs (`;`), each `none` when empty.
pub open spec fn analysis_text(a: RegionObjectsTupleDescriptionAnalysis) -> Seq<char> {
    "samples="@ + dec(a.sample_count as nat) + " slots="@ + dec(a.slot_count as nat) + " names="@
        + none_or_join(texts(a.distinct_names@), "|"@) + " slot_values="@ + none_or_join(
        slot_texts(a.slot_distinct_values@),
        ","@,
    ) + " sample_pairs="@ + none_or_join(texts(a.sample_pairs@), ";"@)
}

fn analysis_piece(a: &RegionObjectsTupleDescriptionAnalysis) -> (r: Vec<char>)
    ensures
        r@ == analysis_text(*a),
{
    let mut slots: Vec<Vec<char>> = Vec::new();
    let mut i: usize = 0;
    while i < a.slot_distinct_values.len()
        invariant
            i <= a.slot_distinct_values@.len(),
            slots@.len() == i,
            forall|j: int| 0 <= j < i ==> #[trigger] slots@[j]@ == slot_text(
                j,
                texts(a.slot_distinct_values@[j]@),
            ),
        decreases a.slot_distinct_values@.len() - i,
    {
        let values = &a.slot_distinct_values[i];
        let mut p: Vec<char> = Vec::new();
        p.push('s');
        push_dec(&mut p, i as u64);
        let joined = join_first_strings(values, values.len(), "|");
        assert(first_n(texts(values@), values@.len() as int) =~= texts(values@));
        if values.len() == 0 {
            push_str(&mut p, "=none");
        } else if values.len() == 1 {
            push_str(&mut p, "=const:");
            push_all(&mut p, joined.as_slice());
        } else {
            push_str(&mut p, "=var:");
            push_all(&mut p, joined.as_slice());
        }
        assert(p@ =~= slot_text(i as int, texts(a.slot_distinct_values@[i as int]@)));
        slots.push(p);
        i += 1;
    }
    assert(piece_texts(slots@) =~= slot_texts(a.slot_distinct_values@));
    let n = slots.len();
    let slot_summary = if n == 0 {
        chars_of("none")
    } else {
        listing(&slots, n, ",")
    };
    assert(first_n(piece_texts(slots@), n as int) =~= piece_texts(slots@));
    let names = if a.distinct_names.len() == 0 {
        chars_of("none")
    } else {
        list_strings(&a.distinct_names, a.distinct_names.len(), "|")
    };
    assert(first_n(texts(a.distinct_names@), a.distinct_names@.len() as int) =~= texts(
        a.distinct_names@,
    ));
    let samples = if a.sample_pairs.len() == 0 {
        chars_of("none")
    } else {
        list_strings(&a.sample_pairs, a.sample_pairs.len(), ";")
    };
    assert(first_n(texts(a.sample_pairs@), a.sample_pairs@.len() as int) =~= texts(
        a.sample_pairs@,
    ));
    let mut out: Vec<char> = Vec::new();
    push_str(&mut out, "samples=");
    push_dec(&mut out, a.sample_count as u64);
    push_str(&mut out, " slots=");
    push_dec(&mut out, a.slot_count as u64);
    push_str(&mut out, " names=");
    push_all(&mut out, names.as_slice());
    push_str(&mut out, " slot_values=");
    push_all(&mut out, slot_summary.as_slice());
    push_str(&mut out, " sample_pairs=");
    push_all(&mut out, samples.as_slice());
    out
}

/// The summary line of an inspection: each section cut to its first few
/// entries (keys 6, array lengths 4, complex types 4, first-item keys 3 of
/// 5, scalars 4, child keys 3 of 6, child scalars 3 of 4, child profiles 3,
/// child semantic values 3 of 5, pathfinding summaries 3, typed samples 3),
/// `none` for an empty section.
pub open spec fn inspection_text(i: RegionObjectsInspection) -> Seq<char> {
    "keys="@ + none_or_join(first_n(texts(i.top_level_keys@), 6), ","@) + " arrays="@
        + none_or_join(
        first_n(i.array_lengths@.map_values(|e: (String, usize)| length_text(e)), 4),
        ","@,
    ) + " complex="@ + none_or_join(
        first_n(i.complex_value_types@.map_values(|e: (String, String)| pair_text(e)), 4),
        ","@,
    ) + " first_item_keys="@ + none_or_join(
        first_n(
            i.first_array_item_keys@.map_values(|e: (String, Vec<String>)| key_values_text(e, 5)),
            3,
        ),
        ","@,
    ) + " scalars="@ + none_or_join(
        first_n(i.scalar_values@.map_values(|e: (String, String)| pair_text(e)), 4),
        ","@,
    ) + " child_keys="@ + none_or_join(
        first_n(i.child_map_keys@.map_values(|e: (String, Vec<String>)| key_values_text(e, 6)), 3),
        ","@,
    ) + " child_scalars="@ + none_or_join(
        first_n(
            i.child_map_scalar_values@.map_values(|e: (String, Vec<String>)| key_values_text(e, 4)),
            3,
        ),
        ","@,
    ) + " child_profiles="@ + none_or_join(
        first_n(i.child_map_profiles@.map_values(|e: (String, String)| pair_text(e)), 3),
        ","@,
    ) + " child_semantics="@ + none_or_join(
        first_n(
            i.child_map_semantic_values@.map_values(
                |e: (String, Vec<String>)| key_values_text(e, 5),
            ),
            3,
        ),
        ","@,
    ) + " child_typed="@ + none_or_join(
        first_n(
            i.child_map_pathfinding_summaries@.map_values(
                |e: (String, RegionObjectsPathfindingSummary)| pathfinding_text(e),
            ),
            3,
        ),
        ","@,
    ) + " typed_sample="@ + none_or_join(
        first_n(
            i.typed_object_samples@.map_values(|s: RegionObjectsTypedObjectSample| sample_text(s)),
            3,
        ),
        ","@,
    ) + " tuple_analysis="@ + match i.tuple_description_analysis {
        Some(a) => analysis_text(a),
        None => "none"@,
    }
}

fn list_pathfinding(items: &Vec<(String, RegionObjectsPathfindingSummary)>, n: usize) -> (r: Vec<
    char,
>)
    requires
        n >= 1,
    ensures
        r@ == none_or_join(
            first_n(
                items@.map_values(
                    |e: (String, RegionObjectsPathfindingSummary)| pathfinding_text(e),
                ),
                n as int,
            ),
            ","@,
        ),
{
    let mut ps: Vec<Vec<char>> = Vec::new();
    let mut i: usize = 0;
    while i < items.len()
        invariant
            i <= items@.len(),
            ps@.len() == i,
            forall|j: int| 0 <= j < i ==> #[trigger] ps@[j]@ == pathfinding_text(items@[j]),
        decreases items@.len() - i,
    {
        let p = pathfinding_piece(&items[i].0, &items[i].1);
        ps.push(p);
        i += 1;
    }
    assert(piece_texts(ps@) =~= items@.map_values(
        |e: (String, RegionObjectsPathfindingSummary)| pathfinding_text(e),
    ));
    listing(&ps, n, ",")
}

fn list_samples(items: &Vec<RegionObjectsTypedObjectSample>, n: usize) -> (r: Vec<char>)
    requires
        n >= 1,
    ensures
        r@ == none_or_join(
            first_n(items@.map_values(|s: RegionObjectsTypedObjectSample| sample_text(s)), n as int),
            ","@,
        ),
{
    let mut ps: Vec<Vec<char>> = Vec::new();
    let mut i: usize = 0;
    while i < items.len()
        invariant
            i <= items@.len(),
            ps@.len() == i,
            forall|j: int| 0 <= j < i ==> #[trigger] ps@[j]@ == sample_text(items@[j]),
        decreases items@.len() - i,
    {
        let p = sample_piece(&items[i]);
        ps.push(p);
        i += 1;
    }
    assert(piece_texts(ps@) =~= items@.map_values(
        |s: RegionObjectsTypedObjectSample| sample_text(s),
    ));
    listing(&ps, n, ",")
}

/// The one-line summary of a RegionObjects inspection (see
/// [`inspection_text`]).
pub fn summarize_region_objects_inspection(inspection: &RegionObjectsInspection) -> (r: String)
    ensures
        r@ == inspection_text(*inspection),
{
    let keys = list_strings(&inspection.top_level_keys, 6, ",");
    let arrays = list_lengths(&inspection.array_lengths, 4);
    let complex = list_pairs(&inspection.complex_value_types, 4);
    let first_item_keys = list_key_values(&inspection.first_array_item_keys, 3, 5);
    let scalars = list_pairs(&inspection.scalar_values, 4);
    let child_keys = list_key_values(&inspection.child_map_keys, 3, 6);
    let child_scalars = list_key_values(&inspection.child_map_scalar_values, 3, 4);
    let child_profiles = list_pairs(&inspection.child_map_profiles, 3);
    let child_semantics = list_key_values(&inspection.child_map_semantic_values, 3, 5);
    let child_typed = list_pathfinding(&inspection.child_map_pathfinding_summaries, 3);
    let typed_sample = list_samples(&inspection.typed_object_samples, 3);
    let tuple_analysis = match &inspection.tuple_description_analysis {
        Some(a) => analysis_piece(a),
        None => chars_of("none"),
    };
    let mut out: Vec<char> = Vec::new();
    push_str(&mut out, "keys=");
    push_all(&mut out, keys.as_slice());
    push_str(&mut out, " arrays=");
    push_all(&mut out, arrays.as_slice());
    push_str(&mut out, " complex=");
    push_all(&mut out, complex.as_slice());
    push_str(&mut out, " first_item_keys=");
    push_all(&mut out, first_item_keys.as_slice());
    push_str(&mut out, " scalars=");
    push_all(&mut out, scalars.as_slice());
    push_str(&mut out, " child_keys=");
    push_all(&mut out, child_keys.as_slice());
    push_str(&mut out, " child_scalars=");
    push_all(&mut out, child_scalars.as_slice());
    push_str(&mut out, " child_profiles=");
    push_all(&mut out, child_profiles.as_slice());
    push_str(&mut out, " child_semantics=");
    push_all(&mut out, child_semantics.as_slice());
    push_str(&mut out, " child_typed=");
    push_all(&mut out, child_typed.as_slice());
    push_str(&mut out, " typed_sample=");
    push_all(&mut out, typed_sample.as_slice());
    push_str(&mut out, " tuple_analysis=");
    push_all(&mut out, tuple_analysis.as_slice());
    string_of(out.as_slice())
}

} // verus!
