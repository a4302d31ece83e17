//! The first simulator's start-up as the diagnostics report it: whether
//! object updates carrying local ids arrived and whether the interest-list
//! messages went out (the start-up gates), the ack, receive, timeline and
//! transcript forensics, the socket events, and the event queue's message
//! names.
use vstd::prelude::*;
use crate::diagnostics::{
    format_message_number_counts, format_optional_index, format_transcript_side,
    format_u32_list_hex, hex8, index_text, join_or_none, message_count_text, none_or_join,
    StartupTimelineIndices,
};
use crate::numtext::{dec, hex, push_dec, push_hex};
use crate::text::{chars_eq, chars_of, push_all, push_str, string_of};
use crate::texture_cache::{
    chars_less, lemma_seq_lt_asym, lemma_seq_lt_total, lemma_seq_lt_trans, seq_lt,
};

verus! {

/// Strictly increasing.
pub open spec fn increasing(u: Seq<u32>) -> bool {
    forall|i: int, j: int| 0 <= i < j < u.len() ==> u[i] < u[j]
}

/// `u` lists the nonzero ids of `ids`, each once, in increasing order.
pub open spec fn nonzero_ids_in_order(u: Seq<u32>, ids: Seq<u32>) -> bool {
    &&& increasing(u)
    &&& forall|x: u32| #[trigger] u.contains(x) <==> (x > 0 && ids.contains(x))
}

/// The nonzero ids of `ids`, each once, in increasing order.
pub open spec fn nonzero_ids_sorted(ids: Seq<u32>) -> Seq<u32> {
    choose|u: Seq<u32>| nonzero_ids_in_order(u, ids)
}

/// Two increasing sequences with the same elements are the same sequence.
pub proof fn lemma_increasing_same_elements(u1: Seq<u32>, u2: Seq<u32>)
    requires
        increasing(u1),
        increasing(u2),
        forall|x: u32| #[trigger] u1.contains(x) <==> u2.contains(x),
    ensures
        u1 == u2,
    decreases u1.len(),
{
    if u1.len() == 0 {
        if u2.len() > 0 {
            assert(u2.contains(u2[0]));
            assert(u1.contains(u2[0]));
            assert(false);
        }
        assert(u1 =~= u2);
    } else {
        assert(u1.contains(u1[0]));
        assert(u2.contains(u1[0]));
        assert(u2.len() > 0);
        assert(u2.contains(u2[0]));
        assert(u1.contains(u2[0]));
        let j1 = choose|j: int| 0 <= j < u1.len() && u1[j] == u2[0];
        let j2 = choose|j: int| 0 <= j < u2.len() && u2[j] == u1[0];
        assert(u1[0] <= u1[j1]);
        assert(u2[0] <= u2[j2]);
        assert(u1[0] == u2[0]);
        let t1 = u1.drop_first();
        let t2 = u2.drop_first();
        assert forall|x: u32| #[trigger] t1.contains(x) implies t2.contains(x) by {
            let k = choose|k: int| 0 <= k < t1.len() && t1[k] == x;
            assert(u1[k + 1] == x);
            assert(u1.contains(x));
            assert(u2.contains(x));
            let m = choose|m: int| 0 <= m < u2.len() && u2[m] == x;
            assert(u1[0] < u1[k + 1]);
            assert(m != 0);
            assert(t2[m - 1] == x);
        }
        assert forall|x: u32| #[trigger] t2.contains(x) implies t1.contains(x) by {
            let k = choose|k: int| 0 <= k < t2.len() && t2[k] == x;
            assert(u2[k + 1] == x);
            assert(u2.contains(x));
            assert(u1.contains(x));
            let m = choose|m: int| 0 <= m < u1.len() && u1[m] == x;
            assert(u2[0] < u2[k + 1]);
            assert(m != 0);
            assert(t1[m - 1] == x);
        }
        lemma_increasing_same_elements(t1, t2);
        assert(u1 =~= seq![u1[0]] + t1);
        assert(u2 =~= seq![u2[0]] + t2);
    }
}

/// The listing of the nonzero ids is unique: any increasing listing of
/// them is `nonzero_ids_sorted`.
pub proof fn lemma_nonzero_ids_sorted_unique(u: Seq<u32>, ids: Seq<u32>)
    requires
        nonzero_ids_in_order(u, ids),
    ensures
        nonzero_ids_sorted(ids) == u,
{
    let w = nonzero_ids_sorted(ids);
    assert(nonzero_ids_in_order(w, ids));
    lemma_increasing_same_elements(w, u);
}

/// Inserts `x` into the increasing `u` unless it is already there.
fn insert_sorted(u: &mut Vec<u32>, x: u32)
    requires
        increasing(old(u)@),
    ensures
        increasing(final(u)@),
        forall|y: u32| #[trigger] final(u)@.contains(y) <==> (old(u)@.contains(y) || y == x),
{
    let mut p: usize = 0;
    while p < u.len() && u[p] < x
        invariant
            p <= u@.len(),
            u@ == old(u)@,
            increasing(u@),
            forall|k: int| 0 <= k < p ==> u@[k] < x,
        decreases u@.len() - p,
    {
        p += 1;
    }
    if p < u.len() && u[p] == x {
        assert(u@.contains(x));
        return;
    }
    let ghost before = u@;
    u.insert(p, x);
    assert(u@ =~= before.insert(p as int, x));
    assert forall|i: int, j: int| 0 <= i < j < u@.len() implies u@[i] < u@[j] by {
        if j < p {
        } else if j == p {
        } else if i < p {
            assert(u@[j] == before[j - 1]);
            assert(before[j - 1] > x) by {
                assert(before[p as int] > x);
                if j - 1 > p {
                    assert(before[p as int] < before[j - 1]);
                }
            }
        } else if i == p {
            assert(before[p as int] > x);
            if j - 1 > p {
                assert(before[p as int] < before[j - 1]);
            }
        } else {
            assert(before[i - 1] < before[j - 1]);
        }
    }
    assert forall|y: u32| #[trigger] u@.contains(y) implies (before.contains(y) || y == x) by {
        let k = choose|k: int| 0 <= k < u@.len() && u@[k] == y;
        if k < p {
            assert(before[k] == y);
        } else if k > p {
            assert(before[k - 1] == y);
        }
    }
    assert forall|y: u32| (before.contains(y) || y == x) implies #[trigger] u@.contains(y) by {
        if y == x {
            assert(u@[p as int] == x);
        } else {
            let k = choose|k: int| 0 <= k < before.len() && before[k] == y;
            if k < p {
                assert(u@[k] == y);
            } else {
                assert(u@[k + 1] == y);
            }
        }
    }
}

/// The nonzero ids of `ids`, each once, in increasing order.
pub fn sorted_nonzero_ids(ids: &[u32]) -> (u: Vec<u32>)
    ensures
        u@ == nonzero_ids_sorted(ids@),
{
    let mut u: Vec<u32> = Vec::new();
    let mut i: usize = 0;
    while i < ids.len()
        invariant
            i <= ids@.len(),
            nonzero_ids_in_order(u@, ids@.take(i as int)),
        decreases ids@.len() - i,
    {
        let x = ids[i];
        let ghost pre = ids@.take(i as int);
        let ghost post = ids@.take(i + 1);
        assert(post =~= pre.push(x));
        assert forall|y: u32| #[trigger] post.contains(y) <==> (pre.contains(y) || y == x) by {
            if post.contains(y) {
                let k = choose|k: int| 0 <= k < post.len() && post[k] == y;
                if k < pre.len() {
                    assert(pre[k] == y);
                }
            }
            if pre.contains(y) {
                let k = choose|k: int| 0 <= k < pre.len() && pre[k] == y;
                assert(post[k] == y);
            }
            if y == x {
                assert(post[i as int] == y);
            }
        }
        if x > 0 {
            insert_sorted(&mut u, x);
        }
        i += 1;
    }
    assert(ids@.take(ids@.len() as int) =~= ids@);
    proof {
        lemma_nonzero_ids_sorted_unique(u@, ids@);
    }
    u
}

/// Whether any decoded object carries a nonzero local id.
pub fn has_nonzero_local_id_evidence(local_ids: &[u32]) -> (r: bool)
    ensures
        r <==> exists|i: int| 0 <= i < local_ids@.len() && local_ids@[i] > 0,
{
    let mut i: usize = 0;
    while i < local_ids.len()
        invariant
            i <= local_ids@.len(),
            forall|k: int| 0 <= k < i ==> local_ids@[k] == 0,
        decreases local_ids@.len() - i,
    {
        if local_ids[i] > 0 {
            return true;
        }
        i += 1;
    }
    false
}

/// The first `limit` (at least one) of the increasing ids `u`, in decimal,
/// comma-separated, or `none`.
pub open spec fn id_preview_text(u: Seq<u32>, limit: usize) -> Seq<char> {
    let k: int = if limit == 0 {
        1
    } else {
        limit as int
    };
    let n: int = if k < u.len() {
        k
    } else {
        u.len() as int
    };
    none_or_join(u.take(n).map_values(|v: u32| dec(v as nat)), ","@)
}

/// The nonzero local ids of the decoded objects, each once and in increasing
/// order, at most `limit` of them (at least one), comma-separated; `none`
/// without any.
pub fn format_local_id_preview(local_ids: &[u32], limit: usize) -> (r: String)
    ensures
        r@ == id_preview_text(nonzero_ids_sorted(local_ids@), limit),
{
    let u = sorted_nonzero_ids(local_ids);
    let k: usize = if limit == 0 {
        1
    } else {
        limit
    };
    let n: usize = if k < u.len() {
        k
    } else {
        u.len()
    };
    let mut pieces: Vec<Vec<char>> = Vec::new();
    let mut i: usize = 0;
    while i < n
        invariant
            n <= u@.len(),
            i <= n,
            pieces@.len() == i,
            forall|j: int| 0 <= j < i ==> #[trigger] pieces@[j]@ == dec(u@[j] as nat),
        decreases n - i,
    {
        let mut piece: Vec<char> = Vec::new();
        push_dec(&mut piece, u[i] as u64);
        assert(piece@ =~= dec(u@[i as int] as nat));
        pieces.push(piece);
        i += 1;
    }
    assert(pieces@.map_values(|w: Vec<char>| w@) =~= u@.take(n as int).map_values(
        |v: u32| dec(v as nat),
    ));
    join_or_none(&pieces, ",")
}

/// What the decoder made of the first simulator's object feed.
#[derive(Debug, Clone, PartialEq, Eq, Default)]
pub struct ObjectFeedDecodeSummary {
    pub object_feed_update_messages: usize,
    pub object_feed_total_objects: usize,
    /// The local id of each decoded object, in decode order.
    pub object_local_ids: Vec<u32>,
}

pub open spec fn pass_fail(b: bool) -> Seq<char> {
    if b {
        "PASS"@
    } else {
        "FAIL"@
    }
}

/// Whether some local id is nonzero.
pub open spec fn any_nonzero(ids: Seq<u32>) -> bool {
    exists|i: int| 0 <= i < ids.len() && ids[i] > 0
}

/// The object gate line: it passes once an object update arrived and some
/// decoded object has a nonzero local id.
pub open spec fn object_gate_text(
    label: Seq<char>,
    timeline: StartupTimelineIndices,
    decoded: ObjectFeedDecodeSummary,
) -> Seq<char> {
    label + " lludp_object_gate: verdict="@ + pass_fail(
        timeline.first_object_update_index is Some && any_nonzero(decoded.object_local_ids@),
    ) + " object_update="@ + index_text(timeline.first_object_update_index)
        + " update_messages="@ + dec(decoded.object_feed_update_messages as nat)
        + " total_objects="@ + dec(decoded.object_feed_total_objects as nat) + " local_ids="@
        + id_preview_text(nonzero_ids_sorted(decoded.object_local_ids@), 8)
}

/// The start-up object gate as a diagnostics line (see [`object_gate_text`]).
pub fn format_lludp_startup_object_gate_line(
    label: &str,
    timeline: &StartupTimelineIndices,
    decoded: &ObjectFeedDecodeSummary,
) -> (r: String)
    ensures
        r@ == object_gate_text(label@, *timeline, *decoded),
{
    let has_object_update = timeline.first_object_update_index.is_some();
    let has_local_ids = has_nonzero_local_id_evidence(decoded.object_local_ids.as_slice());
    let mut out: Vec<char> = Vec::new();
    push_str(&mut out, label);
    push_str(&mut out, " lludp_object_gate: verdict=");
    push_str(
        &mut out,
        if has_object_update && has_local_ids {
            "PASS"
        } else {
            "FAIL"
        },
    );
    push_str(&mut out, " object_update=");
    let idx = format_optional_index(timeline.first_object_update_index);
    push_str(&mut out, idx.as_str());
    push_str(&mut out, " update_messages=");
    push_dec(&mut out, decoded.object_feed_update_messages as u64);
    push_str(&mut out, " total_objects=");
    push_dec(&mut out, decoded.object_feed_total_objects as u64);
    push_str(&mut out, " local_ids=");
    let preview = format_local_id_preview(decoded.object_local_ids.as_slice(), 8);
    push_str(&mut out, preview.as_str());
    string_of(out.as_slice())
}

/// A message the start-up interest gate requires, where it was sent.
#[derive(Debug, Clone, PartialEq, Eq)]
pub struct StartupInterestGateEntry {
    pub message: String,
    pub order_index: usize,
    pub packet_id: u32,
}

/// Whether the messages that start the interest list went out, which did,
/// and which are missing.
#[derive(Debug, Clone, PartialEq, Eq)]
pub struct StartupInterestGateSummary {
    pub passed: bool,
    pub required: Vec<StartupInterestGateEntry>,
    pub missing: Vec<String>,
}

/// A required message: `message@order#packet`.
pub open spec fn gate_entry_text(e: StartupInterestGateEntry) -> Seq<char> {
    e.message@ + seq!['@'] + dec(e.order_index as nat) + seq!['#'] + dec(e.packet_id as nat)
}

/// The interest gate line: its verdict, the required messages, the missing
/// ones (`none` for an empty list) and the classification.
pub open spec fn interest_gate_text(label: Seq<char>, gate: StartupInterestGateSummary) -> Seq<char> {
    label + " startup_interest_gate: verdict="@ + pass_fail(gate.passed) + " required="@
        + none_or_join(gate.required@.map_values(|e: StartupInterestGateEntry| gate_entry_text(e)), ","@)
        + " missing="@ + none_or_join(gate.missing@.map_values(|m: String| m@), ","@)
        + " classification="@ + if gate.passed {
        "ok"@
    } else {
        "startup_send_path_defect"@
    }
}

/// The start-up interest gate as a diagnostics line (see
/// [`interest_gate_text`]).
pub fn format_startup_interest_gate_line(label: &str, gate: &StartupInterestGateSummary) -> (r:
    String)
    ensures
        r@ == interest_gate_text(label@, *gate),
{
    let mut required: Vec<Vec<char>> = Vec::new();
    let mut i: usize = 0;
    while i < gate.required.len()
        invariant
            i <= gate.required@.len(),
            required@.len() == i,
            forall|j: int| 0 <= j < i ==> #[trigger] required@[j]@ == gate_entry_text(gate.required@[j]),
        decreases gate.required@.len() - i,
    {
        let e = &gate.required[i];
        let mut piece: Vec<char> = Vec::new();
        push_str(&mut piece, e.message.as_str());
        piece.push('@');
        push_dec(&mut piece, e.order_index as u64);
        piece.push('#');
        push_dec(&mut piece, e.packet_id as u64);
        assert(piece@ =~= gate_entry_text(gate.required@[i as int]));
        required.push(piece);
        i += 1;
    }
    assert(required@.map_values(|w: Vec<char>| w@) =~= gate.required@.map_values(
        |e: StartupInterestGateEntry| gate_entry_text(e),
    ));
    let mut missing: Vec<Vec<char>> = Vec::new();
    let mut i: usize = 0;
    while i < gate.missing.len()
        invariant
            i <= gate.missing@.len(),
            missing@.len() == i,
            forall|j: int| 0 <= j < i ==> #[trigger] missing@[j]@ == gate.missing@[j]@,
        decreases gate.missing@.len() - i,
    {
        let mut piece: Vec<char> = Vec::new();
        push_str(&mut piece, gate.missing[i].as_str());
        missing.push(piece);
        i += 1;
    }
    assert(missing@.map_values(|w: Vec<char>| w@) =~= gate.missing@.map_values(|m: String| m@));
    let required_text = join_or_none(&required, ",");
    let missing_text = join_or_none(&missing, ",");
    let mut out: Vec<char> = Vec::new();
    push_str(&mut out, label);
    push_str(&mut out, " startup_interest_gate: verdict=");
    push_str(
        &mut out,
        if gate.passed {
            "PASS"
        } else {
            "FAIL"
        },
    );
    push_str(&mut out, " required=");
    push_str(&mut out, required_text.as_str());
    push_str(&mut out, " missing=");
    push_str(&mut out, missing_text.as_str());
    push_str(&mut out, " classification=");
    push_str(
        &mut out,
        if gate.passed {
            "ok"
        } else {
            "startup_send_path_defect"
        },
    );
    string_of(out.as_slice())
}

/// How many times `n` occurs in `s`.
pub open spec fn occurrences(s: Seq<Seq<char>>, n: Seq<char>) -> nat
    decreases s.len(),
{
    if s.len() == 0 {
        0
    } else {
        occurrences(s.drop_last(), n) + if s.last() == n {
            1nat
        } else {
            0nat
        }
    }
}

/// Strictly increasing in code-point order.
pub open spec fn names_increasing(u: Seq<Seq<char>>) -> bool {
    forall|i: int, j: int| 0 <= i < j < u.len() ==> seq_lt(u[i], u[j])
}

/// `u` lists the names of `s`, each once, in code-point order.
pub open spec fn names_in_order(u: Seq<Seq<char>>, s: Seq<Seq<char>>) -> bool {
    &&& names_increasing(u)
    &&& forall|x: Seq<char>| #[trigger] u.contains(x) <==> s.contains(x)
}

/// The names of `s`, each once, in code-point order.
pub open spec fn names_sorted(s: Seq<Seq<char>>) -> Seq<Seq<char>> {
    choose|u: Seq<Seq<char>>| names_in_order(u, s)
}

/// Two increasing sequences of names with the same elements are the same.
pub proof fn lemma_names_same_elements(u1: Seq<Seq<char>>, u2: Seq<Seq<char>>)
    requires
        names_increasing(u1),
        names_increasing(u2),
        forall|x: Seq<char>| #[trigger] u1.contains(x) <==> u2.contains(x),
    ensures
        u1 == u2,
    decreases u1.len(),
{
    if u1.len() == 0 {
        if u2.len() > 0 {
            assert(u2.contains(u2[0]));
            assert(u1.contains(u2[0]));
            assert(false);
        }
        assert(u1 =~= u2);
    } else {
        assert(u1.contains(u1[0]));
        assert(u2.contains(u1[0]));
        assert(u2.contains(u2[0]));
        assert(u1.contains(u2[0]));
        let j1 = choose|j: int| 0 <= j < u1.len() && u1[j] == u2[0];
        let j2 = choose|j: int| 0 <= j < u2.len() && u2[j] == u1[0];
        if j1 != 0 && j2 != 0 {
            assert(seq_lt(u1[0], u2[0]));
            assert(seq_lt(u2[0], u1[0]));
            lemma_seq_lt_asym(u1[0], u2[0]);
        }
        assert(u1[0] == u2[0]);
        let t1 = u1.drop_first();
        let t2 = u2.drop_first();
        assert forall|x: Seq<char>| #[trigger] t1.contains(x) implies t2.contains(x) by {
            let k = choose|k: int| 0 <= k < t1.len() && t1[k] == x;
            assert(u1[k + 1] == x);
            assert(u1.contains(x));
            assert(u2.contains(x));
            let m = choose|m: int| 0 <= m < u2.len() && u2[m] == x;
            assert(seq_lt(u1[0], u1[k + 1]));
            if m == 0 {
                lemma_seq_lt_asym(x, x);
            }
            assert(t2[m - 1] == x);
        }
        assert forall|x: Seq<char>| #[trigger] t2.contains(x) implies t1.contains(x) by {
            let k = choose|k: int| 0 <= k < t2.len() && t2[k] == x;
            assert(u2[k + 1] == x);
            assert(u2.contains(x));
            assert(u1.contains(x));
            let m = choose|m: int| 0 <= m < u1.len() && u1[m] == x;
            assert(seq_lt(u2[0], u2[k + 1]));
            if m == 0 {
                lemma_seq_lt_asym(x, x);
            }
            assert(t1[m - 1] == x);
        }
        lemma_names_same_elements(t1, t2);
        assert(u1 =~= seq![u1[0]] + t1);
        assert(u2 =~= seq![u2[0]] + t2);
    }
}

pub open spec fn counts_keys(c: Seq<(Vec<char>, usize)>) -> Seq<Seq<char>> {
    c.map_values(|e: (Vec<char>, usize)| e.0@)
}

/// `c` holds each name of `s` once, in code-point order, with its count.
pub open spec fn counts_of(c: Seq<(Vec<char>, usize)>, s: Seq<Seq<char>>) -> bool {
    &&& names_in_order(counts_keys(c), s)
    &&& forall|k: int| 0 <= k < c.len() ==> #[trigger] c[k].1 == occurrences(s, c[k].0@)
}

proof fn lemma_occurrences_bound(s: Seq<Seq<char>>, n: Seq<char>)
    ensures
        occurrences(s, n) <= s.len(),
    decreases s.len(),
{
    if s.len() > 0 {
        lemma_occurrences_bound(s.drop_last(), n);
    }
}

/// Counts one more occurrence of `x` in the sorted counts.
fn count_name(c: &mut Vec<(Vec<char>, usize)>, x: Vec<char>, Ghost(s): Ghost<Seq<Seq<char>>>)
    requires
        counts_of(old(c)@, s),
        s.len() < usize::MAX,
    ensures
        counts_of(final(c)@, s.push(x@)),
{
    proof {
        lemma_occurrences_bound(s, x@);
    }
    let ghost t = s.push(x@);
    assert(t.drop_last() =~= s);
    assert forall|y: Seq<char>| #[trigger] t.contains(y) <==> (s.contains(y) || y == x@) by {
        if t.contains(y) {
            let k = choose|k: int| 0 <= k < t.len() && t[k] == y;
            if k < s.len() {
                assert(s[k] == y);
            }
        }
        if s.contains(y) {
            let k = choose|k: int| 0 <= k < s.len() && s[k] == y;
            assert(t[k] == y);
        }
        if y == x@ {
            assert(t[s.len() as int] == y);
        }
    }
    let mut p: usize = 0;
    while p < c.len() && chars_less(c[p].0.as_slice(), x.as_slice())
        invariant
            p <= c@.len(),
            c@ == old(c)@,
            forall|k: int| 0 <= k < p ==> seq_lt(#[trigger] c@[k].0@, x@),
        decreases c@.len() - p,
    {
        p += 1;
    }
    let ghost before = c@;
    let ghost keys = counts_keys(before);
    if p < c.len() && chars_eq(c[p].0.as_slice(), x.as_slice()) {
        let n = c[p].1;
        assert(keys[p as int] == x@);
        assert(s.contains(x@)) by {
            assert(keys.contains(x@));
        }
        proof {
            assert(n == occurrences(s, x@));
            assert(n < usize::MAX);
        }
        let key = c[p].0.clone();
        c.set(p, (key, n + 1));
        assert(counts_keys(c@) =~= keys);
        assert forall|k: int| 0 <= k < c@.len() implies #[trigger] c@[k].1 == occurrences(t, c@[k].0@) by {
            if k != p {
                assert(c@[k] == before[k]);
                assert(keys[k] != keys[p as int]);
            }
        }
        return;
    }
    proof {
        if p < c@.len() {
            if keys[p as int] != x@ {
                lemma_seq_lt_total(keys[p as int], x@);
            }
        }
    }
    assert(!s.contains(x@)) by {
        if s.contains(x@) {
            assert(keys.contains(x@));
            let k = choose|k: int| 0 <= k < keys.len() && keys[k] == x@;
            if k < p {
                assert(seq_lt(c@[k].0@, x@));
                lemma_seq_lt_asym(x@, x@);
            } else if k > p {
                assert(seq_lt(keys[p as int], keys[k]));
                lemma_seq_lt_asym(keys[p as int], x@);
            }
        }
    }
    assert(occurrences(s, x@) == 0) by {
        lemma_not_contained_zero(s, x@);
    }
    let ghost xv = x@;
    c.insert(p, (x, 1));
    let ghost nk = counts_keys(c@);
    assert(nk =~= keys.insert(p as int, x@));
    assert forall|i: int, j: int| 0 <= i < j < nk.len() implies seq_lt(nk[i], nk[j]) by {
        if j < p {
        } else if j == p {
            assert(seq_lt(before[i].0@, x@));
        } else if i == p {
            assert(seq_lt(x@, keys[p as int]));
            if j - 1 > p {
                assert(seq_lt(keys[p as int], keys[j - 1]));
                lemma_seq_lt_trans(x@, keys[p as int], keys[j - 1]);
            }
        } else if i < p {
            assert(seq_lt(before[i].0@, x@));
            assert(seq_lt(x@, keys[p as int]));
            if j - 1 > p {
                assert(seq_lt(keys[p as int], keys[j - 1]));
                lemma_seq_lt_trans(x@, keys[p as int], keys[j - 1]);
            }
            lemma_seq_lt_trans(keys[i], x@, keys[j - 1]);
        } else {
            assert(seq_lt(keys[i - 1], keys[j - 1]));
        }
    }
    assert forall|y: Seq<char>| #[trigger] nk.contains(y) <==> t.contains(y) by {
        if nk.contains(y) {
            let k = choose|k: int| 0 <= k < nk.len() && nk[k] == y;
            if k < p {
                assert(keys[k] == y);
                assert(keys.contains(y));
            } else if k > p {
                assert(keys[k - 1] == y);
                assert(keys.contains(y));
            }
        }
        if t.contains(y) {
            if y == x@ {
                assert(nk[p as int] == y);
            } else {
                assert(s.contains(y));
                assert(keys.contains(y));
                let k = choose|k: int| 0 <= k < keys.len() && keys[k] == y;
                if k < p {
                    assert(nk[k] == y);
                } else {
                    assert(nk[k + 1] == y);
                }
            }
        }
    }
    assert forall|k: int| 0 <= k < c@.len() implies #[trigger] c@[k].1 == occurrences(t, c@[k].0@) by {
        if k < p {
            assert(c@[k] == before[k]);
            assert(seq_lt(before[k].0@, xv));
            lemma_seq_lt_asym(xv, xv);
            assert(keys[k] != xv);
        } else if k > p {
            assert(c@[k] == before[k - 1]);
            assert(keys[k - 1] != x@);
        }
    }
}

proof fn lemma_not_contained_zero(s: Seq<Seq<char>>, n: Seq<char>)
    requires
        !s.contains(n),
    ensures
        occurrences(s, n) == 0,
    decreases s.len(),
{
    if s.len() > 0 {
        assert(!s.drop_last().contains(n)) by {
            if s.drop_last().contains(n) {
                let k = choose|k: int| 0 <= k < s.drop_last().len() && s.drop_last()[k] == n;
                assert(s[k] == n);
            }
        }
        assert(s[s.len() - 1] == s.last());
        lemma_not_contained_zero(s.drop_last(), n);
    }
}

/// A name with its count: `name:count`.
pub open spec fn name_count_text(s: Seq<Seq<char>>, n: Seq<char>) -> Seq<char> {
    n + seq![':'] + dec(occurrences(s, n))
}

/// The event names, each once in code-point order with how many events
/// carried it, the first `limit` of them comma-separated; `none` without
/// events.
pub open spec fn message_names_text(s: Seq<Seq<char>>, limit: usize) -> Seq<char> {
    if s.len() == 0 {
        "none"@
    } else {
        let u = names_sorted(s);
        let n: int = if limit < u.len() {
            limit as int
        } else {
            u.len() as int
        };
        crate::text::join(u.take(n).map_values(|m: Seq<char>| name_count_text(s, m)), ","@)
    }
}

/// Summarizes the message names of an event-queue poll (see
/// [`message_names_text`]).
pub fn summarize_event_queue_message_names(message_names: &[String], limit: usize) -> (r: String)
    ensures
        r@ == message_names_text(message_names@.map_values(|m: String| m@), limit),
{
    let ghost names = message_names@.map_values(|m: String| m@);
    if message_names.len() == 0 {
        return "none".to_owned();
    }
    let mut counts: Vec<(Vec<char>, usize)> = Vec::new();
    let mut i: usize = 0;
    assert(names.take(0) =~= Seq::<Seq<char>>::empty());
    assert(counts_keys(counts@) =~= Seq::<Seq<char>>::empty());
    while i < message_names.len()
        invariant
            i <= message_names@.len(),
            names == message_names@.map_values(|m: String| m@),
            counts_of(counts@, names.take(i as int)),
        decreases message_names@.len() - i,
    {
        let x = chars_of(message_names[i].as_str());
        assert(names.take(i + 1) =~= names.take(i as int).push(x@));
        count_name(&mut counts, x, Ghost(names.take(i as int)));
        i += 1;
    }
    assert(names.take(message_names@.len() as int) =~= names);
    proof {
        lemma_names_same_elements(names_sorted(names), counts_keys(counts@));
    }
    let n: usize = if limit < counts.len() {
        limit
    } else {
        counts.len()
    };
    let mut pieces: Vec<Vec<char>> = Vec::new();
    let mut j: usize = 0;
    while j < n
        invariant
            n <= counts@.len(),
            j <= n,
            counts_of(counts@, names),
            pieces@.len() == j,
            forall|k: int| 0 <= k < j ==> #[trigger] pieces@[k]@ == name_count_text(
                names,
                counts@[k].0@,
            ),
        decreases n - j,
    {
        let mut piece: Vec<char> = Vec::new();
        push_all(&mut piece, counts[j].0.as_slice());
        piece.push(':');
        push_dec(&mut piece, counts[j].1 as u64);
        assert(piece@ =~= name_count_text(names, counts@[j as int].0@));
        pieces.push(piece);
        j += 1;
    }
    let ghost u = counts_keys(counts@);
    assert(pieces@.map_values(|w: Vec<char>| w@) =~= u.take(n as int).map_values(
        |m: Seq<char>| name_count_text(names, m),
    ));
    let sep = chars_of(",");
    let joined = crate::text::join_chars_from(pieces.as_slice(), 0, sep.as_slice());
    assert(pieces@.map_values(|w: Vec<char>| w@).skip(0) =~= pieces@.map_values(|w: Vec<char>| w@));
    string_of(joined.as_slice())
}

/// The kinds of the messages received during the first-simulator handshake,
/// each once in code-point order with its count, comma-separated; `none`
/// when nothing was received.
pub fn summarize_receive_kinds(kind_names: &[String]) -> (r: String)
    ensures
        r@ == message_names_text(kind_names@.map_values(|m: String| m@), usize::MAX),
{
    summarize_event_queue_message_names(kind_names, usize::MAX)
}

/// A message kind with its count: `kind:count`.
pub open spec fn kind_count_text(e: (String, usize)) -> Seq<char> {
    e.0@ + seq![':'] + dec(e.1 as nat)
}

/// The message kinds with their counts, comma-separated, or `none`.
pub fn format_receive_kind_counts(entries: &[(String, usize)]) -> (r: String)
    ensures
        r@ == none_or_join(entries@.map_values(|e: (String, usize)| kind_count_text(e)), ","@),
{
    let mut pieces: Vec<Vec<char>> = Vec::new();
    let mut i: usize = 0;
    while i < entries.len()
        invariant
            i <= entries@.len(),
            pieces@.len() == i,
            forall|j: int| 0 <= j < i ==> #[trigger] pieces@[j]@ == kind_count_text(entries@[j]),
        decreases entries@.len() - i,
    {
        let mut piece: Vec<char> = Vec::new();
        push_str(&mut piece, entries[i].0.as_str());
        piece.push(':');
        push_dec(&mut piece, entries[i].1 as u64);
        assert(piece@ =~= kind_count_text(entries@[i as int]));
        pieces.push(piece);
        i += 1;
    }
    assert(pieces@.map_values(|w: Vec<char>| w@) =~= entries@.map_values(
        |e: (String, usize)| kind_count_text(e),
    ));
    join_or_none(&pieces, ",")
}

/// The object-feed message counts by family.
#[derive(Debug, Clone, Copy, PartialEq, Eq, Default)]
pub struct ObjectFeedFamilyCounts {
    pub object_update: usize,
    pub object_update_compressed: usize,
    pub object_extra_params: usize,
    pub improved_terse: usize,
}

/// `ObjectUpdate:n,ObjectUpdateCompressed:n,ObjectExtraParams:n,ImprovedTerseObjectUpdate:n`.
pub fn format_object_feed_message_family_counts(counts: &ObjectFeedFamilyCounts) -> (r: String)
    ensures
        r@ == "ObjectUpdate:"@ + dec(counts.object_update as nat) + ",ObjectUpdateCompressed:"@
            + dec(counts.object_update_compressed as nat) + ",ObjectExtraParams:"@ + dec(
            counts.object_extra_params as nat,
        ) + ",ImprovedTerseObjectUpdate:"@ + dec(counts.improved_terse as nat),
{
    let mut out: Vec<char> = Vec::new();
    push_str(&mut out, "ObjectUpdate:");
    push_dec(&mut out, counts.object_update as u64);
    push_str(&mut out, ",ObjectUpdateCompressed:");
    push_dec(&mut out, counts.object_update_compressed as u64);
    push_str(&mut out, ",ObjectExtraParams:");
    push_dec(&mut out, counts.object_extra_params as u64);
    push_str(&mut out, ",ImprovedTerseObjectUpdate:");
    push_dec(&mut out, counts.improved_terse as u64);
    string_of(out.as_slice())
}

/// `ObjectUpdate:n,ObjectUpdateCompressed:n,ObjectExtraParams:n` for the
/// mesh hits of each family (improved terse updates carry no mesh).
pub fn format_object_feed_mesh_hit_counts(hits: &ObjectFeedFamilyCounts) -> (r: String)
    ensures
        r@ == "ObjectUpdate:"@ + dec(hits.object_update as nat) + ",ObjectUpdateCompressed:"@
            + dec(hits.object_update_compressed as nat) + ",ObjectExtraParams:"@ + dec(
            hits.object_extra_params as nat,
        ),
{
    let mut out: Vec<char> = Vec::new();
    push_str(&mut out, "ObjectUpdate:");
    push_dec(&mut out, hits.object_update as u64);
    push_str(&mut out, ",ObjectUpdateCompressed:");
    push_dec(&mut out, hits.object_update_compressed as u64);
    push_str(&mut out, ",ObjectExtraParams:");
    push_dec(&mut out, hits.object_extra_params as u64);
    string_of(out.as_slice())
}

/// One event on the first simulator's socket.
#[derive(Debug, Clone, PartialEq, Eq)]
pub struct FirstSimulatorSocketDiagnostic {
    pub event_index: usize,
    /// The event's kind, by name.
    pub kind: String,
    pub local_addr: Option<String>,
    pub remote_target: Option<String>,
    pub packet_message_number: Option<u32>,
    pub payload_len: Option<usize>,
    pub reason: String,
}

pub open spec fn addr_text(a: Option<String>) -> Seq<char> {
    match a {
        Some(v) => v@,
        None => seq!['?'],
    }
}

pub open spec fn message_number_text(n: Option<u32>) -> Seq<char> {
    match n {
        Some(v) => "0x"@ + hex(v as nat),
        None => seq!['-'],
    }
}

pub open spec fn length_or_dash(l: Option<usize>) -> Seq<char> {
    match l {
        Some(v) => dec(v as nat),
        None => seq!['-'],
    }
}

/// `#index:kind@local->remote m=0x.. len=.. reason` (`?` for an unknown
/// address, `-` for an unknown message number or length).
pub open spec fn socket_diagnostic_text(d: FirstSimulatorSocketDiagnostic) -> Seq<char> {
    seq!['#'] + dec(d.event_index as nat) + seq![':'] + d.kind@ + seq!['@'] + addr_text(d.local_addr)
        + "->"@ + addr_text(d.remote_target) + " m="@ + message_number_text(d.packet_message_number)
        + " len="@ + length_or_dash(d.payload_len) + seq![' '] + d.reason@
}

fn push_addr(out: &mut Vec<char>, a: &Option<String>)
    ensures
        final(out)@ == old(out)@ + addr_text(*a),
{
    match a {
        Some(v) => push_str(out, v.as_str()),
        None => {
            out.push('?');
        },
    }
}

fn push_message_number(out: &mut Vec<char>, n: Option<u32>)
    ensures
        final(out)@ == old(out)@ + message_number_text(n),
{
    match n {
        Some(v) => {
            push_str(out, "0x");
            push_hex(out, v as u64);
            assert(final(out)@ =~= old(out)@ + message_number_text(n));
        },
        None => {
            out.push('-');
        },
    }
}

fn push_length(out: &mut Vec<char>, l: Option<usize>)
    ensures
        final(out)@ == old(out)@ + length_or_dash(l),
{
    match l {
        Some(v) => push_dec(out, v as u64),
        None => {
            out.push('-');
        },
    }
}

/// One socket event as a diagnostics line (see [`socket_diagnostic_text`]).
pub fn format_first_simulator_socket_diagnostic(d: &FirstSimulatorSocketDiagnostic) -> (r: String)
    ensures
        r@ == socket_diagnostic_text(*d),
{
    let mut out: Vec<char> = Vec::new();
    out.push('#');
    push_dec(&mut out, d.event_index as u64);
    out.push(':');
    push_str(&mut out, d.kind.as_str());
    out.push('@');
    push_addr(&mut out, &d.local_addr);
    push_str(&mut out, "->");
    push_addr(&mut out, &d.remote_target);
    push_str(&mut out, " m=");
    push_message_number(&mut out, d.packet_message_number);
    push_str(&mut out, " len=");
    push_length(&mut out, d.payload_len);
    out.push(' ');
    push_str(&mut out, d.reason.as_str());
    assert(out@ =~= socket_diagnostic_text(*d));
    string_of(out.as_slice())
}

/// The last `limit` socket events, separated by ` | `; `none` when there
/// are no events at all.
pub open spec fn socket_tail_text(ds: Seq<FirstSimulatorSocketDiagnostic>, limit: usize) -> Seq<char> {
    if ds.len() == 0 {
        "none"@
    } else {
        let start: int = if limit < ds.len() {
            ds.len() - limit
        } else {
            0
        };
        crate::text::join(
            ds.skip(start).map_values(|d: FirstSimulatorSocketDiagnostic| socket_diagnostic_text(d)),
            " | "@,
        )
    }
}

/// The tail of the first simulator's socket events (see [`socket_tail_text`]).
pub fn summarize_first_simulator_socket_tail(
    diagnostics: &[FirstSimulatorSocketDiagnostic],
    limit: usize,
) -> (r: String)
    ensures
        r@ == socket_tail_text(diagnostics@, limit),
{
    if diagnostics.len() == 0 {
        return "none".to_owned();
    }
    let start: usize = if limit < diagnostics.len() {
        diagnostics.len() - limit
    } else {
        0
    };
    let ghost tail = diagnostics@.skip(start as int);
    let mut pieces: Vec<Vec<char>> = Vec::new();
    let mut i: usize = start;
    while i < diagnostics.len()
        invariant
            start <= i <= diagnostics@.len(),
            tail == diagnostics@.skip(start as int),
            pieces@.len() == i - start,
            forall|j: int| 0 <= j < i - start ==> #[trigger] pieces@[j]@ == socket_diagnostic_text(
                tail[j],
            ),
        decreases diagnostics@.len() - i,
    {
        let line = format_first_simulator_socket_diagnostic(&diagnostics[i]);
        let c = chars_of(line.as_str());
        pieces.push(c);
        i += 1;
    }
    assert(pieces@.map_values(|w: Vec<char>| w@) =~= tail.map_values(
        |d: FirstSimulatorSocketDiagnostic| socket_diagnostic_text(d),
    ));
    let sep = chars_of(" | ");
    let joined = crate::text::join_chars_from(pieces.as_slice(), 0, sep.as_slice());
    assert(pieces@.map_values(|w: Vec<char>| w@).skip(0) =~= pieces@.map_values(|w: Vec<char>| w@));
    string_of(joined.as_slice())
}

/// What the first simulator's acks looked like: the acks still owed (and a
/// preview of their ids), the acks appended to sends (and the last ones),
/// the explicit PacketAck messages received and the index of the first.
#[derive(Debug, Clone, PartialEq, Eq, Default)]
pub struct AckForensics {
    pub pending_ack_count: usize,
    pub pending_ack_ids_preview: Vec<u32>,
    pub outbound_appended_ack_sends: usize,
    pub outbound_appended_ack_ids_last: Vec<u32>,
    pub explicit_packet_ack_receives: usize,
    pub first_packet_ack_receive_index: Option<usize>,
}

/// What the first simulator sent: how many receives were observed, the
/// message numbers of raw and of unclassified packets with their counts, and
/// the typed message kinds with theirs.
#[derive(Debug, Clone, PartialEq, Eq, Default)]
pub struct ReceiveForensics {
    pub receive_observations: usize,
    pub raw_packet_message_numbers: Vec<(u32, usize)>,
    pub unclassified_packet_message_numbers: Vec<(u32, usize)>,
    pub typed_kind_counts: Vec<(String, usize)>,
}

/// The start-up transcript's sent and received events.
#[derive(Debug, Clone, PartialEq, Eq, Default)]
pub struct StartupTranscript {
    pub send_events: Vec<String>,
    pub receive_events: Vec<String>,
}

pub open spec fn hex_list_text(v: Seq<u32>) -> Seq<char> {
    none_or_join(v.map_values(|x: u32| hex8(x)), ","@)
}

pub open spec fn number_counts_text(v: Seq<(u32, usize)>) -> Seq<char> {
    none_or_join(v.map_values(|e: (u32, usize)| message_count_text(e)), ","@)
}

pub open spec fn side_text(v: Seq<String>) -> Seq<char> {
    none_or_join(v.map_values(|s: String| s@), " | "@)
}

/// The four forensics lines, each starting with `label`: acks, receives,
/// the start-up timeline, and the transcript.
pub open spec fn forensics_lines(
    label: Seq<char>,
    ack: AckForensics,
    receive: ReceiveForensics,
    timeline: StartupTimelineIndices,
    transcript: StartupTranscript,
) -> Seq<Seq<char>> {
    seq![
        label + " ack: pending="@ + dec(ack.pending_ack_count as nat) + " preview="@
            + hex_list_text(ack.pending_ack_ids_preview@) + " appended_sends="@ + dec(
            ack.outbound_appended_ack_sends as nat,
        ) + " last_appended="@ + hex_list_text(ack.outbound_appended_ack_ids_last@)
            + " explicit_packet_ack="@ + dec(ack.explicit_packet_ack_receives as nat)
            + " first_packet_ack_idx="@ + index_text(ack.first_packet_ack_receive_index),
        label + " recv: obs="@ + dec(receive.receive_observations as nat) + " raw="@
            + number_counts_text(receive.raw_packet_message_numbers@) + " unclassified="@
            + number_counts_text(receive.unclassified_packet_message_numbers@) + " typed="@
            + none_or_join(
            receive.typed_kind_counts@.map_values(|e: (String, usize)| kind_count_text(e)),
            ","@,
        ),
        label + " timeline: region_handshake="@ + index_text(timeline.first_region_handshake_index)
            + " region_handshake_reply="@ + index_text(timeline.first_region_handshake_reply_index)
            + " amc="@ + index_text(timeline.first_agent_movement_complete_index)
            + " packet_ack="@ + index_text(timeline.first_packet_ack_index)
            + " camera_constraint="@ + index_text(timeline.first_camera_constraint_index)
            + " generic_message="@ + index_text(timeline.first_generic_message_index)
            + " object_update="@ + index_text(timeline.first_object_update_index),
        label + " transcript: sends="@ + side_text(transcript.send_events@) + " receives="@
            + side_text(transcript.receive_events@),
    ]
}

fn push_index(out: &mut Vec<char>, index: Option<usize>)
    ensures
        final(out)@ == old(out)@ + index_text(index),
{
    let t = format_optional_index(index);
    push_str(out, t.as_str());
}

/// The first simulator's forensics as the four lines the relay reports
/// (see [`forensics_lines`]).
pub fn first_simulator_forensics_summary(
    label: &str,
    ack: &AckForensics,
    receive: &ReceiveForensics,
    timeline: &StartupTimelineIndices,
    transcript: &StartupTranscript,
) -> (r: Vec<String>)
    ensures
        r@.map_values(|s: String| s@) == forensics_lines(label@, *ack, *receive, *timeline, *transcript),
{
    let mut a: Vec<char> = Vec::new();
    push_str(&mut a, label);
    push_str(&mut a, " ack: pending=");
    push_dec(&mut a, ack.pending_ack_count as u64);
    push_str(&mut a, " preview=");
    let t = format_u32_list_hex(ack.pending_ack_ids_preview.as_slice());
    push_str(&mut a, t.as_str());
    push_str(&mut a, " appended_sends=");
    push_dec(&mut a, ack.outbound_appended_ack_sends as u64);
    push_str(&mut a, " last_appended=");
    let t = format_u32_list_hex(ack.outbound_appended_ack_ids_last.as_slice());
    push_str(&mut a, t.as_str());
    push_str(&mut a, " explicit_packet_ack=");
    push_dec(&mut a, ack.explicit_packet_ack_receives as u64);
    push_str(&mut a, " first_packet_ack_idx=");
    push_index(&mut a, ack.first_packet_ack_receive_index);

    let mut b: Vec<char> = Vec::new();
    push_str(&mut b, label);
    push_str(&mut b, " recv: obs=");
    push_dec(&mut b, receive.receive_observations as u64);
    push_str(&mut b, " raw=");
    let t = format_message_number_counts(receive.raw_packet_message_numbers.as_slice());
    push_str(&mut b, t.as_str());
    push_str(&mut b, " unclassified=");
    let t = format_message_number_counts(receive.unclassified_packet_message_numbers.as_slice());
    push_str(&mut b, t.as_str());
    push_str(&mut b, " typed=");
    let t = format_receive_kind_counts(receive.typed_kind_counts.as_slice());
    push_str(&mut b, t.as_str());

    let mut c: Vec<char> = Vec::new();
    push_str(&mut c, label);
    push_str(&mut c, " timeline: region_handshake=");
    push_index(&mut c, timeline.first_region_handshake_index);
    push_str(&mut c, " region_handshake_reply=");
    push_index(&mut c, timeline.first_region_handshake_reply_index);
    push_str(&mut c, " amc=");
    push_index(&mut c, timeline.first_agent_movement_complete_index);
    push_str(&mut c, " packet_ack=");
    push_index(&mut c, timeline.first_packet_ack_index);
    push_str(&mut c, " camera_constraint=");
    push_index(&mut c, timeline.first_camera_constraint_index);
    push_str(&mut c, " generic_message=");
    push_index(&mut c, timeline.first_generic_message_index);
    push_str(&mut c, " object_update=");
    push_index(&mut c, timeline.first_object_update_index);

    let mut d: Vec<char> = Vec::new();
    push_str(&mut d, label);
    push_str(&mut d, " transcript: sends=");
    let t = format_transcript_side(transcript.send_events.as_slice());
    push_str(&mut d, t.as_str());
    push_str(&mut d, " receives=");
    let t = format_transcript_side(transcript.receive_events.as_slice());
    push_str(&mut d, t.as_str());

    let mut r: Vec<String> = Vec::new();
    r.push(string_of(a.as_slice()));
    r.push(string_of(b.as_slice()));
    r.push(string_of(c.as_slice()));
    r.push(string_of(d.as_slice()));
    assert(r@.map_values(|s: String| s@) =~= forensics_lines(
        label@,
        *ack,
        *receive,
        *timeline,
        *transcript,
    ));
    r
}

} // verus!
