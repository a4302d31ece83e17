//! Counts over the objects the live session decoded from the object feed,
//! for the diagnostics panel: how many carry a mesh, how many have a default
//! face material or per-face overrides, and how many are parented.
use vstd::prelude::*;

verus! {

/// What the diagnostics read of one decoded object.
#[derive(Debug, Clone, PartialEq, Eq)]
pub struct ObjectFeedEntry {
    pub local_id: u32,
    pub mesh_id: Option<String>,
    pub parent_local_id: Option<u32>,
    pub has_default_face_material: bool,
    pub face_material_override_count: usize,
}

/// How many of `objs` satisfy `p`.
pub open spec fn count_where(objs: Seq<ObjectFeedEntry>, p: spec_fn(ObjectFeedEntry) -> bool) -> nat
    decreases objs.len(),
{
    if objs.len() == 0 {
        0
    } else {
        count_where(objs.drop_last(), p) + if p(objs.last()) {
            1nat
        } else {
            0nat
        }
    }
}

/// The face overrides of all of `objs`.
pub open spec fn override_total(objs: Seq<ObjectFeedEntry>) -> nat
    decreases objs.len(),
{
    if objs.len() == 0 {
        0
    } else {
        override_total(objs.drop_last()) + (objs.last().face_material_override_count as nat)
    }
}

pub open spec fn has_mesh(o: ObjectFeedEntry) -> bool {
    o.mesh_id is Some
}

pub open spec fn has_default_material(o: ObjectFeedEntry) -> bool {
    o.has_default_face_material
}

pub open spec fn has_overrides(o: ObjectFeedEntry) -> bool {
    o.face_material_override_count > 0
}

pub open spec fn is_parented(o: ObjectFeedEntry) -> bool {
    o.parent_local_id is Some
}

proof fn lemma_count_where_bounded(objs: Seq<ObjectFeedEntry>, p: spec_fn(ObjectFeedEntry) -> bool)
    ensures
        count_where(objs, p) <= objs.len(),
    decreases objs.len(),
{
    if objs.len() > 0 {
        lemma_count_where_bounded(objs.drop_last(), p);
    }
}

/// How many exported objects carry a mesh.
pub fn count_exported_object_feed_mesh_objects(objects: &[ObjectFeedEntry]) -> (r: usize)
    ensures
        r == count_where(objects@, |o: ObjectFeedEntry| has_mesh(o)),
{
    let ghost p = |o: ObjectFeedEntry| has_mesh(o);
    let mut n: usize = 0;
    let mut i: usize = 0;
    while i < objects.len()
        invariant
            i <= objects@.len(),
            p == (|o: ObjectFeedEntry| has_mesh(o)),
            n == count_where(objects@.take(i as int), p),
        decreases objects@.len() - i,
    {
        proof {
            assert(objects@.take(i + 1).drop_last() =~= objects@.take(i as int));
            lemma_count_where_bounded(objects@.take(i as int), p);
        }
        if objects[i].mesh_id.is_some() {
            n += 1;
        }
        i += 1;
    }
    assert(objects@.take(objects@.len() as int) =~= objects@);
    n
}

/// The objects with a default face material, the objects with per-face
/// overrides, and the overridden faces in all.
pub fn summarize_decoded_object_feed_face_materials(objects: &[ObjectFeedEntry]) -> (r: (
    usize,
    usize,
    usize,
))
    requires
        override_total(objects@) <= usize::MAX,
    ensures
        r.0 == count_where(objects@, |o: ObjectFeedEntry| has_default_material(o)),
        r.1 == count_where(objects@, |o: ObjectFeedEntry| has_overrides(o)),
        r.2 == override_total(objects@),
{
    let ghost pd = |o: ObjectFeedEntry| has_default_material(o);
    let ghost po = |o: ObjectFeedEntry| has_overrides(o);
    let mut with_default: usize = 0;
    let mut with_overrides: usize = 0;
    let mut faces: usize = 0;
    let mut i: usize = 0;
    while i < objects.len()
        invariant
            i <= objects@.len(),
            pd == (|o: ObjectFeedEntry| has_default_material(o)),
            po == (|o: ObjectFeedEntry| has_overrides(o)),
            override_total(objects@) <= usize::MAX,
            with_default == count_where(objects@.take(i as int), pd),
            with_overrides == count_where(objects@.take(i as int), po),
            faces == override_total(objects@.take(i as int)),
        decreases objects@.len() - i,
    {
        proof {
            assert(objects@.take(i + 1).drop_last() =~= objects@.take(i as int));
            lemma_count_where_bounded(objects@.take(i as int), pd);
            lemma_count_where_bounded(objects@.take(i as int), po);
            lemma_override_total_prefix(objects@, i as int + 1);
        }
        if objects[i].has_default_face_material {
            with_default += 1;
        }
        if objects[i].face_material_override_count > 0 {
            with_overrides += 1;
            faces += objects[i].face_material_override_count;
        }
        i += 1;
    }
    assert(objects@.take(objects@.len() as int) =~= objects@);
    (with_default, with_overrides, faces)
}

proof fn lemma_override_total_prefix(objs: Seq<ObjectFeedEntry>, n: int)
    requires
        0 <= n <= objs.len(),
    ensures
        override_total(objs.take(n)) <= override_total(objs),
    decreases objs.len(),
{
    if n < objs.len() {
        assert(objs.drop_last().take(n) =~= objs.take(n));
        lemma_override_total_prefix(objs.drop_last(), n);
    } else {
        assert(objs.take(n) =~= objs);
    }
}

/// The root objects and the parented ones.
pub fn summarize_decoded_object_feed_parenting(objects: &[ObjectFeedEntry]) -> (r: (usize, usize))
    ensures
        r.1 == count_where(objects@, |o: ObjectFeedEntry| is_parented(o)),
        r.0 == objects@.len() - r.1,
{
    let ghost p = |o: ObjectFeedEntry| is_parented(o);
    let mut parented: usize = 0;
    let mut i: usize = 0;
    while i < objects.len()
        invariant
            i <= objects@.len(),
            p == (|o: ObjectFeedEntry| is_parented(o)),
            parented == count_where(objects@.take(i as int), p),
        decreases objects@.len() - i,
    {
        proof {
            assert(objects@.take(i + 1).drop_last() =~= objects@.take(i as int));
            lemma_count_where_bounded(objects@.take(i as int), p);
        }
        if objects[i].parent_local_id.is_some() {
            parented += 1;
        }
        i += 1;
    }
    assert(objects@.take(objects@.len() as int) =~= objects@);
    proof {
        lemma_count_where_bounded(objects@, p);
    }
    (objects.len() - parented, parented)
}

} // verus!
