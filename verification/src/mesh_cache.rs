//! The geometry cache for mesh assets: one entry per asset and LOD, which
//! keeps the mesh to draw, whether it is drawable, and what the last decode
//! attempt left (the hash of bytes that failed, the detected format, the
//! failure's text). A lookup either answers at once or asks the caller to
//! decode; the caller hands the decode's outcome back. Sculpted prims are
//! kept by sculpt map and type, each generated once.
use std::collections::hash_map::DefaultHasher;
use std::hash::Hasher;
use std::sync::Arc;
use vstd::prelude::*;
use vstd::std_specs::hash::DefaultHasherAdditionalSpecFns;
use crate::fetch::AssetFetchFailureReason;
use crate::sculpt::SculptType;
use crate::sl_mesh::{detect_mesh_source_format, mesh_format, MeshSourceFormat};
use crate::texture_cache::share_arc;

verus! {

/// How a mesh lookup was answered.
#[derive(Debug, Clone, Copy, PartialEq, Eq, Structural)]
pub enum MeshCacheLookupState {
    EmptyData,
    CachedReady,
    Decoded,
    DecodeFailed,
}

/// The answer to a mesh lookup: the mesh to draw now and how it came about.
#[derive(Debug)]
pub struct MeshCacheLookup<M> {
    pub mesh: Arc<M>,
    pub state: MeshCacheLookupState,
    pub format: MeshSourceFormat,
    pub failure: Option<AssetFetchFailureReason>,
    pub detail: Option<String>,
}

/// A lookup's first step: answered, or the bytes (with this hash and
/// detected format) need decoding.
#[derive(Debug)]
pub enum MeshLookupStep<M> {
    Finished(MeshCacheLookup<M>),
    Decode { hash: u64, format: MeshSourceFormat },
}

struct MeshCacheEntry<M> {
    uuid: String,
    lod: u32,
    mesh: Arc<M>,
    ready: bool,
    attempted_hash: Option<u64>,
    format: Option<MeshSourceFormat>,
    failure_detail: Option<String>,
}

/// A cache entry as the contracts see it.
pub struct MeshEntryView<M> {
    pub uuid: Seq<char>,
    pub lod: u32,
    pub mesh: M,
    pub ready: bool,
    pub attempted_hash: Option<u64>,
    pub format: Option<MeshSourceFormat>,
    pub failure_detail: Option<Seq<char>>,
}

/// A lookup's answer as the contracts see it.
pub struct LookupView<M> {
    pub mesh: M,
    pub state: MeshCacheLookupState,
    pub format: MeshSourceFormat,
    pub failure: Option<AssetFetchFailureReason>,
    pub detail: Option<Seq<char>>,
}

/// A lookup step as the contracts see it.
pub enum StepView<M> {
    Finished(LookupView<M>),
    Decode { hash: u64, format: MeshSourceFormat },
}

pub open spec fn opt_text(s: Option<String>) -> Option<Seq<char>> {
    match s {
        Some(t) => Some(t@),
        None => None,
    }
}

spec fn entry_view<M>(e: MeshCacheEntry<M>) -> MeshEntryView<M> {
    MeshEntryView {
        uuid: e.uuid@,
        lod: e.lod,
        mesh: *e.mesh,
        ready: e.ready,
        attempted_hash: e.attempted_hash,
        format: e.format,
        failure_detail: opt_text(e.failure_detail),
    }
}

pub open spec fn lookup_view<M>(l: MeshCacheLookup<M>) -> LookupView<M> {
    LookupView {
        mesh: *l.mesh,
        state: l.state,
        format: l.format,
        failure: l.failure,
        detail: opt_text(l.detail),
    }
}

pub open spec fn step_view<M>(s: MeshLookupStep<M>) -> StepView<M> {
    match s {
        MeshLookupStep::Finished(l) => StepView::Finished(lookup_view(l)),
        MeshLookupStep::Decode { hash, format } => StepView::Decode { hash, format },
    }
}

/// Whether an entry for the asset and LOD is kept.
pub open spec fn has_key<M>(es: Seq<MeshEntryView<M>>, uuid: Seq<char>, lod: u32) -> bool {
    exists|i: int| 0 <= i < es.len() && #[trigger] es[i].uuid == uuid && es[i].lod == lod
}

/// Where the entry for the asset and LOD is kept.
pub open spec fn key_at<M>(es: Seq<MeshEntryView<M>>, uuid: Seq<char>, lod: u32) -> int {
    choose|i: int| 0 <= i < es.len() && #[trigger] es[i].uuid == uuid && es[i].lod == lod
}

/// Each asset and LOD has at most one entry.
pub open spec fn keys_distinct<M>(es: Seq<MeshEntryView<M>>) -> bool {
    forall|i: int, j: int|
        0 <= i < j < es.len() ==> !(#[trigger] es[i].uuid == #[trigger] es[j].uuid && es[i].lod
            == es[j].lod)
}

pub open spec fn failure_for(f: MeshSourceFormat) -> AssetFetchFailureReason {
    if f == MeshSourceFormat::Unknown {
        AssetFetchFailureReason::Unsupported
    } else {
        AssetFetchFailureReason::Decode
    }
}

pub open spec fn format_or(f: Option<MeshSourceFormat>, d: MeshSourceFormat) -> MeshSourceFormat {
    match f {
        Some(x) => x,
        None => d,
    }
}

/// The entries with one for the asset and LOD, holding `placeholder` (not
/// drawable) if there was none.
pub open spec fn with_entry<M>(es: Seq<MeshEntryView<M>>, uuid: Seq<char>, lod: u32, placeholder: M) -> Seq<
    MeshEntryView<M>,
> {
    if has_key(es, uuid, lod) {
        es
    } else {
        es.push(
            MeshEntryView {
                uuid,
                lod,
                mesh: placeholder,
                ready: false,
                attempted_hash: None,
                format: None,
                failure_detail: None,
            },
        )
    }
}

/// A lookup: a drawable cached mesh is served; empty bytes are remembered as
/// attempted (hash 0) and answered with the cached mesh; bytes whose hash
/// already failed are answered with the recorded failure; other bytes need
/// decoding.
pub open spec fn lookup_spec<M>(
    es: Seq<MeshEntryView<M>>,
    uuid: Seq<char>,
    lod: u32,
    data_empty: bool,
    hash: u64,
    detected: MeshSourceFormat,
    placeholder: M,
) -> (Seq<MeshEntryView<M>>, StepView<M>) {
    let es1 = with_entry(es, uuid, lod, placeholder);
    let i = key_at(es1, uuid, lod);
    let e = es1[i];
    if e.ready {
        (
            es1,
            StepView::Finished(
                LookupView {
                    mesh: e.mesh,
                    state: MeshCacheLookupState::CachedReady,
                    format: format_or(e.format, MeshSourceFormat::Unknown),
                    failure: None,
                    detail: None,
                },
            ),
        )
    } else if data_empty {
        (
            es1.update(
                i,
                MeshEntryView {
                    uuid: e.uuid,
                    lod: e.lod,
                    mesh: e.mesh,
                    ready: e.ready,
                    attempted_hash: Some(0),
                    format: e.format,
                    failure_detail: e.failure_detail,
                },
            ),
            StepView::Finished(
                LookupView {
                    mesh: e.mesh,
                    state: MeshCacheLookupState::EmptyData,
                    format: MeshSourceFormat::Unknown,
                    failure: None,
                    detail: None,
                },
            ),
        )
    } else if e.attempted_hash == Some(hash) {
        (
            es1,
            StepView::Finished(
                LookupView {
                    mesh: e.mesh,
                    state: MeshCacheLookupState::DecodeFailed,
                    format: format_or(e.format, detected),
                    failure: Some(failure_for(detected)),
                    detail: e.failure_detail,
                },
            ),
        )
    } else {
        (es1, StepView::Decode { hash, format: detected })
    }
}

/// A decode's outcome recorded for the asset and LOD: a decoded mesh
/// replaces the cached one and clears the failure record; a failure keeps
/// the cached mesh and records the bytes' hash, format and reason.
pub open spec fn finish_spec<M>(
    es: Seq<MeshEntryView<M>>,
    uuid: Seq<char>,
    lod: u32,
    hash: u64,
    detected: MeshSourceFormat,
    outcome: Result<(M, bool), Seq<char>>,
) -> (Seq<MeshEntryView<M>>, LookupView<M>) {
    let i = key_at(es, uuid, lod);
    let e = es[i];
    match outcome {
        Ok((m, ready)) => (
            es.update(
                i,
                MeshEntryView {
                    uuid: e.uuid,
                    lod: e.lod,
                    mesh: m,
                    ready,
                    attempted_hash: None,
                    format: Some(detected),
                    failure_detail: None,
                },
            ),
            LookupView {
                mesh: m,
                state: MeshCacheLookupState::Decoded,
                format: detected,
                failure: None,
                detail: None,
            },
        ),
        Err(msg) => (
            es.update(
                i,
                MeshEntryView {
                    uuid: e.uuid,
                    lod: e.lod,
                    mesh: e.mesh,
                    ready: e.ready,
                    attempted_hash: Some(hash),
                    format: Some(detected),
                    failure_detail: Some(msg),
                },
            ),
            LookupView {
                mesh: e.mesh,
                state: MeshCacheLookupState::DecodeFailed,
                format: detected,
                failure: Some(failure_for(detected)),
                detail: Some(msg),
            },
        ),
    }
}

/// A lookup of the bytes `data` whose hash is `hash`.
pub open spec fn lookup_data_spec<M>(
    es: Seq<MeshEntryView<M>>,
    uuid: Seq<char>,
    lod: u32,
    data: Seq<u8>,
    hash: u64,
    placeholder: M,
) -> (Seq<MeshEntryView<M>>, StepView<M>) {
    lookup_spec(es, uuid, lod, data.len() == 0, hash, mesh_format(data), placeholder)
}

pub open spec fn outcome_view<M>(o: Result<(M, bool), String>) -> Result<(M, bool), Seq<char>> {
    match o {
        Ok(x) => Ok(x),
        Err(s) => Err(s@),
    }
}

/// The hash the cache keeps of mesh bytes: `std`'s `DefaultHasher` after
/// one write of the bytes.
pub open spec fn bytes_hash(data: Seq<u8>) -> u64 {
    DefaultHasher::spec_finish(seq![data])
}

/// The hash a lookup records for `data`: 0 for no bytes (never decoded),
/// else [`bytes_hash`].
pub open spec fn data_hash(data: Seq<u8>) -> u64 {
    if data.len() == 0 {
        0
    } else {
        bytes_hash(data)
    }
}

/// The hash of `data`: a fresh `DefaultHasher` given the bytes in one write.
fn hash_bytes(data: &[u8]) -> (r: u64)
    ensures
        r == bytes_hash(data@),
{
    let mut hasher = DefaultHasher::new();
    hasher.write(data);
    assert(hasher@ =~= seq![data@]);
    hasher.finish()
}

struct SculptEntry<M> {
    uuid: String,
    sculpt_type: SculptType,
    mesh: Arc<M>,
}

/// The geometry cache: mesh assets keyed by asset and LOD, and sculpted
/// prims keyed by sculpt map and sculpt type.
pub struct GeometryCache<M> {
    meshes: Vec<MeshCacheEntry<M>>,
    sculpts: Vec<SculptEntry<M>>,
}

impl<M> View for GeometryCache<M> {
    type V = Seq<MeshEntryView<M>>;

    closed spec fn view(&self) -> Seq<MeshEntryView<M>> {
        self.meshes@.map_values(|e: MeshCacheEntry<M>| entry_view(e))
    }
}

proof fn lemma_key_at<M>(es: Seq<MeshEntryView<M>>, uuid: Seq<char>, lod: u32, i: int)
    requires
        keys_distinct(es),
        0 <= i < es.len(),
        es[i].uuid == uuid,
        es[i].lod == lod,
    ensures
        has_key(es, uuid, lod),
        key_at(es, uuid, lod) == i,
{
    let j = key_at(es, uuid, lod);
    assert(has_key(es, uuid, lod));
    if j < i {
        assert(!(es[j].uuid == es[i].uuid && es[j].lod == es[i].lod));
    } else if i < j {
        assert(!(es[i].uuid == es[j].uuid && es[i].lod == es[j].lod));
    }
}

proof fn lemma_with_entry<M>(es: Seq<MeshEntryView<M>>, uuid: Seq<char>, lod: u32, placeholder: M)
    requires
        keys_distinct(es),
    ensures
        keys_distinct(with_entry(es, uuid, lod, placeholder)),
        has_key(with_entry(es, uuid, lod, placeholder), uuid, lod),
        0 <= key_at(with_entry(es, uuid, lod, placeholder), uuid, lod) < with_entry(
            es,
            uuid,
            lod,
            placeholder,
        ).len(),
        with_entry(es, uuid, lod, placeholder)[key_at(
            with_entry(es, uuid, lod, placeholder),
            uuid,
            lod,
        )].uuid == uuid,
        with_entry(es, uuid, lod, placeholder)[key_at(
            with_entry(es, uuid, lod, placeholder),
            uuid,
            lod,
        )].lod == lod,
{
    let es1 = with_entry(es, uuid, lod, placeholder);
    if has_key(es, uuid, lod) {
        let i = key_at(es, uuid, lod);
        lemma_key_at(es, uuid, lod, i);
    } else {
        assert forall|i: int, j: int| 0 <= i < j < es1.len() implies !(#[trigger] es1[i].uuid
            == #[trigger] es1[j].uuid && es1[i].lod == es1[j].lod) by {
            if j == es.len() {
                if es1[i].uuid == uuid && es1[i].lod == lod {
                    assert(es[i].uuid == uuid);
                }
            }
        }
        lemma_key_at(es1, uuid, lod, es.len() as int);
    }
}

proof fn lemma_update_keeps_keys<M>(es: Seq<MeshEntryView<M>>, i: int, e: MeshEntryView<M>)
    requires
        keys_distinct(es),
        0 <= i < es.len(),
        e.uuid == es[i].uuid,
        e.lod == es[i].lod,
    ensures
        keys_distinct(es.update(i, e)),
{
    let es2 = es.update(i, e);
    assert forall|a: int, b: int| 0 <= a < b < es2.len() implies !(#[trigger] es2[a].uuid
        == #[trigger] es2[b].uuid && es2[a].lod == es2[b].lod) by {
        assert(es2[a].uuid == es[a].uuid && es2[a].lod == es[a].lod);
        assert(es2[b].uuid == es[b].uuid && es2[b].lod == es[b].lod);
    }
}

impl<M> GeometryCache<M> {
    /// The cache's invariant: one entry per asset and LOD.
    pub closed spec fn wf(&self) -> bool {
        keys_distinct(self@)
    }

    /// A well-formed cache keeps one entry per asset and LOD, which the
    /// laws on lookups below require.
    pub proof fn lemma_wf_keys_distinct(&self)
        requires
            self.wf(),
        ensures
            keys_distinct(self@),
    {
    }

    /// The sculpted prims kept, oldest first: sculpt map, sculpt type, mesh.
    pub closed spec fn sculpts(&self) -> Seq<(Seq<char>, SculptType, M)> {
        self.sculpts@.map_values(|e: SculptEntry<M>| (e.uuid@, e.sculpt_type, *e.mesh))
    }

    pub fn new() -> (r: Self)
        ensures
            r.wf(),
            r@ == Seq::<MeshEntryView<M>>::empty(),
            r.sculpts() == Seq::<(Seq<char>, SculptType, M)>::empty(),
    {
        let r = GeometryCache { meshes: Vec::new(), sculpts: Vec::new() };
        assert(r@ =~= Seq::<MeshEntryView<M>>::empty());
        assert(r.sculpts() =~= Seq::<(Seq<char>, SculptType, M)>::empty());
        r
    }

    /// The number of entries kept.
    pub fn len(&self) -> (n: usize)
        ensures
            n == self@.len(),
    {
        self.meshes.len()
    }

    fn find(&self, uuid: &String, lod: u32) -> (r: Option<usize>)
        requires
            self.wf(),
        ensures
            match r {
                Some(i) => i < self@.len() && self@[i as int].uuid == uuid@ && self@[i as int].lod
                    == lod && key_at(self@, uuid@, lod) == i,
                None => !has_key(self@, uuid@, lod),
            },
    {
        let mut i: usize = 0;
        while i < self.meshes.len()
            invariant
                i <= self.meshes@.len(),
                self@.len() == self.meshes@.len(),
                keys_distinct(self@),
                forall|j: int| 0 <= j < i ==> !(#[trigger] self@[j].uuid == uuid@ && self@[j].lod == lod),
            decreases self.meshes@.len() - i,
        {
            assert(self@[i as int] == entry_view(self.meshes@[i as int]));
            if self.meshes[i].lod == lod && self.meshes[i].uuid == *uuid {
                proof {
                    lemma_key_at(self@, uuid@, lod, i as int);
                }
                return Some(i);
            }
            i += 1;
        }
        None
    }

    /// The first step of a lookup, for bytes whose emptiness, hash and
    /// detected format are given (see [`lookup_spec`]).
    pub fn lookup_step(
        &mut self,
        uuid: &str,
        lod: u32,
        data_empty: bool,
        hash: u64,
        detected: MeshSourceFormat,
        placeholder: M,
    ) -> (r: MeshLookupStep<M>)
        requires
            old(self).wf(),
        ensures
            final(self).wf(),
            final(self).sculpts() == old(self).sculpts(),
            final(self)@ == lookup_spec(old(self)@, uuid@, lod, data_empty, hash, detected, placeholder).0,
            step_view(r) == lookup_spec(old(self)@, uuid@, lod, data_empty, hash, detected, placeholder).1,
    {
        let key = uuid.to_owned();
        let ghost es0 = self@;
        proof {
            lemma_with_entry(es0, uuid@, lod, placeholder);
        }
        let i = match self.find(&key, lod) {
            Some(i) => i,
            None => {
                self.meshes.push(
                    MeshCacheEntry {
                        uuid: key,
                        lod,
                        mesh: Arc::new(placeholder),
                        ready: false,
                        attempted_hash: None,
                        format: None,
                        failure_detail: None,
                    },
                );
                assert(self@ =~= with_entry(es0, uuid@, lod, placeholder));
                self.meshes.len() - 1
            },
        };
        let ghost es1 = with_entry(es0, uuid@, lod, placeholder);
        assert(self@ =~= es1);
        assert(i == key_at(es1, uuid@, lod));
        assert(self@[i as int] == entry_view(self.meshes@[i as int]));
        if self.meshes[i].ready {
            let mesh = share_arc(&self.meshes[i].mesh);
            let format = match self.meshes[i].format {
                Some(f) => f,
                None => MeshSourceFormat::Unknown,
            };
            return MeshLookupStep::Finished(
                MeshCacheLookup {
                    mesh,
                    state: MeshCacheLookupState::CachedReady,
                    format,
                    failure: None,
                    detail: None,
                },
            );
        }
        if data_empty {
            let mut e = self.meshes.remove(i);
            e.attempted_hash = Some(0);
            let mesh = share_arc(&e.mesh);
            self.meshes.insert(i, e);
            proof {
                let target = lookup_spec(es0, uuid@, lod, data_empty, hash, detected, placeholder).0;
                assert(self@ =~= target);
                lemma_update_keeps_keys(es1, i as int, target[i as int]);
            }
            return MeshLookupStep::Finished(
                MeshCacheLookup {
                    mesh,
                    state: MeshCacheLookupState::EmptyData,
                    format: MeshSourceFormat::Unknown,
                    failure: None,
                    detail: None,
                },
            );
        }
        if self.meshes[i].attempted_hash == Some(hash) {
            let mesh = share_arc(&self.meshes[i].mesh);
            let format = match self.meshes[i].format {
                Some(f) => f,
                None => detected,
            };
            let failure = if detected == MeshSourceFormat::Unknown {
                AssetFetchFailureReason::Unsupported
            } else {
                AssetFetchFailureReason::Decode
            };
            let detail = match &self.meshes[i].failure_detail {
                Some(d) => Some(d.clone()),
                None => None,
            };
            return MeshLookupStep::Finished(
                MeshCacheLookup {
                    mesh,
                    state: MeshCacheLookupState::DecodeFailed,
                    format,
                    failure: Some(failure),
                    detail,
                },
            );
        }
        MeshLookupStep::Decode { hash, format: detected }
    }

    /// The first step of a lookup for `data` (see [`lookup_spec`]), with the
    /// bytes' hash (see [`data_hash`]).
    pub fn begin_mesh_lookup(&mut self, uuid: &str, lod: u32, data: &[u8], placeholder: M) -> (r:
        MeshLookupStep<M>)
        requires
            old(self).wf(),
        ensures
            final(self).wf(),
            final(self).sculpts() == old(self).sculpts(),
            final(self)@ == lookup_data_spec(old(self)@, uuid@, lod, data@, data_hash(data@), placeholder).0,
            step_view(r) == lookup_data_spec(old(self)@, uuid@, lod, data@, data_hash(data@), placeholder).1,
    {
        if data.len() == 0 {
            assert(mesh_format(data@) == MeshSourceFormat::Unknown) by {
                assert(!starts_with_bytes_empty(data@));
            }
            let r = self.lookup_step(uuid, lod, true, 0, MeshSourceFormat::Unknown, placeholder);
            assert(final(self)@ == lookup_data_spec(old(self)@, uuid@, lod, data@, 0, placeholder).0);
            r
        } else {
            let h = hash_bytes(data);
            let f = detect_mesh_source_format(data);
            let r = self.lookup_step(uuid, lod, false, h, f, placeholder);
            assert(final(self)@ == lookup_data_spec(old(self)@, uuid@, lod, data@, h, placeholder).0);
            r
        }
    }

    /// Records a decode's outcome for an asset and LOD that has an entry
    /// (see [`finish_spec`]).
    pub fn finish_mesh_decode(
        &mut self,
        uuid: &str,
        lod: u32,
        hash: u64,
        detected: MeshSourceFormat,
        outcome: Result<(M, bool), String>,
    ) -> (r: MeshCacheLookup<M>)
        requires
            old(self).wf(),
            has_key(old(self)@, uuid@, lod),
        ensures
            final(self).wf(),
            final(self).sculpts() == old(self).sculpts(),
            final(self)@ == finish_spec(old(self)@, uuid@, lod, hash, detected, outcome_view(outcome)).0,
            lookup_view(r) == finish_spec(old(self)@, uuid@, lod, hash, detected, outcome_view(outcome)).1,
    {
        let key = uuid.to_owned();
        let ghost es0 = self@;
        let i = match self.find(&key, lod) {
            Some(i) => i,
            None => {
                assert(false);
                0
            },
        };
        let ghost target = finish_spec(es0, uuid@, lod, hash, detected, outcome_view(outcome)).0;
        let mut e = self.meshes.remove(i);
        assert(entry_view(e) == es0[i as int]);
        match outcome {
            Ok((m, ready)) => {
                let mesh = Arc::new(m);
                let shared = share_arc(&mesh);
                e.mesh = mesh;
                e.ready = ready;
                e.attempted_hash = None;
                e.format = Some(detected);
                e.failure_detail = None;
                self.meshes.insert(i, e);
                proof {
                    assert(self@ =~= target);
                    lemma_update_keeps_keys(es0, i as int, target[i as int]);
                }
                MeshCacheLookup {
                    mesh: shared,
                    state: MeshCacheLookupState::Decoded,
                    format: detected,
                    failure: None,
                    detail: None,
                }
            },
            Err(msg) => {
                let shared = share_arc(&e.mesh);
                let failure = if detected == MeshSourceFormat::Unknown {
                    AssetFetchFailureReason::Unsupported
                } else {
                    AssetFetchFailureReason::Decode
                };
                e.attempted_hash = Some(hash);
                e.format = Some(detected);
                e.failure_detail = Some(msg.clone());
                self.meshes.insert(i, e);
                proof {
                    assert(self@ =~= target);
                    lemma_update_keeps_keys(es0, i as int, target[i as int]);
                }
                MeshCacheLookup {
                    mesh: shared,
                    state: MeshCacheLookupState::DecodeFailed,
                    format: detected,
                    failure: Some(failure),
                    detail: Some(msg),
                }
            },
        }
    }
}

/// What a whole lookup may come to: its first step with the bytes' hash;
/// when that asks for a decode, some outcome that `decode` may give for the
/// bytes and the LOD, recorded. `l` is the answer, `after` the cache.
pub open spec fn lookup_outcome<M, F: FnOnce(&[u8], u32) -> Result<(M, bool), String>>(
    before: Seq<MeshEntryView<M>>,
    after: Seq<MeshEntryView<M>>,
    uuid: Seq<char>,
    lod: u32,
    data: &[u8],
    placeholder: M,
    decode: F,
    l: LookupView<M>,
) -> bool {
    let first = lookup_data_spec(before, uuid, lod, data@, data_hash(data@), placeholder);
    match first.1 {
        StepView::Finished(done) => after == first.0 && l == done,
        StepView::Decode { hash, format } => exists|out: Result<(M, bool), String>|
            {
                &&& decode.ensures((data, lod), out)
                &&& after == finish_spec(first.0, uuid, lod, hash, format, outcome_view(out)).0
                &&& l == finish_spec(first.0, uuid, lod, hash, format, outcome_view(out)).1
            },
    }
}

impl<M> GeometryCache<M> {
    /// A whole lookup (see [`lookup_outcome`]): its first step, and when that
    /// asks for a decode, `decode` called once on the bytes and the LOD (it
    /// returns the mesh and whether it is drawable, or why it failed) and its
    /// outcome recorded.
    pub fn get_mesh_with_status<F: FnOnce(&[u8], u32) -> Result<(M, bool), String>>(
        &mut self,
        uuid: &str,
        lod: u32,
        data: &[u8],
        placeholder: M,
        decode: F,
    ) -> (r: MeshCacheLookup<M>)
        requires
            old(self).wf(),
            decode.requires((data, lod)),
        ensures
            final(self).wf(),
            final(self).sculpts() == old(self).sculpts(),
            lookup_outcome(old(self)@, final(self)@, uuid@, lod, data, placeholder, decode, lookup_view(r)),
    {
        let ghost before = self@;
        match self.begin_mesh_lookup(uuid, lod, data, placeholder) {
            MeshLookupStep::Finished(lookup) => lookup,
            MeshLookupStep::Decode { hash, format } => {
                proof {
                    lemma_with_entry(before, uuid@, lod, placeholder);
                }
                let outcome = decode(data, lod);
                self.finish_mesh_decode(uuid, lod, hash, format, outcome)
            },
        }
    }

    /// The mesh a whole lookup answers with (see [`lookup_outcome`]).
    pub fn get_mesh<F: FnOnce(&[u8], u32) -> Result<(M, bool), String>>(
        &mut self,
        uuid: &str,
        lod: u32,
        data: &[u8],
        placeholder: M,
        decode: F,
    ) -> (r: Arc<M>)
        requires
            old(self).wf(),
            decode.requires((data, lod)),
        ensures
            final(self).wf(),
            final(self).sculpts() == old(self).sculpts(),
            exists|l: LookupView<M>|
                lookup_outcome(old(self)@, final(self)@, uuid@, lod, data, placeholder, decode, l)
                    && #[trigger] l.mesh == *r,
    {
        let lookup = self.get_mesh_with_status(uuid, lod, data, placeholder, decode);
        assert(lookup_view(lookup).mesh == *lookup.mesh);
        lookup.mesh
    }
}

/// The mesh kept for a sculpt map and type: that of the first entry with
/// both, if any.
pub open spec fn sculpt_lookup<M>(
    es: Seq<(Seq<char>, SculptType, M)>,
    uuid: Seq<char>,
    t: SculptType,
) -> Option<M>
    decreases es.len(),
{
    if es.len() == 0 {
        None
    } else if es[0].0 == uuid && es[0].1 == t {
        Some(es[0].2)
    } else {
        sculpt_lookup(es.drop_first(), uuid, t)
    }
}

proof fn lemma_sculpt_lookup_push<M>(
    es: Seq<(Seq<char>, SculptType, M)>,
    uuid: Seq<char>,
    t: SculptType,
    e: (Seq<char>, SculptType, M),
)
    ensures
        sculpt_lookup(es.push(e), uuid, t) == match sculpt_lookup(es, uuid, t) {
            Some(m) => Some(m),
            None => if e.0 == uuid && e.1 == t {
                Some(e.2)
            } else {
                None
            },
        },
    decreases es.len(),
{
    if es.len() > 0 {
        assert(es.push(e)[0] == es[0]);
        assert(es.push(e).drop_first() =~= es.drop_first().push(e));
        lemma_sculpt_lookup_push(es.drop_first(), uuid, t, e);
    } else {
        assert(es.push(e)[0] == e);
        assert(es.push(e).drop_first() =~= Seq::<(Seq<char>, SculptType, M)>::empty());
        assert(sculpt_lookup(es.push(e).drop_first(), uuid, t) is None);
    }
}

/// A sculpted prim is generated once: after a lookup that generated a mesh,
/// looking the same sculpt map and type up again finds that mesh.
pub proof fn lemma_generated_sculpt_is_kept<M>(
    es: Seq<(Seq<char>, SculptType, M)>,
    uuid: Seq<char>,
    t: SculptType,
    mesh: M,
)
    requires
        sculpt_lookup(es, uuid, t) is None,
    ensures
        sculpt_lookup(es.push((uuid, t, mesh)), uuid, t) == Some(mesh),
{
    lemma_sculpt_lookup_push(es, uuid, t, (uuid, t, mesh));
}

impl<M> GeometryCache<M> {
    /// The mesh of a sculpted prim: the one kept for the sculpt map and type,
    /// or else the one `generate` makes from the map's pixels and size,
    /// which is then kept.
    pub fn get_sculpt<F: FnOnce(&[u8], u32, u32, SculptType) -> M>(
        &mut self,
        uuid: &str,
        sculpt_type: SculptType,
        pixels: &[u8],
        width: u32,
        height: u32,
        generate: F,
    ) -> (r: Arc<M>)
        requires
            generate.requires((pixels, width, height, sculpt_type)),
        ensures
            final(self)@ == old(self)@,
            final(self).wf() == old(self).wf(),
            match sculpt_lookup(old(self).sculpts(), uuid@, sculpt_type) {
                Some(m) => *r == m && final(self).sculpts() == old(self).sculpts(),
                None => generate.ensures((pixels, width, height, sculpt_type), *r)
                    && final(self).sculpts() == old(self).sculpts().push(
                    (uuid@, sculpt_type, *r),
                ),
            },
    {
        let ghost es = self.sculpts();
        let key = uuid.to_owned();
        let mut i: usize = 0;
        assert(es.skip(0) =~= es);
        while i < self.sculpts.len()
            invariant
                i <= self.sculpts@.len(),
                self.sculpts() == es,
                es.len() == self.sculpts@.len(),
                key@ == uuid@,
                sculpt_lookup(es, uuid@, sculpt_type) == sculpt_lookup(es.skip(i as int), uuid@, sculpt_type),
            decreases self.sculpts@.len() - i,
        {
            let e = &self.sculpts[i];
            assert(es[i as int] == (e.uuid@, e.sculpt_type, *e.mesh));
            assert(es.skip(i as int)[0] == es[i as int]);
            if e.sculpt_type == sculpt_type && e.uuid == key {
                return share_arc(&e.mesh);
            }
            assert(es.skip(i as int).drop_first() =~= es.skip(i + 1));
            i += 1;
        }
        let mesh = Arc::new(generate(pixels, width, height, sculpt_type));
        let shared = share_arc(&mesh);
        self.sculpts.push(SculptEntry { uuid: key, sculpt_type, mesh });
        assert(self.sculpts() =~= es.push((uuid@, sculpt_type, *shared)));
        shared
    }
}

spec fn starts_with_bytes_empty(d: Seq<u8>) -> bool {
    crate::sl_mesh::starts_with_bytes(d, crate::sl_mesh::deprecated_header())
}

/// A lookup that did not ask for a decode is stable: asked again for the
/// same asset, LOD and bytes (whatever the placeholder), it gives the same
/// answer and leaves the cache as it was.
pub proof fn lemma_finished_lookup_is_stable<M>(
    es: Seq<MeshEntryView<M>>,
    uuid: Seq<char>,
    lod: u32,
    data_empty: bool,
    hash: u64,
    detected: MeshSourceFormat,
    first_placeholder: M,
    next_placeholder: M,
)
    requires
        keys_distinct(es),
        lookup_spec(es, uuid, lod, data_empty, hash, detected, first_placeholder).1 is Finished,
    ensures
        lookup_spec(
            lookup_spec(es, uuid, lod, data_empty, hash, detected, first_placeholder).0,
            uuid,
            lod,
            data_empty,
            hash,
            detected,
            next_placeholder,
        ).0 == lookup_spec(es, uuid, lod, data_empty, hash, detected, first_placeholder).0,
        lookup_spec(
            lookup_spec(es, uuid, lod, data_empty, hash, detected, first_placeholder).0,
            uuid,
            lod,
            data_empty,
            hash,
            detected,
            next_placeholder,
        ).1 == lookup_spec(es, uuid, lod, data_empty, hash, detected, first_placeholder).1,
{
    let es1 = with_entry(es, uuid, lod, first_placeholder);
    lemma_with_entry(es, uuid, lod, first_placeholder);
    let i = key_at(es1, uuid, lod);
    let e = es1[i];
    let after = lookup_spec(es, uuid, lod, data_empty, hash, detected, first_placeholder).0;
    if !e.ready && data_empty {
        lemma_update_keeps_keys(es1, i, after[i]);
    }
    assert(after[i].uuid == uuid && after[i].lod == lod);
    lemma_key_at(after, uuid, lod, i);
    assert(with_entry(after, uuid, lod, next_placeholder) == after);
    if !e.ready && data_empty {
        assert(after.update(i, after[i]) =~= after);
    }
}

/// Empty bytes are never decoded.
pub proof fn lemma_empty_data_is_never_decoded<M>(
    es: Seq<MeshEntryView<M>>,
    uuid: Seq<char>,
    lod: u32,
    hash: u64,
    detected: MeshSourceFormat,
    placeholder: M,
)
    ensures
        lookup_spec(es, uuid, lod, true, hash, detected, placeholder).1 is Finished,
{
}

/// Bytes that failed to decode are not decoded again: looked up again with
/// the same hash, an entry whose mesh is not drawable answers with the
/// recorded failure and its cached mesh, and the cache stays as it was.
pub proof fn lemma_failed_decode_is_not_retried<M>(
    es: Seq<MeshEntryView<M>>,
    uuid: Seq<char>,
    lod: u32,
    hash: u64,
    detected: MeshSourceFormat,
    msg: Seq<char>,
    placeholder: M,
)
    requires
        keys_distinct(es),
        has_key(es, uuid, lod),
        !es[key_at(es, uuid, lod)].ready,
    ensures
        lookup_spec(
            finish_spec(es, uuid, lod, hash, detected, Err(msg)).0,
            uuid,
            lod,
            false,
            hash,
            detected,
            placeholder,
        ).0 == finish_spec(es, uuid, lod, hash, detected, Err(msg)).0,
        lookup_spec(
            finish_spec(es, uuid, lod, hash, detected, Err(msg)).0,
            uuid,
            lod,
            false,
            hash,
            detected,
            placeholder,
        ).1 == StepView::Finished(
            LookupView {
                mesh: es[key_at(es, uuid, lod)].mesh,
                state: MeshCacheLookupState::DecodeFailed,
                format: detected,
                failure: Some(failure_for(detected)),
                detail: Some(msg),
            },
        ),
{
    let i = key_at(es, uuid, lod);
    let es2 = finish_spec(es, uuid, lod, hash, detected, Err(msg)).0;
    lemma_update_keeps_keys(es, i, es2[i]);
    lemma_key_at(es2, uuid, lod, i);
}

/// Bytes whose decode failed are not decoded again: a lookup of the same
/// bytes after the failure was recorded answers with the recorded failure
/// and leaves the cache as it was.
pub proof fn lemma_failed_bytes_are_not_retried<M>(
    es: Seq<MeshEntryView<M>>,
    uuid: Seq<char>,
    lod: u32,
    data: Seq<u8>,
    msg: Seq<char>,
    placeholder: M,
)
    requires
        keys_distinct(es),
        lookup_data_spec(es, uuid, lod, data, data_hash(data), placeholder).1 is Decode,
    ensures
        ({
            let first = lookup_data_spec(es, uuid, lod, data, data_hash(data), placeholder);
            let failed = finish_spec(first.0, uuid, lod, data_hash(data), mesh_format(data), Err(msg));
            let again = lookup_data_spec(failed.0, uuid, lod, data, data_hash(data), placeholder);
            &&& again.0 == failed.0
            &&& again.1 == StepView::Finished(
                LookupView {
                    mesh: failed.1.mesh,
                    state: MeshCacheLookupState::DecodeFailed,
                    format: mesh_format(data),
                    failure: Some(failure_for(mesh_format(data))),
                    detail: Some(msg),
                },
            )
        }),
{
    let es1 = with_entry(es, uuid, lod, placeholder);
    lemma_with_entry(es, uuid, lod, placeholder);
    let first = lookup_data_spec(es, uuid, lod, data, data_hash(data), placeholder);
    assert(first.0 == es1);
    lemma_failed_decode_is_not_retried(
        es1,
        uuid,
        lod,
        data_hash(data),
        mesh_format(data),
        msg,
        placeholder,
    );
}

/// A decoded drawable mesh is served from then on, whatever bytes come.
pub proof fn lemma_decoded_mesh_is_served<M>(
    es: Seq<MeshEntryView<M>>,
    uuid: Seq<char>,
    lod: u32,
    hash: u64,
    detected: MeshSourceFormat,
    mesh: M,
    data_empty: bool,
    next_hash: u64,
    next_detected: MeshSourceFormat,
    placeholder: M,
)
    requires
        keys_distinct(es),
        has_key(es, uuid, lod),
    ensures
        lookup_spec(
            finish_spec(es, uuid, lod, hash, detected, Ok((mesh, true))).0,
            uuid,
            lod,
            data_empty,
            next_hash,
            next_detected,
            placeholder,
        ).0 == finish_spec(es, uuid, lod, hash, detected, Ok((mesh, true))).0,
        lookup_spec(
            finish_spec(es, uuid, lod, hash, detected, Ok((mesh, true))).0,
            uuid,
            lod,
            data_empty,
            next_hash,
            next_detected,
            placeholder,
        ).1 == StepView::Finished(
            LookupView {
                mesh,
                state: MeshCacheLookupState::CachedReady,
                format: detected,
                failure: None,
                detail: None,
            },
        ),
{
    let i = key_at(es, uuid, lod);
    let es2 = finish_spec(es, uuid, lod, hash, detected, Ok((mesh, true))).0;
    lemma_update_keeps_keys(es, i, es2[i]);
    lemma_key_at(es2, uuid, lod, i);
}

} // verus!
