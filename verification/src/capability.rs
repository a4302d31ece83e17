//! Which capability URLs the viewer tries, in which order, for textures,
//! meshes and the capability probes.
use std::collections::BTreeMap;
use vstd::prelude::*;
use crate::asset::AssetID;
use crate::text::{chars_of, push_all, push_str, slice_chars, string_of, trim, trimmed};

verus! {

/// The capability-selection policy; all of its operations are associated functions.
pub struct AssetCapabilityPolicy;

#[derive(Debug, Clone, Copy, PartialEq, Eq, Structural)]
pub enum CapabilityProbeMethod {
    Get,
    Post,
    Del,
}

impl CapabilityProbeMethod {
    pub open spec fn spec_str(self) -> Seq<char> {
        match self {
            CapabilityProbeMethod::Get => "GET"@,
            CapabilityProbeMethod::Post => "POST"@,
            CapabilityProbeMethod::Del => "DEL"@,
        }
    }

    pub fn as_str(self) -> (r: &'static str)
        ensures
            r@ == self.spec_str(),
    {
        match self {
            CapabilityProbeMethod::Get => "GET",
            CapabilityProbeMethod::Post => "POST",
            CapabilityProbeMethod::Del => "DEL",
        }
    }
}

/// The query parameter that names the asset in a `ViewerAsset` request.
#[derive(Debug, Clone, Copy, PartialEq, Eq, Structural)]
pub enum ViewerAssetQueryKey {
    TextureId,
    MeshId,
    MaterialId,
    AnimatnId,
    SoundId,
}

impl ViewerAssetQueryKey {
    pub open spec fn spec_str(self) -> Seq<char> {
        match self {
            ViewerAssetQueryKey::TextureId => "texture_id"@,
            ViewerAssetQueryKey::MeshId => "mesh_id"@,
            ViewerAssetQueryKey::MaterialId => "material_id"@,
            ViewerAssetQueryKey::AnimatnId => "animatn_id"@,
            ViewerAssetQueryKey::SoundId => "sound_id"@,
        }
    }

    pub fn as_str(self) -> (r: &'static str)
        ensures
            r@ == self.spec_str(),
    {
        match self {
            ViewerAssetQueryKey::TextureId => "texture_id",
            ViewerAssetQueryKey::MeshId => "mesh_id",
            ViewerAssetQueryKey::MaterialId => "material_id",
            ViewerAssetQueryKey::AnimatnId => "animatn_id",
            ViewerAssetQueryKey::SoundId => "sound_id",
        }
    }
}

/// How a capability is probed: name, method, URLs to try and the headers and body.
#[derive(Debug, Clone, PartialEq, Eq)]
pub struct CapabilityProbeRequestShape {
    pub capability_name: String,
    pub method: CapabilityProbeMethod,
    pub url_candidates: Vec<String>,
    pub accept: Option<String>,
    pub content_type: Option<String>,
    pub body: Option<String>,
    pub query_key: Option<String>,
}

/// One mesh URL to try, with the capability it came from and its URL form.
#[derive(Debug, Clone, PartialEq, Eq)]
pub struct MeshCapabilityRequestCandidate {
    pub capability_name: String,
    pub url_variant: String,
    pub url: String,
}

impl View for MeshCapabilityRequestCandidate {
    type V = (Seq<char>, Seq<char>, Seq<char>);

    open spec fn view(&self) -> (Seq<char>, Seq<char>, Seq<char>) {
        (self.capability_name@, self.url_variant@, self.url@)
    }
}

/// The character sequences of a list of strings.
pub open spec fn views(v: Seq<String>) -> Seq<Seq<char>> {
    v.map_values(|s: String| s@)
}

/// The views of a list of mesh candidates.
pub open spec fn mesh_views(v: Seq<MeshCapabilityRequestCandidate>) -> Seq<
    (Seq<char>, Seq<char>, Seq<char>),
> {
    v.map_values(|c: MeshCapabilityRequestCandidate| c@)
}

/// An optional string, by its characters.
pub open spec fn opt_view(o: Option<String>) -> Option<Seq<char>> {
    match o {
        Some(s) => Some(s@),
        None => None,
    }
}

/// `s` without its trailing slashes.
pub open spec fn trim_end_slashes(s: Seq<char>) -> Seq<char>
    decreases s.len(),
{
    if s.len() > 0 && s.last() == '/' {
        trim_end_slashes(s.drop_last())
    } else {
        s
    }
}

/// The base of a capability URL: trimmed of whitespace, then of trailing slashes.
pub open spec fn base_of(url: Seq<char>) -> Seq<char> {
    trim_end_slashes(trim(url))
}

/// `out` with `x` appended unless it already holds it.
pub open spec fn step_unique(out: Seq<Seq<char>>, x: Seq<char>) -> Seq<Seq<char>> {
    if out.contains(x) {
        out
    } else {
        out.push(x)
    }
}

/// `out` extended by each of `cands` in turn, skipping those already present.
pub open spec fn push_unique(out: Seq<Seq<char>>, cands: Seq<Seq<char>>) -> Seq<Seq<char>>
    decreases cands.len(),
{
    if cands.len() == 0 {
        out
    } else {
        step_unique(push_unique(out, cands.drop_last()), cands.last())
    }
}

/// The five URL forms of an asset under a base, preferred form first.
pub open spec fn url_forms(base: Seq<char>, key: Seq<char>, id: Seq<char>) -> Seq<Seq<char>> {
    seq![
        base + "/?"@ + key + "="@ + id,
        base + "?"@ + key + "="@ + id,
        base + "/"@ + id,
        base + "?id="@ + id,
        base + "?asset_id="@ + id,
    ]
}

/// The URLs to try for one asset under one capability base URL.
pub open spec fn candidates_from_base(url: Seq<char>, key: Seq<char>, id: Seq<char>) -> Seq<
    Seq<char>,
> {
    let b = base_of(url);
    let i = trim(id);
    if b.len() == 0 || i.len() == 0 {
        seq![]
    } else {
        push_unique(seq![], url_forms(b, key, i))
    }
}

/// The texture URLs: those under `GetTexture`, then those under `ViewerAsset`.
pub open spec fn texture_candidates(caps: Map<Seq<char>, Seq<char>>, id: Seq<char>) -> Seq<
    Seq<char>,
> {
    if id.len() == 0 {
        seq![]
    } else {
        let s1 = if caps.contains_key("GetTexture"@) {
            push_unique(seq![], candidates_from_base(caps["GetTexture"@], "texture_id"@, id))
        } else {
            seq![]
        };
        if caps.contains_key("ViewerAsset"@) {
            push_unique(s1, candidates_from_base(caps["ViewerAsset"@], "texture_id"@, id))
        } else {
            s1
        }
    }
}

/// `out` with the candidate `c` appended unless a candidate with its URL is present.
pub open spec fn mesh_step(
    out: Seq<(Seq<char>, Seq<char>, Seq<char>)>,
    c: (Seq<char>, Seq<char>, Seq<char>),
) -> Seq<(Seq<char>, Seq<char>, Seq<char>)> {
    if exists|k: int| 0 <= k < out.len() && #[trigger] out[k].2 == c.2 {
        out
    } else {
        out.push(c)
    }
}

/// `out` extended by each of `cands` in turn, skipping URLs already present.
pub open spec fn mesh_unique(
    out: Seq<(Seq<char>, Seq<char>, Seq<char>)>,
    cands: Seq<(Seq<char>, Seq<char>, Seq<char>)>,
) -> Seq<(Seq<char>, Seq<char>, Seq<char>)>
    decreases cands.len(),
{
    if cands.len() == 0 {
        out
    } else {
        mesh_step(mesh_unique(out, cands.drop_last()), cands.last())
    }
}

/// The two mesh URL forms under the capability `name`, if it has a usable base.
pub open spec fn mesh_for_cap(
    out: Seq<(Seq<char>, Seq<char>, Seq<char>)>,
    caps: Map<Seq<char>, Seq<char>>,
    name: Seq<char>,
    id: Seq<char>,
) -> Seq<(Seq<char>, Seq<char>, Seq<char>)> {
    if caps.contains_key(name) && base_of(caps[name]).len() > 0 {
        let b = base_of(caps[name]);
        mesh_unique(
            out,
            seq![
                (name, "v1"@, b + "/?mesh_id="@ + id),
                (name, "v2"@, b + "?mesh_id="@ + id),
            ],
        )
    } else {
        out
    }
}

/// The mesh candidates: `ViewerAsset`, then `GetMesh2`, then `GetMesh`.
pub open spec fn mesh_candidates(caps: Map<Seq<char>, Seq<char>>, id: Seq<char>) -> Seq<
    (Seq<char>, Seq<char>, Seq<char>),
> {
    let i = trim(id);
    if i.len() == 0 {
        seq![]
    } else {
        let s1 = mesh_for_cap(seq![], caps, "ViewerAsset"@, i);
        let s2 = mesh_for_cap(s1, caps, "GetMesh2"@, i);
        mesh_for_cap(s2, caps, "GetMesh"@, i)
    }
}

/// The body of an interest-list probe for `mode` (`default` when blank).
pub open spec fn interest_list_body(mode: Seq<char>) -> Seq<char> {
    let m = if trim(mode).len() == 0 {
        "default"@
    } else {
        trim(mode)
    };
    "<llsd><map><key>mode</key><string>"@ + m + "</string></map></llsd>"@
}

/// Looks a capability up by name (`BTreeMap::get`); the result is the entry whose
/// key has the characters of `name`, as the map's deep view holds it.
#[verifier::external_body]
pub(crate) fn cap_get<'a>(caps: &'a BTreeMap<String, String>, name: &str) -> (r: Option<&'a String>)
    ensures
        match r {
            Some(v) => caps.deep_view().contains_key(name@) && caps.deep_view()[name@] == v@,
            None => !caps.deep_view().contains_key(name@),
        },
{
    caps.get(name)
}

/// Whether `out` holds a string with the characters of `s`.
fn contains_string(out: &Vec<String>, s: &String) -> (r: bool)
    ensures
        r == views(out@).contains(s@),
{
    let mut j: usize = 0;
    while j < out.len()
        invariant
            j <= out@.len(),
            forall|k: int| 0 <= k < j ==> out@[k]@ != s@,
        decreases out@.len() - j,
    {
        if out[j] == *s {
            assert(views(out@)[j as int] == s@);
            return true;
        }
        j += 1;
    }
    assert(!views(out@).contains(s@)) by {
        if views(out@).contains(s@) {
            let k = choose|k: int| 0 <= k < views(out@).len() && views(out@)[k] == s@;
            assert(out@[k]@ == s@);
        }
    }
    false
}

/// Appends each candidate to `out` unless an equal string is already there.
pub(crate) fn extend_unique(out: &mut Vec<String>, candidates: Vec<String>)
    ensures
        views(final(out)@) == push_unique(views(old(out)@), views(candidates@)),
{
    let n = candidates.len();
    let mut i: usize = 0;
    while i < n
        invariant
            n == candidates@.len(),
            i <= n,
            views(out@) == push_unique(views(old(out)@), views(candidates@).take(i as int)),
        decreases n - i,
    {
        let c = &candidates[i];
        let ghost before = views(out@);
        if !contains_string(out, c) {
            out.push(c.clone());
            assert(views(out@) =~= before.push(c@));
        }
        assert(views(candidates@).take(i + 1).drop_last() =~= views(candidates@).take(i as int));
        i += 1;
    }
    assert(views(candidates@).take(n as int) =~= views(candidates@));
}

/// Whether `out` holds a candidate whose URL has the characters of `url`.
fn contains_mesh_url(out: &Vec<MeshCapabilityRequestCandidate>, url: &String) -> (r: bool)
    ensures
        r == exists|k: int|
            0 <= k < mesh_views(out@).len() && #[trigger] mesh_views(out@)[k].2 == url@,
{
    let mut j: usize = 0;
    while j < out.len()
        invariant
            j <= out@.len(),
            forall|k: int| 0 <= k < j ==> out@[k].url@ != url@,
        decreases out@.len() - j,
    {
        if out[j].url == *url {
            assert(mesh_views(out@)[j as int].2 == url@);
            return true;
        }
        j += 1;
    }
    assert forall|k: int| 0 <= k < mesh_views(out@).len() implies #[trigger] mesh_views(
        out@,
    )[k].2 != url@ by {
        assert(mesh_views(out@)[k] == out@[k]@);
    }
    false
}

/// The views of `(variant, url)` pairs tagged with a capability name.
pub open spec fn tagged(name: Seq<char>, cands: Seq<(&'static str, String)>) -> Seq<
    (Seq<char>, Seq<char>, Seq<char>),
> {
    cands.map_values(|p: (&'static str, String)| (name, p.0@, p.1@))
}

/// Appends a candidate for each `(variant, url)` pair whose URL is not yet present.
pub(crate) fn extend_mesh_request_candidates(
    out: &mut Vec<MeshCapabilityRequestCandidate>,
    capability_name: &str,
    candidates: Vec<(&'static str, String)>,
)
    ensures
        mesh_views(final(out)@) == mesh_unique(
            mesh_views(old(out)@),
            tagged(capability_name@, candidates@),
        ),
{
    let n = candidates.len();
    let mut i: usize = 0;
    while i < n
        invariant
            n == candidates@.len(),
            i <= n,
            mesh_views(out@) == mesh_unique(
                mesh_views(old(out)@),
                tagged(capability_name@, candidates@).take(i as int),
            ),
        decreases n - i,
    {
        let (variant, url) = &candidates[i];
        let ghost before = mesh_views(out@);
        let ghost c = (capability_name@, variant@, url@);
        assert(tagged(capability_name@, candidates@)[i as int] == c);
        if !contains_mesh_url(out, url) {
            out.push(
                MeshCapabilityRequestCandidate {
                    capability_name: capability_name.to_owned(),
                    url_variant: (*variant).to_owned(),
                    url: url.clone(),
                },
            );
            assert(mesh_views(out@) =~= before.push(c));
        }
        assert(tagged(capability_name@, candidates@).take(i + 1).drop_last() =~= tagged(
            capability_name@,
            candidates@,
        ).take(i as int));
        i += 1;
    }
    assert(tagged(capability_name@, candidates@).take(n as int) =~= tagged(
        capability_name@,
        candidates@,
    ));
}

/// The characters of a capability URL's base.
fn base_chars(url: &str) -> (r: Vec<char>)
    ensures
        r@ == base_of(url@),
{
    let c = chars_of(url);
    let t = trimmed(c.as_slice());
    let mut k: usize = t.len();
    assert(t@.subrange(0, k as int) =~= t@);
    while k > 0 && t[k - 1] == '/'
        invariant
            k <= t@.len(),
            trim_end_slashes(t@) == trim_end_slashes(t@.subrange(0, k as int)),
        decreases k,
    {
        assert(t@.subrange(0, k as int).drop_last() =~= t@.subrange(0, k - 1));
        k -= 1;
    }
    slice_chars(t.as_slice(), 0, k)
}

/// `base + sep + key + "=" + id` as a string.
fn url_with_key(base: &[char], sep: &str, key: &[char], id: &[char]) -> (r: String)
    ensures
        r@ == base@ + sep@ + key@ + "="@ + id@,
{
    let mut v: Vec<char> = Vec::new();
    push_all(&mut v, base);
    push_str(&mut v, sep);
    push_all(&mut v, key);
    push_str(&mut v, "=");
    push_all(&mut v, id);
    assert(v@ =~= base@ + sep@ + key@ + "="@ + id@);
    string_of(v.as_slice())
}

/// `base + sep + id` as a string.
fn url_plain(base: &[char], sep: &str, id: &[char]) -> (r: String)
    ensures
        r@ == base@ + sep@ + id@,
{
    let mut v: Vec<char> = Vec::new();
    push_all(&mut v, base);
    push_str(&mut v, sep);
    push_all(&mut v, id);
    assert(v@ =~= base@ + sep@ + id@);
    string_of(v.as_slice())
}

/// The five URL forms under a base, for a query key given by its characters.
fn candidates_for_key(base_url: &str, key: &[char], asset_id: &str) -> (r: Vec<String>)
    ensures
        views(r@) == candidates_from_base(base_url@, key@, asset_id@),
{
    let base = base_chars(base_url);
    let ic = chars_of(asset_id);
    let id = trimmed(ic.as_slice());
    let mut urls: Vec<String> = Vec::new();
    if base.len() == 0 || id.len() == 0 {
        assert(views(urls@) =~= seq![]);
        return urls;
    }
    let mut forms: Vec<String> = Vec::new();
    forms.push(url_with_key(base.as_slice(), "/?", key, id.as_slice()));
    forms.push(url_with_key(base.as_slice(), "?", key, id.as_slice()));
    forms.push(url_plain(base.as_slice(), "/", id.as_slice()));
    forms.push(url_plain(base.as_slice(), "?id=", id.as_slice()));
    forms.push(url_plain(base.as_slice(), "?asset_id=", id.as_slice()));
    assert(views(forms@) =~= url_forms(base@, key@, id@));
    assert(views(urls@) =~= seq![]);
    extend_unique(&mut urls, forms);
    urls
}

impl AssetCapabilityPolicy {
    /// Texture URLs for an asset: those under `GetTexture` first, then `ViewerAsset`.
    pub fn texture_url_candidates(
        capabilities: &BTreeMap<String, String>,
        asset_id: &AssetID,
    ) -> (r: Vec<String>)
        ensures
            views(r@) == texture_candidates(capabilities.deep_view(), asset_id@),
    {
        let mut urls: Vec<String> = Vec::new();
        if asset_id.is_empty() {
            assert(views(urls@) =~= seq![]);
            return urls;
        }
        assert(views(urls@) =~= seq![]);
        match cap_get(capabilities, "GetTexture") {
            Some(base_url) => {
                let c = Self::texture_url_candidates_from_base(base_url.as_str(), asset_id.as_str());
                extend_unique(&mut urls, c);
            },
            None => {},
        }
        match cap_get(capabilities, "ViewerAsset") {
            Some(base_url) => {
                let c = Self::texture_url_candidates_from_base(base_url.as_str(), asset_id.as_str());
                extend_unique(&mut urls, c);
            },
            None => {},
        }
        urls
    }

    /// The five texture URL forms under one base URL, without repeats.
    pub fn texture_url_candidates_from_base(base_url: &str, asset_id: &str) -> (r: Vec<String>)
        ensures
            views(r@) == candidates_from_base(base_url@, "texture_id"@, asset_id@),
    {
        let key = chars_of("texture_id");
        candidates_for_key(base_url, key.as_slice(), asset_id)
    }

    /// The five `ViewerAsset` URL forms for `query_key`, without repeats.
    pub fn viewer_asset_url_candidates_from_base(
        base_url: &str,
        query_key: ViewerAssetQueryKey,
        asset_id: &str,
    ) -> (r: Vec<String>)
        ensures
            views(r@) == candidates_from_base(base_url@, query_key.spec_str(), asset_id@),
    {
        let key = chars_of(query_key.as_str());
        candidates_for_key(base_url, key.as_slice(), asset_id)
    }

    /// Mesh request candidates: `ViewerAsset`, then `GetMesh2`, then `GetMesh`,
    /// two URL forms each, with no URL twice.
    pub fn mesh_request_candidates(capabilities: &BTreeMap<String, String>, mesh_id: &str) -> (r:
        Vec<MeshCapabilityRequestCandidate>)
        ensures
            mesh_views(r@) == mesh_candidates(capabilities.deep_view(), mesh_id@),
    {
        let ic = chars_of(mesh_id);
        let id = trimmed(ic.as_slice());
        let mut candidates: Vec<MeshCapabilityRequestCandidate> = Vec::new();
        assert(mesh_views(candidates@) =~= seq![]);
        if id.len() == 0 {
            return candidates;
        }
        Self::push_mesh_cap(&mut candidates, capabilities, "ViewerAsset", id.as_slice());
        Self::push_mesh_cap(&mut candidates, capabilities, "GetMesh2", id.as_slice());
        Self::push_mesh_cap(&mut candidates, capabilities, "GetMesh", id.as_slice());
        candidates
    }

    fn push_mesh_cap(
        out: &mut Vec<MeshCapabilityRequestCandidate>,
        capabilities: &BTreeMap<String, String>,
        cap_name: &str,
        id: &[char],
    )
        ensures
            mesh_views(final(out)@) == mesh_for_cap(
                mesh_views(old(out)@),
                capabilities.deep_view(),
                cap_name@,
                id@,
            ),
    {
        match cap_get(capabilities, cap_name) {
            Some(base_url) => {
                let base = base_chars(base_url.as_str());
                if base.len() == 0 {
                    return;
                }
                let mut pairs: Vec<(&'static str, String)> = Vec::new();
                pairs.push(("v1", url_plain(base.as_slice(), "/?mesh_id=", id)));
                pairs.push(("v2", url_plain(base.as_slice(), "?mesh_id=", id)));
                let ghost b = base@;
                assert(tagged(cap_name@, pairs@) =~= seq![
                    (cap_name@, "v1"@, b + "/?mesh_id="@ + id@),
                    (cap_name@, "v2"@, b + "?mesh_id="@ + id@),
                ]);
                extend_mesh_request_candidates(out, cap_name, pairs);
            },
            None => {},
        }
    }

    /// The URLs of [`Self::mesh_request_candidates`], in order.
    pub fn mesh_url_candidates(capabilities: &BTreeMap<String, String>, mesh_id: &str) -> (r: Vec<
        String,
    >)
        ensures
            views(r@) == mesh_candidates(capabilities.deep_view(), mesh_id@).map_values(
                |t: (Seq<char>, Seq<char>, Seq<char>)| t.2,
            ),
    {
        let cands = Self::mesh_request_candidates(capabilities, mesh_id);
        let mut urls: Vec<String> = Vec::new();
        let mut i: usize = 0;
        while i < cands.len()
            invariant
                i <= cands@.len(),
                views(urls@) =~= mesh_views(cands@).take(i as int).map_values(
                    |t: (Seq<char>, Seq<char>, Seq<char>)| t.2,
                ),
            decreases cands@.len() - i,
        {
            let ghost before = views(urls@);
            urls.push(cands[i].url.clone());
            assert(views(urls@) =~= before.push(cands@[i as int].url@));
            assert(mesh_views(cands@)[i as int] == cands@[i as int]@);
            assert(mesh_views(cands@).take(i + 1) =~= mesh_views(cands@).take(i as int).push(
                mesh_views(cands@)[i as int],
            ));
            i += 1;
        }
        assert(mesh_views(cands@).take(cands@.len() as int) =~= mesh_views(cands@));
        urls
    }

    /// A `GET` probe of `SimulatorFeatures`, when that capability has a non-blank URL.
    pub fn simulator_features_probe_shape(capabilities: &BTreeMap<String, String>) -> (r: Option<
        CapabilityProbeRequestShape,
    >)
        ensures
            r.is_some() <==> (capabilities.deep_view().contains_key("SimulatorFeatures"@) && trim(
                capabilities.deep_view()["SimulatorFeatures"@],
            ).len() > 0),
            r matches Some(s) ==> {
                &&& s.capability_name@ == "SimulatorFeatures"@
                &&& s.method == CapabilityProbeMethod::Get
                &&& views(s.url_candidates@) == seq![
                    trim(capabilities.deep_view()["SimulatorFeatures"@]),
                ]
                &&& s.accept is None
                &&& s.content_type is None
                &&& s.body is None
                &&& s.query_key is None
            },
    {
        let url = match cap_get(capabilities, "SimulatorFeatures") {
            Some(u) => u,
            None => return None,
        };
        let t = trimmed_string(url.as_str());
        if t.0 {
            return None;
        }
        let mut urls: Vec<String> = Vec::new();
        urls.push(t.1);
        assert(views(urls@) =~= seq![trim(url@)]);
        Some(
            CapabilityProbeRequestShape {
                capability_name: "SimulatorFeatures".to_owned(),
                method: CapabilityProbeMethod::Get,
                url_candidates: urls,
                accept: None,
                content_type: None,
                body: None,
                query_key: None,
            },
        )
    }

    /// A `POST` probe of `InterestList` with an LLSD body that sets `mode`.
    pub fn interest_list_probe_shape(capabilities: &BTreeMap<String, String>, mode: &str) -> (r:
        Option<CapabilityProbeRequestShape>)
        ensures
            r.is_some() <==> (capabilities.deep_view().contains_key("InterestList"@) && trim(
                capabilities.deep_view()["InterestList"@],
            ).len() > 0),
            r matches Some(s) ==> {
                &&& s.capability_name@ == "InterestList"@
                &&& s.method == CapabilityProbeMethod::Post
                &&& views(s.url_candidates@) == seq![
                    trim(capabilities.deep_view()["InterestList"@]),
                ]
                &&& opt_view(s.accept) == Some("application/llsd+xml"@)
                &&& opt_view(s.content_type) == Some("application/llsd+xml"@)
                &&& opt_view(s.body) == Some(interest_list_body(mode@))
                &&& s.query_key is None
            },
    {
        let url = match cap_get(capabilities, "InterestList") {
            Some(u) => u,
            None => return None,
        };
        let t = trimmed_string(url.as_str());
        if t.0 {
            return None;
        }
        let mc = chars_of(mode);
        let m0 = trimmed(mc.as_slice());
        let m = if m0.len() == 0 {
            chars_of("default")
        } else {
            m0
        };
        let mut body: Vec<char> = Vec::new();
        push_str(&mut body, "<llsd><map><key>mode</key><string>");
        push_all(&mut body, m.as_slice());
        push_str(&mut body, "</string></map></llsd>");
        let mut urls: Vec<String> = Vec::new();
        urls.push(t.1);
        assert(views(urls@) =~= seq![trim(url@)]);
        Some(
            CapabilityProbeRequestShape {
                capability_name: "InterestList".to_owned(),
                method: CapabilityProbeMethod::Post,
                url_candidates: urls,
                accept: Some("application/llsd+xml".to_owned()),
                content_type: Some("application/llsd+xml".to_owned()),
                body: Some(string_of(body.as_slice())),
                query_key: None,
            },
        )
    }

    /// A `GET` probe of `UntrustedSimulatorMessage` that accepts LLSD XML.
    pub fn untrusted_simulator_message_probe_shape(capabilities: &BTreeMap<String, String>) -> (r:
        Option<CapabilityProbeRequestShape>)
        ensures
            r.is_some() <==> (capabilities.deep_view().contains_key("UntrustedSimulatorMessage"@)
                && trim(capabilities.deep_view()["UntrustedSimulatorMessage"@]).len() > 0),
            r matches Some(s) ==> {
                &&& s.capability_name@ == "UntrustedSimulatorMessage"@
                &&& s.method == CapabilityProbeMethod::Get
                &&& views(s.url_candidates@) == seq![
                    trim(capabilities.deep_view()["UntrustedSimulatorMessage"@]),
                ]
                &&& opt_view(s.accept) == Some("application/llsd+xml"@)
                &&& s.content_type is None
                &&& s.body is None
                &&& s.query_key is None
            },
    {
        let url = match cap_get(capabilities, "UntrustedSimulatorMessage") {
            Some(u) => u,
            None => return None,
        };
        let t = trimmed_string(url.as_str());
        if t.0 {
            return None;
        }
        let mut urls: Vec<String> = Vec::new();
        urls.push(t.1);
        assert(views(urls@) =~= seq![trim(url@)]);
        Some(
            CapabilityProbeRequestShape {
                capability_name: "UntrustedSimulatorMessage".to_owned(),
                method: CapabilityProbeMethod::Get,
                url_candidates: urls,
                accept: Some("application/llsd+xml".to_owned()),
                content_type: None,
                body: None,
                query_key: None,
            },
        )
    }

    /// A `GET` probe of `ViewerAsset` over the URL forms for `query_key`, when there are any.
    pub fn viewer_asset_probe_shape_from_base(
        viewer_asset_base_url: &str,
        query_key: ViewerAssetQueryKey,
        asset_id: &str,
    ) -> (r: Option<CapabilityProbeRequestShape>)
        ensures
            r.is_some() <==> candidates_from_base(
                viewer_asset_base_url@,
                query_key.spec_str(),
                asset_id@,
            ).len() > 0,
            r matches Some(s) ==> {
                &&& s.capability_name@ == "ViewerAsset"@
                &&& s.method == CapabilityProbeMethod::Get
                &&& views(s.url_candidates@) == candidates_from_base(
                    viewer_asset_base_url@,
                    query_key.spec_str(),
                    asset_id@,
                )
                &&& opt_view(s.accept) == Some("*/*"@)
                &&& s.content_type is None
                &&& s.body is None
                &&& opt_view(s.query_key) == Some(query_key.spec_str())
            },
    {
        let urls = Self::viewer_asset_url_candidates_from_base(
            viewer_asset_base_url,
            query_key,
            asset_id,
        );
        if urls.len() == 0 {
            return None;
        }
        Some(
            CapabilityProbeRequestShape {
                capability_name: "ViewerAsset".to_owned(),
                method: CapabilityProbeMethod::Get,
                url_candidates: urls,
                accept: Some("*/*".to_owned()),
                content_type: None,
                body: None,
                query_key: Some(query_key.as_str().to_owned()),
            },
        )
    }

    /// The first texture URL candidate, if any.
    pub fn select_texture_url(capabilities: &BTreeMap<String, String>, asset_id: &AssetID) -> (r:
        Option<String>)
        ensures
            opt_view(r) == (if texture_candidates(capabilities.deep_view(), asset_id@).len() > 0 {
                Some(texture_candidates(capabilities.deep_view(), asset_id@)[0])
            } else {
                None
            }),
    {
        let urls = Self::texture_url_candidates(capabilities, asset_id);
        if urls.len() == 0 {
            None
        } else {
            assert(views(urls@)[0] == urls@[0]@);
            Some(urls[0].clone())
        }
    }
}

/// Whether `s` is blank, and `s` trimmed of whitespace.
fn trimmed_string(s: &str) -> (r: (bool, String))
    ensures
        r.0 == (trim(s@).len() == 0),
        r.1@ == trim(s@),
{
    let c = chars_of(s);
    let t = trimmed(c.as_slice());
    (t.len() == 0, string_of(t.as_slice()))
}

/// A capability probe request: method, the URLs to try, and its headers and body.
#[derive(Debug, Clone, PartialEq, Eq)]
pub struct CapabilityProbeRequest {
    pub method: String,
    pub url_candidates: Vec<String>,
    pub accept: Option<String>,
    pub content_type: Option<String>,
    pub body: Option<String>,
}

/// One probe of a capability lane: a single URL variant of a probe shape.
#[derive(Debug, Clone, PartialEq, Eq)]
pub struct LaneProbeShapeTask {
    pub host_family: String,
    pub capability_name: String,
    pub query_key: Option<String>,
    pub url_variant: String,
    pub request: CapabilityProbeRequest,
}

pub open spec fn opt_chars(s: Option<String>) -> Option<Seq<char>> {
    match s {
        Some(t) => Some(t@),
        None => None,
    }
}

/// How many URL variants of a shape are probed: at most `max_url_variants`
/// (at least one), and no more than there are.
pub open spec fn probe_variant_count(urls: nat, max_url_variants: usize) -> nat {
    let limit: nat = if max_url_variants < 1 {
        1
    } else {
        max_url_variants as nat
    };
    if urls < limit {
        urls
    } else {
        limit
    }
}

/// Task `idx` of a shape: its URL's host family (the host's first label,
/// `unknown-host` without a host), the shape's name, query key, method,
/// headers and body, that one URL, and the variant name `v` and `idx + 1`.
pub open spec fn lane_task_ok(
    t: LaneProbeShapeTask,
    shape: CapabilityProbeRequestShape,
    host: Option<String>,
    idx: int,
) -> bool {
    &&& t.host_family@ == match host {
        Some(h) => crate::diagnostics::before_first(h@, '.'),
        None => "unknown-host"@,
    }
    &&& t.capability_name@ == shape.capability_name@
    &&& opt_chars(t.query_key) == opt_chars(shape.query_key)
    &&& t.url_variant@ == seq!['v'] + crate::numtext::dec((idx + 1) as nat)
    &&& t.request.method@ == shape.method.spec_str()
    &&& t.request.url_candidates@.len() == 1
    &&& t.request.url_candidates@[0]@ == shape.url_candidates@[idx]@
    &&& opt_chars(t.request.accept) == opt_chars(shape.accept)
    &&& opt_chars(t.request.content_type) == opt_chars(shape.content_type)
    &&& opt_chars(t.request.body) == opt_chars(shape.body)
}

fn clone_opt(s: &Option<String>) -> (r: Option<String>)
    ensures
        opt_chars(r) == opt_chars(*s),
{
    match s {
        Some(t) => Some(t.clone()),
        None => None,
    }
}

/// The probe tasks for a shape, one per URL variant up to `max_url_variants`
/// (at least one); `hosts` holds each URL's host as classifying it found.
pub fn shape_to_lane_probe_tasks(
    shape: &CapabilityProbeRequestShape,
    hosts: &[Option<String>],
    max_url_variants: usize,
) -> (r: Vec<LaneProbeShapeTask>)
    requires
        hosts@.len() == shape.url_candidates@.len(),
    ensures
        r@.len() == probe_variant_count(shape.url_candidates@.len(), max_url_variants),
        forall|i: int| 0 <= i < r@.len() ==> lane_task_ok(#[trigger] r@[i], *shape, hosts@[i], i),
{
    let limit: usize = if max_url_variants < 1 {
        1
    } else {
        max_url_variants
    };
    let n: usize = if shape.url_candidates.len() < limit {
        shape.url_candidates.len()
    } else {
        limit
    };
    let mut tasks: Vec<LaneProbeShapeTask> = Vec::new();
    let mut i: usize = 0;
    while i < n
        invariant
            n <= shape.url_candidates@.len(),
            hosts@.len() == shape.url_candidates@.len(),
            i <= n,
            tasks@.len() == i,
            forall|j: int| 0 <= j < i ==> lane_task_ok(#[trigger] tasks@[j], *shape, hosts@[j], j),
        decreases n - i,
    {
        let host_family = match &hosts[i] {
            Some(h) => {
                let label = crate::diagnostics::first_label(h.as_str());
                string_of(label.as_slice())
            },
            None => "unknown-host".to_owned(),
        };
        let mut variant: Vec<char> = Vec::new();
        variant.push('v');
        crate::numtext::push_dec(&mut variant, (i as u64) + 1);
        let mut urls: Vec<String> = Vec::new();
        urls.push(shape.url_candidates[i].clone());
        let task = LaneProbeShapeTask {
            host_family,
            capability_name: shape.capability_name.clone(),
            query_key: clone_opt(&shape.query_key),
            url_variant: string_of(variant.as_slice()),
            request: CapabilityProbeRequest {
                method: shape.method.as_str().to_owned(),
                url_candidates: urls,
                accept: clone_opt(&shape.accept),
                content_type: clone_opt(&shape.content_type),
                body: clone_opt(&shape.body),
            },
        };
        assert(variant@ =~= seq!['v'] + crate::numtext::dec((i + 1) as nat));
        tasks.push(task);
        i += 1;
    }
    tasks
}

/// The URL a capability has, if the region granted it.
pub open spec fn cap_url(caps: Map<Seq<char>, Seq<char>>, name: Seq<char>) -> Option<Seq<char>> {
    if caps.contains_key(name) {
        Some(caps[name])
    } else {
        None
    }
}

/// The capability URLs the live session uses after login.
#[derive(Debug, Clone, PartialEq, Eq)]
pub struct SessionCapabilityUrls {
    pub event_queue: Option<String>,
    pub region_objects: Option<String>,
    pub display_names: Option<String>,
    pub agent_profile: Option<String>,
    pub image: Option<String>,
}

fn cap_url_exec(caps: &BTreeMap<String, String>, name: &str) -> (r: Option<String>)
    ensures
        opt_view(r) == cap_url(caps.deep_view(), name@),
{
    match cap_get(caps, name) {
        Some(u) => Some(u.clone()),
        None => None,
    }
}

/// Picks the session's capability URLs from the seed capabilities:
/// `EventQueueGet`, `RegionObjects`, `GetDisplayNames` and `AgentProfile`
/// each as granted, and for images `GetTexture`, else `ViewerAsset`.
pub fn session_capability_urls(caps: &BTreeMap<String, String>) -> (r: SessionCapabilityUrls)
    ensures
        opt_view(r.event_queue) == cap_url(caps.deep_view(), "EventQueueGet"@),
        opt_view(r.region_objects) == cap_url(caps.deep_view(), "RegionObjects"@),
        opt_view(r.display_names) == cap_url(caps.deep_view(), "GetDisplayNames"@),
        opt_view(r.agent_profile) == cap_url(caps.deep_view(), "AgentProfile"@),
        opt_view(r.image) == match cap_url(caps.deep_view(), "GetTexture"@) {
            Some(u) => Some(u),
            None => cap_url(caps.deep_view(), "ViewerAsset"@),
        },
{
    let image = match cap_url_exec(caps, "GetTexture") {
        Some(u) => Some(u),
        None => cap_url_exec(caps, "ViewerAsset"),
    };
    SessionCapabilityUrls {
        event_queue: cap_url_exec(caps, "EventQueueGet"),
        region_objects: cap_url_exec(caps, "RegionObjects"),
        display_names: cap_url_exec(caps, "GetDisplayNames"),
        agent_profile: cap_url_exec(caps, "AgentProfile"),
        image,
    }
}

} // verus!
