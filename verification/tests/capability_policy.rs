use sl_viewer::asset::AssetID;
use sl_viewer::capability::{
    shape_to_lane_probe_tasks, AssetCapabilityPolicy, CapabilityProbeMethod,
    CapabilityProbeRequestShape, MeshCapabilityRequestCandidate, ViewerAssetQueryKey,
};
use std::collections::BTreeMap;

#[test]
fn asset_policy_prioritizes_get_texture() {
    let mut caps = BTreeMap::new();
    caps.insert("GetTexture".to_string(), "http://cdn".to_string());
    caps.insert("ViewerAsset".to_string(), "http://fallback".to_string());

    let id = AssetID::new("test-id");
    let url = AssetCapabilityPolicy::select_texture_url(&caps, &id).unwrap();
    assert_eq!(url, "http://cdn/?texture_id=test-id");
}

#[test]
fn asset_policy_exposes_firestorm_style_first_then_legacy_fallbacks() {
    let candidates = AssetCapabilityPolicy::texture_url_candidates_from_base("http://cdn", "test-id");
    assert_eq!(
        candidates,
        vec![
            "http://cdn/?texture_id=test-id",
            "http://cdn?texture_id=test-id",
            "http://cdn/test-id",
            "http://cdn?id=test-id",
            "http://cdn?asset_id=test-id",
        ]
    );
}

#[test]
fn asset_policy_falls_back_to_viewer_asset() {
    let mut caps = BTreeMap::new();
    caps.insert("ViewerAsset".to_string(), "http://fallback".to_string());

    let id = AssetID::new("test-id");
    let url = AssetCapabilityPolicy::select_texture_url(&caps, &id).unwrap();
    assert_eq!(url, "http://fallback/?texture_id=test-id");
}

#[test]
fn asset_policy_returns_none_on_missing_caps_or_id() {
    let caps = BTreeMap::new();
    let id = AssetID::new("test-id");
    assert!(AssetCapabilityPolicy::select_texture_url(&caps, &id).is_none());

    let mut caps = BTreeMap::new();
    caps.insert("GetTexture".to_string(), "http://cdn".to_string());
    assert!(AssetCapabilityPolicy::select_texture_url(&caps, &AssetID::default()).is_none());
    assert!(AssetCapabilityPolicy::texture_url_candidates(&caps, &AssetID::default()).is_empty());
}

#[test]
fn viewer_asset_probe_candidates_prefer_firestorm_query_shape() {
    let candidates = AssetCapabilityPolicy::viewer_asset_url_candidates_from_base(
        "http://cdn",
        ViewerAssetQueryKey::MeshId,
        "mesh-uuid",
    );
    assert_eq!(
        candidates,
        vec![
            "http://cdn/?mesh_id=mesh-uuid",
            "http://cdn?mesh_id=mesh-uuid",
            "http://cdn/mesh-uuid",
            "http://cdn?id=mesh-uuid",
            "http://cdn?asset_id=mesh-uuid",
        ]
    );
}

#[test]
fn mesh_url_candidates_prefer_viewer_asset_then_getmesh2_then_getmesh() {
    let mut caps = BTreeMap::new();
    caps.insert("GetMesh".to_string(), "http://mesh1".to_string());
    caps.insert("GetMesh2".to_string(), "http://mesh2".to_string());
    caps.insert("ViewerAsset".to_string(), "http://asset-cdn".to_string());

    let candidates = AssetCapabilityPolicy::mesh_url_candidates(&caps, "mesh-uuid");
    assert_eq!(
        candidates,
        vec![
            "http://asset-cdn/?mesh_id=mesh-uuid",
            "http://asset-cdn?mesh_id=mesh-uuid",
            "http://mesh2/?mesh_id=mesh-uuid",
            "http://mesh2?mesh_id=mesh-uuid",
            "http://mesh1/?mesh_id=mesh-uuid",
            "http://mesh1?mesh_id=mesh-uuid",
        ]
    );
}

#[test]
fn mesh_url_candidates_fall_back_to_legacy_caps() {
    let mut caps = BTreeMap::new();
    caps.insert("GetMesh2".to_string(), "http://mesh2".to_string());
    let candidates = AssetCapabilityPolicy::mesh_url_candidates(&caps, "mesh-uuid");
    assert_eq!(
        candidates,
        vec!["http://mesh2/?mesh_id=mesh-uuid", "http://mesh2?mesh_id=mesh-uuid"]
    );
}

#[test]
fn mesh_request_candidates_include_capability_metadata_in_priority_order() {
    let mut caps = BTreeMap::new();
    caps.insert("GetMesh".to_string(), "http://mesh1".to_string());
    caps.insert("GetMesh2".to_string(), "http://mesh2".to_string());
    caps.insert("ViewerAsset".to_string(), "http://asset-cdn".to_string());

    let candidates = AssetCapabilityPolicy::mesh_request_candidates(&caps, "mesh-uuid");
    let cand = |c: &str, v: &str, u: &str| MeshCapabilityRequestCandidate {
        capability_name: String::from(c),
        url_variant: String::from(v),
        url: String::from(u),
    };
    assert_eq!(
        candidates,
        vec![
            cand("ViewerAsset", "v1", "http://asset-cdn/?mesh_id=mesh-uuid"),
            cand("ViewerAsset", "v2", "http://asset-cdn?mesh_id=mesh-uuid"),
            cand("GetMesh2", "v1", "http://mesh2/?mesh_id=mesh-uuid"),
            cand("GetMesh2", "v2", "http://mesh2?mesh_id=mesh-uuid"),
            cand("GetMesh", "v1", "http://mesh1/?mesh_id=mesh-uuid"),
            cand("GetMesh", "v2", "http://mesh1?mesh_id=mesh-uuid"),
        ]
    );
}

#[test]
fn simulator_features_probe_shape_is_get_without_body() {
    let mut caps = BTreeMap::new();
    caps.insert("SimulatorFeatures".to_string(), "http://sim/cap/simfeatures".to_string());
    let shape = AssetCapabilityPolicy::simulator_features_probe_shape(&caps)
        .expect("shape should exist");
    assert_eq!(shape.method, CapabilityProbeMethod::Get);
    assert!(shape.body.is_none());
    assert_eq!(shape.url_candidates, vec!["http://sim/cap/simfeatures"]);
}

#[test]
fn interest_list_probe_shape_is_post_with_default_mode() {
    let mut caps = BTreeMap::new();
    caps.insert("InterestList".to_string(), "http://sim/cap/interest".to_string());
    let shape = AssetCapabilityPolicy::interest_list_probe_shape(&caps, "")
        .expect("shape should exist");
    assert_eq!(shape.method, CapabilityProbeMethod::Post);
    assert_eq!(shape.content_type.as_deref(), Some("application/llsd+xml"));
    assert_eq!(shape.accept.as_deref(), Some("application/llsd+xml"));
    assert!(shape
        .body
        .as_deref()
        .is_some_and(|body| body.contains("<string>default</string>")));
}

#[test]
fn viewer_asset_probe_shape_carries_query_key_label() {
    let shape = AssetCapabilityPolicy::viewer_asset_probe_shape_from_base(
        "http://asset-cdn",
        ViewerAssetQueryKey::MaterialId,
        "material-uuid",
    )
    .expect("shape should exist");
    assert_eq!(shape.capability_name, "ViewerAsset");
    assert_eq!(shape.method, CapabilityProbeMethod::Get);
    assert_eq!(shape.query_key.as_deref(), Some("material_id"));
    assert_eq!(
        shape.url_candidates.first().map(String::as_str),
        Some("http://asset-cdn/?material_id=material-uuid")
    );
}

#[test]
fn base_url_is_trimmed_of_spaces_and_trailing_slashes() {
    let candidates =
        AssetCapabilityPolicy::texture_url_candidates_from_base("  http://cdn///  ", " id ");
    assert_eq!(candidates[0], "http://cdn/?texture_id=id");
    assert_eq!(candidates.len(), 5);
    assert!(AssetCapabilityPolicy::texture_url_candidates_from_base(" // ", "id").is_empty());
    assert!(AssetCapabilityPolicy::texture_url_candidates_from_base("http://cdn", "  ").is_empty());
}

#[test]
fn texture_candidates_skip_urls_already_listed() {
    let mut caps = BTreeMap::new();
    caps.insert("GetTexture".to_string(), "http://same".to_string());
    caps.insert("ViewerAsset".to_string(), "http://same/".to_string());
    let urls = AssetCapabilityPolicy::texture_url_candidates(&caps, &AssetID::new("x"));
    assert_eq!(urls.len(), 5);
}

#[test]
fn interest_list_body_carries_trimmed_mode_and_blank_url_gives_no_shape() {
    let mut caps = BTreeMap::new();
    caps.insert("InterestList".to_string(), " http://sim/i ".to_string());
    let shape = AssetCapabilityPolicy::interest_list_probe_shape(&caps, " 360 ").unwrap();
    assert_eq!(
        shape.body.as_deref(),
        Some("<llsd><map><key>mode</key><string>360</string></map></llsd>")
    );
    assert_eq!(shape.url_candidates, vec!["http://sim/i"]);
    caps.insert("UntrustedSimulatorMessage".to_string(), "   ".to_string());
    assert!(AssetCapabilityPolicy::untrusted_simulator_message_probe_shape(&caps).is_none());
    caps.insert("UntrustedSimulatorMessage".to_string(), "http://u".to_string());
    let u = AssetCapabilityPolicy::untrusted_simulator_message_probe_shape(&caps).unwrap();
    assert_eq!(u.accept.as_deref(), Some("application/llsd+xml"));
    assert_eq!(CapabilityProbeMethod::Del.as_str(), "DEL");
    assert_eq!(ViewerAssetQueryKey::AnimatnId.as_str(), "animatn_id");
}

#[test]
fn lane_probe_tasks_take_one_url_each_up_to_the_limit() {
    let shape = CapabilityProbeRequestShape {
        capability_name: String::from("ViewerAsset"),
        method: CapabilityProbeMethod::Get,
        url_candidates: vec![
            String::from("http://asset-cdn.agni/?texture_id=x"),
            String::from("http://asset-cdn.agni?texture_id=x"),
            String::from("http://other/x"),
        ],
        accept: None,
        content_type: None,
        body: None,
        query_key: Some(String::from("texture_id")),
    };
    let hosts = vec![Some(String::from("asset-cdn.agni")), Some(String::from("asset-cdn.agni")), None];
    let tasks = shape_to_lane_probe_tasks(&shape, &hosts, 2);
    assert_eq!(tasks.len(), 2);
    assert_eq!(tasks[0].host_family, "asset-cdn");
    assert_eq!(tasks[0].url_variant, "v1");
    assert_eq!(tasks[1].url_variant, "v2");
    assert_eq!(tasks[1].request.url_candidates, vec![String::from("http://asset-cdn.agni?texture_id=x")]);
    assert_eq!(tasks[1].request.method, "GET");
    assert_eq!(tasks[0].query_key.as_deref(), Some("texture_id"));
    assert_eq!(tasks[0].capability_name, "ViewerAsset");
    let one = shape_to_lane_probe_tasks(&shape, &hosts, 0);
    assert_eq!(one.len(), 1);
    let all = shape_to_lane_probe_tasks(&shape, &hosts, 10);
    assert_eq!(all.len(), 3);
    assert_eq!(all[2].host_family, "unknown-host");
    assert_eq!(all[2].url_variant, "v3");
}

#[test]
fn session_capability_urls_prefer_get_texture_for_images() {
    let mut caps = std::collections::BTreeMap::new();
    caps.insert(String::from("EventQueueGet"), String::from("https://sim/eq"));
    caps.insert(String::from("ViewerAsset"), String::from("https://cdn/va"));
    caps.insert(String::from("AgentProfile"), String::from("https://sim/profile"));
    let urls = sl_viewer::capability::session_capability_urls(&caps);
    assert_eq!(urls.event_queue.as_deref(), Some("https://sim/eq"));
    assert_eq!(urls.region_objects, None);
    assert_eq!(urls.display_names, None);
    assert_eq!(urls.agent_profile.as_deref(), Some("https://sim/profile"));
    assert_eq!(urls.image.as_deref(), Some("https://cdn/va"));

    caps.insert(String::from("GetTexture"), String::from("https://sim/tex"));
    let urls = sl_viewer::capability::session_capability_urls(&caps);
    assert_eq!(urls.image.as_deref(), Some("https://sim/tex"));
}
