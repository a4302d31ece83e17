use sl_viewer::fetch::AssetFetchFailureReason;
use sl_viewer::llsd::BinaryLlsdValue;
use sl_viewer::sculpt::{sculpt_type_grid_indices, SculptType};
use sl_viewer::mesh_cache::{GeometryCache, MeshCacheLookup, MeshCacheLookupState, MeshLookupStep};
use sl_viewer::sl_mesh::{
    debug_triangle_second_life_mesh_bytes, decode_triangle_indices, detect_mesh_source_format,
    dict_lookup, load_lod_block_value, MeshSourceFormat,
};
use std::cell::Cell;
use std::sync::Arc;

#[derive(Debug, Default)]
struct TestMesh {
    vertices: Vec<[u16; 3]>,
    submeshes: Vec<Vec<u32>>,
}

fn decode_test_mesh(data: &[u8], lod: u32) -> Result<TestMesh, String> {
    if detect_mesh_source_format(data) != MeshSourceFormat::SecondLifeMesh {
        return Err(String::from("unsupported mesh byte format"));
    }
    let block = load_lod_block_value(data, lod).map_err(|e| format!("{e:?}"))?;
    let items = block.as_array().ok_or_else(|| String::from("not an array"))?;
    let mut mesh = TestMesh::default();
    for item in items {
        let Some(map) = item.as_map() else { continue };
        let positions = dict_lookup(map, "Position")
            .and_then(BinaryLlsdValue::as_binary)
            .ok_or_else(|| String::from("missing Position"))?;
        let base = mesh.vertices.len() as u32;
        let coords = decode_triangle_indices(positions);
        for chunk in coords.chunks_exact(3) {
            mesh.vertices.push([chunk[0], chunk[1], chunk[2]]);
        }
        let tris = dict_lookup(map, "TriangleList")
            .and_then(BinaryLlsdValue::as_binary)
            .ok_or_else(|| String::from("missing TriangleList"))?;
        mesh.submeshes
            .push(decode_triangle_indices(tris).into_iter().map(|i| base + u32::from(i)).collect());
    }
    if mesh.vertices.is_empty() || mesh.submeshes.is_empty() {
        return Err(String::from("no drawable geometry"));
    }
    Ok(mesh)
}

fn get_mesh_with_status(
    cache: &mut GeometryCache<TestMesh>,
    decodes: &Cell<usize>,
    uuid: &str,
    lod: u32,
    data: &[u8],
) -> MeshCacheLookup<TestMesh> {
    cache.get_mesh_with_status(uuid, lod, data, TestMesh::default(), |bytes: &[u8], lod: u32| {
        decodes.set(decodes.get() + 1);
        decode_test_mesh(bytes, lod).map(|mesh| {
            let ready = !mesh.vertices.is_empty() && !mesh.submeshes.is_empty();
            (mesh, ready)
        })
    })
}

#[test]
fn get_mesh_caches_missing_entry_on_empty_data() {
    let mut cache = GeometryCache::new();
    let decodes = Cell::new(0);
    let a = get_mesh_with_status(&mut cache, &decodes, "dummy", 0, &[]);
    let b = get_mesh_with_status(&mut cache, &decodes, "dummy", 0, &[]);
    assert_eq!(a.state, MeshCacheLookupState::EmptyData);
    assert_eq!(b.state, MeshCacheLookupState::EmptyData);
    assert!(Arc::ptr_eq(&a.mesh, &b.mesh));
    assert!(a.mesh.vertices.is_empty());
    assert!(a.mesh.submeshes.is_empty());
    assert_eq!(decodes.get(), 0);
    assert_eq!(cache.len(), 1);
}

#[test]
fn get_mesh_does_not_reparse_same_invalid_bytes_every_call() {
    let mut cache = GeometryCache::new();
    let decodes = Cell::new(0);
    let a = get_mesh_with_status(&mut cache, &decodes, "dummy", 0, b"not-a-gltf");
    let b = get_mesh_with_status(&mut cache, &decodes, "dummy", 0, b"not-a-gltf");
    assert_eq!(a.state, MeshCacheLookupState::DecodeFailed);
    assert_eq!(b.state, MeshCacheLookupState::DecodeFailed);
    assert_eq!(a.failure, Some(AssetFetchFailureReason::Unsupported));
    assert!(Arc::ptr_eq(&a.mesh, &b.mesh));
    assert!(a.mesh.vertices.is_empty());
    assert!(a.mesh.submeshes.is_empty());
    assert_eq!(decodes.get(), 1);
    assert_eq!(b.detail.as_deref(), Some("unsupported mesh byte format"));
}

#[test]
fn get_mesh_decodes_second_life_mesh_bytes() {
    let bytes = debug_triangle_second_life_mesh_bytes();
    let mut cache = GeometryCache::new();
    let decodes = Cell::new(0);
    let lookup = get_mesh_with_status(&mut cache, &decodes, "mesh", 0, &bytes);
    assert_eq!(lookup.state, MeshCacheLookupState::Decoded);
    assert_eq!(lookup.format, MeshSourceFormat::SecondLifeMesh);
    assert!(lookup.mesh.vertices.len() >= 3);
    assert!(!lookup.mesh.submeshes.is_empty());
}

#[test]
fn decoded_mesh_is_served_without_decoding_again() {
    let bytes = debug_triangle_second_life_mesh_bytes();
    let mut cache = GeometryCache::new();
    let decodes = Cell::new(0);
    let first = get_mesh_with_status(&mut cache, &decodes, "mesh", 1, &bytes);
    let again = get_mesh_with_status(&mut cache, &decodes, "mesh", 1, &[]);
    assert_eq!(again.state, MeshCacheLookupState::CachedReady);
    assert_eq!(again.format, MeshSourceFormat::SecondLifeMesh);
    assert!(Arc::ptr_eq(&first.mesh, &again.mesh));
    assert_eq!(again.mesh.submeshes[0], vec![0, 1, 2]);
    assert_eq!(decodes.get(), 1);
}

#[test]
fn changed_bytes_are_retried_after_failure() {
    let mut cache = GeometryCache::new();
    let decodes = Cell::new(0);
    let failed = get_mesh_with_status(&mut cache, &decodes, "m", 2, b"{\0\0\0\x01junk");
    assert_eq!(failed.state, MeshCacheLookupState::DecodeFailed);
    assert_eq!(failed.format, MeshSourceFormat::SecondLifeMesh);
    assert_eq!(failed.failure, Some(AssetFetchFailureReason::Decode));
    let bytes = debug_triangle_second_life_mesh_bytes();
    let ok = get_mesh_with_status(&mut cache, &decodes, "m", 2, &bytes);
    assert_eq!(ok.state, MeshCacheLookupState::Decoded);
    assert_eq!(decodes.get(), 2);
    let other_lod = get_mesh_with_status(&mut cache, &decodes, "m", 3, &[]);
    assert_eq!(other_lod.state, MeshCacheLookupState::EmptyData);
    assert_eq!(cache.len(), 2);
}

#[test]
fn lookup_steps_can_be_driven_by_hand() {
    let bytes = debug_triangle_second_life_mesh_bytes();
    let mut cache: GeometryCache<TestMesh> = GeometryCache::new();
    let lookup = match cache.begin_mesh_lookup("mesh", 0, &bytes, TestMesh::default()) {
        MeshLookupStep::Decode { hash, format } => {
            assert_eq!(format, MeshSourceFormat::SecondLifeMesh);
            cache.finish_mesh_decode("mesh", 0, hash, format, Err(String::from("gave up")))
        }
        MeshLookupStep::Finished(_) => panic!("first lookup of new bytes must ask for a decode"),
    };
    assert_eq!(lookup.state, MeshCacheLookupState::DecodeFailed);
    assert_eq!(lookup.failure, Some(AssetFetchFailureReason::Decode));
    let again = cache.get_mesh("mesh", 0, &bytes, TestMesh::default(), |_: &[u8], _: u32| {
        Err(String::from("must not be called"))
    });
    assert!(again.vertices.is_empty());
}

#[test]
fn sculpt_meshes_are_generated_once_per_map_and_type() {
    let mut cache: GeometryCache<TestMesh> = GeometryCache::new();
    let generated = Cell::new(0usize);
    let pixels = vec![128u8; 2 * 2 * 3];
    let mut get = |cache: &mut GeometryCache<TestMesh>, id: &str, t: SculptType| {
        cache.get_sculpt(id, t, &pixels, 2, 2, |_p: &[u8], w: u32, h: u32, t: SculptType| {
            generated.set(generated.get() + 1);
            TestMesh {
                vertices: vec![[0, 0, 0]; (w * h) as usize],
                submeshes: vec![sculpt_type_grid_indices(w, h, t)],
            }
        })
    };
    let a = get(&mut cache, "map-a", SculptType::Plane);
    let b = get(&mut cache, "map-a", SculptType::Plane);
    assert!(Arc::ptr_eq(&a, &b));
    assert_eq!(generated.get(), 1);
    let c = get(&mut cache, "map-a", SculptType::Torus);
    assert_eq!(generated.get(), 2);
    assert!(!Arc::ptr_eq(&a, &c));
    assert_eq!(a.submeshes[0], vec![0, 1, 2, 2, 1, 3]);
    assert_eq!(c.submeshes[0].len(), 6 * 3);
    let _ = get(&mut cache, "map-b", SculptType::Plane);
    assert_eq!(generated.get(), 3);
    assert_eq!(cache.len(), 0);
}

#[test]
fn sculpt_type_wraps() {
    assert_eq!(sculpt_type_grid_indices(2, 2, SculptType::Plane).len(), 6);
    assert_eq!(sculpt_type_grid_indices(2, 2, SculptType::Sphere).len(), 12);
    assert_eq!(sculpt_type_grid_indices(2, 2, SculptType::Cylinder).len(), 12);
    assert_eq!(sculpt_type_grid_indices(2, 2, SculptType::Torus).len(), 18);
}
