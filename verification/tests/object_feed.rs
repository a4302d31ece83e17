use sl_viewer::object_feed::{
    count_exported_object_feed_mesh_objects, summarize_decoded_object_feed_face_materials,
    summarize_decoded_object_feed_parenting, ObjectFeedEntry,
};

fn object(local_id: u32, mesh: bool, parent: Option<u32>, default_material: bool, overrides: usize) -> ObjectFeedEntry {
    ObjectFeedEntry {
        local_id,
        mesh_id: if mesh { Some(format!("mesh-{local_id}")) } else { None },
        parent_local_id: parent,
        has_default_face_material: default_material,
        face_material_override_count: overrides,
    }
}

fn feed() -> Vec<ObjectFeedEntry> {
    vec![
        object(1, true, None, true, 0),
        object(2, false, Some(1), true, 3),
        object(3, true, Some(1), false, 2),
        object(4, false, None, false, 0),
    ]
}

#[test]
fn object_feed_counts_meshes() {
    assert_eq!(count_exported_object_feed_mesh_objects(&feed()), 2);
    assert_eq!(count_exported_object_feed_mesh_objects(&[]), 0);
}

#[test]
fn object_feed_face_material_summary() {
    assert_eq!(summarize_decoded_object_feed_face_materials(&feed()), (2, 2, 5));
    assert_eq!(summarize_decoded_object_feed_face_materials(&[]), (0, 0, 0));
}

#[test]
fn object_feed_parenting_summary() {
    assert_eq!(summarize_decoded_object_feed_parenting(&feed()), (2, 2));
    assert_eq!(summarize_decoded_object_feed_parenting(&[object(9, false, Some(3), false, 0)]), (0, 1));
}
