use sl_viewer::region_objects::{
    summarize_region_objects_inspection, RegionObjectsInspection,
    RegionObjectsPathfindingSummary, RegionObjectsTupleDescriptionAnalysis,
    RegionObjectsTypedObjectSample,
};

fn strings(items: &[&str]) -> Vec<String> {
    items.iter().map(|s| s.to_string()).collect()
}

#[test]
fn summarize_region_objects_inspection_includes_typed_sample_summary() {
    let mut inspection = RegionObjectsInspection::default();
    inspection
        .typed_object_samples
        .push(RegionObjectsTypedObjectSample {
            object_id: String::from("11111111-1111-1111-1111-111111111111"),
            profile: String::from("pathfinding_linkset"),
            name: Some(String::from("bamboo")),
            owner: Some(String::from("owner-1")),
            position: Some(String::from("3|230|3800")),
            description_shape: Some(String::from("free_text")),
            linkset_use: Some(String::from("dynamic_obstacle")),
            walkability_coefficients: Some([100, 100, 100, 100]),
        });

    let summary = summarize_region_objects_inspection(&inspection);
    assert!(summary.contains("typed_sample="));
    assert!(summary.contains("name=bamboo"));
    assert!(summary.contains("linkset_use=dynamic_obstacle"));
    assert!(summary.contains("walkability=100/100/100/100"));
    assert!(summary.contains("description_shape=free_text"));
}

#[test]
fn empty_inspection_is_all_none() {
    let summary = summarize_region_objects_inspection(&RegionObjectsInspection::default());
    assert_eq!(
        summary,
        "keys=none arrays=none complex=none first_item_keys=none scalars=none child_keys=none child_scalars=none child_profiles=none child_semantics=none child_typed=none typed_sample=none tuple_analysis=none"
    );
}

#[test]
fn sections_are_cut_to_their_first_entries() {
    let inspection = RegionObjectsInspection {
        top_level_keys: strings(&["a", "b", "c", "d", "e", "f", "g"]),
        array_lengths: vec![
            (String::from("x"), 1),
            (String::from("y"), 2),
            (String::from("z"), 3),
            (String::from("w"), 4),
            (String::from("v"), 5),
        ],
        first_array_item_keys: vec![(String::from("x"), strings(&["k1", "k2", "k3", "k4", "k5", "k6"]))],
        complex_value_types: vec![(String::from("c"), String::from("map"))],
        scalar_values: vec![(String::from("s"), String::from("1"))],
        child_map_keys: vec![(String::from("m"), strings(&["p", "q"]))],
        child_map_scalar_values: vec![],
        child_map_profiles: vec![(String::from("m"), String::from("pathfinding"))],
        child_map_semantic_values: vec![],
        child_map_pathfinding_summaries: vec![(
            String::from("obj"),
            RegionObjectsPathfindingSummary {
                profile: String::from("linkset"),
                variant_hint: Some(String::from("v1")),
                position_key_present: true,
                description_numeric_tuple: Some(strings(&["1", "2"])),
                landimpact: Some(3),
                phantom: Some(false),
                ..RegionObjectsPathfindingSummary::default()
            },
        )],
        tuple_description_analysis: Some(RegionObjectsTupleDescriptionAnalysis {
            sample_count: 2,
            slot_count: 3,
            slot_distinct_values: vec![vec![], strings(&["7"]), strings(&["1", "2"])],
            sample_pairs: strings(&["a:1", "b:2"]),
            distinct_names: vec![],
        }),
        typed_object_samples: vec![],
    };
    assert_eq!(
        summarize_region_objects_inspection(&inspection),
        "keys=a,b,c,d,e,f arrays=x:1,y:2,z:3,w:4 complex=c=map first_item_keys=x=k1|k2|k3|k4|k5 scalars=s=1 child_keys=m=p|q child_scalars=none child_profiles=m=pathfinding child_semantics=none child_typed=obj=profile=linkset|variant=v1|position_key=present|description_tuple=1|2|landimpact=3|phantom=false typed_sample=none tuple_analysis=samples=2 slots=3 names=none slot_values=s0=none,s1=const:7,s2=var:1|2 sample_pairs=a:1;b:2"
    );
}

#[test]
fn pathfinding_summary_keeps_its_first_ten_parts() {
    let full = RegionObjectsPathfindingSummary {
        profile: String::from("p"),
        variant_hint: Some(String::from("v")),
        linkset_use: Some(String::from("l")),
        walkability_coefficients: Some([1, 2, 3, 4]),
        name: Some(String::from("n")),
        position: Some(String::from("1|2|3")),
        position_key_present: true,
        position_shape: Some(String::from("triple")),
        description_shape: Some(String::from("d")),
        description_numeric_tuple: Some(strings(&["9"])),
        description: Some(String::from("text")),
        owner: Some(String::from("o")),
        landimpact: Some(5),
        navmesh_category: Some(6),
        can_be_volume: Some(true),
        phantom: Some(true),
    };
    let inspection = RegionObjectsInspection {
        child_map_pathfinding_summaries: vec![(String::from("k"), full)],
        ..RegionObjectsInspection::default()
    };
    let summary = summarize_region_objects_inspection(&inspection);
    assert!(summary.contains(
        " child_typed=k=profile=p|variant=v|linkset_use=l|walkability=1/2/3/4|name=n|position=1|2|3|position_key=present|position_shape=triple|description_shape=d|description_tuple=9 typed_sample="
    ));
    assert!(!summary.contains("owner=o"));
}
