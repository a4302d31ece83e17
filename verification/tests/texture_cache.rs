use sl_viewer::asset::{AssetID, AssetPriority};
use sl_viewer::texture_cache::{
    budget_bytes_from_setting, sanitize_fixture_filename, AssetStatus, FixtureTextureCache,
    A10_QUOTA_TOTAL_CONTINUITY,
};
use sl_viewer::continuity::A10_QUOTA_ACTIVE;
use std::path::PathBuf;

#[test]
fn missing_on_empty_id() {
    let mut cache = FixtureTextureCache::with_base_dir(PathBuf::from("."), 1024);
    let status = cache.request_png_rgba8(&AssetID::default()).unwrap();
    assert!(matches!(status, AssetStatus::Missing));
}

#[test]
fn missing_is_negative_cached() {
    let mut cache = FixtureTextureCache::new();
    let id = AssetID::new("does_not_exist");
    let a = cache.request_png_rgba8(&id).unwrap();
    assert!(matches!(a, AssetStatus::Missing));
    assert!(cache.pending_count() == 0);
    let b = cache.request_png_rgba8(&id).unwrap();
    assert!(matches!(b, AssetStatus::Missing));
}

#[test]
fn priority_eviction_is_deterministic() {
    let mut cache = FixtureTextureCache::with_base_dir(PathBuf::from("."), 10);
    cache.insert_dummy_for_test(AssetID::new("a"), 4);
    cache.insert_dummy_for_test(AssetID::new("b"), 4);

    cache.touch(&AssetID::new("b"), AssetPriority::Active);

    assert_eq!(cache.current_bytes(), 8);

    cache.insert_dummy_for_test(AssetID::new("c"), 4);

    assert!(cache.has_entry(&AssetID::new("b")));
    assert!(cache.has_entry(&AssetID::new("c")));
    assert!(!cache.has_entry(&AssetID::new("a")));
}

#[test]
fn active_priority_is_clamped_when_quota_is_full() {
    let mut cache = FixtureTextureCache::with_base_dir(PathBuf::from("."), 1024 * 1024);
    for i in 0..A10_QUOTA_ACTIVE {
        let id = AssetID::new(&format!("active_{i}"));
        cache.insert_dummy_for_test(id.clone(), 1);
        cache.set_entry_priority(&id, AssetPriority::Active);
    }
    assert_eq!(cache.clamp_priority_to_quota(AssetPriority::Active), AssetPriority::Normal);
}

#[test]
fn eviction_prefers_least_recently_touched_within_a_priority() {
    let mut cache = FixtureTextureCache::with_base_dir(PathBuf::from("."), 9);
    cache.insert_dummy_for_test(AssetID::new("x"), 3);
    cache.insert_dummy_for_test(AssetID::new("y"), 3);
    cache.insert_dummy_for_test(AssetID::new("z"), 3);
    cache.begin_poll_tick();
    cache.touch(&AssetID::new("x"), AssetPriority::Normal);
    cache.insert_dummy_for_test(AssetID::new("w"), 3);
    assert!(!cache.has_entry(&AssetID::new("y")));
    assert!(cache.has_entry(&AssetID::new("x")));
    assert_eq!(cache.current_bytes(), 9);
    // An entry larger than the budget is not cached.
    cache.insert_dummy_for_test(AssetID::new("huge"), 10);
    assert!(!cache.has_entry(&AssetID::new("huge")));
    assert_eq!(cache.current_bytes(), 9);
}

#[test]
fn total_continuity_quota_and_touch_promotion_cap() {
    let mut cache = FixtureTextureCache::with_base_dir(PathBuf::from("."), 1 << 20);
    for i in 0..A10_QUOTA_TOTAL_CONTINUITY {
        let id = AssetID::new(&format!("n{i}"));
        cache.insert_dummy_for_test(id.clone(), 1);
        cache.set_entry_priority(&id, AssetPriority::Neighbor);
    }
    assert_eq!(cache.clamp_priority_to_quota(AssetPriority::Previous), AssetPriority::Normal);
    let mut fresh = FixtureTextureCache::with_base_dir(PathBuf::from("."), 1 << 20);
    for i in 0..30 {
        fresh.insert_dummy_for_test(AssetID::new(&format!("p{i}")), 1);
    }
    for i in 0..30 {
        fresh.touch(&AssetID::new(&format!("p{i}")), AssetPriority::Active);
    }
    let promoted = (0..30)
        .filter(|i| {
            fresh.metadata(&AssetID::new(&format!("p{i}"))).unwrap().priority
                == AssetPriority::Active
        })
        .count();
    assert_eq!(promoted, 24);
}

#[test]
fn queue_promotion_and_cap_with_disk_answers() {
    let mut cache = FixtureTextureCache::with_base_dir(PathBuf::from("."), 1024);
    let id = AssetID::new("tex");
    let s = cache.request_with_disk_answer(&id, AssetPriority::Normal, true).unwrap();
    assert!(matches!(s, AssetStatus::Loading));
    assert_eq!(cache.pending_count(), 1);
    let s = cache.request_with_disk_answer(&id, AssetPriority::Active, true).unwrap();
    assert!(matches!(s, AssetStatus::Loading));
    assert_eq!(cache.pending_count(), 1);
    let (taken, p) = cache.take_pending().unwrap();
    assert_eq!(taken.as_str(), "tex");
    assert_eq!(p, AssetPriority::Active);
    for i in 0..70 {
        let _ = cache.request_with_disk_answer(&AssetID::new(&format!("q{i}")), AssetPriority::Normal, true);
    }
    assert_eq!(cache.pending_count(), 64);
    assert_eq!(cache.metrics.continuity_requests_dropped_cap, 6);
    let s = cache.request_with_disk_answer(&AssetID::new("gone"), AssetPriority::Normal, false).unwrap();
    assert!(matches!(s, AssetStatus::Missing));
    let s = cache.request_with_disk_answer(&AssetID::new("gone"), AssetPriority::Normal, true).unwrap();
    assert!(matches!(s, AssetStatus::Missing));
}

#[test]
fn completed_loads_are_cached_or_kept_oversized() {
    let mut cache = FixtureTextureCache::with_base_dir(PathBuf::from("."), 64);
    cache.complete_load(AssetID::new("bad"), AssetPriority::Normal, Some(vec![1, 2, 3]), 0);
    let s = cache.request_with_disk_answer(&AssetID::new("bad"), AssetPriority::Normal, true).unwrap();
    assert!(matches!(s, AssetStatus::Missing));
    cache.complete_load(AssetID::new("unread"), AssetPriority::Normal, None, 0);
    let s = cache.request_with_disk_answer(&AssetID::new("unread"), AssetPriority::Normal, true).unwrap();
    assert!(matches!(s, AssetStatus::Missing));
}

#[test]
fn fixture_file_names_and_budget_settings() {
    assert_eq!(sanitize_fixture_filename(" water "), Some(String::from("water.png")));
    assert_eq!(sanitize_fixture_filename("a.PNG"), Some(String::from("a.PNG")));
    assert_eq!(sanitize_fixture_filename("a.jpg"), Some(String::from("a.jpg")));
    assert_eq!(sanitize_fixture_filename("../x"), None);
    assert_eq!(sanitize_fixture_filename("c:x"), None);
    assert_eq!(sanitize_fixture_filename("a\\b"), None);
    assert_eq!(sanitize_fixture_filename("  "), None);
    assert_eq!(budget_bytes_from_setting(None), 512 * 1024 * 1024);
    assert_eq!(budget_bytes_from_setting(Some(" 8 ")), 16 * 1024 * 1024);
    assert_eq!(budget_bytes_from_setting(Some("99999")), 4096 * 1024 * 1024);
    assert_eq!(budget_bytes_from_setting(Some("x")), 512 * 1024 * 1024);
    let cache = FixtureTextureCache::with_base_dir(PathBuf::from("."), 0);
    assert_eq!(cache.budget_bytes(), 1);
}

#[test]
fn default_fixture_dir_is_test_assets() {
    assert_eq!(
        sl_viewer::texture_cache::default_fixture_dir(),
        std::path::PathBuf::from("test_assets")
    );
    assert_eq!(
        sl_viewer::texture_cache::default_fixture_dir().to_str(),
        Some("test_assets")
    );
}

#[test]
fn prepare_load_joins_the_sanitised_file_name_onto_the_base_dir() {
    let mut cache = FixtureTextureCache::with_base_dir(PathBuf::from("/etc"), 1024);
    if let Some(path) = cache.prepare_load(&AssetID::new(" ld.so.conf ")) {
        assert_eq!(path, PathBuf::from("/etc/ld.so.conf"));
    }
    assert_eq!(cache.prepare_load(&AssetID::new("no_such_fixture")), None);
    assert!(matches!(
        cache.request_png_rgba8(&AssetID::new("no_such_fixture")).unwrap(),
        AssetStatus::Missing
    ));
}
