use gem_keep::model::{PhotoFormat, ScannedFile};
use gem_keep::paths::split_path;
use gem_keep::pipeline::{
    find_missing_thumbnail_targets, log_error, partition_new_paths, restack_from_existing_photos,
    run_pipeline,
};
use gem_keep::scanner::classify_paths;
use gem_keep::store::Store;
use std::collections::HashSet;

fn scanned(path: &str, format: PhotoFormat, t: Option<i64>) -> ScannedFile {
    let (dir, base_name) = split_path(path);
    ScannedFile {
        path: path.to_string(),
        format,
        capture_time: t,
        camera_model: None,
        lens: None,
        orientation: None,
        base_name,
        dir,
    }
}

fn import_folder(store: &mut Store, files: Vec<ScannedFile>) -> gem_keep::model::ImportStats {
    let total = files.len();
    let existing = store.list_photo_paths_for_project(1);
    let scanned_paths: Vec<gem_keep::model::ScannedPath> = files
        .iter()
        .map(|f| gem_keep::model::ScannedPath { path: f.path.clone(), format: f.format })
        .collect();
    let (fresh, skipped) = partition_new_paths(scanned_paths, &existing);
    let fresh_paths: HashSet<String> = fresh.iter().map(|p| p.path.clone()).collect();
    let new_files: Vec<ScannedFile> =
        files.into_iter().filter(|f| fresh_paths.contains(&f.path)).collect();
    let (stats, _targets, _) = run_pipeline(store, 1, 3, new_files, total, skipped, false);
    stats
}

#[test]
fn test_pipeline_idempotent_rerun() {
    let mut store = Store::new();
    let files = vec![
        scanned("/photos/img_001.jpg", PhotoFormat::Jpeg, Some(1000)),
        scanned("/photos/img_002.jpg", PhotoFormat::Jpeg, Some(1001)),
    ];
    let first = import_folder(&mut store, files.clone());
    assert_eq!(first.imported, 2);
    assert_eq!(first.skipped_existing, 0);
    let photos_after_first = store.photos.len();

    let second = import_folder(&mut store, files);
    assert_eq!(second.imported, 0, "second run must import nothing");
    assert_eq!(second.skipped_existing, 2, "second run must skip every file");
    assert_eq!(store.photos.len(), photos_after_first, "no photo row duplicated");
    assert_eq!(second.logical_photos, first.logical_photos);
    assert_eq!(second.stacks_generated, first.stacks_generated);
}

#[test]
fn test_pipeline_pair_becomes_one_logical_photo() {
    let mut store = Store::new();
    let files = vec![
        scanned("/paired/IMG_0001.jpg", PhotoFormat::Jpeg, Some(500)),
        scanned("/paired/IMG_0001.CR2", PhotoFormat::Raw, Some(500)),
    ];
    let stats = import_folder(&mut store, files);
    assert_eq!(stats.pairs_detected, 1);
    assert_eq!(stats.logical_photos, 1, "a pair is one logical photo");
    assert_eq!(stats.stacks_generated, 1);
    assert_eq!(store.photos.len(), 2, "both files persist as photo rows");
    let lp = store.logical_photos[0];
    for p in &store.photos {
        assert_eq!(p.logical_photo_id, Some(lp.id), "both members link to the pair");
    }
}

#[test]
fn test_pipeline_burst_scenarios() {
    // Five captures one second apart with a gap of three: one stack.
    let mut store = Store::new();
    let files = (0..5)
        .map(|i| scanned(&format!("/b/a{}.jpg", i), PhotoFormat::Jpeg, Some(i)))
        .collect();
    let stats = import_folder(&mut store, files);
    assert_eq!(stats.stacks_generated, 1);

    // Two bursts of three, thirteen to fifteen seconds in: two stacks.
    let mut store2 = Store::new();
    let times = [0i64, 2, 3, 13, 14, 15];
    let files2 = times
        .iter()
        .map(|&t| scanned(&format!("/b/t{}.jpg", t), PhotoFormat::Jpeg, Some(t)))
        .collect();
    let stats2 = import_folder(&mut store2, files2);
    assert_eq!(stats2.stacks_generated, 2);

    // Gap zero and two distinct times: two stacks.
    let mut store3 = Store::new();
    let files3 = vec![
        scanned("/b/x.jpg", PhotoFormat::Jpeg, Some(10)),
        scanned("/b/y.jpg", PhotoFormat::Jpeg, Some(11)),
    ];
    let (stats3, _, _) = run_pipeline(&mut store3, 1, 0, files3, 2, 0, false);
    assert_eq!(stats3.stacks_generated, 2);
}

#[test]
fn test_pipeline_cancelled_before_persist_touches_nothing() {
    let mut store = Store::new();
    let files = vec![
        scanned("/c/a.jpg", PhotoFormat::Jpeg, Some(1)),
        scanned("/c/b.jpg", PhotoFormat::Jpeg, Some(2)),
    ];
    let (stats, targets, _) = run_pipeline(&mut store, 1, 3, files, 2, 0, true);
    assert!(stats.cancelled);
    assert_eq!(stats.stacks_generated, 0, "a cancelled run produces no stacks");
    assert_eq!(stats.imported, 0);
    assert!(targets.is_empty());
    assert_eq!(store.photos.len(), 0);
    assert_eq!(store.stacks.len(), 0);
}

#[test]
fn test_restack_preserves_logical_photo_ids() {
    let mut store = Store::new();
    let times = [0i64, 1, 2, 30, 31, 32];
    let files = times
        .iter()
        .map(|&t| scanned(&format!("/r/t{}.jpg", t), PhotoFormat::Jpeg, Some(t)))
        .collect();
    let stats = import_folder(&mut store, files);
    assert_eq!(stats.logical_photos, 6);
    assert_eq!(stats.stacks_generated, 2);

    let lp_ids_before: Vec<i64> = store.logical_photos.iter().map(|l| l.id).collect();
    let stack_ids_before: HashSet<i64> = store.stacks.iter().map(|s| s.id).collect();

    let restats = restack_from_existing_photos(&mut store, 1, 100);
    assert_eq!(restats.logical_photos, 6, "no logical photo lost or duplicated");
    assert_eq!(restats.stacks_generated, 1, "wide gap collapses to one stack");

    let lp_ids_after: Vec<i64> = store.logical_photos.iter().map(|l| l.id).collect();
    assert_eq!(lp_ids_before, lp_ids_after, "logical photo ids survive a restack");

    let stack_ids_after: HashSet<i64> = store.stacks.iter().map(|s| s.id).collect();
    assert!(
        stack_ids_after.is_disjoint(&stack_ids_before),
        "no stack id of the previous run reappears"
    );
}

#[test]
fn test_restack_empty_project_is_noop() {
    let mut store = Store::new();
    let stats = restack_from_existing_photos(&mut store, 1, 3);
    assert_eq!(stats.logical_photos, 0);
    assert_eq!(stats.stacks_generated, 0);
    assert_eq!(store.stacks.len(), 0);
}

#[test]
fn test_resume_returns_only_missing_thumbnails() {
    let mut store = Store::new();
    let files = vec![
        scanned("/m/a.jpg", PhotoFormat::Jpeg, Some(1)),
        scanned("/m/b.jpg", PhotoFormat::Jpeg, Some(100)),
        scanned("/m/c.jpg", PhotoFormat::Jpeg, Some(200)),
    ];
    import_folder(&mut store, files);
    let all_ids: Vec<i64> = store.logical_photos.iter().map(|l| l.id).collect();
    assert_eq!(all_ids.len(), 3);

    // Two previews already cached: only the third is reported.
    let cached = vec![all_ids[0], all_ids[1]];
    let (missing, total) = find_missing_thumbnail_targets(&store, 1, &cached);
    assert_eq!(total, 3, "total counts every logical photo, not just missing ones");
    assert_eq!(missing.len(), 1);
    assert_eq!(missing[0].0, all_ids[2]);

    // Everything cached: a no-op.
    let (none_missing, total2) = find_missing_thumbnail_targets(&store, 1, &all_ids);
    assert_eq!(total2, 3);
    assert!(none_missing.is_empty());
}

#[test]
fn test_partition_new_paths_skips_known() {
    let scanned_paths = classify_paths(vec![
        "/p/a.jpg".to_string(),
        "/p/b.jpg".to_string(),
        "/p/c.cr2".to_string(),
    ]);
    let existing = vec!["/p/b.jpg".to_string()];
    let (fresh, skipped) = partition_new_paths(scanned_paths, &existing);
    assert_eq!(skipped, 1);
    assert_eq!(fresh.len(), 2);
    assert_eq!(fresh[0].path, "/p/a.jpg");
    assert_eq!(fresh[1].path, "/p/c.cr2");
}

#[test]
fn test_log_error_caps_at_one_hundred_entries() {
    let mut stats = gem_keep::model::ImportStats::new();
    let mut i = 0;
    while i < 150 {
        log_error(&mut stats, format!("failure {}", i));
        i += 1;
    }
    assert_eq!(stats.errors, 150);
    assert_eq!(stats.error_log.len(), 100);
    assert_eq!(stats.error_log[0], "failure 0");
    assert_eq!(stats.error_log[99], "failure 99");
}

#[test]
fn test_store_insert_photo_is_insert_or_ignore() {
    let mut store = Store::new();
    let id1 = store.insert_photo(
        "/fake/photo.jpg".to_string(),
        PhotoFormat::Jpeg,
        Some(10),
        Some(1),
        Some("Canon".to_string()),
        None,
    );
    let id2 = store.insert_photo(
        "/fake/photo.jpg".to_string(),
        PhotoFormat::Jpeg,
        Some(999),
        None,
        None,
        None,
    );
    assert_eq!(id1, id2, "re-inserting the same path returns the existing row");
    assert_eq!(store.photos.len(), 1);
    assert_eq!(store.photos[0].capture_time, Some(10), "first write wins for metadata");
}

#[test]
fn test_list_representative_photos_for_lp_ids_returns_correct_rows() {
    let mut store = Store::new();
    let project_id = 1i64;
    let stack_id = store.insert_stack(project_id);
    let photo_id = store.insert_photo(
        "/fake/photo.jpg".to_string(),
        PhotoFormat::Jpeg,
        None,
        Some(1u16),
        None,
        None,
    );
    let lp_id = store.insert_logical_photo(project_id, photo_id, stack_id);

    let result = store.list_representative_photos_for_lp_ids(project_id, &vec![lp_id]);
    assert_eq!(result.len(), 1, "should return exactly 1 row");
    let (row_lp_id, row_path, row_format, row_orientation) = &result[0];
    assert_eq!(*row_lp_id, lp_id, "lp_id must match");
    assert_eq!(*row_path, "/fake/photo.jpg".to_string(), "path must match");
    assert_eq!(*row_format, PhotoFormat::Jpeg, "format must be Jpeg");
    assert_eq!(*row_orientation, Some(1u16), "orientation must be Some(1)");
}

#[test]
fn test_list_representative_photos_for_lp_ids_empty_input() {
    let store = Store::new();
    let result = store.list_representative_photos_for_lp_ids(1, &vec![]);
    assert!(result.is_empty(), "empty input must return empty vec");
}

#[test]
fn test_source_folders_roundtrip() {
    let mut store = Store::new();
    let id = store.add_source_folder(1, "/photos".to_string());
    assert!(store.folder_already_attached(1, &"/photos".to_string()));
    assert!(!store.folder_already_attached(2, &"/photos".to_string()));
    let listed = store.list_source_folders(1);
    assert_eq!(listed.len(), 1);
    assert_eq!(listed[0].path, "/photos");
    store.remove_source_folder(1, id);
    assert!(store.list_source_folders(1).is_empty());
}

#[test]
fn test_enrich_with_thumbnails_fills_cached_paths_only() {
    let mut summaries = vec![
        gem_keep::model::LogicalPhotoSummary {
            logical_photo_id: 7,
            thumbnail_path: None,
            capture_time: None,
            camera_model: None,
            lens: None,
            has_raw: false,
            has_jpeg: true,
        },
        gem_keep::model::LogicalPhotoSummary {
            logical_photo_id: 8,
            thumbnail_path: None,
            capture_time: None,
            camera_model: None,
            lens: None,
            has_raw: true,
            has_jpeg: false,
        },
    ];
    let cached = vec![7i64];
    gem_keep::store::enrich_with_thumbnails(&mut summaries, &cached, "/cache/thumbnails");
    assert_eq!(summaries[0].thumbnail_path.as_deref(), Some("/cache/thumbnails/7.jpg"));
    assert_eq!(summaries[1].thumbnail_path, None);
}
