use gem_keep::model::{PhotoFormat, ScannedFile};
use gem_keep::pairs::detect_pairs;
use gem_keep::paths::split_path;

fn make_file(dir: &str, name: &str, format: PhotoFormat) -> ScannedFile {
    let path = format!("{}/{}", dir, name);
    let (d, base_name) = split_path(&path);
    ScannedFile {
        path,
        format,
        capture_time: None,
        camera_model: None,
        lens: None,
        orientation: None,
        base_name,
        dir: d,
    }
}

#[test]
fn test_pair_cr2_jpeg() {
    let files = vec![
        make_file("/photos", "img_0001.cr2", PhotoFormat::Raw),
        make_file("/photos", "img_0001.jpg", PhotoFormat::Jpeg),
    ];
    let groups = detect_pairs(files);
    assert_eq!(groups.len(), 1);
    assert!(groups[0].is_pair);
    assert!(groups[0].jpeg.is_some());
    assert!(groups[0].raw.is_some());
}

#[test]
fn test_pair_case_insensitive() {
    let f1 = make_file("/photos", "IMG_0001.cr2", PhotoFormat::Raw);
    let f2 = make_file("/photos", "IMG_0001.jpg", PhotoFormat::Jpeg);
    assert_eq!(f1.base_name, "img_0001");

    let groups = detect_pairs(vec![f1, f2]);
    assert_eq!(groups.len(), 1);
    assert!(groups[0].is_pair);
}

#[test]
fn test_pair_no_match() {
    let files = vec![
        make_file("/photos", "img_0001.cr2", PhotoFormat::Raw),
        make_file("/photos", "img_0002.jpg", PhotoFormat::Jpeg),
    ];
    let groups = detect_pairs(files);
    assert_eq!(groups.len(), 2);
    assert!(groups.iter().all(|g| !g.is_pair));
}

#[test]
fn test_pair_jpeg_only() {
    let files = vec![make_file("/photos", "img.jpg", PhotoFormat::Jpeg)];
    let groups = detect_pairs(files);
    assert_eq!(groups.len(), 1);
    assert!(!groups[0].is_pair);
    assert!(groups[0].jpeg.is_some());
    assert!(groups[0].raw.is_none());
}

#[test]
fn test_pair_raw_only() {
    let files = vec![make_file("/photos", "img.cr2", PhotoFormat::Raw)];
    let groups = detect_pairs(files);
    assert_eq!(groups.len(), 1);
    assert!(!groups[0].is_pair);
    assert!(groups[0].raw.is_some());
    assert!(groups[0].jpeg.is_none());
}

#[test]
fn test_pair_three_way() {
    let f1 = make_file("/photos", "a.cr2", PhotoFormat::Raw);
    let f2 = make_file("/photos", "a.cr3", PhotoFormat::Raw);
    let f3 = make_file("/photos", "a.jpg", PhotoFormat::Jpeg);

    let groups = detect_pairs(vec![f1, f2, f3]);
    assert_eq!(groups.len(), 3);
    assert!(groups.iter().all(|g| !g.is_pair));
}

#[test]
fn test_pair_cross_directory() {
    let files = vec![
        make_file("/photos/a", "img.cr2", PhotoFormat::Raw),
        make_file("/photos/b", "img.jpg", PhotoFormat::Jpeg),
    ];
    let groups = detect_pairs(files);
    assert_eq!(groups.len(), 2);
    assert!(groups.iter().all(|g| !g.is_pair));
}

#[test]
fn test_pair_same_format_two_jpegs_split() {
    // Two same-format files at one key never pair: they fall apart
    // into two singletons.
    let f1 = make_file("/photos", "b.jpg", PhotoFormat::Jpeg);
    let mut f2 = make_file("/photos", "b.jpeg", PhotoFormat::Jpeg);
    f2.base_name = "b".to_string();
    let groups = detect_pairs(vec![f1, f2]);
    assert_eq!(groups.len(), 2);
    assert!(groups.iter().all(|g| !g.is_pair));
}
