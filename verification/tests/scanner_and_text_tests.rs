use gem_keep::model::{project_dir, PhotoFormat};
use gem_keep::paths::split_path;
use gem_keep::scanner::{classify_paths, detect_format};
use gem_keep::exif::{clean_text_field, combine_make_model};
use gem_keep::thumbs::{embedded_meets_size_gate, pick_largest_flagged, slice_range};

#[test]
fn test_detect_format_unsupported() {
    assert!(detect_format("file.nef").is_none());
    assert!(detect_format("file.txt").is_none());
    assert!(detect_format("file").is_none());
}

#[test]
fn test_detect_format_supported() {
    assert_eq!(detect_format("a.jpg"), Some(PhotoFormat::Jpeg));
    assert_eq!(detect_format("a.jpeg"), Some(PhotoFormat::Jpeg));
    assert_eq!(detect_format("a.cr2"), Some(PhotoFormat::Raw));
    assert_eq!(detect_format("a.cr3"), Some(PhotoFormat::Raw));
    assert_eq!(detect_format("a.arw"), Some(PhotoFormat::Raw));
}

#[test]
fn test_detect_format_case_insensitive() {
    assert_eq!(detect_format("/d/photo.CR2"), Some(PhotoFormat::Raw));
    assert_eq!(detect_format("/d/photo.JPG"), Some(PhotoFormat::Jpeg));
    assert_eq!(detect_format("/d/photo.JPEG"), Some(PhotoFormat::Jpeg));
    assert_eq!(detect_format("/d/photo.ARW"), Some(PhotoFormat::Raw));
}

#[test]
fn test_detect_format_hidden_file_has_no_extension() {
    assert!(detect_format("/d/.jpg").is_none());
}

#[test]
fn test_classify_paths_keeps_supported_only() {
    let paths = vec![
        "/p/a.jpg".to_string(),
        "/p/doc.pdf".to_string(),
        "/p/b.CR2".to_string(),
        "/p/readme.txt".to_string(),
    ];
    let classified = classify_paths(paths);
    assert_eq!(classified.len(), 2);
    assert_eq!(classified[0].path, "/p/a.jpg");
    assert_eq!(classified[0].format, PhotoFormat::Jpeg);
    assert_eq!(classified[1].path, "/p/b.CR2");
    assert_eq!(classified[1].format, PhotoFormat::Raw);
}

#[test]
fn test_split_path_dir_and_folded_stem() {
    let (dir, base) = split_path("/photos/IMG_0042.CR2");
    assert_eq!(dir, "/photos");
    assert_eq!(base, "img_0042");

    let (dir2, base2) = split_path("shot.jpg");
    assert_eq!(dir2, "");
    assert_eq!(base2, "shot");
}

#[test]
fn test_project_dir_helper() {
    assert_eq!(project_dir("/home/user/.gem-keep", "my-project"), "/home/user/.gem-keep/projects/my-project");
}

#[test]
fn test_thumbnail_size_gate_boundary() {
    assert!(embedded_meets_size_gate(200, 300));
    assert!(embedded_meets_size_gate(300, 200));
    assert!(embedded_meets_size_gate(200, 200));
    assert!(!embedded_meets_size_gate(199, 300));
    assert!(!embedded_meets_size_gate(300, 199));
}

#[test]
fn test_slice_range_copies_exact_window() {
    let v: Vec<u8> = vec![10, 11, 12, 13, 14, 15];
    assert_eq!(slice_range(&v, 2, 3), Some(vec![12, 13, 14]));
    assert_eq!(slice_range(&v, 0, 6), Some(v.clone()));
    assert_eq!(slice_range(&v, 4, 3), None);
    assert_eq!(slice_range(&v, 2, 0), None);
    assert_eq!(slice_range(&v, 7, 1), None);
}

#[test]
fn test_clean_text_field_trims_and_drops_empty() {
    let cleaned = clean_text_field(b"  Canon EOS R5 \t".to_vec());
    assert_eq!(cleaned, Some("Canon EOS R5".to_string()));
    assert_eq!(clean_text_field(b"   \t\r\n".to_vec()), None);
    assert_eq!(clean_text_field(Vec::new()), None);
}

#[test]
fn test_clean_text_field_keeps_wide_characters() {
    let name = "Voigtl\u{e4}nder 50mm".to_string();
    let cleaned = clean_text_field(name.clone().into_bytes());
    assert_eq!(cleaned, Some(name));
    // Broken encodings are dropped to absent rather than mangled.
    assert_eq!(clean_text_field(vec![0x56, 0xff, 0x21]), None);
}

#[test]
fn test_combine_make_model_collapses_prefix() {
    let combined = combine_make_model(&"Canon".to_string(), &"Canon EOS R5".to_string());
    assert_eq!(combined, Some("Canon EOS R5".to_string()));
    let combined2 = combine_make_model(&"Sony".to_string(), &"ILCE-7M4".to_string());
    assert_eq!(combined2, Some("Sony ILCE-7M4".to_string()));
    assert_eq!(combine_make_model(&"Nikon".to_string(), &"".to_string()), Some("Nikon".to_string()));
    assert_eq!(combine_make_model(&"".to_string(), &"".to_string()), None);
}

#[test]
fn test_pick_largest_flagged_prefers_longest() {
    let cands = vec![
        (true, vec![1u8, 2]),
        (false, vec![1u8, 2, 3, 4, 5, 6]),
        (true, vec![1u8, 2, 3, 4]),
        (true, vec![9u8]),
    ];
    assert_eq!(pick_largest_flagged(cands), Some(vec![1u8, 2, 3, 4]));
    let none_flagged = vec![(false, vec![1u8]), (false, vec![2u8, 3])];
    assert_eq!(pick_largest_flagged(none_flagged), None);
}
