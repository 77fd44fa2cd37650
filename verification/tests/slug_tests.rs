use gem_keep::slug::{generate_slug, is_valid_slug};

#[test]
fn test_iceland_2024() {
    let existing: Vec<String> = vec![];
    assert_eq!(generate_slug("Iceland 2024", &existing), "iceland-2024");
}

#[test]
fn test_trim_hyphens() {
    let existing: Vec<String> = vec![];
    assert_eq!(generate_slug("  --hello-- ", &existing), "hello");
}

#[test]
fn test_special_chars() {
    let existing: Vec<String> = vec![];
    assert_eq!(generate_slug("My Project!!!", &existing), "my-project");
}

#[test]
fn test_empty_string() {
    let existing: Vec<String> = vec![];
    assert_eq!(generate_slug("", &existing), "project");
}

#[test]
fn test_all_hyphens() {
    let existing: Vec<String> = vec![];
    assert_eq!(generate_slug("---", &existing), "project");
}

#[test]
fn test_uniqueness_single_existing() {
    let existing = vec!["my-project".to_string()];
    assert_eq!(generate_slug("my project", &existing), "my-project-2");
}

#[test]
fn test_uniqueness_two_existing() {
    let existing = vec!["my-project".to_string(), "my-project-2".to_string()];
    assert_eq!(generate_slug("my project", &existing), "my-project-3");
}

#[test]
fn test_truncation() {
    let existing: Vec<String> = vec![];
    let name = "a".repeat(70);
    let slug = generate_slug(&name, &existing);
    assert!(slug.len() <= 60, "slug too long: {}", slug.len());
}

#[test]
fn test_truncation_no_trailing_hyphen() {
    let existing: Vec<String> = vec![];
    let name = format!("{}x bbb", "a".repeat(59));
    let slug = generate_slug(&name, &existing);
    assert!(slug.len() <= 60);
    assert!(!slug.ends_with('-'));
}

#[test]
fn test_is_valid_slug_valid() {
    assert!(is_valid_slug("iceland-2024"));
}

#[test]
fn test_is_valid_slug_empty() {
    assert!(!is_valid_slug(""));
}

#[test]
fn test_is_valid_slug_uppercase() {
    assert!(!is_valid_slug("A-B"));
}

#[test]
fn test_is_valid_slug_leading_hyphen() {
    assert!(!is_valid_slug("-abc"));
}

#[test]
fn test_is_valid_slug_trailing_hyphen() {
    assert!(!is_valid_slug("abc-"));
}

#[test]
fn test_is_valid_slug_too_long() {
    let s = "a".repeat(61);
    assert!(!is_valid_slug(&s));
}

#[test]
fn test_is_valid_slug_exactly_60() {
    let s = "a".repeat(60);
    assert!(is_valid_slug(&s));
}
