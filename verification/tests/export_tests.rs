use photosort::export::{
    copy_to_category, copy_to_category_nested, fmt_bool, fmt_u32, fmt_u64, make_candidate,
    resolve_collision, split_file_name, ExportError,
};

#[test]
fn free_name_is_kept() {
    let existing = vec!["a.jpg".to_string()];
    let r = resolve_collision(&existing, "b.jpg").unwrap();
    assert_eq!(r, "b.jpg");
}

#[test]
fn collision_appends_numeric_suffix() {
    let existing = vec!["photo.jpg".to_string()];
    let r = resolve_collision(&existing, "photo.jpg").unwrap();
    assert_eq!(r, "photo_1.jpg");
}

#[test]
fn writing_twice_yields_two_distinct_files() {
    let mut existing: Vec<String> = Vec::new();
    let first = resolve_collision(&existing, "photo.jpg").unwrap();
    existing.push(first.clone());
    let second = resolve_collision(&existing, "photo.jpg").unwrap();
    assert_eq!(first, "photo.jpg");
    assert_eq!(second, "photo_1.jpg");
    assert_ne!(first, second);
}

#[test]
fn suffix_skips_taken_candidates() {
    let existing = vec![
        "photo.jpg".to_string(),
        "photo_1.jpg".to_string(),
        "photo_2.jpg".to_string(),
    ];
    let r = resolve_collision(&existing, "photo.jpg").unwrap();
    assert_eq!(r, "photo_3.jpg");
}

#[test]
fn suffix_ceiling_gives_explicit_error() {
    let mut existing = vec!["photo.jpg".to_string()];
    for c in 1..=9999u32 {
        existing.push(format!("photo_{}.jpg", c));
    }
    let r = resolve_collision(&existing, "photo.jpg");
    assert_eq!(r, Err(ExportError::TooManyDuplicates));
}

#[test]
fn split_name_basic() {
    assert_eq!(split_file_name("photo.jpg"), ("photo".to_string(), "jpg".to_string()));
    assert_eq!(split_file_name("a.b.c"), ("a.b".to_string(), "c".to_string()));
}

#[test]
fn split_name_defaults() {
    assert_eq!(split_file_name("noext"), ("noext".to_string(), "jpg".to_string()));
    assert_eq!(split_file_name(""), ("image".to_string(), "jpg".to_string()));
    assert_eq!(split_file_name(".hidden"), (".hidden".to_string(), "jpg".to_string()));
}

#[test]
fn candidate_format() {
    assert_eq!(make_candidate("photo", "jpg", 12), "photo_12.jpg");
}

#[test]
fn formatting_numbers_and_bools() {
    assert_eq!(fmt_u32(0), "0");
    assert_eq!(fmt_u32(9999), "9999");
    assert_eq!(fmt_u64(18446744073709551615), "18446744073709551615");
    assert_eq!(fmt_bool(true), "true");
    assert_eq!(fmt_bool(false), "false");
}

#[test]
fn category_path_is_joined() {
    let existing: Vec<String> = Vec::new();
    let p = copy_to_category("/out", "사람", "photo.jpg", &existing).unwrap();
    assert_eq!(p, "/out/사람/photo.jpg");
}

#[test]
fn nested_path_skips_blank_folders() {
    let existing: Vec<String> = Vec::new();
    let dirs = vec!["가치있음".to_string(), "  ".to_string(), "사람".to_string()];
    let p = copy_to_category_nested("/out", &dirs, "photo.jpg", &existing).unwrap();
    assert_eq!(p, "/out/가치있음/사람/photo.jpg");
}

#[test]
fn nested_path_resolves_collisions_too() {
    let existing = vec!["photo.jpg".to_string()];
    let dirs = vec!["가치없음".to_string(), "기타".to_string()];
    let p = copy_to_category_nested("/out", &dirs, "photo.jpg", &existing).unwrap();
    assert_eq!(p, "/out/가치없음/기타/photo_1.jpg");
}
