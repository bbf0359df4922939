use seller_library::{is_hidden_name, is_image_file, is_photo_file};
use seller_library::path_util::{
    eq_ignore_ascii, file_name_part, is_under_dir, join_path, parent_part, replace_path_prefix,
    split_stem_ext, starts_with_str, str_eq,
};

#[test]
fn photo_extensions_are_case_insensitive() {
    assert!(is_photo_file("/vol/DCIM/IMG_0001.JPG"));
    assert!(is_photo_file("/vol/DCIM/IMG_0002.jpeg"));
    assert!(is_photo_file("/vol/raw/shot.CR2"));
    assert!(is_photo_file("/vol/raw/shot.arw"));
    assert!(is_photo_file("/vol/x.HeIc"));
    assert!(is_photo_file("/vol/x.tiff"));
}

#[test]
fn non_photos_are_rejected() {
    assert!(!is_photo_file("/vol/notes.txt"));
    assert!(!is_photo_file("/vol/noext"));
    assert!(!is_photo_file("/vol/.hidden"));
    assert!(!is_photo_file("/vol/archive.tar"));
    assert!(!is_photo_file(""));
}

#[test]
fn image_list_is_narrower_than_photo_list() {
    assert!(is_image_file("/a/b.png"));
    assert!(is_image_file("/a/b.WEBP"));
    assert!(!is_image_file("/a/b.cr2"));
    assert!(is_photo_file("/a/b.cr2"));
}

#[test]
fn trailing_dot_means_empty_extension() {
    // "photo." carries an empty extension, which is on no allow-list
    assert!(!is_photo_file("/a/photo."));
    let (stem, ext) = split_stem_ext("photo.");
    assert_eq!(stem, "photo");
    assert_eq!(ext, Some(String::new()));
}

#[test]
fn leading_dot_is_hidden_not_extension() {
    assert!(is_hidden_name(".config"));
    assert!(!is_hidden_name("config"));
    assert!(!is_hidden_name(""));
    let (stem, ext) = split_stem_ext(".config");
    assert_eq!(stem, ".config");
    assert_eq!(ext, None);
}

#[test]
fn stem_splits_at_last_dot() {
    let (stem, ext) = split_stem_ext("archive.tar.gz");
    assert_eq!(stem, "archive.tar");
    assert_eq!(ext, Some("gz".to_string()));
}

#[test]
fn file_name_and_parent_split_at_last_separator() {
    assert_eq!(file_name_part("/lib/A/x.jpg"), "x.jpg");
    assert_eq!(parent_part("/lib/A/x.jpg"), "/lib/A");
    assert_eq!(file_name_part("bare"), "bare");
    assert_eq!(parent_part("/x"), "");
    assert_eq!(join_path("", "x"), "/x");
    assert_eq!(join_path("/lib/A", "x.jpg"), "/lib/A/x.jpg");
}

#[test]
fn prefix_test_is_raw_but_under_test_is_boundary_aware() {
    // the catalog's selection hazard: Trip1 is a raw prefix of Trip10
    assert!(starts_with_str("/lib/Trip10/y.jpg", "/lib/Trip1"));
    // the physical containment test does not share it
    assert!(!is_under_dir("/lib/Trip10/y.jpg", "/lib/Trip1"));
    assert!(is_under_dir("/lib/Trip1/x.jpg", "/lib/Trip1"));
    assert!(!is_under_dir("/lib/Trip1", "/lib/Trip1"));
}

#[test]
fn string_helpers_compare_by_characters() {
    assert!(str_eq("abc", "abc"));
    assert!(!str_eq("abc", "abd"));
    assert!(!str_eq("abc", "ab"));
    assert!(eq_ignore_ascii("JPeG", "jpeg"));
    assert!(!eq_ignore_ascii("jpe", "jpeg"));
}

#[test]
fn replace_prefix_rewrites_the_head() {
    assert_eq!(replace_path_prefix("/lib/A/x.jpg", "/lib/A", "/lib/B/A"), "/lib/B/A/x.jpg");
    assert_eq!(replace_path_prefix("/lib/Trip10/y.jpg", "/lib/Trip1", "/dest/Trip1"), "/dest/Trip10/y.jpg");
}
