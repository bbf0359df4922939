use seller_library::FsTree;
use seller_library::resolve::{
    candidate_name, i64_to_dec, resolve_dir_dest, resolve_file_dest, resolve_numbered, u64_to_dec,
};

fn tree_with(paths: &[&str]) -> FsTree {
    let mut fs = FsTree::new();
    for p in paths {
        fs.write_file(p, 1, None, None).unwrap();
    }
    fs
}

#[test]
fn decimal_formatting_is_exact() {
    assert_eq!(u64_to_dec(0), "0");
    assert_eq!(u64_to_dec(7), "7");
    assert_eq!(u64_to_dec(10), "10");
    assert_eq!(u64_to_dec(90210), "90210");
    assert_eq!(i64_to_dec(-42), "-42");
    assert_eq!(i64_to_dec(5), "5");
}

#[test]
fn candidate_names_are_exact() {
    assert_eq!(candidate_name("IMG_0001", "jpg", 1), "IMG_0001 (1).jpg");
    assert_eq!(candidate_name("IMG_0001", "jpg", 12), "IMG_0001 (12).jpg");
    assert_eq!(candidate_name("folder", "", 3), "folder (3)");
}

#[test]
fn free_destination_is_returned_unchanged() {
    let fs = tree_with(&[]);
    let r = resolve_file_dest(&fs, "/dest", "x.jpg", 1).unwrap();
    assert_eq!(r, "/dest/x.jpg");
}

#[test]
fn taken_destination_gets_the_first_free_number() {
    let fs = tree_with(&["/dest/x.jpg"]);
    let r = resolve_file_dest(&fs, "/dest", "x.jpg", 1).unwrap();
    assert_eq!(r, "/dest/x (1).jpg");
    assert!(!fs.has_path(&r));
}

#[test]
fn numbers_are_exhausted_in_order_without_skipping() {
    // 1 and 2 are taken, 3 is free: 3 must be chosen, not anything later
    let fs = tree_with(&["/dest/x.jpg", "/dest/x (1).jpg", "/dest/x (2).jpg"]);
    let r = resolve_file_dest(&fs, "/dest", "x.jpg", 1).unwrap();
    assert_eq!(r, "/dest/x (3).jpg");
    assert!(!fs.has_path(&r));
}

#[test]
fn numbered_search_can_start_past_the_plain_name() {
    // the edited-copy path starts counting at 2 without trying the plain name
    let fs = tree_with(&["/lib/a.png"]);
    let r = resolve_numbered(&fs, "/lib", "a", "png", 2).unwrap();
    assert_eq!(r, "/lib/a (2).png");
}

#[test]
fn folder_names_are_numbered_whole() {
    let mut fs = FsTree::new();
    fs.create_dir_all("/dest/Trip.2024").unwrap();
    let r = resolve_dir_dest(&fs, "/dest", "Trip.2024", 1).unwrap();
    assert_eq!(r, "/dest/Trip.2024 (1)");
}

#[test]
fn extensionless_names_are_numbered_without_a_dot() {
    let fs = tree_with(&["/dest/readme"]);
    let r = resolve_file_dest(&fs, "/dest", "readme", 1).unwrap();
    assert_eq!(r, "/dest/readme (1)");
}
