use seller_library::{Catalog, DeleteFolderRequest, FsTree};
use seller_library::delete_engine::{
    delete_folder_recursive, delete_folder_recursive_db_only, delete_photo, delete_photo_db_only,
};

fn library() -> (FsTree, Catalog, i64, i64, i64) {
    let mut fs = FsTree::new();
    fs.create_dir_all("/lib/Trip1").unwrap();
    fs.write_file("/lib/Trip1/x.jpg", 1, None, None).unwrap();
    fs.write_file("/lib/Trip1/z.jpg", 3, None, None).unwrap();
    fs.create_dir_all("/lib/Trip10").unwrap();
    fs.write_file("/lib/Trip10/y.jpg", 2, None, None).unwrap();
    let mut cat = Catalog::new();
    let x = cat.insert("/lib/Trip1/x.jpg", "/lib/Trip1/x.jpg", "x.jpg", Some(1), None, None, "t");
    let z = cat.insert("/lib/Trip1/z.jpg", "/lib/Trip1/z.jpg", "z.jpg", Some(3), None, None, "t");
    let y = cat.insert("/lib/Trip10/y.jpg", "/lib/Trip10/y.jpg", "y.jpg", Some(2), None, None, "t");
    (fs, cat, x, z, y)
}

#[test]
fn delete_photo_removes_file_and_record() {
    let (mut fs, mut cat, x, _, _) = library();
    delete_photo(&mut fs, &mut cat, x).unwrap();
    assert!(!fs.has_path("/lib/Trip1/x.jpg"));
    assert!(cat.get(x).is_none());
    assert_eq!(cat.rows.len(), 2);
}

#[test]
fn delete_photo_with_missing_file_still_removes_the_record() {
    let (mut fs, mut cat, x, _, _) = library();
    fs.remove_file("/lib/Trip1/x.jpg").unwrap();
    delete_photo(&mut fs, &mut cat, x).unwrap();
    assert!(cat.get(x).is_none());
}

#[test]
fn delete_photo_not_found() {
    let (mut fs, mut cat, _, _, _) = library();
    let r = delete_photo(&mut fs, &mut cat, 999);
    assert_eq!(r.unwrap_err(), "Photo not found");
    assert_eq!(cat.rows.len(), 3);
}

#[test]
fn delete_photo_db_only_leaves_the_file() {
    let (fs0, mut cat, x, _, _) = library();
    delete_photo_db_only(&mut cat, x).unwrap();
    assert!(cat.get(x).is_none());
    assert!(fs0.is_file("/lib/Trip1/x.jpg"));
    let again = delete_photo_db_only(&mut cat, x);
    assert_eq!(again.unwrap_err(), "Photo not found");
}

#[test]
fn folder_delete_follows_the_raw_prefix_policy() {
    // the chosen policy: rows are selected by raw string prefix, so the
    // sibling /lib/Trip10 row is deleted too; the physical removal takes
    // only the /lib/Trip1 subtree, so the sibling's file survives
    let (mut fs, mut cat, x, z, y) = library();
    let req = DeleteFolderRequest { folder_path: "/lib/Trip1".to_string() };
    let out = delete_folder_recursive(&mut fs, &mut cat, &req).unwrap();
    assert_eq!(out.deleted, 3);
    assert!(out.errors.is_empty());
    assert!(cat.get(x).is_none());
    assert!(cat.get(z).is_none());
    assert!(cat.get(y).is_none());
    assert!(!fs.has_path("/lib/Trip1"));
    assert!(!fs.has_path("/lib/Trip1/x.jpg"));
    assert!(fs.is_file("/lib/Trip10/y.jpg"));
    assert!(fs.is_dir("/lib/Trip10"));
}

#[test]
fn folder_delete_of_missing_folder_is_fatal() {
    let (mut fs, mut cat, _, _, _) = library();
    let req = DeleteFolderRequest { folder_path: "/lib/Nope".to_string() };
    let r = delete_folder_recursive(&mut fs, &mut cat, &req);
    assert_eq!(r.unwrap_err(), "Folder does not exist");
}

#[test]
fn folder_delete_db_only_leaves_the_tree() {
    let (fs0, mut cat, x, z, y) = library();
    let req = DeleteFolderRequest { folder_path: "/lib/Trip1".to_string() };
    let out = delete_folder_recursive_db_only(&mut cat, &req);
    assert_eq!(out.deleted, 3);
    assert!(out.errors.is_empty());
    assert!(cat.get(x).is_none() && cat.get(z).is_none() && cat.get(y).is_none());
    assert!(fs0.is_file("/lib/Trip1/x.jpg"));
}

#[test]
fn folder_delete_with_no_matching_rows_is_not_an_error() {
    let (mut fs, mut cat, _, _, _) = library();
    fs.create_dir_all("/lib/Empty").unwrap();
    let req = DeleteFolderRequest { folder_path: "/lib/Empty".to_string() };
    let out = delete_folder_recursive(&mut fs, &mut cat, &req).unwrap();
    assert_eq!(out.deleted, 0);
    assert!(out.errors.is_empty());
    assert_eq!(cat.rows.len(), 3);
}
