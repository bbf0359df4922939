use seller_library::{Catalog, FsTree, MoveItemsRequest};
use seller_library::delete_engine::delete_photo;
use seller_library::import_engine::{import_photos_at, scan_photos, ScanRequest};
use seller_library::move_engine::move_photos_and_folders;

#[test]
fn scan_photos_missing_source_is_fatal() {
    let fs = FsTree::new();
    let mut cat = Catalog::new();
    let r = scan_photos(&fs, &mut cat, &ScanRequest { source_path: "/gone".to_string() }, "t");
    assert_eq!(r.unwrap_err(), "Source path does not exist");
}

#[test]
fn delete_photo_blocked_by_undeletable_path() {
    // the record's stored path names a directory: the physical removal
    // fails and blocks the record delete, keeping the stores together
    let mut fs = FsTree::new();
    fs.create_dir_all("/lib/oops").unwrap();
    let mut cat = Catalog::new();
    let id = cat.insert("/lib/oops", "/lib/oops", "oops", None, None, None, "t");
    let r = delete_photo(&mut fs, &mut cat, id);
    assert_eq!(r.unwrap_err(), "Failed to delete file: /lib/oops");
    assert!(cat.get(id).is_some());
    assert!(fs.is_dir("/lib/oops"));
}

#[test]
fn import_folder_blocked_by_a_file_in_the_chain() {
    let mut fs = FsTree::new();
    fs.create_dir_all("/lib").unwrap();
    fs.write_file("/lib/T", 1, None, None).unwrap();
    let mut cat = Catalog::new();
    let photos: Vec<String> = vec![];
    let r = import_photos_at(&mut fs, &mut cat, &photos, "/lib", "T", &None, false, "t");
    assert_eq!(r.unwrap_err(), "Failed to create import folder: /lib/T");
}

#[test]
fn sidecar_blocked_by_a_directory() {
    let mut fs = FsTree::new();
    fs.create_dir_all("/lib/T/description.txt").unwrap();
    let mut cat = Catalog::new();
    let photos: Vec<String> = vec![];
    let desc = Some("notes".to_string());
    let r = import_photos_at(&mut fs, &mut cat, &photos, "/lib", "T", &desc, false, "t");
    assert_eq!(r.unwrap_err(), "Failed to write description file: /lib/T/description.txt");
}

#[test]
fn import_of_a_directory_source_is_a_per_item_error() {
    let mut fs = FsTree::new();
    fs.create_dir_all("/vol/folder.jpg").unwrap();
    fs.create_dir_all("/lib").unwrap();
    let mut cat = Catalog::new();
    let photos = vec!["/vol/folder.jpg".to_string()];
    let out = import_photos_at(&mut fs, &mut cat, &photos, "/lib", "T", &None, false, "t").unwrap();
    assert_eq!(out.imported, 0);
    assert_eq!(out.errors, vec!["Failed to copy: /vol/folder.jpg".to_string()]);
}

#[test]
fn move_of_a_record_with_no_file_name_is_a_per_item_error() {
    let mut fs = FsTree::new();
    fs.create_dir_all("/dest").unwrap();
    fs.write_file("/lib/x/", 1, None, None).unwrap();
    let mut cat = Catalog::new();
    let id = cat.insert("/lib/x/", "/lib/x/", "", Some(1), None, None, "t");
    let req = MoveItemsRequest {
        photo_ids: vec![id],
        folder_paths: vec![],
        destination_path: "/dest".to_string(),
    };
    let out = move_photos_and_folders(&mut fs, &mut cat, &req).unwrap();
    assert_eq!(out.moved, 0);
    assert_eq!(out.errors, vec!["Invalid file name: /lib/x/".to_string()]);
}

#[test]
fn move_of_a_record_whose_file_is_gone_is_a_per_item_error() {
    let mut fs = FsTree::new();
    fs.create_dir_all("/dest").unwrap();
    let mut cat = Catalog::new();
    let id = cat.insert("/lib/a.jpg", "/lib/a.jpg", "a.jpg", Some(1), None, None, "t");
    let req = MoveItemsRequest {
        photo_ids: vec![id],
        folder_paths: vec![],
        destination_path: "/dest".to_string(),
    };
    let out = move_photos_and_folders(&mut fs, &mut cat, &req).unwrap();
    assert_eq!(out.moved, 0);
    assert_eq!(out.errors, vec!["Source file not found: /lib/a.jpg".to_string()]);
}

#[test]
fn move_destination_blocked_by_a_file_is_fatal() {
    let mut fs = FsTree::new();
    fs.write_file("/dest", 1, None, None).unwrap();
    let mut cat = Catalog::new();
    let req = MoveItemsRequest {
        photo_ids: vec![],
        folder_paths: vec![],
        destination_path: "/dest/sub".to_string(),
    };
    let r = move_photos_and_folders(&mut fs, &mut cat, &req);
    assert_eq!(r.unwrap_err(), "Failed to create destination directory: /dest/sub");
}
