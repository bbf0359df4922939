use seller_library::{Catalog, FsTree, MoveItemsRequest};
use seller_library::import_engine::{ScanRequest, import_photos, import_photos_at, scan_photos};
use seller_library::move_engine::move_photos_and_folders;

fn source_tree() -> FsTree {
    let mut fs = FsTree::new();
    fs.create_dir_all("/vol").unwrap();
    fs.write_file("/vol/a.jpg", 10, Some(4), Some(3)).unwrap();
    fs.write_file("/vol/b.png", 20, None, None).unwrap();
    fs.write_file("/vol/c.gif", 30, Some(1), Some(1)).unwrap();
    fs.create_dir_all("/lib").unwrap();
    fs
}

#[test]
fn import_copies_records_and_counts() {
    let mut fs = source_tree();
    let mut cat = Catalog::new();
    let photos = vec!["/vol/a.jpg".to_string(), "/vol/b.png".to_string()];
    let out = import_photos_at(
        &mut fs,
        &mut cat,
        &photos,
        "/lib",
        "Trip",
        &None,
        false,
        "t0",
    )
    .unwrap();
    assert_eq!(out.imported, 2);
    assert!(out.errors.is_empty());
    assert!(fs.is_file("/lib/Trip/a.jpg"));
    assert!(fs.is_file("/lib/Trip/b.png"));
    // sources are kept without the delete flag
    assert!(fs.is_file("/vol/a.jpg"));
    assert_eq!(cat.rows.len(), 2);
    assert_eq!(cat.rows[0].file_path, "/lib/Trip/a.jpg");
    // provenance is repointed to the destination, not the source
    assert_eq!(cat.rows[0].original_path, "/lib/Trip/a.jpg");
    assert_eq!(cat.rows[0].file_name, "a.jpg");
    assert_eq!(cat.rows[0].file_size, Some(10));
    assert_eq!(cat.rows[0].width, Some(4));
    assert_eq!(cat.rows[0].created_at, "t0");
}

#[test]
fn import_with_custom_folder_name_uses_it() {
    let mut fs = source_tree();
    let mut cat = Catalog::new();
    let photos = vec!["/vol/a.jpg".to_string()];
    let out = import_photos(
        &mut fs,
        &mut cat,
        &photos,
        "/lib",
        "custom",
        &Some("Holiday".to_string()),
        &None,
        false,
    )
    .unwrap();
    assert_eq!(out.imported, 1);
    assert!(fs.is_file("/lib/Holiday/a.jpg"));
}

#[test]
fn import_with_empty_custom_name_falls_back() {
    let mut fs = source_tree();
    let mut cat = Catalog::new();
    let photos = vec!["/vol/a.jpg".to_string()];
    let out = import_photos(
        &mut fs,
        &mut cat,
        &photos,
        "/lib",
        "custom",
        &Some(String::new()),
        &None,
        false,
    )
    .unwrap();
    assert_eq!(out.imported, 1);
    assert!(fs.is_file("/lib/imported_photos/a.jpg"));
}

#[test]
fn import_without_custom_name_falls_back() {
    let mut fs = source_tree();
    let mut cat = Catalog::new();
    let photos = vec!["/vol/a.jpg".to_string()];
    let out = import_photos(&mut fs, &mut cat, &photos, "/lib", "custom", &None, &None, false)
        .unwrap();
    assert_eq!(out.imported, 1);
    assert!(fs.is_file("/lib/imported_photos/a.jpg"));
}

#[test]
fn import_twice_suffixes_the_second_copy() {
    let mut fs = source_tree();
    let mut cat = Catalog::new();
    let photos = vec!["/vol/a.jpg".to_string()];
    let first = import_photos_at(&mut fs, &mut cat, &photos, "/lib", "Trip", &None, false, "t0")
        .unwrap();
    let second = import_photos_at(&mut fs, &mut cat, &photos, "/lib", "Trip", &None, false, "t1")
        .unwrap();
    assert_eq!(first.imported, 1);
    assert_eq!(second.imported, 1);
    assert!(fs.is_file("/lib/Trip/a.jpg"));
    assert!(fs.is_file("/lib/Trip/a (1).jpg"));
    assert_eq!(cat.rows.len(), 2);
    assert_eq!(cat.rows[1].file_path, "/lib/Trip/a (1).jpg");
}

#[test]
fn import_missing_destination_is_fatal() {
    let mut fs = source_tree();
    let mut cat = Catalog::new();
    let photos = vec!["/vol/a.jpg".to_string()];
    let r = import_photos_at(&mut fs, &mut cat, &photos, "/nowhere", "T", &None, false, "t0");
    assert_eq!(r.unwrap_err(), "Destination path does not exist");
}

#[test]
fn import_missing_source_is_a_per_item_error() {
    let mut fs = source_tree();
    let mut cat = Catalog::new();
    let photos = vec!["/vol/gone.jpg".to_string(), "/vol/a.jpg".to_string()];
    let out = import_photos_at(&mut fs, &mut cat, &photos, "/lib", "T", &None, false, "t0")
        .unwrap();
    assert_eq!(out.imported, 1);
    assert_eq!(out.errors, vec!["Source file not found: /vol/gone.jpg".to_string()]);
}

#[test]
fn import_writes_the_description_sidecar() {
    let mut fs = source_tree();
    let mut cat = Catalog::new();
    let photos: Vec<String> = vec![];
    let desc = Some("a fine trip".to_string());
    import_photos_at(&mut fs, &mut cat, &photos, "/lib", "T", &desc, false, "t0").unwrap();
    assert!(fs.is_file("/lib/T/description.txt"));
    // a blank description writes nothing
    let blank = Some("  \n".to_string());
    import_photos_at(&mut fs, &mut cat, &photos, "/lib", "U", &blank, false, "t0").unwrap();
    assert!(!fs.has_path("/lib/U/description.txt"));
}

#[test]
fn import_existing_record_counts_without_duplicate_row() {
    let mut fs = source_tree();
    let mut cat = Catalog::new();
    // a record already stores the destination path exactly
    cat.insert("/lib/T/a.jpg", "/lib/T/a.jpg", "a.jpg", Some(10), None, None, "t");
    let photos = vec!["/vol/a.jpg".to_string()];
    let out = import_photos_at(&mut fs, &mut cat, &photos, "/lib", "T", &None, false, "t0")
        .unwrap();
    assert_eq!(out.imported, 1);
    assert_eq!(cat.rows.len(), 1);
}

#[test]
fn scan_photos_ingests_in_place() {
    let mut fs = source_tree();
    fs.write_file("/vol/skip.cr2", 9, None, None).unwrap();
    let mut cat = Catalog::new();
    let req = ScanRequest { source_path: "/vol".to_string() };
    let out = scan_photos(&fs, &mut cat, &req, "t0").unwrap();
    // the ingestion list covers jpg/png/gif but not raw formats
    assert_eq!(out.imported, 3);
    assert!(out.errors.is_empty());
    assert_eq!(cat.rows.len(), 3);
    assert_eq!(cat.rows[0].file_path, "/vol/a.jpg");
    assert_eq!(cat.rows[0].original_path, "/vol/a.jpg");
    // ingesting again inserts nothing new but still counts
    let again = scan_photos(&fs, &mut cat, &req, "t1").unwrap();
    assert_eq!(again.imported, 3);
    assert_eq!(cat.rows.len(), 3);
}

#[test]
fn move_photo_renames_on_collision() {
    let mut fs = source_tree();
    let mut cat = Catalog::new();
    let id = cat.insert("/vol/a.jpg", "/vol/a.jpg", "a.jpg", Some(10), None, None, "t");
    fs.create_dir_all("/dest").unwrap();
    fs.write_file("/dest/a.jpg", 1, None, None).unwrap();
    let req = MoveItemsRequest {
        photo_ids: vec![id],
        folder_paths: vec![],
        destination_path: "/dest".to_string(),
    };
    let out = move_photos_and_folders(&mut fs, &mut cat, &req).unwrap();
    assert_eq!(out.moved, 1);
    assert!(out.errors.is_empty());
    assert!(fs.is_file("/dest/a (1).jpg"));
    assert!(!fs.has_path("/vol/a.jpg"));
    let row = cat.get(id).unwrap();
    assert_eq!(row.file_path, "/dest/a (1).jpg");
    assert_eq!(row.original_path, "/dest/a (1).jpg");
}

#[test]
fn move_folder_relocates_subtree_and_records() {
    let mut fs = FsTree::new();
    fs.create_dir_all("/lib/A").unwrap();
    fs.write_file("/lib/A/x.jpg", 5, None, None).unwrap();
    fs.create_dir_all("/lib/B").unwrap();
    let mut cat = Catalog::new();
    let id = cat.insert("/lib/A/x.jpg", "/lib/A/x.jpg", "x.jpg", Some(5), None, None, "t");
    let req = MoveItemsRequest {
        photo_ids: vec![],
        folder_paths: vec!["/lib/A".to_string()],
        destination_path: "/lib/B".to_string(),
    };
    let out = move_photos_and_folders(&mut fs, &mut cat, &req).unwrap();
    assert_eq!(out.moved, 1);
    assert!(out.errors.is_empty());
    assert!(fs.is_file("/lib/B/A/x.jpg"));
    assert!(!fs.has_path("/lib/A/x.jpg"));
    assert!(!fs.has_path("/lib/A"));
    assert_eq!(cat.get(id).unwrap().file_path, "/lib/B/A/x.jpg");
}

#[test]
fn move_folder_repoints_prefix_matched_siblings() {
    // the raw-prefix selection also repoints records under /lib/Trip10
    // when /lib/Trip1 is moved, although their files never move
    let mut fs = FsTree::new();
    fs.create_dir_all("/lib/Trip1").unwrap();
    fs.write_file("/lib/Trip1/x.jpg", 1, None, None).unwrap();
    fs.create_dir_all("/lib/Trip10").unwrap();
    fs.write_file("/lib/Trip10/y.jpg", 2, None, None).unwrap();
    fs.create_dir_all("/dest").unwrap();
    let mut cat = Catalog::new();
    let x = cat.insert("/lib/Trip1/x.jpg", "/lib/Trip1/x.jpg", "x.jpg", Some(1), None, None, "t");
    let y = cat.insert("/lib/Trip10/y.jpg", "/lib/Trip10/y.jpg", "y.jpg", Some(2), None, None, "t");
    let req = MoveItemsRequest {
        photo_ids: vec![],
        folder_paths: vec!["/lib/Trip1".to_string()],
        destination_path: "/dest".to_string(),
    };
    let out = move_photos_and_folders(&mut fs, &mut cat, &req).unwrap();
    assert_eq!(out.moved, 2);
    assert_eq!(cat.get(x).unwrap().file_path, "/dest/Trip1/x.jpg");
    // the sibling's record is repointed while its file stays put
    assert_eq!(cat.get(y).unwrap().file_path, "/dest/Trip10/y.jpg");
    assert!(fs.is_file("/lib/Trip10/y.jpg"));
    assert!(!fs.has_path("/dest/Trip10/y.jpg"));
}

#[test]
fn move_missing_photo_is_a_per_item_error() {
    let mut fs = FsTree::new();
    fs.create_dir_all("/dest").unwrap();
    let mut cat = Catalog::new();
    let req = MoveItemsRequest {
        photo_ids: vec![77],
        folder_paths: vec![],
        destination_path: "/dest".to_string(),
    };
    let out = move_photos_and_folders(&mut fs, &mut cat, &req).unwrap();
    assert_eq!(out.moved, 0);
    assert_eq!(out.errors, vec!["Photo not found: 77".to_string()]);
}

#[test]
fn move_missing_folder_is_a_per_item_error() {
    let mut fs = FsTree::new();
    fs.create_dir_all("/dest").unwrap();
    let mut cat = Catalog::new();
    let req = MoveItemsRequest {
        photo_ids: vec![],
        folder_paths: vec!["/lib/Nope".to_string()],
        destination_path: "/dest".to_string(),
    };
    let out = move_photos_and_folders(&mut fs, &mut cat, &req).unwrap();
    assert_eq!(out.moved, 0);
    assert_eq!(out.errors, vec!["Source folder not found: /lib/Nope".to_string()]);
}

#[test]
fn move_creates_a_missing_destination() {
    let mut fs = FsTree::new();
    fs.create_dir_all("/lib/A").unwrap();
    let mut cat = Catalog::new();
    let req = MoveItemsRequest {
        photo_ids: vec![],
        folder_paths: vec!["/lib/A".to_string()],
        destination_path: "/made/up".to_string(),
    };
    let out = move_photos_and_folders(&mut fs, &mut cat, &req).unwrap();
    assert_eq!(out.moved, 0);
    assert!(out.errors.is_empty());
    assert!(fs.has_path("/made/up/A"));
}

#[test]
fn end_to_end_scan_import_delete_sources() {
    // scan a directory with 3 qualifying images, 1 non-image file and 1
    // hidden file; import the 3 with delete-after
    let mut fs = FsTree::new();
    fs.create_dir_all("/vol").unwrap();
    fs.write_file("/vol/a.jpg", 1, None, None).unwrap();
    fs.write_file("/vol/b.png", 2, None, None).unwrap();
    fs.write_file("/vol/c.nef", 3, None, None).unwrap();
    fs.write_file("/vol/readme.txt", 4, None, None).unwrap();
    fs.write_file("/vol/.thumbs.jpg", 5, None, None).unwrap();
    fs.create_dir_all("/lib").unwrap();
    let photos = seller_library::api::scan_volume_for_photos(&fs, "/vol").unwrap();
    assert_eq!(photos.len(), 3);
    let mut cat = Catalog::new();
    let out = import_photos_at(&mut fs, &mut cat, &photos, "/lib", "Trip", &None, true, "t0")
        .unwrap();
    assert_eq!(out.imported, 3);
    assert!(out.errors.is_empty());
    assert_eq!(cat.rows.len(), 3);
    assert!(!fs.has_path("/vol/a.jpg"));
    assert!(!fs.has_path("/vol/b.png"));
    assert!(!fs.has_path("/vol/c.nef"));
    assert!(fs.is_file("/lib/Trip/a.jpg"));
    assert!(fs.is_file("/lib/Trip/b.png"));
    assert!(fs.is_file("/lib/Trip/c.nef"));
}
