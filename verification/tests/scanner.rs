use seller_library::api::{
    CreateFolderRequest, ScanFolderStructureRequest, create_folder, scan_folder_structure,
    scan_volume_for_photos,
};
use seller_library::FsTree;

fn volume_tree() -> FsTree {
    let mut fs = FsTree::new();
    fs.create_dir_all("/vol").unwrap();
    fs.write_file("/vol/a.jpg", 10, Some(4), Some(3)).unwrap();
    fs.write_file("/vol/b.png", 20, None, None).unwrap();
    fs.write_file("/vol/notes.txt", 5, None, None).unwrap();
    fs.write_file("/vol/.hidden.jpg", 7, None, None).unwrap();
    fs.create_dir_all("/vol/sub").unwrap();
    fs.write_file("/vol/sub/c.nef", 30, None, None).unwrap();
    fs.create_dir_all("/vol/.secret").unwrap();
    fs.write_file("/vol/.secret/d.jpg", 40, None, None).unwrap();
    fs
}

#[test]
fn volume_scan_finds_exactly_the_visible_photos() {
    let fs = volume_tree();
    let photos = scan_volume_for_photos(&fs, "/vol").unwrap();
    assert_eq!(
        photos,
        vec![
            "/vol/a.jpg".to_string(),
            "/vol/b.png".to_string(),
            "/vol/sub/c.nef".to_string(),
        ]
    );
}

#[test]
fn depth_zero_returns_only_direct_children() {
    let fs = volume_tree();
    let photos = seller_library::scan::scan_for_photos(
        &fs,
        "/vol",
        0,
        seller_library::scan::ScanKind::VolumePhotos,
    );
    assert_eq!(photos, vec!["/vol/a.jpg".to_string(), "/vol/b.png".to_string()]);
}

#[test]
fn duplicate_paths_are_suppressed() {
    let fs = volume_tree();
    let photos = scan_volume_for_photos(&fs, "/vol").unwrap();
    let mut sorted = photos.clone();
    sorted.sort();
    sorted.dedup();
    assert_eq!(sorted.len(), photos.len());
}

#[test]
fn hidden_directories_are_never_descended_into() {
    let fs = volume_tree();
    let photos = scan_volume_for_photos(&fs, "/vol").unwrap();
    assert!(photos.iter().all(|p| !p.starts_with("/vol/.secret")));
    assert!(photos.iter().all(|p| p != "/vol/.hidden.jpg"));
}

#[test]
fn missing_volume_is_an_error() {
    let fs = FsTree::new();
    let r = scan_volume_for_photos(&fs, "/nowhere");
    assert_eq!(r.unwrap_err(), "Volume path does not exist");
}

#[test]
fn folder_structure_lists_relative_paths_preorder() {
    let mut fs = FsTree::new();
    fs.create_dir_all("/root/A/inner").unwrap();
    fs.create_dir_all("/root/B").unwrap();
    fs.write_file("/root/A/p.jpg", 1, None, None).unwrap();
    let r = scan_folder_structure(
        &fs,
        &ScanFolderStructureRequest { root_path: "/root".to_string() },
    );
    let triples: Vec<(String, String, bool)> = r
        .folders
        .iter()
        .map(|f| (f.path.clone(), f.name.clone(), f.has_subfolders))
        .collect();
    assert_eq!(
        triples,
        vec![
            ("/A".to_string(), "A".to_string(), true),
            ("/A/inner".to_string(), "inner".to_string(), false),
            ("/B".to_string(), "B".to_string(), false),
        ]
    );
}

#[test]
fn folder_structure_of_missing_root_is_empty() {
    let fs = FsTree::new();
    let r = scan_folder_structure(
        &fs,
        &ScanFolderStructureRequest { root_path: "/nope".to_string() },
    );
    assert!(r.folders.is_empty());
}

#[test]
fn create_folder_builds_the_chain_and_echoes_the_path() {
    let mut fs = FsTree::new();
    let r = create_folder(&mut fs, &CreateFolderRequest { folder_path: "/a/b/c".to_string() });
    assert_eq!(r.unwrap(), "/a/b/c");
    assert!(fs.is_dir("/a"));
    assert!(fs.is_dir("/a/b"));
    assert!(fs.is_dir("/a/b/c"));
}

#[test]
fn create_folder_fails_on_a_file_in_the_chain() {
    let mut fs = FsTree::new();
    fs.write_file("/a", 1, None, None).unwrap();
    let r = create_folder(&mut fs, &CreateFolderRequest { folder_path: "/a/b".to_string() });
    assert_eq!(r.unwrap_err(), "Failed to create folder: /a/b");
    assert!(!fs.has_path("/a/b"));
}

#[test]
fn hidden_folders_are_skipped_in_folder_mode() {
    let mut fs = FsTree::new();
    fs.create_dir_all("/root/.git").unwrap();
    fs.create_dir_all("/root/ok").unwrap();
    let r = scan_folder_structure(
        &fs,
        &ScanFolderStructureRequest { root_path: "/root".to_string() },
    );
    assert_eq!(r.folders.len(), 1);
    assert_eq!(r.folders[0].name, "ok");
}
