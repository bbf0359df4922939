use seller_library::Catalog;

#[test]
fn ids_are_assigned_in_order() {
    let mut cat = Catalog::new();
    let a = cat.insert("/p/a.jpg", "/p/a.jpg", "a.jpg", Some(1), None, None, "t");
    let b = cat.insert("/p/b.jpg", "/p/b.jpg", "b.jpg", Some(2), Some(8), Some(6), "t");
    assert_eq!(a, 1);
    assert_eq!(b, 2);
    assert_eq!(cat.next_id, 3);
    let row = cat.get(b).unwrap();
    assert_eq!(row.file_name, "b.jpg");
    assert_eq!(row.width, Some(8));
    assert_eq!(row.height, Some(6));
    assert!(cat.get(99).is_none());
}

#[test]
fn deleted_ids_are_not_reused() {
    let mut cat = Catalog::new();
    let a = cat.insert("/p/a.jpg", "/p/a.jpg", "a.jpg", None, None, None, "t");
    assert!(cat.delete(a));
    assert!(!cat.delete(a));
    let b = cat.insert("/p/b.jpg", "/p/b.jpg", "b.jpg", None, None, None, "t");
    assert_eq!(b, 2);
}

#[test]
fn prefix_selection_is_a_raw_string_match_in_row_order() {
    let mut cat = Catalog::new();
    cat.insert("/lib/Trip1/x.jpg", "/lib/Trip1/x.jpg", "x.jpg", None, None, None, "t");
    cat.insert("/lib/Other/o.jpg", "/lib/Other/o.jpg", "o.jpg", None, None, None, "t");
    cat.insert("/lib/Trip10/y.jpg", "/lib/Trip10/y.jpg", "y.jpg", None, None, None, "t");
    let sel = cat.select_prefix("/lib/Trip1");
    let names: Vec<String> = sel.iter().map(|p| p.file_name.clone()).collect();
    assert_eq!(names, vec!["x.jpg".to_string(), "y.jpg".to_string()]);
}

#[test]
fn update_paths_repoints_both_path_fields() {
    let mut cat = Catalog::new();
    let a = cat.insert("/p/a.jpg", "/import/a.jpg", "a.jpg", Some(1), None, None, "t");
    assert!(cat.update_paths(a, "/q/a.jpg"));
    let row = cat.get(a).unwrap();
    assert_eq!(row.file_path, "/q/a.jpg");
    assert_eq!(row.original_path, "/q/a.jpg");
    assert_eq!(row.file_name, "a.jpg");
    assert!(!cat.update_paths(99, "/x"));
}

#[test]
fn exact_path_lookup_matches_whole_strings() {
    let mut cat = Catalog::new();
    cat.insert("/p/a.jpg", "/p/a.jpg", "a.jpg", None, None, None, "t");
    assert!(cat.has_file_path("/p/a.jpg"));
    assert!(!cat.has_file_path("/p/a.jp"));
    assert!(!cat.has_file_path("/p/a.jpgg"));
}
