use base64::Engine as _;
use seller_library::{Catalog, FsTree, SaveEditedPhotoRequest};
use seller_library::api::{Volume, filter_volumes};
use seller_library::edit_engine::save_edited_photo;
use seller_library::thumb::{build_previews, thumbnail_data_uri};

fn tiny_png(w: u32, h: u32) -> Vec<u8> {
    let img = image::RgbImage::from_pixel(w, h, image::Rgb([10, 20, 30]));
    let mut buf: Vec<u8> = Vec::new();
    let mut cursor = std::io::Cursor::new(&mut buf);
    image::DynamicImage::ImageRgb8(img)
        .write_to(&mut cursor, image::ImageOutputFormat::Png)
        .unwrap();
    buf
}

#[test]
fn thumbnail_is_a_bounded_jpeg_data_uri() {
    let uri = thumbnail_data_uri(&tiny_png(400, 200)).unwrap();
    let prefix = "data:image/jpeg;base64,";
    assert!(uri.starts_with(prefix));
    let payload = base64::engine::general_purpose::STANDARD
        .decode(&uri[prefix.len()..])
        .expect("the payload must be valid base64");
    let thumb = image::load_from_memory(&payload).expect("the payload must be a decodable image");
    // downsampled within the bound, aspect ratio preserved
    assert_eq!(image::GenericImageView::width(&thumb), 300);
    assert_eq!(image::GenericImageView::height(&thumb), 150);
}

#[test]
fn undecodable_buffers_yield_no_thumbnail() {
    assert!(thumbnail_data_uri(&vec![1, 2, 3, 4]).is_none());
    assert!(thumbnail_data_uri(&Vec::new()).is_none());
}

#[test]
fn previews_are_capped_and_best_effort() {
    let good = tiny_png(8, 8);
    let bad: Vec<u8> = vec![0, 1, 2];
    let buffers = vec![
        good.clone(),
        bad.clone(),
        good.clone(),
        good.clone(),
        good.clone(),
        good.clone(),
    ];
    let previews = build_previews(&buffers);
    // only the first four buffers are considered, and the bad one is
    // silently omitted
    assert_eq!(previews.len(), 3);
    assert!(previews.iter().all(|p| p.starts_with("data:image/jpeg;base64,")));
}

#[test]
fn save_edited_copy_numbers_from_two() {
    let mut fs = FsTree::new();
    fs.create_dir_all("/lib").unwrap();
    fs.write_file("/lib/a.jpg", 1, Some(1), Some(1)).unwrap();
    let mut cat = Catalog::new();
    let id = cat.insert("/lib/a.jpg", "/orig/a.jpg", "a.jpg", Some(1), Some(1), Some(1), "t");
    let png = tiny_png(40, 30);
    let req = SaveEditedPhotoRequest {
        base64_data: base64::engine::general_purpose::STANDARD.encode(&png),
        create_copy: true,
    };
    let photo = save_edited_photo(&mut fs, &mut cat, id, &req, "t1").unwrap();
    assert_eq!(photo.file_path, "/lib/a (2).jpg");
    // the copy's provenance carries the suffixed name under the old
    // provenance directory
    assert_eq!(photo.original_path, "/orig/a (2).jpg");
    assert_eq!(photo.file_name, "a (2).jpg");
    assert_eq!(photo.file_size, Some(png.len() as i64));
    assert_eq!(photo.width, Some(40));
    assert_eq!(photo.height, Some(30));
    assert!(fs.is_file("/lib/a (2).jpg"));
    assert!(fs.is_file("/lib/a.jpg"));
    assert_eq!(cat.rows.len(), 2);
}

#[test]
fn save_edited_overwrite_refreshes_the_record() {
    let mut fs = FsTree::new();
    fs.create_dir_all("/lib").unwrap();
    fs.write_file("/lib/a.jpg", 1, Some(9), Some(9)).unwrap();
    let mut cat = Catalog::new();
    let id = cat.insert("/lib/a.jpg", "/lib/a.jpg", "a.jpg", Some(1), Some(9), Some(9), "t");
    // a payload that is not an image keeps the old dimensions
    let req = SaveEditedPhotoRequest {
        base64_data: base64::engine::general_purpose::STANDARD.encode(b"hello"),
        create_copy: false,
    };
    let photo = save_edited_photo(&mut fs, &mut cat, id, &req, "t1").unwrap();
    assert_eq!(photo.file_path, "/lib/a.jpg");
    assert_eq!(photo.file_size, Some(5));
    assert_eq!(photo.width, Some(9));
    assert_eq!(photo.height, Some(9));
    assert_eq!(cat.rows.len(), 1);
}

#[test]
fn save_edited_rejects_bad_base64_with_detail() {
    let mut fs = FsTree::new();
    let mut cat = Catalog::new();
    let id = cat.insert("/lib/a.jpg", "/lib/a.jpg", "a.jpg", Some(1), None, None, "t");
    let req = SaveEditedPhotoRequest { base64_data: "!!!not base64!!!".to_string(), create_copy: false };
    let r = save_edited_photo(&mut fs, &mut cat, id, &req, "t1");
    let msg = r.unwrap_err();
    assert!(msg.starts_with("Failed to decode base64: "));
    assert!(msg.len() > "Failed to decode base64: ".len());
    assert_eq!(cat.rows.len(), 1);
}

#[test]
fn save_edited_missing_record() {
    let mut fs = FsTree::new();
    let mut cat = Catalog::new();
    let req = SaveEditedPhotoRequest {
        base64_data: base64::engine::general_purpose::STANDARD.encode(b"x"),
        create_copy: false,
    };
    let r = save_edited_photo(&mut fs, &mut cat, 5, &req, "t1");
    assert_eq!(r.unwrap_err(), "Photo not found");
}

#[test]
fn save_edited_missing_record_trumps_bad_payload() {
    // the record lookup comes first: a missing record reports itself even
    // when the payload would not decode either
    let mut fs = FsTree::new();
    let mut cat = Catalog::new();
    let req = SaveEditedPhotoRequest { base64_data: "!!!".to_string(), create_copy: true };
    let r = save_edited_photo(&mut fs, &mut cat, 7, &req, "t1");
    assert_eq!(r.unwrap_err(), "Photo not found");
}

#[test]
fn previews_come_from_the_buffers_in_order() {
    let a = tiny_png(20, 10);
    let b = tiny_png(10, 20);
    let previews = build_previews(&vec![a.clone(), b.clone()]);
    let ta = thumbnail_data_uri(&a).unwrap();
    let tb = thumbnail_data_uri(&b).unwrap();
    assert_eq!(previews, vec![ta, tb]);
}

#[test]
fn thumbnails_are_deterministic() {
    let png = tiny_png(33, 17);
    assert_eq!(thumbnail_data_uri(&png), thumbnail_data_uri(&png));
}

#[test]
fn system_volumes_are_filtered_out() {
    let vols = vec![
        Volume { name: "Macintosh HD".to_string(), path: "/Volumes/Macintosh HD".to_string() },
        Volume { name: "Data".to_string(), path: "/Volumes/Data".to_string() },
        Volume { name: ".TimeMachine".to_string(), path: "/Volumes/.TimeMachine".to_string() },
        Volume { name: "SD_CARD".to_string(), path: "/Volumes/SD_CARD".to_string() },
    ];
    let kept = filter_volumes(&vols);
    assert_eq!(kept.len(), 1);
    assert_eq!(kept[0].name, "SD_CARD");
    assert_eq!(kept[0].path, "/Volumes/SD_CARD");
}
