//! A verified catalog/filesystem synchronization engine for a photo library.
//!
//! The library models the two mutable stores — the filesystem tree and the
//! relational photo index — as explicit values, and verifies the operations
//! that must keep them in agreement: scanning, collision-safe naming,
//! import, move and deletion.

use vstd::prelude::*;

pub mod api;
pub mod catalog;
pub mod delete_engine;
pub mod edit_engine;
pub mod fs_model;
pub mod import_engine;
pub mod laws;
pub mod move_engine;
pub mod path_util;
pub mod resolve;
pub mod scan;
pub mod thumb;

pub use api::{
    CreateFolderRequest, ScanFolderStructureRequest, ScanFolderStructureResult, ScanVolumeResult,
    Volume, create_folder, filter_volumes, scan_folder_structure, scan_volume_for_photos,
};
pub use catalog::{Catalog, Photo};
pub use delete_engine::{
    DeleteFolderRequest, DeleteFolderResult, delete_folder_recursive,
    delete_folder_recursive_db_only, delete_photo, delete_photo_db_only,
};
pub use edit_engine::{SaveEditedPhotoRequest, save_edited_photo};
pub use fs_model::{FsEntry, FsNode, FsTree};
pub use import_engine::{ImportPhotosResult, ScanRequest, import_photos, scan_photos};
pub use move_engine::{MoveItemsRequest, MoveItemsResult, move_photos_and_folders};
pub use path_util::{is_hidden_name, is_image_file, is_photo_file};
pub use scan::FolderInfo;
pub use thumb::{build_previews, thumbnail_data_uri};

verus! {

/// The joint state that the engines mutate: the filesystem entries and
/// the catalog rows with the next free id. Batch contracts speak of
/// traces of these states, one per processed item.
pub struct EngState {
    pub fs: Seq<fs_model::FsEntry>,
    pub rows: Seq<catalog::Photo>,
    pub next_id: i64,
}

/// The joint state of a tree and a catalog.
pub open spec fn st(fs: fs_model::FsTree, cat: catalog::Catalog) -> EngState {
    EngState { fs: fs.entries@, rows: cat.rows@, next_id: cat.next_id }
}

} // verus!
