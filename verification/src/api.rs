//! Request and result shapes of the library's outward interface, and the
//! small operations that serve them directly: volume filtering, folder
//! creation, the volume scan and the folder-structure scan.

use vstd::prelude::*;
use vstd::string::*;
use crate::fs_model::{FsTree, spec_has, spec_dir_chain, spec_is_file, spec_is_dir};
use crate::path_util::spec_is_hidden_name;
use crate::scan::{
    FolderInfo, ScanKind, spec_scan_files, spec_scan_folders, spec_children, spec_views,
    spec_folder_views, scan_for_photos, scan_folders_dir, VOLUME_SCAN_DEPTH, INGEST_SCAN_DEPTH,
};
use crate::delete_engine::msg_with;

verus! {

/// A removable storage location: its display name and mount path. The
/// descriptor is ephemeral; it is never persisted.
#[derive(Debug)]
pub struct Volume {
    pub name: String,
    pub path: String,
}

/// The outcome of a volume scan: the qualifying photo paths, and a
/// best-effort preview data URI for up to the first few of them.
#[derive(Debug)]
pub struct ScanVolumeResult {
    pub photos: Vec<String>,
    pub previews: Vec<String>,
}

/// A request to create a directory, ancestors included.
#[derive(Debug)]
pub struct CreateFolderRequest {
    pub folder_path: String,
}

/// A request to list the folder structure under a root.
#[derive(Debug)]
pub struct ScanFolderStructureRequest {
    pub root_path: String,
}

/// The outcome of a folder-structure scan.
#[derive(Debug)]
pub struct ScanFolderStructureResult {
    pub folders: Vec<FolderInfo>,
}

impl Volume {
    /// A field-for-field copy of the descriptor.
    pub fn duplicate(&self) -> (r: Volume)
        ensures
            r == *self,
    {
        Volume { name: self.name.clone(), path: self.path.clone() }
    }
}

/// A mount entry worth listing: not a known system volume and not hidden.
pub open spec fn spec_volume_kept(name: Seq<char>) -> bool {
    name != "Macintosh HD"@ && name != "Data"@ && !spec_is_hidden_name(name)
}

/// Filters an enumerated mount list down to the volumes worth listing,
/// keeping their order.
pub fn filter_volumes(vols: &Vec<Volume>) -> (r: Vec<Volume>)
    ensures
        r@ == vols@.filter(|v: Volume| spec_volume_kept(v.name@)),
{
    let mut out: Vec<Volume> = Vec::new();
    let n = vols.len();
    let mut i: usize = 0;
    while i < n
        invariant
            n == vols@.len(),
            i <= n,
            out@ == vols@.subrange(0, i as int).filter(|v: Volume| spec_volume_kept(v.name@)),
        decreases n - i,
    {
        proof {
            let sub1 = vols@.subrange(0, i as int + 1);
            assert(sub1.drop_last() =~= vols@.subrange(0, i as int));
            assert(sub1.last() == vols@[i as int]);
            reveal_with_fuel(Seq::<_>::filter, 2);
        }
        let keep = !crate::path_util::str_eq(vols[i].name.as_str(), "Macintosh HD")
            && !crate::path_util::str_eq(vols[i].name.as_str(), "Data") && !crate::path_util::is_hidden_name(
            vols[i].name.as_str(),
        );
        if keep {
            let v = vols[i].duplicate();
            proof {
                assert(v == vols@[i as int]);
            }
            out.push(v);
            proof {
                assert(out@ =~= vols@.subrange(0, i as int + 1).filter(
                    |v: Volume| spec_volume_kept(v.name@),
                ));
            }
        }
        i += 1;
    }
    proof {
        assert(vols@.subrange(0, n as int) =~= vols@);
    }
    out
}

/// Creates a directory with its missing ancestors and echoes the path
/// back; fails when a file stands somewhere on the chain.
pub fn create_folder(fs: &mut FsTree, request: &CreateFolderRequest) -> (r: Result<String, String>)
    requires
        old(fs).wf(),
    ensures
        final(fs).wf(),
        r is Err <==> (exists|q: Seq<char>|
            spec_dir_chain(request.folder_path@, q) && spec_is_file(old(fs).entries@, q)),
        r matches Err(m) ==> *final(fs) == *old(fs) && m@ == "Failed to create folder: "@
            + request.folder_path@,
        r matches Ok(p) ==> p@ == request.folder_path@ && spec_is_dir(
            final(fs).entries@,
            request.folder_path@,
        ),
    {
    match fs.create_dir_all(request.folder_path.as_str()) {
        Ok(()) => {
            proof {
                assert(spec_dir_chain(request.folder_path@, request.folder_path@));
            }
            Ok(request.folder_path.clone())
        },
        Err(()) => Err(msg_with("Failed to create folder: ", request.folder_path.as_str())),
    }
}

/// Scans a volume for qualifying photo files: the bounded, hidden-skipping
/// walk in photo mode. The volume path must exist. Previews are built
/// separately, from the bytes of the first few returned paths.
pub fn scan_volume_for_photos(fs: &FsTree, volume_path: &str) -> (r: Result<Vec<String>, String>)
    requires
        fs.wf(),
    ensures
        r is Err <==> !spec_has(fs.entries@, volume_path@),
        r matches Err(m) ==> m@ == "Volume path does not exist"@,
        r matches Ok(photos) ==> spec_views(photos@) == spec_scan_files(
            fs.entries@,
            spec_children(fs.entries@, volume_path@),
            0,
            0,
            VOLUME_SCAN_DEPTH as nat,
            ScanKind::VolumePhotos,
            Seq::empty(),
        ),
{
    if !fs.has_path(volume_path) {
        return Err(String::from_str("Volume path does not exist"));
    }
    Ok(scan_for_photos(fs, volume_path, VOLUME_SCAN_DEPTH, ScanKind::VolumePhotos))
}

/// Lists every non-hidden directory under the root, parents before
/// children, each with its root-relative path and whether it has child
/// folders; the walk shares the scanner's depth bound. A missing or
/// non-directory root yields an empty listing, not an error.
pub fn scan_folder_structure(fs: &FsTree, request: &ScanFolderStructureRequest) -> (r:
    ScanFolderStructureResult)
    requires
        fs.wf(),
    ensures
        spec_folder_views(r.folders@) == spec_scan_folders(
            fs.entries@,
            spec_children(fs.entries@, request.root_path@),
            0,
            0,
            INGEST_SCAN_DEPTH as nat,
            request.root_path@,
        ),
{
    let mut folders: Vec<FolderInfo> = Vec::new();
    proof {
        assert(spec_folder_views(folders@) =~= Seq::<(Seq<char>, Seq<char>, bool)>::empty());
    }
    scan_folders_dir(
        fs,
        request.root_path.as_str(),
        request.root_path.as_str(),
        0,
        INGEST_SCAN_DEPTH,
        &mut folders,
    );
    proof {
        assert(Seq::<(Seq<char>, Seq<char>, bool)>::empty() + spec_scan_folders(
            fs.entries@,
            spec_children(fs.entries@, request.root_path@),
            0,
            0,
            INGEST_SCAN_DEPTH as nat,
            request.root_path@,
        ) =~= spec_scan_folders(
            fs.entries@,
            spec_children(fs.entries@, request.root_path@),
            0,
            0,
            INGEST_SCAN_DEPTH as nat,
            request.root_path@,
        ));
    }
    ScanFolderStructureResult { folders }
}

} // verus!
