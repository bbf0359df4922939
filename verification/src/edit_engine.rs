//! Saving an edited photo.
//!
//! The edited image arrives as a base64 payload. In copy mode a new file
//! is written beside the original under a collision-suffixed name counted
//! from 2, and a new record is inserted whose provenance path carries the
//! suffixed name under the old record's provenance directory. In
//! overwrite mode the original file is rewritten in place and the
//! record's size and dimensions are refreshed — keeping the old
//! dimensions when the new payload does not decode.

use vstd::prelude::*;
use vstd::string::*;
use crate::catalog::{Catalog, Photo, cat_has, cat_row, cat_index_of};
use crate::fs_model::{FsTree, FsNode, spec_has, spec_is_dir, spec_index_of};
use crate::path_util::{
    spec_file_name, spec_parent, spec_stem, spec_ext, spec_join, spec_starts_with, file_name_part,
    parent_part, split_stem_ext, join_path,
};
use crate::resolve::{
    spec_resolve_numbered, resolve_numbered, lemma_resolve_no_skip, COLLISION_CAP,
};
use crate::thumb::{from_base64, decode_dims, b64_decode_of, decoded_dims_of};
use crate::delete_engine::msg_with;
use crate::{EngState, st};

verus! {

/// A request to save an edited image over a cataloged photo.
#[derive(Debug)]
pub struct SaveEditedPhotoRequest {
    pub base64_data: String,
    pub create_copy: bool,
}

/// What saving an edited payload does, for a fixed payload length and
/// decode outcome. A missing record fails; in copy mode an empty file
/// name or an exhausted resolver fails; in overwrite mode a stored path
/// that names a directory fails. Otherwise the file is written and the
/// catalog row inserted or refreshed, and the resulting row is returned.
#[verifier::opaque]
pub open spec fn save_edited_post(
    pre: EngState,
    id: i64,
    data_len: i64,
    decoded: Option<(i32, i32)>,
    create_copy: bool,
    now: Seq<char>,
    post: EngState,
    r: Result<Photo, String>,
) -> bool {
    let row = cat_row(pre.rows, id);
    let fp = row.file_path@;
    let name = spec_file_name(fp);
    let parent = spec_parent(fp);
    let ropt = spec_resolve_numbered(
        pre.fs,
        parent,
        spec_stem(name),
        spec_ext(name),
        2,
        COLLISION_CAP as nat,
    );
    if !cat_has(pre.rows, id) {
        &&& post == pre
        &&& r matches Err(m) && m@ == "Photo not found"@
    } else if create_copy {
        if name.len() == 0 {
            &&& post == pre
            &&& r matches Err(m) && m@ == "Invalid file name"@
        } else if ropt is None {
            &&& post == pre
            &&& r matches Err(m) && m@ == "Failed to write file: "@ + fp
        } else {
            let target = ropt->0;
            let tname = spec_file_name(target);
            let torig = spec_join(spec_parent(row.original_path@), tname);
            let dw = match decoded {
                Some(d) => Some(d.0),
                None => None,
            };
            let dh = match decoded {
                Some(d) => Some(d.1),
                None => None,
            };
            &&& post.fs.len() == pre.fs.len() + 1
            &&& post.fs.drop_last() == pre.fs
            &&& post.fs.last().path@ == target
            &&& post.fs.last().node == (FsNode::File { size: data_len, width: dw, height: dh })
            &&& post.rows.len() == pre.rows.len() + 1
            &&& post.rows.drop_last() == pre.rows
            &&& post.rows.last().id == pre.next_id
            &&& post.rows.last().file_path@ == target
            &&& post.rows.last().original_path@ == torig
            &&& post.rows.last().file_name@ == tname
            &&& post.rows.last().file_size == Some(data_len)
            &&& post.rows.last().width == dw
            &&& post.rows.last().height == dh
            &&& post.rows.last().created_at@ == now
            &&& post.next_id == pre.next_id + 1
            &&& r matches Ok(p) && p == post.rows.last()
        }
    } else {
        if spec_is_dir(pre.fs, fp) {
            &&& post == pre
            &&& r matches Err(m) && m@ == "Failed to write file: "@ + fp
        } else {
            let dw = match decoded {
                Some(d) => Some(d.0),
                None => row.width,
            };
            let dh = match decoded {
                Some(d) => Some(d.1),
                None => row.height,
            };
            let i_row = cat_index_of(pre.rows, id);
            &&& if spec_has(pre.fs, fp) {
                let i_fs = spec_index_of(pre.fs, fp);
                &&& post.fs.len() == pre.fs.len()
                &&& (forall|k: int| 0 <= k < pre.fs.len() && k != i_fs ==> post.fs[k] == pre.fs[k])
                &&& post.fs[i_fs].path@ == fp
                &&& post.fs[i_fs].node == (FsNode::File { size: data_len, width: dw, height: dh })
            } else {
                &&& post.fs.len() == pre.fs.len() + 1
                &&& post.fs.drop_last() == pre.fs
                &&& post.fs.last().path@ == fp
                &&& post.fs.last().node == (FsNode::File { size: data_len, width: dw, height: dh })
            }
            &&& post.rows.len() == pre.rows.len()
            &&& (forall|k: int| 0 <= k < pre.rows.len() && k != i_row ==> post.rows[k] == pre.rows[k])
            &&& post.rows[i_row].id == row.id
            &&& post.rows[i_row].file_path == row.file_path
            &&& post.rows[i_row].original_path == row.original_path
            &&& post.rows[i_row].file_name == row.file_name
            &&& post.rows[i_row].file_size == Some(data_len)
            &&& post.rows[i_row].width == dw
            &&& post.rows[i_row].height == dh
            &&& post.rows[i_row].created_at == row.created_at
            &&& post.next_id == pre.next_id
            &&& r matches Ok(p) && p == post.rows[i_row]
        }
    }
}

/// Saves an edited payload over the cataloged photo `id`, against a fixed
/// payload length and decode outcome.
pub fn save_edited_photo_at(
    fs: &mut FsTree,
    cat: &mut Catalog,
    photo_id: i64,
    data_len: i64,
    decoded: Option<(i32, i32)>,
    create_copy: bool,
    now: &str,
) -> (r: Result<Photo, String>)
    requires
        old(fs).wf(),
        old(cat).wf(),
        old(cat).next_id < 0x7fff_ffff_ffff_ffff,
    ensures
        final(fs).wf(),
        final(cat).wf(),
        save_edited_post(
            st(*old(fs), *old(cat)),
            photo_id,
            data_len,
            decoded,
            create_copy,
            now@,
            st(*final(fs), *final(cat)),
            r,
        ),
{
    proof {
        reveal(save_edited_post);
    }
    let photo = match cat.get(photo_id) {
        Some(p) => p,
        None => {
            return Err(String::from_str("Photo not found"));
        },
    };
    let (dw, dh) = match decoded {
        Some((w, h)) => (Some(w), Some(h)),
        None => {
            if create_copy {
                (None, None)
            } else {
                (photo.width, photo.height)
            }
        },
    };
    if create_copy {
        let name = file_name_part(photo.file_path.as_str());
        if name.as_str().unicode_len() == 0 {
            return Err(String::from_str("Invalid file name"));
        }
        let parent = parent_part(photo.file_path.as_str());
        let (stem, ext) = split_stem_ext(name.as_str());
        let e = match ext {
            Some(e) => e,
            None => String::new(),
        };
        let target = match resolve_numbered(fs, parent.as_str(), stem.as_str(), e.as_str(), 2) {
            Ok(t) => t,
            Err(()) => {
                return Err(msg_with("Failed to write file: ", photo.file_path.as_str()));
            },
        };
        proof {
            lemma_resolve_no_skip(
                fs.entries@,
                parent@,
                spec_stem(name@),
                spec_ext(name@),
                2,
                COLLISION_CAP as nat,
            );
        }
        let tname = file_name_part(target.as_str());
        let oparent = parent_part(photo.original_path.as_str());
        let torig = join_path(oparent.as_str(), tname.as_str());
        match fs.write_file(target.as_str(), data_len, dw, dh) {
            Ok(()) => {},
            Err(()) => {
                // unreachable: the resolved target is free
                return Err(msg_with("Failed to write file: ", target.as_str()));
            },
        }
        let new_id = cat.insert(
            target.as_str(),
            torig.as_str(),
            tname.as_str(),
            Some(data_len),
            dw,
            dh,
            now,
        );
        match cat.get(new_id) {
            Some(p) => Ok(p),
            None => {
                // unreachable: the row was just inserted
                Err(String::from_str("Photo not found"))
            },
        }
    } else {
        match fs.write_file(photo.file_path.as_str(), data_len, dw, dh) {
            Ok(()) => {},
            Err(()) => {
                return Err(msg_with("Failed to write file: ", photo.file_path.as_str()));
            },
        }
        if !cat.update_media(photo_id, Some(data_len), dw, dh) {
            // unreachable: the record was just fetched
            return Err(String::from_str("Photo not found"));
        }
        match cat.get(photo_id) {
            Some(p) => Ok(p),
            None => {
                // unreachable: the record was just refreshed
                Err(String::from_str("Photo not found"))
            },
        }
    }
}

/// Saves an edited base64 payload over the cataloged photo `id`: the
/// record must exist; the payload must decode (failure is a hard error
/// carrying the decoder's description; an outsized payload is refused);
/// its pixel dimensions are read best-effort; and the outcome is exactly
/// [`save_edited_post`] for the payload's length and decoded dimensions.
pub fn save_edited_photo(
    fs: &mut FsTree,
    cat: &mut Catalog,
    photo_id: i64,
    request: &SaveEditedPhotoRequest,
    now: &str,
) -> (r: Result<Photo, String>)
    requires
        old(fs).wf(),
        old(cat).wf(),
        old(cat).next_id < 0x7fff_ffff_ffff_ffff,
    ensures
        final(fs).wf(),
        final(cat).wf(),
        !cat_has(old(cat).rows@, photo_id) ==> (r matches Err(m) && (m@ == "Photo not found"@
            && *final(fs) == *old(fs) && *final(cat) == *old(cat))),
        cat_has(old(cat).rows@, photo_id) && b64_decode_of(request.base64_data@) is None ==> (
        r matches Err(m) && (spec_starts_with(m@, "Failed to decode base64: "@) && *final(fs)
            == *old(fs) && *final(cat) == *old(cat))),
        cat_has(old(cat).rows@, photo_id) ==> (b64_decode_of(request.base64_data@) matches Some(v)
            ==> {
            &&& v.len() < 0x7fff_ffff_ffff_ffff ==> save_edited_post(
                st(*old(fs), *old(cat)),
                photo_id,
                v.len() as i64,
                decoded_dims_of(v),
                request.create_copy,
                now@,
                st(*final(fs), *final(cat)),
                r,
            )
            &&& v.len() >= 0x7fff_ffff_ffff_ffff ==> (r matches Err(m) && (m@
                == "Image data too large"@ && *final(fs) == *old(fs) && *final(cat) == *old(cat)))
        }),
{
    if cat.get(photo_id).is_none() {
        return Err(String::from_str("Photo not found"));
    }
    let data = match from_base64(request.base64_data.as_str()) {
        Ok(v) => v,
        Err(e) => {
            let m = msg_with("Failed to decode base64: ", e.as_str());
            proof {
                assert(m@.subrange(0, "Failed to decode base64: "@.len() as int)
                    =~= "Failed to decode base64: "@);
            }
            return Err(m);
        },
    };
    if data.len() as u64 >= 0x7fff_ffff_ffff_ffffu64 {
        return Err(String::from_str("Image data too large"));
    }
    let data_len = data.len() as i64;
    let decoded = decode_dims(&data);
    save_edited_photo_at(fs, cat, photo_id, data_len, decoded, request.create_copy, now)
}

} // verus!
