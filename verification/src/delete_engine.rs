//! The deletion engine.
//!
//! Four operations, orthogonal on two axes: one record vs. every record
//! under a folder prefix, and catalog-only vs. catalog and filesystem.
//! The folder selection matches by raw string prefix on the stored path —
//! so a delete on `/lib/Trip1` also removes the rows of `/lib/Trip10` —
//! while the physical removal takes exactly the `/lib/Trip1` subtree; the
//! two can therefore diverge by design, and the divergence is observable.
//! A missing single target is a hard failure; a folder with no matching
//! rows is not. Per-row failures are collected, never propagated.

use vstd::prelude::*;
use vstd::string::*;
use crate::catalog::{Catalog, Photo, cat_has, cat_row, cat_index_of, lemma_row_from_index, spec_select_prefix, spec_distinct_ids};
use crate::fs_model::{FsTree, spec_has, spec_is_dir, spec_is_file, spec_remove_tree, spec_index_of};
use crate::path_util::spec_starts_with;

verus! {

/// Concatenates a fixed message head with a path or name.
pub fn msg_with(head: &str, rest: &str) -> (r: String)
    ensures
        r@ == head@ + rest@,
{
    String::from_str(head).concat(rest)
}

/// An id occurs among the first `j` selected rows.
pub open spec fn id_in_prefix(sel: Seq<Photo>, j: int, id: i64) -> bool {
    exists|m: int| 0 <= m < j && sel[m].id == id
}

/// Deletes one record and its physical file. The record must exist; a file
/// that is already gone is not an error, but a path that cannot be removed
/// (it names a directory) blocks the record delete, so catalog and
/// filesystem do not diverge on this one path.
pub fn delete_photo(fs: &mut FsTree, cat: &mut Catalog, photo_id: i64) -> (r: Result<(), String>)
    requires
        old(fs).wf(),
        old(cat).wf(),
    ensures
        final(fs).wf(),
        final(cat).wf(),
        final(cat).next_id == old(cat).next_id,
        r is Ok <==> cat_has(old(cat).rows@, photo_id) && !spec_is_dir(
            old(fs).entries@,
            cat_row(old(cat).rows@, photo_id).file_path@,
        ),
        r is Err ==> *final(fs) == *old(fs) && *final(cat) == *old(cat),
        !cat_has(old(cat).rows@, photo_id) ==> (r matches Err(m) && m@ == "Photo not found"@),
        cat_has(old(cat).rows@, photo_id) && spec_is_dir(
            old(fs).entries@,
            cat_row(old(cat).rows@, photo_id).file_path@,
        ) ==> (r matches Err(m) && m@ == "Failed to delete file: "@ + cat_row(
            old(cat).rows@,
            photo_id,
        ).file_path@),
        r is Ok ==> {
            &&& final(cat).rows@ == old(cat).rows@.remove(cat_index_of(old(cat).rows@, photo_id))
            &&& {
                let fp = cat_row(old(cat).rows@, photo_id).file_path@;
                if spec_is_file(old(fs).entries@, fp) {
                    final(fs).entries@ == old(fs).entries@.remove(
                        spec_index_of(old(fs).entries@, fp),
                    )
                } else {
                    *final(fs) == *old(fs)
                }
            }
        },
{
    let photo = match cat.get(photo_id) {
        Some(p) => p,
        None => {
            return Err(String::from_str("Photo not found"));
        },
    };
    if fs.has_path(photo.file_path.as_str()) {
        match fs.remove_file(photo.file_path.as_str()) {
            Ok(()) => {},
            Err(()) => {
                return Err(msg_with("Failed to delete file: ", photo.file_path.as_str()));
            },
        }
    }
    if cat.delete(photo_id) {
        Ok(())
    } else {
        // unreachable: the record was just fetched and nothing else
        // touched the catalog
        Err(String::from_str("Photo not found in database"))
    }
}

/// Deletes one record, leaving the filesystem alone. Fails when no row
/// matched.
pub fn delete_photo_db_only(cat: &mut Catalog, photo_id: i64) -> (r: Result<(), String>)
    requires
        old(cat).wf(),
    ensures
        final(cat).wf(),
        final(cat).next_id == old(cat).next_id,
        r is Ok <==> cat_has(old(cat).rows@, photo_id),
        r is Err ==> *final(cat) == *old(cat) && (r matches Err(m) && m@ == "Photo not found"@),
        r is Ok ==> final(cat).rows@ == old(cat).rows@.remove(
            cat_index_of(old(cat).rows@, photo_id),
        ),
{
    if cat.delete(photo_id) {
        Ok(())
    } else {
        Err(String::from_str("Photo not found"))
    }
}

/// What both folder deletes guarantee of the catalog: every row whose path
/// has the folder as a raw string prefix is gone, every other row is kept
/// unchanged, and no row was fabricated.
pub open spec fn folder_rows_deleted(
    old_rows: Seq<Photo>,
    new_rows: Seq<Photo>,
    folder: Seq<char>,
) -> bool {
    &&& forall|k: int|
        0 <= k < old_rows.len() && spec_starts_with(
            #[trigger] old_rows[k].file_path@,
            folder,
        ) ==> !cat_has(new_rows, old_rows[k].id)
    &&& forall|k: int|
        0 <= k < old_rows.len() && !spec_starts_with(#[trigger] old_rows[k].file_path@, folder)
            ==> cat_has(new_rows, old_rows[k].id) && cat_row(new_rows, old_rows[k].id)
            == old_rows[k]
    &&& forall|k: int|
        0 <= k < new_rows.len() ==> cat_has(old_rows, #[trigger] new_rows[k].id) && cat_row(
            old_rows,
            new_rows[k].id,
        ) == new_rows[k]
}

/// Deletes every row under the folder prefix, row by row; per-row store
/// failures would be collected, never propagated.
fn delete_folder_rows(cat: &mut Catalog, folder: &str, errors: &mut Vec<String>) -> (deleted: usize)
    requires
        old(cat).wf(),
    ensures
        final(cat).wf(),
        final(cat).next_id == old(cat).next_id,
        folder_rows_deleted(old(cat).rows@, final(cat).rows@, folder@),
        deleted == spec_select_prefix(old(cat).rows@, folder@).len(),
        final(errors)@ == old(errors)@,
{
    let sel = cat.select_prefix(folder);
    let ghost orig = cat.rows@;
    let n = sel.len();
    let mut j: usize = 0;
    let mut deleted: usize = 0;
    while j < n
        invariant
            cat.wf(),
            cat.next_id == old(cat).next_id,
            n == sel@.len(),
            j <= n,
            deleted == j,
            errors@ == old(errors)@,
            sel@ == spec_select_prefix(orig, folder@),
            spec_distinct_ids(sel@),
            forall|m: int|
                0 <= m < n ==> cat_has(orig, #[trigger] sel@[m].id) && cat_row(orig, sel@[m].id)
                    == sel@[m],
            forall|m: int| 0 <= m < j ==> !cat_has(cat.rows@, #[trigger] sel@[m].id),
            forall|k: int|
                0 <= k < orig.len() && !id_in_prefix(sel@, j as int, #[trigger] orig[k].id)
                    ==> cat_has(cat.rows@, orig[k].id) && cat_row(cat.rows@, orig[k].id) == orig[k],
            forall|k: int|
                0 <= k < cat.rows@.len() ==> cat_has(orig, #[trigger] cat.rows@[k].id) && cat_row(
                    orig,
                    cat.rows@[k].id,
                ) == cat.rows@[k],
        decreases n - j,
    {
        let ghost pre = cat.rows@;
        proof {
            assert(!id_in_prefix(sel@, j as int, sel@[j as int].id));
            assert(cat_has(pre, sel@[j as int].id));
        }
        let ok = cat.delete(sel[j].id);
        proof {
            assert(ok);
            let i0 = cat_index_of(pre, sel@[j as int].id);
            assert forall|k: int| 0 <= k < cat.rows@.len() implies cat_has(
                pre,
                #[trigger] cat.rows@[k].id,
            ) && cat_row(pre, cat.rows@[k].id) == cat.rows@[k] by {
                if k < i0 {
                    assert(cat.rows@[k] == pre[k]);
                    lemma_row_from_index(pre, k, pre[k].id);
                } else {
                    assert(cat.rows@[k] == pre[k + 1]);
                    lemma_row_from_index(pre, k + 1, pre[k + 1].id);
                }
            }
            assert forall|id: i64| cat_has(cat.rows@, id) implies cat_has(pre, id) && cat_row(
                pre,
                id,
            ) == cat_row(cat.rows@, id) by {
                let k = cat_index_of(cat.rows@, id);
                assert(0 <= k < cat.rows@.len() && cat.rows@[k].id == id);
                lemma_row_from_index(cat.rows@, k, id);
            }
            assert(!cat_has(cat.rows@, sel@[j as int].id)) by {
                if cat_has(cat.rows@, sel@[j as int].id) {
                    let k = cat_index_of(cat.rows@, sel@[j as int].id);
                    assert(0 <= k < cat.rows@.len() && cat.rows@[k].id == sel@[j as int].id);
                    if k < i0 {
                        assert(cat.rows@[k] == pre[k]);
                    } else {
                        assert(cat.rows@[k] == pre[k + 1]);
                    }
                }
            }
            assert forall|k: int|
                0 <= k < orig.len() && !id_in_prefix(
                    sel@,
                    j as int + 1,
                    #[trigger] orig[k].id,
                ) implies cat_has(cat.rows@, orig[k].id) && cat_row(cat.rows@, orig[k].id)
                == orig[k] by {
                assert(!id_in_prefix(sel@, j as int, orig[k].id));
                assert(cat_has(pre, orig[k].id) && cat_row(pre, orig[k].id) == orig[k]);
                let i1 = cat_index_of(pre, orig[k].id);
                assert(0 <= i1 < pre.len() && pre[i1].id == orig[k].id);
                assert(i1 != i0);
                if i1 < i0 {
                    assert(cat.rows@[i1] == pre[i1]);
                    lemma_row_from_index(cat.rows@, i1, orig[k].id);
                } else {
                    assert(cat.rows@[i1 - 1] == pre[i1]);
                    lemma_row_from_index(cat.rows@, i1 - 1, orig[k].id);
                }
            }
        }
        if ok {
            deleted += 1;
        } else {
            let m = msg_with("Record store error for: ", sel[j].file_name.as_str());
            errors.push(m);
        }
        j += 1;
    }
    proof {
        assert forall|k: int|
            0 <= k < orig.len() && spec_starts_with(
                #[trigger] orig[k].file_path@,
                folder@,
            ) implies !cat_has(cat.rows@, orig[k].id) by {
            Seq::lemma_filter_contains(orig, |p: Photo| spec_starts_with(p.file_path@, folder@), k);
            let m = choose|m: int| 0 <= m < sel@.len() && sel@[m] == orig[k];
            assert(sel@[m].id == orig[k].id);
        }
        assert forall|k: int|
            0 <= k < orig.len() && !spec_starts_with(
                #[trigger] orig[k].file_path@,
                folder@,
            ) implies !id_in_prefix(sel@, n as int, orig[k].id) by {
            if id_in_prefix(sel@, n as int, orig[k].id) {
                let m = choose|m: int| 0 <= m < n && sel@[m].id == orig[k].id;
                Seq::lemma_filter_pred(orig, |p: Photo| spec_starts_with(p.file_path@, folder@), m);
                assert(cat_row(orig, sel@[m].id) == sel@[m]);
                lemma_row_from_index(orig, k, orig[k].id);
            }
        }
    }
    deleted
}

/// A request to delete a folder's records (and possibly its subtree).
#[derive(Debug)]
pub struct DeleteFolderRequest {
    pub folder_path: String,
}

/// The outcome of a folder delete: how many rows were removed, and the
/// collected per-item failures.
#[derive(Debug)]
pub struct DeleteFolderResult {
    pub deleted: usize,
    pub errors: Vec<String>,
}

/// Deletes every record under the folder prefix and then removes the
/// physical subtree in one step. The folder must exist; a failure to
/// remove the subtree is appended to the error list, independent of the
/// per-record outcomes.
pub fn delete_folder_recursive(
    fs: &mut FsTree,
    cat: &mut Catalog,
    request: &DeleteFolderRequest,
) -> (r: Result<DeleteFolderResult, String>)
    requires
        old(fs).wf(),
        old(cat).wf(),
    ensures
        final(fs).wf(),
        final(cat).wf(),
        final(cat).next_id == old(cat).next_id,
        r is Err <==> !spec_has(old(fs).entries@, request.folder_path@),
        r is Err ==> *final(fs) == *old(fs) && *final(cat) == *old(cat) && (r matches Err(m) && m@
            == "Folder does not exist"@),
        r matches Ok(d) ==> {
            &&& folder_rows_deleted(old(cat).rows@, final(cat).rows@, request.folder_path@)
            &&& d.deleted == spec_select_prefix(old(cat).rows@, request.folder_path@).len()
            &&& if spec_is_dir(old(fs).entries@, request.folder_path@) {
                final(fs).entries@ == spec_remove_tree(old(fs).entries@, request.folder_path@)
                    && d.errors@.len() == 0
            } else {
                *final(fs) == *old(fs) && d.errors@.len() == 1 && d.errors@[0]@
                    == "Failed to delete folder: "@ + request.folder_path@
            }
        },
{
    if !fs.has_path(request.folder_path.as_str()) {
        return Err(String::from_str("Folder does not exist"));
    }
    let mut errors: Vec<String> = Vec::new();
    let deleted = delete_folder_rows(cat, request.folder_path.as_str(), &mut errors);
    match fs.remove_tree(request.folder_path.as_str()) {
        Ok(()) => {},
        Err(()) => {
            let m = msg_with("Failed to delete folder: ", request.folder_path.as_str());
            errors.push(m);
        },
    }
    Ok(DeleteFolderResult { deleted, errors })
}

/// Deletes every record under the folder prefix, leaving the filesystem
/// untouched. No matching rows is not an error.
pub fn delete_folder_recursive_db_only(cat: &mut Catalog, request: &DeleteFolderRequest) -> (r:
    DeleteFolderResult)
    requires
        old(cat).wf(),
    ensures
        final(cat).wf(),
        final(cat).next_id == old(cat).next_id,
        folder_rows_deleted(old(cat).rows@, final(cat).rows@, request.folder_path@),
        r.deleted == spec_select_prefix(old(cat).rows@, request.folder_path@).len(),
        r.errors@.len() == 0,
{
    let mut errors: Vec<String> = Vec::new();
    let deleted = delete_folder_rows(cat, request.folder_path.as_str(), &mut errors);
    DeleteFolderResult { deleted, errors }
}

} // verus!
