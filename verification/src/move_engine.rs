//! The move engine.
//!
//! Two sub-operations, both collision-safe through the resolver seeded at
//! copy number 1. A cataloged file is moved by id: its on-disk node is
//! renamed to a free destination and the record's stored path and
//! provenance path are repointed there. A folder is moved by path: every
//! record whose stored path has the folder as a raw string prefix is
//! selected first, the physical subtree is renamed in one step, and each
//! selected record has the leading folder prefix of its stored path
//! replaced by the new folder path — deliberately only the leading
//! occurrence: a recurrence of the folder string deeper inside a stored
//! path is left alone. A record under a sibling such as `/lib/Trip10` is
//! still repointed even though its file never moved. Per-item failures
//! are collected; siblings continue.
//!
//! A batch mixes file ids and folder paths; its contract is a trace: one
//! joint state per processed item, consecutive states related by the
//! per-item step predicates below.

use vstd::prelude::*;
use vstd::string::*;
use crate::catalog::{
    Catalog, Photo, cat_has, cat_row, cat_index_of, lemma_row_from_index, spec_select_prefix,
    spec_distinct_ids,
};
use crate::fs_model::{
    FsTree, spec_has, spec_is_dir, spec_index_of, spec_any_under, spec_dir_chain, spec_is_file,
};
use crate::path_util::{
    spec_starts_with, spec_under_dir, spec_file_name, spec_stem, spec_ext, file_name_part,
    replace_path_prefix,
};
use crate::resolve::{
    spec_resolve_dest, spec_dec_i64, resolve_file_dest, resolve_dir_dest, i64_to_dec,
    lemma_resolve_dest_free,
};
use crate::delete_engine::{msg_with, id_in_prefix};
use crate::scan::spec_views;
use crate::{EngState, st};

verus! {

/// One step of the batch: moving the cataloged file `id` into `dest_dir`.
/// Relates the joint state, the moved counter and the error list before
/// and after the item. A missing record, a missing on-disk file, an empty
/// file name or an exhausted resolver leaves the state unchanged and
/// appends one error; otherwise the node is renamed to the resolved free
/// destination and the record's two path fields are repointed there.
#[verifier::opaque]
pub open spec fn move_photo_step(
    pre: EngState,
    moved0: int,
    errs0: Seq<Seq<char>>,
    id: i64,
    dest_dir: Seq<char>,
    post: EngState,
    moved1: int,
    errs1: Seq<Seq<char>>,
) -> bool {
    let row = cat_row(pre.rows, id);
    let name = spec_file_name(row.file_path@);
    let dopt = spec_resolve_dest(pre.fs, dest_dir, name, spec_stem(name), spec_ext(name), 1);
    if !cat_has(pre.rows, id) {
        &&& post == pre
        &&& moved1 == moved0
        &&& errs1 == errs0.push("Photo not found: "@ + spec_dec_i64(id as int))
    } else if !spec_has(pre.fs, row.file_path@) {
        &&& post == pre
        &&& moved1 == moved0
        &&& errs1 == errs0.push("Source file not found: "@ + row.file_path@)
    } else if name.len() == 0 {
        &&& post == pre
        &&& moved1 == moved0
        &&& errs1 == errs0.push("Invalid file name: "@ + row.file_path@)
    } else if dopt is None {
        &&& post == pre
        &&& moved1 == moved0
        &&& errs1 == errs0.push("Failed to move file: "@ + row.file_path@)
    } else {
        let dest = dopt->0;
        let i_src = spec_index_of(pre.fs, row.file_path@);
        let i_row = cat_index_of(pre.rows, id);
        &&& post.fs.len() == pre.fs.len()
        &&& (forall|k: int| 0 <= k < pre.fs.len() && k != i_src ==> post.fs[k] == pre.fs[k])
        &&& post.fs[i_src].path@ == dest
        &&& post.fs[i_src].node == pre.fs[i_src].node
        &&& post.rows.len() == pre.rows.len()
        &&& (forall|k: int| 0 <= k < pre.rows.len() && k != i_row ==> post.rows[k] == pre.rows[k])
        &&& post.rows[i_row].id == id
        &&& post.rows[i_row].file_path@ == dest
        &&& post.rows[i_row].original_path@ == dest
        &&& post.rows[i_row].file_name == row.file_name
        &&& post.rows[i_row].file_size == row.file_size
        &&& post.rows[i_row].width == row.width
        &&& post.rows[i_row].height == row.height
        &&& post.rows[i_row].created_at == row.created_at
        &&& post.next_id == pre.next_id
        &&& moved1 == moved0 + 1
        &&& errs1 == errs0
    }
}

/// Moves one cataloged file by id, recording failure in the shared error
/// list, as one step of a batch.
pub fn move_one_photo(
    fs: &mut FsTree,
    cat: &mut Catalog,
    photo_id: i64,
    dest_dir: &str,
    moved: &mut i32,
    errors: &mut Vec<String>,
)
    requires
        old(fs).wf(),
        old(cat).wf(),
        *old(moved) < 0x7fff_ffff,
    ensures
        final(fs).wf(),
        final(cat).wf(),
        move_photo_step(
            st(*old(fs), *old(cat)),
            *old(moved) as int,
            spec_views(old(errors)@),
            photo_id,
            dest_dir@,
            st(*final(fs), *final(cat)),
            *final(moved) as int,
            spec_views(final(errors)@),
        ),
        *final(moved) == *old(moved) || *final(moved) == *old(moved) + 1,
        final(cat).rows@.len() == old(cat).rows@.len(),
{
    proof {
        reveal(move_photo_step);
    }
    let photo = match cat.get(photo_id) {
        Some(p) => p,
        None => {
            let m = String::from_str("Photo not found: ").concat(i64_to_dec(photo_id).as_str());
            let ghost prev = errors@;
            errors.push(m);
            proof {
                assert(spec_views(errors@) =~= spec_views(prev).push(
                    "Photo not found: "@ + spec_dec_i64(photo_id as int),
                ));
            }
            return ;
        },
    };
    if !fs.has_path(photo.file_path.as_str()) {
        let m = msg_with("Source file not found: ", photo.file_path.as_str());
        let ghost prev = errors@;
        errors.push(m);
        proof {
            assert(spec_views(errors@) =~= spec_views(prev).push(
                "Source file not found: "@ + photo.file_path@,
            ));
        }
        return ;
    }
    let name = file_name_part(photo.file_path.as_str());
    if name.as_str().unicode_len() == 0 {
        let m = msg_with("Invalid file name: ", photo.file_path.as_str());
        let ghost prev = errors@;
        errors.push(m);
        proof {
            assert(spec_views(errors@) =~= spec_views(prev).push(
                "Invalid file name: "@ + photo.file_path@,
            ));
        }
        return ;
    }
    let dest = match resolve_file_dest(fs, dest_dir, name.as_str(), 1) {
        Ok(d) => d,
        Err(()) => {
            let m = msg_with("Failed to move file: ", photo.file_path.as_str());
            let ghost prev = errors@;
            errors.push(m);
            proof {
                assert(spec_views(errors@) =~= spec_views(prev).push(
                    "Failed to move file: "@ + photo.file_path@,
                ));
            }
            return ;
        },
    };
    proof {
        lemma_resolve_dest_free(
            fs.entries@,
            dest_dir@,
            name@,
            spec_stem(name@),
            spec_ext(name@),
            1,
        );
    }
    match fs.rename_entry(photo.file_path.as_str(), dest.as_str()) {
        Ok(()) => {},
        Err(()) => {
            // unreachable: the source was just seen and the destination is
            // free by the resolver's guarantee
            let m = msg_with("Failed to move file: ", photo.file_path.as_str());
            errors.push(m);
            return ;
        },
    }
    if cat.update_paths(photo_id, dest.as_str()) {
        *moved = *moved + 1;
    } else {
        // unreachable: the record was just fetched
        let m = msg_with("Failed to update record for photo: ", photo.file_path.as_str());
        errors.push(m);
    }
}

/// One step of the batch: moving the folder `folder` into `dest_dir`.
/// A missing source, an empty folder name, an exhausted resolver or a
/// refused physical rename leaves the state unchanged and appends one
/// error; otherwise the subtree is renamed to the resolved destination and
/// every record whose stored path has `folder` as a raw string prefix has
/// that prefix replaced — records under sibling folders that share the
/// prefix included. The moved counter grows by the number of selected
/// records.
#[verifier::opaque]
pub open spec fn move_folder_step(
    pre: EngState,
    moved0: int,
    errs0: Seq<Seq<char>>,
    folder: Seq<char>,
    dest_dir: Seq<char>,
    post: EngState,
    moved1: int,
    errs1: Seq<Seq<char>>,
) -> bool {
    let name = spec_file_name(folder);
    let dopt = spec_resolve_dest(pre.fs, dest_dir, name, name, Seq::empty(), 1);
    let sel = spec_select_prefix(pre.rows, folder);
    if !spec_has(pre.fs, folder) {
        &&& post == pre
        &&& moved1 == moved0
        &&& errs1 == errs0.push("Source folder not found: "@ + folder)
    } else if name.len() == 0 {
        &&& post == pre
        &&& moved1 == moved0
        &&& errs1 == errs0.push("Invalid folder name: "@ + folder)
    } else if dopt is None || !spec_is_dir(pre.fs, folder) || spec_any_under(pre.fs, dopt->0) {
        &&& post == pre
        &&& moved1 == moved0
        &&& errs1 == errs0.push("Failed to move folder: "@ + folder)
    } else {
        let dest = dopt->0;
        &&& post.fs.len() == pre.fs.len()
        &&& (forall|k: int|
            0 <= k < pre.fs.len() && (pre.fs[k].path@ == folder || spec_under_dir(
                pre.fs[k].path@,
                folder,
            )) ==> {
                &&& post.fs[k].path@ == dest + pre.fs[k].path@.subrange(
                    folder.len() as int,
                    pre.fs[k].path@.len() as int,
                )
                &&& post.fs[k].node == pre.fs[k].node
            })
        &&& (forall|k: int|
            0 <= k < pre.fs.len() && !(pre.fs[k].path@ == folder || spec_under_dir(
                pre.fs[k].path@,
                folder,
            )) ==> post.fs[k] == pre.fs[k])
        &&& post.rows.len() == pre.rows.len()
        &&& (forall|k: int|
            0 <= k < pre.rows.len() && spec_starts_with(pre.rows[k].file_path@, folder) ==> {
                &&& post.rows[k].id == pre.rows[k].id
                &&& post.rows[k].file_path@ == dest + pre.rows[k].file_path@.subrange(
                    folder.len() as int,
                    pre.rows[k].file_path@.len() as int,
                )
                &&& post.rows[k].original_path@ == post.rows[k].file_path@
                &&& post.rows[k].file_name == pre.rows[k].file_name
                &&& post.rows[k].file_size == pre.rows[k].file_size
                &&& post.rows[k].width == pre.rows[k].width
                &&& post.rows[k].height == pre.rows[k].height
                &&& post.rows[k].created_at == pre.rows[k].created_at
            })
        &&& (forall|k: int|
            0 <= k < pre.rows.len() && !spec_starts_with(pre.rows[k].file_path@, folder)
                ==> post.rows[k] == pre.rows[k])
        &&& post.next_id == pre.next_id
        &&& moved1 == moved0 + sel.len()
        &&& errs1 == errs0
    }
}

/// Moves one folder by path, recording failure in the shared error list,
/// as one step of a batch.
pub fn move_one_folder(
    fs: &mut FsTree,
    cat: &mut Catalog,
    folder_path: &str,
    dest_dir: &str,
    moved: &mut i32,
    errors: &mut Vec<String>,
)
    requires
        old(fs).wf(),
        old(cat).wf(),
        *old(moved) as int + spec_select_prefix(old(cat).rows@, folder_path@).len()
            <= 0x7fff_ffff,
    ensures
        final(fs).wf(),
        final(cat).wf(),
        move_folder_step(
            st(*old(fs), *old(cat)),
            *old(moved) as int,
            spec_views(old(errors)@),
            folder_path@,
            dest_dir@,
            st(*final(fs), *final(cat)),
            *final(moved) as int,
            spec_views(final(errors)@),
        ),
        *old(moved) <= *final(moved),
        *final(moved) as int <= *old(moved) as int + spec_select_prefix(
            old(cat).rows@,
            folder_path@,
        ).len(),
        final(cat).rows@.len() == old(cat).rows@.len(),
{
    proof {
        reveal(move_folder_step);
    }
    if !fs.has_path(folder_path) {
        let m = msg_with("Source folder not found: ", folder_path);
        let ghost prev = errors@;
        errors.push(m);
        proof {
            assert(spec_views(errors@) =~= spec_views(prev).push(
                "Source folder not found: "@ + folder_path@,
            ));
        }
        return ;
    }
    let name = file_name_part(folder_path);
    if name.as_str().unicode_len() == 0 {
        let m = msg_with("Invalid folder name: ", folder_path);
        let ghost prev = errors@;
        errors.push(m);
        proof {
            assert(spec_views(errors@) =~= spec_views(prev).push(
                "Invalid folder name: "@ + folder_path@,
            ));
        }
        return ;
    }
    let dest_folder = match resolve_dir_dest(fs, dest_dir, name.as_str(), 1) {
        Ok(d) => d,
        Err(()) => {
            let m = msg_with("Failed to move folder: ", folder_path);
            let ghost prev = errors@;
            errors.push(m);
            proof {
                assert(spec_views(errors@) =~= spec_views(prev).push(
                    "Failed to move folder: "@ + folder_path@,
                ));
            }
            return ;
        },
    };
    let sel = cat.select_prefix(folder_path);
    proof {
        lemma_resolve_dest_free(fs.entries@, dest_dir@, name@, name@, Seq::empty(), 1);
    }
    match fs.rename_tree(folder_path, dest_folder.as_str()) {
        Ok(()) => {},
        Err(()) => {
            let m = msg_with("Failed to move folder: ", folder_path);
            let ghost prev = errors@;
            errors.push(m);
            proof {
                assert(spec_views(errors@) =~= spec_views(prev).push(
                    "Failed to move folder: "@ + folder_path@,
                ));
            }
            return ;
        },
    }
    let ghost orig = old(cat).rows@;
    let ghost dest_v = dest_folder@;
    let n = sel.len();
    let mut j: usize = 0;
    while j < n
        invariant
            cat.wf(),
            cat.next_id == old(cat).next_id,
            n == sel@.len(),
            j <= n,
            orig == old(cat).rows@,
            dest_v == dest_folder@,
            *moved as int == *old(moved) as int + j,
            *old(moved) as int + n <= 0x7fff_ffff,
            errors@ == old(errors)@,
            sel@ == spec_select_prefix(orig, folder_path@),
            spec_distinct_ids(sel@),
            forall|m: int|
                0 <= m < n ==> cat_has(orig, #[trigger] sel@[m].id) && cat_row(orig, sel@[m].id)
                    == sel@[m],
            cat.rows@.len() == orig.len(),
            forall|k: int|
                0 <= k < orig.len() && id_in_prefix(sel@, j as int, #[trigger] orig[k].id) ==> {
                    &&& cat.rows@[k].id == orig[k].id
                    &&& cat.rows@[k].file_path@ == dest_v + orig[k].file_path@.subrange(
                        folder_path@.len() as int,
                        orig[k].file_path@.len() as int,
                    )
                    &&& cat.rows@[k].original_path@ == cat.rows@[k].file_path@
                    &&& cat.rows@[k].file_name == orig[k].file_name
                    &&& cat.rows@[k].file_size == orig[k].file_size
                    &&& cat.rows@[k].width == orig[k].width
                    &&& cat.rows@[k].height == orig[k].height
                    &&& cat.rows@[k].created_at == orig[k].created_at
                },
            forall|k: int|
                0 <= k < orig.len() && !id_in_prefix(sel@, j as int, #[trigger] orig[k].id)
                    ==> cat.rows@[k] == orig[k],
        decreases n - j,
    {
        proof {
            Seq::lemma_filter_pred(
                orig,
                |p: Photo| spec_starts_with(p.file_path@, folder_path@),
                j as int,
            );
            let k0 = cat_index_of(orig, sel@[j as int].id);
            assert(0 <= k0 < orig.len() && orig[k0] == sel@[j as int]);
            assert(!id_in_prefix(sel@, j as int, orig[k0].id));
            assert(cat.rows@[k0] == orig[k0]);
            lemma_row_from_index(cat.rows@, k0, sel@[j as int].id);
        }
        let np = replace_path_prefix(sel[j].file_path.as_str(), folder_path, dest_folder.as_str());
        let ghost pre_rows = cat.rows@;
        let ok = cat.update_paths(sel[j].id, np.as_str());
        proof {
            assert(ok);
            let k0 = cat_index_of(pre_rows, sel@[j as int].id);
            assert forall|k: int|
                0 <= k < orig.len() && id_in_prefix(
                    sel@,
                    j as int + 1,
                    #[trigger] orig[k].id,
                ) implies {
                &&& cat.rows@[k].id == orig[k].id
                &&& cat.rows@[k].file_path@ == dest_v + orig[k].file_path@.subrange(
                    folder_path@.len() as int,
                    orig[k].file_path@.len() as int,
                )
                &&& cat.rows@[k].original_path@ == cat.rows@[k].file_path@
                &&& cat.rows@[k].file_name == orig[k].file_name
                &&& cat.rows@[k].file_size == orig[k].file_size
                &&& cat.rows@[k].width == orig[k].width
                &&& cat.rows@[k].height == orig[k].height
                &&& cat.rows@[k].created_at == orig[k].created_at
            } by {
                if orig[k].id == sel@[j as int].id {
                    lemma_row_from_index(orig, k, orig[k].id);
                    assert(k == k0);
                    assert(cat.rows@[k0].id == sel@[j as int].id);
                    assert(cat.rows@[k0].file_path@ == np@);
                    assert(orig[k0] == sel@[j as int]);
                    assert(np@ == dest_v + orig[k0].file_path@.subrange(
                        folder_path@.len() as int,
                        orig[k0].file_path@.len() as int,
                    ));
                    assert(cat.rows@[k0].original_path@ == np@);
                    assert(cat.rows@[k0].file_name == orig[k0].file_name);
                } else {
                    assert(id_in_prefix(sel@, j as int, orig[k].id));
                    assert(k != k0);
                    assert(cat.rows@[k] == pre_rows[k]);
                }
            }
            assert forall|k: int|
                0 <= k < orig.len() && !id_in_prefix(
                    sel@,
                    j as int + 1,
                    #[trigger] orig[k].id,
                ) implies cat.rows@[k] == orig[k] by {
                assert(!id_in_prefix(sel@, j as int, orig[k].id));
                assert(k != k0);
            }
        }
        if ok {
            *moved = *moved + 1;
        } else {
            let m = msg_with("Failed to update record under folder: ", folder_path);
            errors.push(m);
        }
        j += 1;
    }
    proof {
        let pred = |p: Photo| spec_starts_with(p.file_path@, folder_path@);
        assert forall|k: int|
            0 <= k < orig.len() && spec_starts_with(
                #[trigger] orig[k].file_path@,
                folder_path@,
            ) implies id_in_prefix(sel@, n as int, orig[k].id) by {
            Seq::lemma_filter_contains(orig, pred, k);
            let m = choose|m: int| 0 <= m < sel@.len() && sel@[m] == orig[k];
            assert(sel@[m].id == orig[k].id);
        }
        assert forall|k: int|
            0 <= k < orig.len() && !spec_starts_with(
                #[trigger] orig[k].file_path@,
                folder_path@,
            ) implies !id_in_prefix(sel@, n as int, orig[k].id) by {
            if id_in_prefix(sel@, n as int, orig[k].id) {
                let m = choose|m: int| 0 <= m < n && sel@[m].id == orig[k].id;
                Seq::lemma_filter_pred(orig, pred, m);
                assert(cat_row(orig, sel@[m].id) == sel@[m]);
                lemma_row_from_index(orig, k, orig[k].id);
            }
        }
    }
}

/// A batch of move requests: individual file ids, whole folder paths, and
/// the common destination directory.
#[derive(Debug)]
pub struct MoveItemsRequest {
    pub photo_ids: Vec<i64>,
    pub folder_paths: Vec<String>,
    pub destination_path: String,
}

/// The outcome of a move batch: how many items were moved (each repointed
/// record counts once) and the collected per-item failures.
#[derive(Debug)]
pub struct MoveItemsResult {
    pub moved: i32,
    pub errors: Vec<String>,
}

/// How the batch prepares its destination before any item is processed:
/// the catalog is untouched; an existing destination is kept, a missing
/// one is created together with its missing ancestors.
pub open spec fn dest_prepared(pre: EngState, dest: Seq<char>, mid: EngState) -> bool {
    &&& mid.rows == pre.rows
    &&& mid.next_id == pre.next_id
    &&& if spec_has(pre.fs, dest) {
        mid.fs == pre.fs
    } else {
        &&& mid.fs.len() >= pre.fs.len()
        &&& mid.fs.subrange(0, pre.fs.len() as int) == pre.fs
        &&& (forall|k: int|
            pre.fs.len() <= k < mid.fs.len() ==> {
                &&& mid.fs[k].node is Dir
                &&& spec_dir_chain(dest, mid.fs[k].path@)
                &&& !spec_has(pre.fs, mid.fs[k].path@)
            })
        &&& (forall|q: Seq<char>| spec_dir_chain(dest, q) ==> spec_is_dir(mid.fs, q))
    }
}

/// A move batch's trace: from the prepared state, each listed file id and
/// then each listed folder path is processed by its step predicate; every
/// element carries the joint state, the moved counter and the error views
/// after some number of items.
pub open spec fn trace_ok(
    tr: Seq<(EngState, int, Seq<Seq<char>>)>,
    ids: Seq<i64>,
    folders: Seq<Seq<char>>,
    dest: Seq<char>,
) -> bool {
    &&& tr.len() == ids.len() + folders.len() + 1
    &&& tr[0].1 == 0
    &&& tr[0].2 == Seq::<Seq<char>>::empty()
    &&& (forall|i: int|
        0 <= i < ids.len() ==> move_photo_step(
            #[trigger] tr[i].0,
            tr[i].1,
            tr[i].2,
            ids[i],
            dest,
            tr[i + 1].0,
            tr[i + 1].1,
            tr[i + 1].2,
        ))
    &&& (forall|i: int|
        0 <= i < folders.len() ==> move_folder_step(
            #[trigger] tr[ids.len() + i].0,
            tr[ids.len() + i].1,
            tr[ids.len() + i].2,
            folders[i],
            dest,
            tr[ids.len() + i + 1].0,
            tr[ids.len() + i + 1].1,
            tr[ids.len() + i + 1].2,
        ))
}

/// Moves a mixed batch of cataloged files and folders into a destination,
/// creating the destination if it is absent. Per-item failures are
/// collected in the error list; siblings continue. The contract is a
/// trace: after the destination is prepared, each listed file id and then
/// each listed folder path is processed by its step predicate, and the
/// final state, moved count and error list are the trace's last element.
#[verifier::rlimit(100)]
pub fn move_photos_and_folders(
    fs: &mut FsTree,
    cat: &mut Catalog,
    request: &MoveItemsRequest,
) -> (r: Result<MoveItemsResult, String>)
    requires
        old(fs).wf(),
        old(cat).wf(),
        request.photo_ids@.len() + request.folder_paths@.len() * old(cat).rows@.len()
            < 0x7fff_ffff,
    ensures
        final(fs).wf(),
        final(cat).wf(),
        r is Err <==> !spec_has(old(fs).entries@, request.destination_path@) && (exists|
            q: Seq<char>,
        |
            spec_dir_chain(request.destination_path@, q) && spec_is_file(
                old(fs).entries@,
                q,
            )),
        r matches Err(m) ==> *final(fs) == *old(fs) && *final(cat) == *old(cat) && m@
            == "Failed to create destination directory: "@ + request.destination_path@,
        r matches Ok(out) ==> (exists|tr: Seq<(EngState, int, Seq<Seq<char>>)>|
            {
                &&& dest_prepared(
                    st(*old(fs), *old(cat)),
                    request.destination_path@,
                    #[trigger] tr[0].0,
                )
                &&& trace_ok(
                    tr,
                    request.photo_ids@,
                    spec_views(request.folder_paths@),
                    request.destination_path@,
                )
                &&& st(*final(fs), *final(cat)) == tr.last().0
                &&& out.moved as int == tr.last().1
                &&& spec_views(out.errors@) == tr.last().2
            }),
{
    let dest = request.destination_path.as_str();
    if !fs.has_path(dest) {
        match fs.create_dir_all(dest) {
            Ok(()) => {},
            Err(()) => {
                return Err(msg_with("Failed to create destination directory: ", dest));
            },
        }
    }
    let mut moved: i32 = 0;
    let mut errors: Vec<String> = Vec::new();
    let ghost ids = request.photo_ids@;
    let ghost folders = spec_views(request.folder_paths@);
    let ghost mut tr: Seq<(EngState, int, Seq<Seq<char>>)> = seq![
        (st(*fs, *cat), 0int, Seq::<Seq<char>>::empty()),
    ];
    let n_ids = request.photo_ids.len();
    let mut i: usize = 0;
    while i < n_ids
        invariant
            fs.wf(),
            cat.wf(),
            n_ids == ids.len(),
            i <= n_ids,
            ids == request.photo_ids@,
            dest@ == request.destination_path@,
            ids.len() + spec_views(request.folder_paths@).len() * old(cat).rows@.len()
                < 0x7fff_ffff,
            cat.rows@.len() == old(cat).rows@.len(),
            0 <= moved as int <= i,
            tr.len() == i + 1,
            tr[0].1 == 0,
            tr[0].2 == Seq::<Seq<char>>::empty(),
            dest_prepared(st(*old(fs), *old(cat)), request.destination_path@, tr[0].0),
            forall|j: int|
                0 <= j < i ==> move_photo_step(
                    #[trigger] tr[j].0,
                    tr[j].1,
                    tr[j].2,
                    ids[j],
                    request.destination_path@,
                    tr[j + 1].0,
                    tr[j + 1].1,
                    tr[j + 1].2,
                ),
            tr.last().0 == st(*fs, *cat),
            tr.last().1 == moved as int,
            tr.last().2 == spec_views(errors@),
        decreases n_ids - i,
    {
        let ghost rows_pre = cat.rows@.len();
        let ghost tr_pre = tr;
        move_one_photo(fs, cat, request.photo_ids[i], dest, &mut moved, &mut errors);
        proof {
            tr = tr.push((st(*fs, *cat), moved as int, spec_views(errors@)));
            assert(cat.rows@.len() == rows_pre);
            assert forall|j: int|
                0 <= j < i + 1 implies move_photo_step(
                #[trigger] tr[j].0,
                tr[j].1,
                tr[j].2,
                ids[j],
                request.destination_path@,
                tr[j + 1].0,
                tr[j + 1].1,
                tr[j + 1].2,
            ) by {
                if j < i {
                    assert(tr[j] == tr_pre[j]);
                    assert(tr[j + 1] == tr_pre[j + 1]);
                } else {
                    assert(tr[j] == tr_pre.last());
                    assert(tr[j + 1] == tr.last());
                }
            }
        }
        i += 1;
    }
    let n_folders = request.folder_paths.len();
    let mut f: usize = 0;
    while f < n_folders
        invariant
            fs.wf(),
            cat.wf(),
            n_folders == folders.len(),
            f <= n_folders,
            n_ids == ids.len(),
            ids == request.photo_ids@,
            dest@ == request.destination_path@,
            folders == spec_views(request.folder_paths@),
            cat.rows@.len() == old(cat).rows@.len(),
            ids.len() + folders.len() * old(cat).rows@.len() < 0x7fff_ffff,
            0 <= moved as int <= ids.len() + f * old(cat).rows@.len(),
            tr.len() == ids.len() + f + 1,
            tr[0].1 == 0,
            tr[0].2 == Seq::<Seq<char>>::empty(),
            dest_prepared(st(*old(fs), *old(cat)), request.destination_path@, tr[0].0),
            forall|j: int|
                0 <= j < ids.len() ==> move_photo_step(
                    #[trigger] tr[j].0,
                    tr[j].1,
                    tr[j].2,
                    ids[j],
                    request.destination_path@,
                    tr[j + 1].0,
                    tr[j + 1].1,
                    tr[j + 1].2,
                ),
            forall|j: int|
                0 <= j < f ==> move_folder_step(
                    #[trigger] tr[ids.len() + j].0,
                    tr[ids.len() + j].1,
                    tr[ids.len() + j].2,
                    folders[j],
                    request.destination_path@,
                    tr[ids.len() + j + 1].0,
                    tr[ids.len() + j + 1].1,
                    tr[ids.len() + j + 1].2,
                ),
            tr.last().0 == st(*fs, *cat),
            tr.last().1 == moved as int,
            tr.last().2 == spec_views(errors@),
        decreases n_folders - f,
    {
        proof {
            Seq::lemma_filter_len(
                cat.rows@,
                |p: Photo| spec_starts_with(
                    p.file_path@,
                    request.folder_paths@[f as int]@,
                ),
            );
            assert(moved as int + spec_select_prefix(
                cat.rows@,
                request.folder_paths@[f as int]@,
            ).len() <= ids.len() + f * old(cat).rows@.len() + old(cat).rows@.len());
            let rl = old(cat).rows@.len() as int;
            let fl = folders.len() as int;
            let fi = f as int;
            assert(fi * rl + rl <= fl * rl) by (nonlinear_arith)
                requires
                    0 <= fi,
                    fi < fl,
                    rl >= 0,
            ;
        }
        let ghost rows_pre = cat.rows@.len();
        let ghost tr_pre = tr;
        move_one_folder(
            fs,
            cat,
            request.folder_paths[f].as_str(),
            dest,
            &mut moved,
            &mut errors,
        );
        proof {
            tr = tr.push((st(*fs, *cat), moved as int, spec_views(errors@)));
            assert(cat.rows@.len() == rows_pre);
            assert forall|j: int|
                0 <= j < f + 1 implies move_folder_step(
                #[trigger] tr[ids.len() + j].0,
                tr[ids.len() + j].1,
                tr[ids.len() + j].2,
                folders[j],
                request.destination_path@,
                tr[ids.len() + j + 1].0,
                tr[ids.len() + j + 1].1,
                tr[ids.len() + j + 1].2,
            ) by {
                if j < f {
                    assert(tr[ids.len() + j] == tr_pre[ids.len() + j]);
                    assert(tr[ids.len() + j + 1] == tr_pre[ids.len() + j + 1]);
                } else {
                    assert(tr[ids.len() + j] == tr_pre.last());
                    assert(tr[ids.len() + j + 1] == tr.last());
                }
            }
            assert forall|j: int|
                0 <= j < ids.len() implies move_photo_step(
                #[trigger] tr[j].0,
                tr[j].1,
                tr[j].2,
                ids[j],
                request.destination_path@,
                tr[j + 1].0,
                tr[j + 1].1,
                tr[j + 1].2,
            ) by {
                assert(tr[j] == tr_pre[j]);
                assert(tr[j + 1] == tr_pre[j + 1]);
            }
            let rl = old(cat).rows@.len() as int;
            let fi = f as int;
            assert((fi + 1) * rl == fi * rl + rl) by (nonlinear_arith);
        }
        f += 1;
    }
    Ok(MoveItemsResult { moved, errors })
}

} // verus!
