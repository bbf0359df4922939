//! The import pipeline.
//!
//! An import validates its destination, derives the import folder's name
//! (a caller-supplied stamp in automatic mode, otherwise a custom name
//! with a fixed fallback), creates the folder with its missing ancestors,
//! writes an optional description sidecar file, and then copies each
//! source file to a collision-free destination, records it in the catalog
//! — unless a record already stores exactly that destination path, which
//! still counts as imported — and optionally removes the source. The
//! record's provenance path is deliberately repointed to the destination.
//! Setup failures abort the whole request; per-file failures are collected
//! and siblings continue.

use vstd::prelude::*;
use vstd::string::*;
use crate::catalog::{Catalog, cat_has_path};
use crate::fs_model::{
    FsTree, FsNode, spec_has, spec_is_dir, spec_is_file, spec_index_of, spec_node, spec_dir_chain,
    lemma_node_from_index, lemma_preserve_node,
};
use crate::path_util::{spec_file_name, spec_stem, spec_ext, spec_join, file_name_part, join_path};
use crate::resolve::{spec_resolve_dest, resolve_file_dest, lemma_resolve_dest_free};
use crate::delete_engine::msg_with;
use crate::scan::spec_views;
use crate::{EngState, st};

verus! {

/// Blank up to ASCII whitespace: nothing but spaces, tabs and line breaks.
pub open spec fn spec_blank(s: Seq<char>) -> bool {
    forall|i: int| 0 <= i < s.len() ==> s[i] == ' ' || s[i] == '\t' || s[i] == '\n' || s[i] == '\r'
}

/// Decides whether a text is blank up to ASCII whitespace.
pub fn is_blank(s: &str) -> (r: bool)
    ensures
        r == spec_blank(s@),
{
    let n = s.unicode_len();
    let mut i: usize = 0;
    while i < n
        invariant
            n == s@.len(),
            i <= n,
            forall|j: int|
                0 <= j < i ==> s@[j] == ' ' || s@[j] == '\t' || s@[j] == '\n' || s@[j] == '\r',
        decreases n - i,
    {
        let c = s.get_char(i);
        if c != ' ' && c != '\t' && c != '\n' && c != '\r' {
            return false;
        }
        i += 1;
    }
    true
}

/// The import folder's name: the caller-supplied stamp in automatic mode,
/// otherwise the custom name, with a fixed fallback when none was given
/// or the supplied name is empty.
pub open spec fn spec_import_folder_name(
    folder_format: Seq<char>,
    custom: Option<Seq<char>>,
    auto: Seq<char>,
) -> Seq<char> {
    if folder_format == "automatic"@ {
        auto
    } else {
        match custom {
            Some(c) => if c.len() == 0 {
                "imported_photos"@
            } else {
                c
            },
            None => "imported_photos"@,
        }
    }
}

/// Derives the import folder's name from the requested mode.
pub fn import_folder_name(folder_format: &str, custom_folder_name: &Option<String>, auto: &str) -> (r:
    String)
    ensures
        r@ == spec_import_folder_name(
            folder_format@,
            match custom_folder_name {
                Some(c) => Some(c@),
                None => None,
            },
            auto@,
        ),
{
    if crate::path_util::str_eq(folder_format, "automatic") {
        String::from_str(auto)
    } else {
        match custom_folder_name {
            Some(c) => {
                if c.as_str().unicode_len() == 0 {
                    String::from_str("imported_photos")
                } else {
                    c.clone()
                }
            },
            None => String::from_str("imported_photos"),
        }
    }
}

/// One step of the batch: importing the source file `p` into the import
/// folder. A missing source or an empty file name leaves the state
/// unchanged and appends one error, as does a source that cannot be copied
/// (it names a directory, or the resolver's cap is exhausted). Otherwise
/// the file is copied to the resolved free destination; a record is
/// inserted with both path fields at the destination unless one already
/// stores exactly that path; either way the item counts as imported; and
/// when `delete_after` is set the source file is removed.
#[verifier::opaque]
pub open spec fn import_photo_step(
    pre: EngState,
    imported0: int,
    errs0: Seq<Seq<char>>,
    p: Seq<char>,
    folder: Seq<char>,
    delete_after: bool,
    now: Seq<char>,
    post: EngState,
    imported1: int,
    errs1: Seq<Seq<char>>,
) -> bool {
    let name = spec_file_name(p);
    let dopt = spec_resolve_dest(pre.fs, folder, name, spec_stem(name), spec_ext(name), 1);
    if !spec_has(pre.fs, p) {
        &&& post == pre
        &&& imported1 == imported0
        &&& errs1 == errs0.push("Source file not found: "@ + p)
    } else if name.len() == 0 {
        &&& post == pre
        &&& imported1 == imported0
        &&& errs1 == errs0.push("Invalid file name: "@ + p)
    } else if dopt is None || !spec_is_file(pre.fs, p) {
        &&& post == pre
        &&& imported1 == imported0
        &&& errs1 == errs0.push("Failed to copy: "@ + p)
    } else {
        let dest = dopt->0;
        let node = spec_node(pre.fs, p);
        let i_src = spec_index_of(pre.fs, p);
        &&& if delete_after {
            &&& post.fs.len() == pre.fs.len()
            &&& (forall|k: int| 0 <= k < i_src ==> post.fs[k] == pre.fs[k])
            &&& (forall|k: int|
                i_src <= k < pre.fs.len() - 1 ==> post.fs[k] == pre.fs[k + 1])
            &&& post.fs[pre.fs.len() - 1].path@ == dest
            &&& post.fs[pre.fs.len() - 1].node == node
        } else {
            &&& post.fs.len() == pre.fs.len() + 1
            &&& post.fs.drop_last() == pre.fs
            &&& post.fs.last().path@ == dest
            &&& post.fs.last().node == node
        }
        &&& if cat_has_path(pre.rows, dest) {
            &&& post.rows == pre.rows
            &&& post.next_id == pre.next_id
        } else {
            &&& post.rows.len() == pre.rows.len() + 1
            &&& post.rows.drop_last() == pre.rows
            &&& post.rows.last().id == pre.next_id
            &&& post.rows.last().file_path@ == dest
            &&& post.rows.last().original_path@ == dest
            &&& post.rows.last().file_name@ == spec_file_name(dest)
            &&& post.rows.last().file_size == Some(node->size)
            &&& post.rows.last().width == node->width
            &&& post.rows.last().height == node->height
            &&& post.rows.last().created_at@ == now
            &&& post.next_id == pre.next_id + 1
        }
        &&& imported1 == imported0 + 1
        &&& errs1 == errs0
    }
}

/// Imports one source file, recording failure in the shared error list,
/// as one step of a batch.
pub fn import_one_photo(
    fs: &mut FsTree,
    cat: &mut Catalog,
    photo_path: &str,
    import_folder: &str,
    delete_after: bool,
    now: &str,
    imported: &mut i32,
    errors: &mut Vec<String>,
)
    requires
        old(fs).wf(),
        old(cat).wf(),
        *old(imported) < 0x7fff_ffff,
        old(cat).next_id < 0x7fff_ffff_ffff_ffff,
    ensures
        final(fs).wf(),
        final(cat).wf(),
        import_photo_step(
            st(*old(fs), *old(cat)),
            *old(imported) as int,
            spec_views(old(errors)@),
            photo_path@,
            import_folder@,
            delete_after,
            now@,
            st(*final(fs), *final(cat)),
            *final(imported) as int,
            spec_views(final(errors)@),
        ),
        *old(imported) <= *final(imported) <= *old(imported) + 1,
        old(cat).next_id <= final(cat).next_id <= old(cat).next_id + 1,
{
    proof {
        reveal(import_photo_step);
    }
    if !fs.has_path(photo_path) {
        let m = msg_with("Source file not found: ", photo_path);
        let ghost prev = errors@;
        errors.push(m);
        proof {
            assert(spec_views(errors@) =~= spec_views(prev).push(
                "Source file not found: "@ + photo_path@,
            ));
        }
        return ;
    }
    let name = file_name_part(photo_path);
    if name.as_str().unicode_len() == 0 {
        let m = msg_with("Invalid file name: ", photo_path);
        let ghost prev = errors@;
        errors.push(m);
        proof {
            assert(spec_views(errors@) =~= spec_views(prev).push(
                "Invalid file name: "@ + photo_path@,
            ));
        }
        return ;
    }
    let dest = match resolve_file_dest(fs, import_folder, name.as_str(), 1) {
        Ok(d) => d,
        Err(()) => {
            let m = msg_with("Failed to copy: ", photo_path);
            let ghost prev = errors@;
            errors.push(m);
            proof {
                assert(spec_views(errors@) =~= spec_views(prev).push(
                    "Failed to copy: "@ + photo_path@,
                ));
            }
            return ;
        },
    };
    proof {
        lemma_resolve_dest_free(
            fs.entries@,
            import_folder@,
            name@,
            spec_stem(name@),
            spec_ext(name@),
            1,
        );
    }
    let node = match fs.node_at(photo_path) {
        Some(n) => n,
        None => {
            // unreachable: presence was just checked
            let m = msg_with("Failed to copy: ", photo_path);
            errors.push(m);
            return ;
        },
    };
    let (size, width, height) = match node {
        FsNode::File { size, width, height } => (size, width, height),
        FsNode::Dir => {
            let m = msg_with("Failed to copy: ", photo_path);
            let ghost prev = errors@;
            errors.push(m);
            proof {
                assert(spec_views(errors@) =~= spec_views(prev).push(
                    "Failed to copy: "@ + photo_path@,
                ));
            }
            return ;
        },
    };
    let ghost fs_pre = fs.entries@;
    match fs.copy_file(photo_path, dest.as_str()) {
        Ok(()) => {},
        Err(()) => {
            // unreachable: the source is a file and the destination is free
            let m = msg_with("Failed to copy: ", photo_path);
            errors.push(m);
            return ;
        },
    }
    let dest_name = file_name_part(dest.as_str());
    if !cat.has_file_path(dest.as_str()) {
        let ghost rows_pre = cat.rows@;
        cat.insert(
            dest.as_str(),
            dest.as_str(),
            dest_name.as_str(),
            Some(size),
            width,
            height,
            now,
        );
    }
    *imported = *imported + 1;
    if delete_after {
        let ghost mid = fs.entries@;
        proof {
            let i_src = spec_index_of(fs_pre, photo_path@);
            assert(0 <= i_src < fs_pre.len() && fs_pre[i_src].path@ == photo_path@);
            assert(mid.drop_last() == fs_pre);
            assert(mid[i_src] == mid.drop_last()[i_src]);
            lemma_node_from_index(mid, i_src, photo_path@);
        }
        match fs.remove_file(photo_path) {
            Ok(()) => {
                proof {
                    let i_src = spec_index_of(fs_pre, photo_path@);
                    assert(fs.entries@ == mid.remove(spec_index_of(mid, photo_path@)));
                    assert forall|k: int| 0 <= k < i_src implies fs.entries@[k] == fs_pre[k] by {
                        assert(fs.entries@[k] == mid[k]);
                        assert(mid[k] == mid.drop_last()[k]);
                    }
                    assert forall|k: int|
                        i_src <= k < fs_pre.len() - 1 implies fs.entries@[k] == fs_pre[k + 1] by {
                        assert(fs.entries@[k] == mid[k + 1]);
                        assert(mid[k + 1] == mid.drop_last()[k + 1]);
                    }
                    assert(fs.entries@[fs_pre.len() - 1] == mid[fs_pre.len() as int]);
                }
            },
            Err(()) => {
                // unreachable: the source was a file and the copy did not
                // touch it
                let m = msg_with("Failed to delete source file: ", photo_path);
                errors.push(m);
            },
        }
    }
}

/// The outcome of an import batch: how many items counted as imported
/// (a destination already on record counts too) and the collected
/// per-file failures.
#[derive(Debug)]
pub struct ImportPhotosResult {
    pub imported: i32,
    pub errors: Vec<String>,
}

/// The directory-creation stage's effect on the tree: everything kept in
/// place, only missing links of `p`'s directory chain appended, and the
/// whole chain a directory afterwards.
pub open spec fn dirs_created(pre: Seq<crate::fs_model::FsEntry>, p: Seq<char>, post: Seq<crate::fs_model::FsEntry>) -> bool {
    &&& post.len() >= pre.len()
    &&& post.subrange(0, pre.len() as int) == pre
    &&& (forall|k: int|
        pre.len() <= k < post.len() ==> {
            &&& post[k].node is Dir
            &&& spec_dir_chain(p, post[k].path@)
            &&& !spec_has(pre, post[k].path@)
        })
    &&& (forall|q: Seq<char>| spec_dir_chain(p, q) ==> spec_is_dir(post, q))
}

/// The sidecar stage's effect on the tree: the description file written at
/// `p` with the given size, created or overwritten in place.
pub open spec fn sidecar_written(
    pre: Seq<crate::fs_model::FsEntry>,
    p: Seq<char>,
    size: i64,
    post: Seq<crate::fs_model::FsEntry>,
) -> bool {
    if spec_has(pre, p) {
        &&& post.len() == pre.len()
        &&& (forall|k: int|
            0 <= k < pre.len() && k != spec_index_of(pre, p) ==> post[k] == pre[k])
        &&& post[spec_index_of(pre, p)].path@ == p
        &&& post[spec_index_of(pre, p)].node == (FsNode::File {
            size,
            width: None,
            height: None,
        })
    } else {
        &&& post.len() == pre.len() + 1
        &&& post.drop_last() == pre
        &&& post.last().path@ == p
        &&& post.last().node == (FsNode::File { size, width: None, height: None })
    }
}

/// The import batch's trace: each source path processed in turn by
/// [`import_photo_step`], with the running imported count and error list.
pub open spec fn import_trace_ok(
    tr: Seq<(EngState, int, Seq<Seq<char>>)>,
    items: Seq<Seq<char>>,
    folder: Seq<char>,
    delete_after: bool,
    now: Seq<char>,
) -> bool {
    &&& tr.len() == items.len() + 1
    &&& tr[0].1 == 0
    &&& tr[0].2 == Seq::<Seq<char>>::empty()
    &&& (forall|i: int|
        0 <= i < items.len() ==> import_photo_step(
            #[trigger] tr[i].0,
            tr[i].1,
            tr[i].2,
            items[i],
            folder,
            delete_after,
            now,
            tr[i + 1].0,
            tr[i + 1].1,
            tr[i + 1].2,
        ))
}

/// What a full import does, for a fixed folder name and clock stamp: the
/// destination must exist; a file in the import folder's directory chain
/// or an unwritable sidecar aborts the request; otherwise the sources are
/// processed in turn by [`import_photo_step`] from the prepared state.
pub open spec fn import_photos_post(
    pre: EngState,
    items: Seq<Seq<char>>,
    destination: Seq<char>,
    folder_name: Seq<char>,
    description: Option<Seq<char>>,
    delete_after: bool,
    now: Seq<char>,
    post: EngState,
    r: Result<ImportPhotosResult, String>,
) -> bool {
    let ifolder = spec_join(destination, folder_name);
    let desc_file = spec_join(ifolder, "description.txt"@);
    let write_sidecar = description matches Some(d) && !spec_blank(d);
    &&& (!spec_has(pre.fs, destination) ==> (r matches Err(m) && (m@
        == "Destination path does not exist"@ && post == pre)))
    &&& (spec_has(pre.fs, destination) && (exists|q: Seq<char>|
        spec_dir_chain(ifolder, q) && spec_is_file(pre.fs, q)) ==> (r matches Err(m) && (m@
        == "Failed to create import folder: "@ + ifolder && post == pre)))
    &&& (spec_has(pre.fs, destination) && !(exists|q: Seq<char>|
        spec_dir_chain(ifolder, q) && spec_is_file(pre.fs, q)) && write_sidecar && spec_is_dir(
        pre.fs,
        desc_file,
    ) ==> (r matches Err(m) && (m@ == "Failed to write description file: "@ + desc_file
        && post.rows == pre.rows && post.next_id == pre.next_id && dirs_created(
        pre.fs,
        ifolder,
        post.fs,
    ))))
    &&& (spec_has(pre.fs, destination) && !(exists|q: Seq<char>|
        spec_dir_chain(ifolder, q) && spec_is_file(pre.fs, q)) && (write_sidecar
        ==> !spec_is_dir(pre.fs, desc_file)) ==> (r matches Ok(out) && (exists|
        m1: Seq<crate::fs_model::FsEntry>,
        tr: Seq<(EngState, int, Seq<Seq<char>>)>,
    |
        {
            &&& #[trigger] dirs_created(pre.fs, ifolder, m1)
            &&& #[trigger] import_trace_ok(tr, items, ifolder, delete_after, now)
            &&& if write_sidecar {
                sidecar_written(m1, desc_file, (description->0).len() as i64, tr[0].0.fs)
            } else {
                tr[0].0.fs == m1
            }
            &&& tr[0].0.rows == pre.rows
            &&& tr[0].0.next_id == pre.next_id
            &&& post == tr.last().0
            &&& out.imported as int == tr.last().1
            &&& spec_views(out.errors@) == tr.last().2
        })))
}

/// Imports a batch of source files into a freshly named folder under the
/// destination, against a fixed folder name and clock stamp. The
/// destination must exist; a folder-creation or sidecar failure aborts the
/// whole request; after that, each source file is processed by
/// [`import_photo_step`] and per-file failures are collected.
#[verifier::rlimit(100)]
pub fn import_photos_at(
    fs: &mut FsTree,
    cat: &mut Catalog,
    photos: &Vec<String>,
    destination: &str,
    folder_name: &str,
    description: &Option<String>,
    delete_after: bool,
    now: &str,
) -> (r: Result<ImportPhotosResult, String>)
    requires
        old(fs).wf(),
        old(cat).wf(),
        photos@.len() < 0x7fff_ffff,
        old(cat).next_id + photos@.len() < 0x7fff_ffff_ffff_ffff,
        description matches Some(d) ==> d@.len() < 0x7fff_ffff_ffff_ffff,
    ensures
        final(fs).wf(),
        final(cat).wf(),
        import_photos_post(
            st(*old(fs), *old(cat)),
            spec_views(photos@),
            destination@,
            folder_name@,
            match description {
                Some(d) => Some(d@),
                None => None,
            },
            delete_after,
            now@,
            st(*final(fs), *final(cat)),
            r,
        ),
{
    if !fs.has_path(destination) {
        return Err(String::from_str("Destination path does not exist"));
    }
    let import_folder = join_path(destination, folder_name);
    match fs.create_dir_all(import_folder.as_str()) {
        Ok(()) => {},
        Err(()) => {
            return Err(msg_with("Failed to create import folder: ", import_folder.as_str()));
        },
    }
    let ghost m1 = fs.entries@;
    let desc_file = join_path(import_folder.as_str(), "description.txt");
    proof {
        reveal_strlit("description.txt");
        assert(desc_file@.len() == import_folder@.len() + 16);
        assert forall|q: Seq<char>|
            spec_dir_chain(import_folder@, q) implies q.len() <= import_folder@.len() by {
            if q != import_folder@ {
                let k = choose|k: int|
                    0 < k < import_folder@.len() && import_folder@[k] == '/' && q
                        == import_folder@.subrange(0, k);
            }
        }
    }
    let mut write_sidecar = false;
    let mut desc_len: i64 = 0;
    match description {
        Some(d) => {
            if !is_blank(d.as_str()) {
                write_sidecar = true;
                desc_len = d.as_str().unicode_len() as i64;
            }
        },
        None => {},
    }
    if write_sidecar {
        proof {
            if spec_is_dir(m1, desc_file@) {
                let i = spec_index_of(m1, desc_file@);
                assert(0 <= i < m1.len() && m1[i].path@ == desc_file@);
                lemma_node_from_index(m1, i, desc_file@);
                if i < old(fs).entries@.len() {
                    assert(m1[i] == m1.subrange(0, old(fs).entries@.len() as int)[i]);
                    lemma_node_from_index(old(fs).entries@, i, desc_file@);
                } else {
                    assert(spec_dir_chain(import_folder@, m1[i].path@));
                }
            }
            if spec_is_dir(old(fs).entries@, desc_file@) {
                lemma_preserve_node(old(fs).entries@, m1, desc_file@);
            }
        }
        match fs.write_file(desc_file.as_str(), desc_len, None, None) {
            Ok(()) => {},
            Err(()) => {
                return Err(msg_with("Failed to write description file: ", desc_file.as_str()));
            },
        }
    }
    let ghost items = spec_views(photos@);
    let mut imported: i32 = 0;
    let mut errors: Vec<String> = Vec::new();
    let ghost mut tr: Seq<(EngState, int, Seq<Seq<char>>)> = seq![
        (st(*fs, *cat), 0int, Seq::<Seq<char>>::empty()),
    ];
    let n = photos.len();
    let mut i: usize = 0;
    while i < n
        invariant
            fs.wf(),
            cat.wf(),
            n == items.len(),
            i <= n,
            items == spec_views(photos@),
            items.len() < 0x7fff_ffff,
            import_folder@ == spec_join(destination@, folder_name@),
            desc_file@ == spec_join(import_folder@, "description.txt"@),
            dirs_created(old(fs).entries@, import_folder@, m1),
            write_sidecar == (description matches Some(d) && !spec_blank(d@)),
            write_sidecar ==> desc_len as int == (description->0)@.len(),
            if write_sidecar {
                sidecar_written(m1, desc_file@, desc_len, tr[0].0.fs)
            } else {
                tr[0].0.fs == m1
            },
            0 <= imported as int <= i,
            cat.next_id <= old(cat).next_id + i,
            old(cat).next_id + items.len() < 0x7fff_ffff_ffff_ffff,
            tr.len() == i + 1,
            tr[0].1 == 0,
            tr[0].2 == Seq::<Seq<char>>::empty(),
            tr[0].0.rows == old(cat).rows@,
            tr[0].0.next_id == old(cat).next_id,
            forall|j: int|
                0 <= j < i ==> import_photo_step(
                    #[trigger] tr[j].0,
                    tr[j].1,
                    tr[j].2,
                    items[j],
                    import_folder@,
                    delete_after,
                    now@,
                    tr[j + 1].0,
                    tr[j + 1].1,
                    tr[j + 1].2,
                ),
            tr.last().0 == st(*fs, *cat),
            tr.last().1 == imported as int,
            tr.last().2 == spec_views(errors@),
        decreases n - i,
    {
        let ghost tr_pre = tr;
        import_one_photo(
            fs,
            cat,
            photos[i].as_str(),
            import_folder.as_str(),
            delete_after,
            now,
            &mut imported,
            &mut errors,
        );
        proof {
            tr = tr.push((st(*fs, *cat), imported as int, spec_views(errors@)));
            assert forall|j: int|
                0 <= j < i + 1 implies import_photo_step(
                #[trigger] tr[j].0,
                tr[j].1,
                tr[j].2,
                items[j],
                import_folder@,
                delete_after,
                now@,
                tr[j + 1].0,
                tr[j + 1].1,
                tr[j + 1].2,
            ) by {
                if j < i {
                    assert(tr[j] == tr_pre[j]);
                    assert(tr[j + 1] == tr_pre[j + 1]);
                } else {
                    assert(tr[j] == tr_pre.last());
                    assert(tr[j + 1] == tr.last());
                }
            }
        }
        i += 1;
    }
    proof {
        assert(import_trace_ok(tr, spec_views(photos@), import_folder@, delete_after, now@));
    }
    Ok(ImportPhotosResult { imported, errors })
}

/// The view of an optional text.
pub open spec fn opt_text(o: Option<String>) -> Option<Seq<char>> {
    match o {
        Some(c) => Some(c@),
        None => None,
    }
}

/// Imports a batch of source files into the destination, deriving the
/// import folder's name from the requested mode: in automatic mode the
/// name is a clock stamp, so the contract holds for some stamp and some
/// record-creation stamp; everything else is pinned by
/// [`import_photos_post`].
pub fn import_photos(
    fs: &mut FsTree,
    cat: &mut Catalog,
    photos: &Vec<String>,
    destination: &str,
    folder_format: &str,
    custom_folder_name: &Option<String>,
    description: &Option<String>,
    delete_after: bool,
) -> (r: Result<ImportPhotosResult, String>)
    requires
        old(fs).wf(),
        old(cat).wf(),
        photos@.len() < 0x7fff_ffff,
        old(cat).next_id + photos@.len() < 0x7fff_ffff_ffff_ffff,
        description matches Some(d) ==> d@.len() < 0x7fff_ffff_ffff_ffff,
    ensures
        final(fs).wf(),
        final(cat).wf(),
        exists|stamp: Seq<char>, now: Seq<char>|
            #[trigger] import_photos_post(
                st(*old(fs), *old(cat)),
                spec_views(photos@),
                destination@,
                spec_import_folder_name(folder_format@, opt_text(*custom_folder_name), stamp),
                opt_text(*description),
                delete_after,
                now,
                st(*final(fs), *final(cat)),
                r,
            ),
{
    let stamp = crate::thumb::folder_stamp();
    let now = crate::thumb::now_stamp();
    let folder_name = import_folder_name(folder_format, custom_folder_name, stamp.as_str());
    let r = import_photos_at(
        fs,
        cat,
        photos,
        destination,
        folder_name.as_str(),
        description,
        delete_after,
        now.as_str(),
    );
    proof {
        assert(import_photos_post(
            st(*old(fs), *old(cat)),
            spec_views(photos@),
            destination@,
            spec_import_folder_name(folder_format@, opt_text(*custom_folder_name), stamp@),
            opt_text(*description),
            delete_after,
            now@,
            st(*fs, *cat),
            r,
        ));
    }
    r
}

/// A request to ingest a directory tree into the catalog in place.
#[derive(Debug)]
pub struct ScanRequest {
    pub source_path: String,
}

/// One step of the ingestion scan: recording the already-in-place file `p`
/// in the catalog. A record that already stores exactly `p` is kept and
/// the item still counts; otherwise a new record is inserted with both
/// path fields at `p` and the file's own attributes. A path that no
/// longer names a file is recorded as an error.
#[verifier::opaque]
pub open spec fn ingest_photo_step(
    pre: EngState,
    count0: int,
    errs0: Seq<Seq<char>>,
    p: Seq<char>,
    now: Seq<char>,
    post: EngState,
    count1: int,
    errs1: Seq<Seq<char>>,
) -> bool {
    if !spec_is_file(pre.fs, p) {
        &&& post == pre
        &&& count1 == count0
        &&& errs1 == errs0.push(p + ": not a file"@)
    } else {
        let node = spec_node(pre.fs, p);
        &&& post.fs == pre.fs
        &&& if cat_has_path(pre.rows, p) {
            &&& post.rows == pre.rows
            &&& post.next_id == pre.next_id
        } else {
            &&& post.rows.len() == pre.rows.len() + 1
            &&& post.rows.drop_last() == pre.rows
            &&& post.rows.last().id == pre.next_id
            &&& post.rows.last().file_path@ == p
            &&& post.rows.last().original_path@ == p
            &&& post.rows.last().file_name@ == spec_file_name(p)
            &&& post.rows.last().file_size == Some(node->size)
            &&& post.rows.last().width == node->width
            &&& post.rows.last().height == node->height
            &&& post.rows.last().created_at@ == now
            &&& post.next_id == pre.next_id + 1
        }
        &&& count1 == count0 + 1
        &&& errs1 == errs0
    }
}

/// Ingests one already-in-place file, as one step of an ingestion scan.
pub fn ingest_one_photo(
    fs: &FsTree,
    cat: &mut Catalog,
    photo_path: &str,
    now: &str,
    count: &mut i32,
    errors: &mut Vec<String>,
)
    requires
        fs.wf(),
        old(cat).wf(),
        *old(count) < 0x7fff_ffff,
        old(cat).next_id < 0x7fff_ffff_ffff_ffff,
    ensures
        final(cat).wf(),
        ingest_photo_step(
            st(*fs, *old(cat)),
            *old(count) as int,
            spec_views(old(errors)@),
            photo_path@,
            now@,
            st(*fs, *final(cat)),
            *final(count) as int,
            spec_views(final(errors)@),
        ),
        *old(count) <= *final(count) <= *old(count) + 1,
        old(cat).next_id <= final(cat).next_id <= old(cat).next_id + 1,
{
    proof {
        reveal(ingest_photo_step);
    }
    let (size, width, height) = match fs.node_at(photo_path) {
        Some(FsNode::File { size, width, height }) => (size, width, height),
        _ => {
            let m = String::from_str(photo_path).concat(": not a file");
            let ghost prev = errors@;
            errors.push(m);
            proof {
                reveal_strlit(": not a file");
                assert(spec_views(errors@) =~= spec_views(prev).push(photo_path@ + ": not a file"@));
            }
            return ;
        },
    };
    let name = file_name_part(photo_path);
    if !cat.has_file_path(photo_path) {
        cat.insert(photo_path, photo_path, name.as_str(), Some(size), width, height, now);
    }
    *count = *count + 1;
}

/// The ingestion scan's trace: each scanned path processed in turn by
/// [`ingest_photo_step`]; the filesystem is read, never written.
pub open spec fn ingest_trace_ok(
    tr: Seq<(EngState, int, Seq<Seq<char>>)>,
    items: Seq<Seq<char>>,
    now: Seq<char>,
) -> bool {
    &&& tr.len() == items.len() + 1
    &&& tr[0].1 == 0
    &&& tr[0].2 == Seq::<Seq<char>>::empty()
    &&& (forall|i: int|
        0 <= i < items.len() ==> ingest_photo_step(
            #[trigger] tr[i].0,
            tr[i].1,
            tr[i].2,
            items[i],
            now,
            tr[i + 1].0,
            tr[i + 1].1,
            tr[i + 1].2,
        ))
}

/// Scans a directory tree already inside the library and records each
/// qualifying image file in the catalog: the walk is the bounded,
/// hidden-skipping scan in image mode, and each found path is processed by
/// [`ingest_photo_step`]. The source path must exist.
pub fn scan_photos(fs: &FsTree, cat: &mut Catalog, request: &ScanRequest, now: &str) -> (r: Result<
    ImportPhotosResult,
    String,
>)
    requires
        fs.wf(),
        old(cat).wf(),
    ensures
        final(cat).wf(),
        ({
            let found = crate::scan::spec_scan_files(
                fs.entries@,
                crate::scan::spec_children(fs.entries@, request.source_path@),
                0,
                0,
                crate::scan::INGEST_SCAN_DEPTH as nat,
                crate::scan::ScanKind::CatalogImages,
                Seq::empty(),
            );
            r is Err <==> !spec_has(fs.entries@, request.source_path@) || old(cat).next_id
                + found.len() >= 0x7fff_ffff_ffff_ffff || found.len() >= 0x7fff_ffff
        }),
        !spec_has(fs.entries@, request.source_path@) ==> (r matches Err(m) && m@
            == "Source path does not exist"@),
        spec_has(fs.entries@, request.source_path@) && r is Err ==> (r matches Err(m) && m@
            == "Catalog id space exhausted"@),
        r is Err ==> *final(cat) == *old(cat),
        r matches Ok(out) ==> (exists|tr: Seq<(EngState, int, Seq<Seq<char>>)>|
            {
                &&& #[trigger] ingest_trace_ok(
                    tr,
                    crate::scan::spec_scan_files(
                        fs.entries@,
                        crate::scan::spec_children(fs.entries@, request.source_path@),
                        0,
                        0,
                        crate::scan::INGEST_SCAN_DEPTH as nat,
                        crate::scan::ScanKind::CatalogImages,
                        Seq::empty(),
                    ),
                    now@,
                )
                &&& tr[0].0 == st(*fs, *old(cat))
                &&& st(*fs, *final(cat)) == tr.last().0
                &&& out.imported as int == tr.last().1
                &&& spec_views(out.errors@) == tr.last().2
            }),
{
    if !fs.has_path(request.source_path.as_str()) {
        return Err(String::from_str("Source path does not exist"));
    }
    let paths = crate::scan::scan_for_photos(
        fs,
        request.source_path.as_str(),
        crate::scan::INGEST_SCAN_DEPTH,
        crate::scan::ScanKind::CatalogImages,
    );
    let ghost items = spec_views(paths@);
    let n = paths.len();
    let headroom = 0x7fff_ffff_ffff_ffffi64 - cat.next_id;
    if n as u64 >= headroom as u64 || n >= 0x7fff_ffff {
        return Err(String::from_str("Catalog id space exhausted"));
    }
    let mut count: i32 = 0;
    let mut errors: Vec<String> = Vec::new();
    let ghost mut tr: Seq<(EngState, int, Seq<Seq<char>>)> = seq![
        (st(*fs, *cat), 0int, Seq::<Seq<char>>::empty()),
    ];
    let mut i: usize = 0;
    while i < n
        invariant
            fs.wf(),
            cat.wf(),
            n == items.len(),
            i <= n,
            items == spec_views(paths@),
            items == crate::scan::spec_scan_files(
                fs.entries@,
                crate::scan::spec_children(fs.entries@, request.source_path@),
                0,
                0,
                crate::scan::INGEST_SCAN_DEPTH as nat,
                crate::scan::ScanKind::CatalogImages,
                Seq::empty(),
            ),
            items.len() < 0x7fff_ffff,
            0 <= count as int <= i,
            cat.next_id <= old(cat).next_id + i,
            old(cat).next_id + items.len() < 0x7fff_ffff_ffff_ffff,
            tr.len() == i + 1,
            tr[0].1 == 0,
            tr[0].2 == Seq::<Seq<char>>::empty(),
            tr[0].0 == st(*fs, *old(cat)),
            forall|j: int|
                0 <= j < i ==> ingest_photo_step(
                    #[trigger] tr[j].0,
                    tr[j].1,
                    tr[j].2,
                    items[j],
                    now@,
                    tr[j + 1].0,
                    tr[j + 1].1,
                    tr[j + 1].2,
                ),
            tr.last().0 == st(*fs, *cat),
            tr.last().1 == count as int,
            tr.last().2 == spec_views(errors@),
        decreases n - i,
    {
        let ghost tr_pre = tr;
        ingest_one_photo(fs, cat, paths[i].as_str(), now, &mut count, &mut errors);
        proof {
            tr = tr.push((st(*fs, *cat), count as int, spec_views(errors@)));
            assert forall|j: int|
                0 <= j < i + 1 implies ingest_photo_step(
                #[trigger] tr[j].0,
                tr[j].1,
                tr[j].2,
                items[j],
                now@,
                tr[j + 1].0,
                tr[j + 1].1,
                tr[j + 1].2,
            ) by {
                if j < i {
                    assert(tr[j] == tr_pre[j]);
                    assert(tr[j + 1] == tr_pre[j + 1]);
                } else {
                    assert(tr[j] == tr_pre.last());
                    assert(tr[j + 1] == tr.last());
                }
            }
        }
        i += 1;
    }
    proof {
        assert(ingest_trace_ok(tr, items, now@));
    }
    Ok(ImportPhotosResult { imported: count, errors })
}

} // verus!
