//! The library's stated laws, proved once and for all.
//!
//! Each proof function here states one property of the engines over the
//! spec functions that their contracts use, under only the property's own
//! scenario hypotheses and the types' validity.

use vstd::prelude::*;
use crate::catalog::{Photo, cat_has, cat_row, cat_index_of};
use crate::fs_model::{
    FsEntry, spec_has, spec_is_dir, spec_is_file, spec_distinct_paths, spec_remove_tree,
    spec_index_of, spec_any_under,
};
use crate::path_util::{
    spec_starts_with, spec_under_dir, spec_file_name, spec_stem, spec_ext, spec_join,
    lemma_last_index,
};
use crate::resolve::{
    spec_resolve_dest, spec_cand_path, lemma_resolve_no_skip, lemma_resolve_dest_free,
    COLLISION_CAP,
};
use crate::move_engine::{move_photo_step, move_folder_step};
use crate::import_engine::import_photo_step;
use crate::delete_engine::folder_rows_deleted;
use crate::EngState;

verus! {

/// The collision resolver returns a path that is free in the tree it was
/// given, and it exhausts the copy numbers in increasing order: whatever
/// it settles on is either the plain name, or the first free numbered
/// candidate — every smaller number names a taken path.
pub proof fn law_resolver_free_and_minimal(
    s: Seq<FsEntry>,
    dir: Seq<char>,
    name: Seq<char>,
    stem: Seq<char>,
    ext: Seq<char>,
    start: nat,
)
    ensures
        spec_resolve_dest(s, dir, name, stem, ext, start) matches Some(p) ==> !spec_has(s, p),
        spec_resolve_dest(s, dir, name, stem, ext, start) matches Some(p) ==> (p == spec_join(
            dir,
            name,
        ) || (exists|n: nat|
            start <= n < start + COLLISION_CAP && p == spec_cand_path(dir, stem, ext, n) && (forall|
                m: nat,
            |
                start <= m < n ==> spec_has(s, #[trigger] spec_cand_path(dir, stem, ext, m))))),
{
    lemma_resolve_dest_free(s, dir, name, stem, ext, start);
    if spec_has(s, spec_join(dir, name)) {
        lemma_resolve_no_skip(s, dir, stem, ext, start, COLLISION_CAP as nat);
    }
}

/// Moving a cataloged file to a destination directory that already holds a
/// same-named file renames the copy: the record's stored path afterwards
/// is a path that was free before the move and differs from the naive
/// `dir/name` destination, and the moved node now stands there.
pub proof fn law_move_renames_on_collision(
    pre: EngState,
    moved0: int,
    errs0: Seq<Seq<char>>,
    id: i64,
    dest_dir: Seq<char>,
    post: EngState,
    moved1: int,
    errs1: Seq<Seq<char>>,
)
    requires
        move_photo_step(pre, moved0, errs0, id, dest_dir, post, moved1, errs1),
        cat_has(pre.rows, id),
        spec_has(pre.fs, cat_row(pre.rows, id).file_path@),
        spec_file_name(cat_row(pre.rows, id).file_path@).len() > 0,
        spec_resolve_dest(
            pre.fs,
            dest_dir,
            spec_file_name(cat_row(pre.rows, id).file_path@),
            spec_stem(spec_file_name(cat_row(pre.rows, id).file_path@)),
            spec_ext(spec_file_name(cat_row(pre.rows, id).file_path@)),
            1,
        ) is Some,
        spec_has(pre.fs, spec_join(dest_dir, spec_file_name(cat_row(pre.rows, id).file_path@))),
    ensures
        ({
            let name = spec_file_name(cat_row(pre.rows, id).file_path@);
            let d = spec_resolve_dest(pre.fs, dest_dir, name, spec_stem(name), spec_ext(name), 1)->0;
            &&& post.rows[cat_index_of(pre.rows, id)].file_path@ == d
            &&& d != spec_join(dest_dir, name)
            &&& !spec_has(pre.fs, d)
            &&& post.fs[spec_index_of(pre.fs, cat_row(pre.rows, id).file_path@)].path@ == d
            &&& moved1 == moved0 + 1
        }),
{
    reveal(move_photo_step);
    let name = spec_file_name(cat_row(pre.rows, id).file_path@);
    lemma_resolve_dest_free(pre.fs, dest_dir, name, spec_stem(name), spec_ext(name), 1);
}

/// A folder delete on a prefix such as `/lib/Trip1` also removes the
/// catalog rows of a sibling such as `/lib/Trip10` — the selection is a
/// raw string-prefix match — while the sibling's physical file, which
/// does not lie under the deleted subtree, survives on disk. The chosen
/// policy is deterministic: prefix-matched rows go, boundary-contained
/// files go, and the two tests disagree exactly on such siblings.
pub proof fn law_delete_prefix_hazard(
    old_rows: Seq<Photo>,
    new_rows: Seq<Photo>,
    old_fs: Seq<FsEntry>,
    new_fs: Seq<FsEntry>,
    folder: Seq<char>,
    k: int,
    i: int,
)
    requires
        folder_rows_deleted(old_rows, new_rows, folder),
        new_fs == spec_remove_tree(old_fs, folder),
        0 <= k < old_rows.len(),
        spec_starts_with(old_rows[k].file_path@, folder),
        0 <= i < old_fs.len(),
        old_fs[i].path@ == old_rows[k].file_path@,
        old_fs[i].path@ != folder,
        !spec_under_dir(old_fs[i].path@, folder),
    ensures
        !cat_has(new_rows, old_rows[k].id),
        spec_has(new_fs, old_rows[k].file_path@),
{
    crate::fs_model::lemma_remove_tree_keeps(old_fs, folder, i);
}

/// Importing the same source file twice into the same folder creates two
/// distinct files on disk: the second import resolves a fresh name
/// because the first one's destination now exists, both destinations are
/// present afterwards, and each import counts exactly one item.
pub proof fn law_import_twice_distinct(
    pre: EngState,
    mid: EngState,
    post: EngState,
    c0: int,
    c1: int,
    c2: int,
    e0: Seq<Seq<char>>,
    e1: Seq<Seq<char>>,
    e2: Seq<Seq<char>>,
    p: Seq<char>,
    folder: Seq<char>,
    now1: Seq<char>,
    now2: Seq<char>,
)
    requires
        import_photo_step(pre, c0, e0, p, folder, false, now1, mid, c1, e1),
        import_photo_step(mid, c1, e1, p, folder, false, now2, post, c2, e2),
        spec_is_file(pre.fs, p),
        spec_file_name(p).len() > 0,
        spec_resolve_dest(
            pre.fs,
            folder,
            spec_file_name(p),
            spec_stem(spec_file_name(p)),
            spec_ext(spec_file_name(p)),
            1,
        ) is Some,
        spec_resolve_dest(
            mid.fs,
            folder,
            spec_file_name(p),
            spec_stem(spec_file_name(p)),
            spec_ext(spec_file_name(p)),
            1,
        ) is Some,
        spec_is_file(mid.fs, p),
    ensures
        ({
            let name = spec_file_name(p);
            let d1 = spec_resolve_dest(pre.fs, folder, name, spec_stem(name), spec_ext(name), 1)->0;
            let d2 = spec_resolve_dest(mid.fs, folder, name, spec_stem(name), spec_ext(name), 1)->0;
            &&& d1 != d2
            &&& spec_has(post.fs, d1)
            &&& spec_has(post.fs, d2)
            &&& c1 == c0 + 1
            &&& c2 == c1 + 1
        }),
{
    reveal(import_photo_step);
    let name = spec_file_name(p);
    let d1 = spec_resolve_dest(pre.fs, folder, name, spec_stem(name), spec_ext(name), 1)->0;
    let d2 = spec_resolve_dest(mid.fs, folder, name, spec_stem(name), spec_ext(name), 1)->0;
    assert(mid.fs.last().path@ == d1);
    assert(spec_has(mid.fs, d1));
    lemma_resolve_dest_free(mid.fs, folder, name, spec_stem(name), spec_ext(name), 1);
    assert(!spec_has(mid.fs, d2));
    assert(post.fs.last().path@ == d2);
    assert(spec_has(post.fs, d2));
    let j = choose|j: int| 0 <= j < mid.fs.len() && mid.fs[j].path@ == d1;
    assert(post.fs.drop_last()[j] == mid.fs[j]);
    assert(post.fs[j].path@ == d1);
    assert(spec_has(post.fs, d1));
}

/// Two prefixes of one sequence are comparable: the shorter is a prefix
/// of the longer.
proof fn lemma_prefixes_comparable(w: Seq<char>, a: Seq<char>, b: Seq<char>)
    requires
        spec_starts_with(w, a),
        spec_starts_with(w, b),
        a.len() <= b.len(),
    ensures
        spec_starts_with(b, a),
{
    assert forall|i: int| 0 <= i < a.len() implies b[i] == a[i] by {
        assert(w.subrange(0, a.len() as int)[i] == a[i]);
        assert(w.subrange(0, b.len() as int)[i] == b[i]);
    }
    assert(b.subrange(0, a.len() as int) =~= a);
}

/// Moving a folder relocates its subtree and repoints its records: each
/// physical path at or under the folder stands afterwards at the resolved
/// destination with its old suffix and is gone from its old place, and
/// each record whose stored path has the folder as a raw string prefix is
/// repointed the same way. The destination is taken to be prefix-disjoint
/// from the source, as a move between sibling library folders is.
pub proof fn law_move_folder_relocates(
    pre: EngState,
    moved0: int,
    errs0: Seq<Seq<char>>,
    folder: Seq<char>,
    dest_dir: Seq<char>,
    post: EngState,
    moved1: int,
    errs1: Seq<Seq<char>>,
)
    requires
        move_folder_step(pre, moved0, errs0, folder, dest_dir, post, moved1, errs1),
        spec_distinct_paths(pre.fs),
        spec_has(pre.fs, folder),
        spec_is_dir(pre.fs, folder),
        spec_file_name(folder).len() > 0,
        spec_resolve_dest(
            pre.fs,
            dest_dir,
            spec_file_name(folder),
            spec_file_name(folder),
            Seq::empty(),
            1,
        ) is Some,
        !spec_any_under(
            pre.fs,
            spec_resolve_dest(
                pre.fs,
                dest_dir,
                spec_file_name(folder),
                spec_file_name(folder),
                Seq::empty(),
                1,
            )->0,
        ),
        !spec_starts_with(
            spec_resolve_dest(
                pre.fs,
                dest_dir,
                spec_file_name(folder),
                spec_file_name(folder),
                Seq::empty(),
                1,
            )->0,
            folder,
        ),
        !spec_starts_with(
            folder,
            spec_resolve_dest(
                pre.fs,
                dest_dir,
                spec_file_name(folder),
                spec_file_name(folder),
                Seq::empty(),
                1,
            )->0,
        ),
    ensures
        ({
            let name = spec_file_name(folder);
            let dest = spec_resolve_dest(pre.fs, dest_dir, name, name, Seq::empty(), 1)->0;
            &&& forall|k: int|
                0 <= k < pre.fs.len() && (#[trigger] pre.fs[k].path@ == folder || spec_under_dir(
                    pre.fs[k].path@,
                    folder,
                )) ==> spec_has(
                    post.fs,
                    dest + pre.fs[k].path@.subrange(
                        folder.len() as int,
                        pre.fs[k].path@.len() as int,
                    ),
                ) && !spec_has(post.fs, pre.fs[k].path@)
            &&& forall|j: int|
                0 <= j < pre.rows.len() && spec_starts_with(
                    #[trigger] pre.rows[j].file_path@,
                    folder,
                ) ==> post.rows[j].file_path@ == dest + pre.rows[j].file_path@.subrange(
                    folder.len() as int,
                    pre.rows[j].file_path@.len() as int,
                )
            &&& moved1 == moved0 + crate::catalog::spec_select_prefix(pre.rows, folder).len()
        }),
{
    reveal(move_folder_step);
    let name = spec_file_name(folder);
    let dest = spec_resolve_dest(pre.fs, dest_dir, name, name, Seq::empty(), 1)->0;
    lemma_resolve_dest_free(pre.fs, dest_dir, name, name, Seq::empty(), 1);
    assert forall|k: int|
        0 <= k < pre.fs.len() && (#[trigger] pre.fs[k].path@ == folder || spec_under_dir(
            pre.fs[k].path@,
            folder,
        )) implies spec_has(
        post.fs,
        dest + pre.fs[k].path@.subrange(folder.len() as int, pre.fs[k].path@.len() as int),
    ) && !spec_has(post.fs, pre.fs[k].path@) by {
        let oldp = pre.fs[k].path@;
        let np = dest + oldp.subrange(folder.len() as int, oldp.len() as int);
        assert(post.fs[k].path@ == np);
        assert(spec_has(post.fs, np));
        crate::fs_model::lemma_affected_decompose(oldp, folder);
        assert forall|j: int| 0 <= j < post.fs.len() implies post.fs[j].path@ != oldp by {
            let pj = pre.fs[j].path@;
            if pj == folder || spec_under_dir(pj, folder) {
                let npj = dest + pj.subrange(folder.len() as int, pj.len() as int);
                assert(post.fs[j].path@ == npj);
                if npj == oldp {
                    // `oldp` begins with `folder`, the renamed path with
                    // `dest`; the two heads cannot both lead one string
                    assert(spec_starts_with(oldp, folder)) by {
                        assert(oldp == folder + oldp.subrange(
                            folder.len() as int,
                            oldp.len() as int,
                        ));
                        assert(oldp.subrange(0, folder.len() as int) =~= folder);
                    }
                    assert(spec_starts_with(npj, dest)) by {
                        assert(npj.subrange(0, dest.len() as int) =~= dest);
                    }
                    if dest.len() <= folder.len() {
                        lemma_prefixes_comparable(oldp, dest, folder);
                    } else {
                        lemma_prefixes_comparable(oldp, folder, dest);
                    }
                }
            } else {
                assert(post.fs[j] == pre.fs[j]);
                if pj == oldp {
                    assert(j == k || pj != oldp);
                }
            }
        }
    }
}

/// The previous law lifted to whole import requests: two imports of the
/// same source file into the same destination and fixed folder name — the
/// folder chain already in place, as on the second call it always is —
/// each report one imported item, and the second lands on a fresh
/// collision-suffixed destination while the first one's file survives.
pub proof fn law_import_twice_end_to_end(
    pre: EngState,
    mid: EngState,
    post: EngState,
    out1: crate::import_engine::ImportPhotosResult,
    out2: crate::import_engine::ImportPhotosResult,
    p: Seq<char>,
    dest: Seq<char>,
    fname: Seq<char>,
    now1: Seq<char>,
    now2: Seq<char>,
)
    requires
        spec_distinct_paths(pre.fs),
        crate::import_engine::import_photos_post(
            pre,
            seq![p],
            dest,
            fname,
            None,
            false,
            now1,
            mid,
            Ok(out1),
        ),
        crate::import_engine::import_photos_post(
            mid,
            seq![p],
            dest,
            fname,
            None,
            false,
            now2,
            post,
            Ok(out2),
        ),
        dest.len() > 0,
        forall|q: Seq<char>|
            crate::fs_model::spec_dir_chain(spec_join(dest, fname), q) ==> spec_is_dir(pre.fs, q),
        spec_is_file(pre.fs, p),
        spec_file_name(p).len() > 0,
        spec_resolve_dest(
            pre.fs,
            spec_join(dest, fname),
            spec_file_name(p),
            spec_stem(spec_file_name(p)),
            spec_ext(spec_file_name(p)),
            1,
        ) is Some,
        spec_resolve_dest(
            mid.fs,
            spec_join(dest, fname),
            spec_file_name(p),
            spec_stem(spec_file_name(p)),
            spec_ext(spec_file_name(p)),
            1,
        ) is Some,
    ensures
        ({
            let ifolder = spec_join(dest, fname);
            let name = spec_file_name(p);
            let d1 = spec_resolve_dest(pre.fs, ifolder, name, spec_stem(name), spec_ext(name), 1)->0;
            let d2 = spec_resolve_dest(mid.fs, ifolder, name, spec_stem(name), spec_ext(name), 1)->0;
            &&& out1.imported == 1
            &&& out2.imported == 1
            &&& d1 != d2
            &&& spec_has(post.fs, d1)
            &&& spec_has(post.fs, d2)
        }),
{
    reveal(crate::import_engine::import_photo_step);
    let ifolder = spec_join(dest, fname);
    let name = spec_file_name(p);
    let stem = spec_stem(name);
    let ext = spec_ext(name);
    // the destination is a link of the import folder's chain, so it exists
    // and no link is a file
    assert(ifolder[dest.len() as int] == '/');
    assert(ifolder.subrange(0, dest.len() as int) =~= dest);
    assert(crate::fs_model::spec_dir_chain(ifolder, dest));
    assert(spec_has(pre.fs, dest));
    assert forall|q: Seq<char>|
        crate::fs_model::spec_dir_chain(ifolder, q) implies !spec_is_file(pre.fs, q) by {
        assert(spec_is_dir(pre.fs, q));
    }
    // unpack the first request: with the whole chain already directories,
    // the preparation adds nothing
    let (m1, tr1) = choose|m1: Seq<FsEntry>, tr1: Seq<(EngState, int, Seq<Seq<char>>)>|
        {
            &&& #[trigger] crate::import_engine::dirs_created(pre.fs, ifolder, m1)
            &&& #[trigger] crate::import_engine::import_trace_ok(
                tr1,
                seq![p],
                ifolder,
                false,
                now1,
            )
            &&& tr1[0].0.fs == m1
            &&& tr1[0].0.rows == pre.rows
            &&& tr1[0].0.next_id == pre.next_id
            &&& mid == tr1.last().0
            &&& out1.imported as int == tr1.last().1
            &&& crate::scan::spec_views(out1.errors@) == tr1.last().2
        };
    assert(m1.len() <= pre.fs.len()) by {
        if m1.len() > pre.fs.len() {
            let k = pre.fs.len() as int;
            assert(crate::fs_model::spec_dir_chain(ifolder, m1[k].path@));
            assert(spec_is_dir(pre.fs, m1[k].path@));
            assert(!spec_has(pre.fs, m1[k].path@));
        }
    }
    assert forall|i: int| 0 <= i < pre.fs.len() implies m1[i] == pre.fs[i] by {
        assert(m1.subrange(0, pre.fs.len() as int)[i] == pre.fs[i]);
    }
    assert(m1 =~= pre.fs);
    assert(tr1[0].0 == pre);
    assert(tr1.last() == tr1[1]);
    assert(crate::import_engine::import_photo_step(
        pre,
        0,
        Seq::<Seq<char>>::empty(),
        p,
        ifolder,
        false,
        now1,
        tr1[1].0,
        tr1[1].1,
        tr1[1].2,
    ));
    let d1 = spec_resolve_dest(pre.fs, ifolder, name, stem, ext, 1)->0;
    assert(out1.imported == 1);
    assert(mid.fs.len() == pre.fs.len() + 1);
    assert(mid.fs.drop_last() == pre.fs);
    assert(mid.fs.last().path@ == d1);
    lemma_resolve_dest_free(pre.fs, ifolder, name, stem, ext, 1);
    // files and chain directories of the first state survive the push
    assert forall|i: int| 0 <= i < pre.fs.len() implies mid.fs[i] == pre.fs[i] by {
        assert(mid.fs.drop_last()[i] == pre.fs[i]);
    }
    assert(spec_is_file(mid.fs, p)) by {
        let i = crate::fs_model::spec_index_of(pre.fs, p);
        assert(0 <= i < pre.fs.len() && pre.fs[i].path@ == p);
        let j = crate::fs_model::spec_index_of(mid.fs, p);
        assert(mid.fs[i].path@ == p);
        assert(0 <= j < mid.fs.len() && mid.fs[j].path@ == p);
        assert(j < pre.fs.len());
        assert(j == i);
    }
    assert forall|q: Seq<char>|
        crate::fs_model::spec_dir_chain(ifolder, q) implies spec_is_dir(mid.fs, q) by {
        assert(spec_is_dir(pre.fs, q));
        let i = crate::fs_model::spec_index_of(pre.fs, q);
        assert(0 <= i < pre.fs.len() && pre.fs[i].path@ == q);
        assert(mid.fs[i].path@ == q);
        let j = crate::fs_model::spec_index_of(mid.fs, q);
        assert(0 <= j < mid.fs.len() && mid.fs[j].path@ == q);
        assert(j < pre.fs.len());
        assert(j == i);
    }
    assert forall|q: Seq<char>|
        crate::fs_model::spec_dir_chain(ifolder, q) implies !spec_is_file(mid.fs, q) by {
        assert(spec_is_dir(mid.fs, q));
    }
    assert(spec_has(mid.fs, dest)) by {
        let i = crate::fs_model::spec_index_of(pre.fs, dest);
        assert(0 <= i < pre.fs.len() && pre.fs[i].path@ == dest);
        assert(mid.fs[i].path@ == dest);
    }
    // unpack the second request the same way
    let (m2, tr2) = choose|m2: Seq<FsEntry>, tr2: Seq<(EngState, int, Seq<Seq<char>>)>|
        {
            &&& #[trigger] crate::import_engine::dirs_created(mid.fs, ifolder, m2)
            &&& #[trigger] crate::import_engine::import_trace_ok(
                tr2,
                seq![p],
                ifolder,
                false,
                now2,
            )
            &&& tr2[0].0.fs == m2
            &&& tr2[0].0.rows == mid.rows
            &&& tr2[0].0.next_id == mid.next_id
            &&& post == tr2.last().0
            &&& out2.imported as int == tr2.last().1
            &&& crate::scan::spec_views(out2.errors@) == tr2.last().2
        };
    assert(m2.len() <= mid.fs.len()) by {
        if m2.len() > mid.fs.len() {
            let k = mid.fs.len() as int;
            assert(crate::fs_model::spec_dir_chain(ifolder, m2[k].path@));
            assert(spec_is_dir(mid.fs, m2[k].path@));
            assert(!spec_has(mid.fs, m2[k].path@));
        }
    }
    assert forall|i: int| 0 <= i < mid.fs.len() implies m2[i] == mid.fs[i] by {
        assert(m2.subrange(0, mid.fs.len() as int)[i] == mid.fs[i]);
    }
    assert(m2 =~= mid.fs);
    assert(tr2[0].0 == mid);
    assert(tr2.last() == tr2[1]);
    assert(crate::import_engine::import_photo_step(
        mid,
        0,
        Seq::<Seq<char>>::empty(),
        p,
        ifolder,
        false,
        now2,
        tr2[1].0,
        tr2[1].1,
        tr2[1].2,
    ));
    let d2 = spec_resolve_dest(mid.fs, ifolder, name, stem, ext, 1)->0;
    assert(out2.imported == 1);
    assert(post.fs.len() == mid.fs.len() + 1);
    assert(post.fs.drop_last() == mid.fs);
    assert(post.fs.last().path@ == d2);
    // the second destination is fresh, so it differs from the first, and
    // both stand in the final tree
    assert(spec_has(mid.fs, d1)) by {
        assert(mid.fs[mid.fs.len() - 1].path@ == d1);
    }
    lemma_resolve_dest_free(mid.fs, ifolder, name, stem, ext, 1);
    assert(d1 != d2);
    assert(spec_has(post.fs, d2));
    assert(spec_has(post.fs, d1)) by {
        assert(post.fs.drop_last()[mid.fs.len() - 1] == mid.fs[mid.fs.len() - 1]);
        assert(post.fs[mid.fs.len() - 1].path@ == d1);
    }
}

/// Everything the file-mode scanner collects is visible: scanning never
/// returns a path under a hidden directory — every directory strictly
/// between the scanned root and a returned path has a non-hidden name,
/// and the returned file's own name is not hidden — every returned path
/// qualifies under the scan's allow-list and lies under the root, and a
/// scan whose depth budget is spent (in particular, one run with depth
/// bound 0) returns only the root's direct children.
pub proof fn law_scan_skips_hidden(
    s: Seq<FsEntry>,
    kids: Seq<FsEntry>,
    i: int,
    depth: nat,
    max_depth: nat,
    kind: crate::scan::ScanKind,
    dir: Seq<char>,
    acc: Seq<Seq<char>>,
)
    requires
        kids == crate::scan::spec_children(s, dir),
    ensures
        ({
            let r = crate::scan::spec_scan_files(s, kids, i, depth, max_depth, kind, acc);
            &&& r.len() >= acc.len()
            &&& r.subrange(0, acc.len() as int) == acc
            &&& forall|m: int|
                acc.len() <= m < r.len() ==> {
                    &&& crate::scan::spec_matches_kind(kind, #[trigger] r[m])
                    &&& spec_under_dir(r[m], dir)
                    &&& !crate::path_util::spec_is_hidden_name(spec_file_name(r[m]))
                    &&& (depth == max_depth ==> crate::scan::spec_child_of(r[m], dir))
                    &&& (forall|h: Seq<char>|
                        #[trigger] spec_under_dir(r[m], h) && spec_under_dir(h, dir)
                            ==> !crate::path_util::spec_is_hidden_name(spec_file_name(h)))
                }
        }),
    decreases max_depth - depth, kids.len() - i,
{
    let r = crate::scan::spec_scan_files(s, kids, i, depth, max_depth, kind, acc);
    if i < 0 || i >= kids.len() || depth > max_depth {
        assert(r.subrange(0, acc.len() as int) =~= acc);
    } else {
        let e = kids[i];
        crate::scan::lemma_children_are_children(s, dir, i);
        let ep = e.path@;
        let acc2: Seq<Seq<char>> = if crate::path_util::spec_is_hidden_name(spec_file_name(ep)) {
            acc
        } else if e.node is Dir {
            if depth < max_depth {
                crate::scan::spec_scan_files(
                    s,
                    crate::scan::spec_children(s, ep),
                    0,
                    depth + 1,
                    max_depth,
                    kind,
                    acc,
                )
            } else {
                acc
            }
        } else if crate::scan::spec_matches_kind(kind, ep) && !crate::scan::spec_list_contains(
            acc,
            ep,
        ) {
            acc.push(ep)
        } else {
            acc
        };
        law_scan_skips_hidden(s, kids, i + 1, depth, max_depth, kind, dir, acc2);
        // acc2 extends acc with elements that satisfy the walk's guarantees
        if !crate::path_util::spec_is_hidden_name(spec_file_name(ep)) && e.node is Dir && depth
            < max_depth {
            law_scan_skips_hidden(
                s,
                crate::scan::spec_children(s, ep),
                0,
                depth + 1,
                max_depth,
                kind,
                ep,
                acc,
            );
            assert forall|m: int| acc.len() <= m < acc2.len() implies {
                &&& crate::scan::spec_matches_kind(kind, #[trigger] acc2[m])
                &&& spec_under_dir(acc2[m], dir)
                &&& !crate::path_util::spec_is_hidden_name(spec_file_name(acc2[m]))
                &&& (depth == max_depth ==> crate::scan::spec_child_of(acc2[m], dir))
                &&& (forall|h: Seq<char>|
                    #[trigger] spec_under_dir(acc2[m], h) && spec_under_dir(h, dir)
                        ==> !crate::path_util::spec_is_hidden_name(spec_file_name(h)))
            } by {
                let p = acc2[m];
                assert(spec_under_dir(p, ep));
                crate::path_util::lemma_under_trans(p, ep, dir);
                crate::path_util::lemma_under_facts(p, ep);
                assert forall|h: Seq<char>|
                    #[trigger] spec_under_dir(p, h) && spec_under_dir(h, dir)
                        implies !crate::path_util::spec_is_hidden_name(spec_file_name(h)) by {
                    crate::path_util::lemma_under_facts(p, h);
                    crate::path_util::lemma_under_facts(h, dir);
                    if h.len() == ep.len() {
                        assert(h =~= ep);
                    } else if h.len() < ep.len() {
                        // a separator inside a child's name is impossible
                        crate::path_util::lemma_under_intro(ep, h);
                        crate::path_util::lemma_under_facts(ep, dir);
                        lemma_last_index(ep, '/');
                        assert(ep[h.len() as int] == '/');
                        assert(false);
                    } else {
                        crate::path_util::lemma_under_intro(h, ep);
                    }
                }
            }
        } else if !crate::path_util::spec_is_hidden_name(spec_file_name(ep)) && !(e.node is Dir)
            && crate::scan::spec_matches_kind(kind, ep) && !crate::scan::spec_list_contains(
            acc,
            ep,
        ) {
            assert(acc2 == acc.push(ep));
            assert forall|m: int| acc.len() <= m < acc2.len() implies {
                &&& crate::scan::spec_matches_kind(kind, #[trigger] acc2[m])
                &&& spec_under_dir(acc2[m], dir)
                &&& !crate::path_util::spec_is_hidden_name(spec_file_name(acc2[m]))
                &&& (depth == max_depth ==> crate::scan::spec_child_of(acc2[m], dir))
                &&& (forall|h: Seq<char>|
                    #[trigger] spec_under_dir(acc2[m], h) && spec_under_dir(h, dir)
                        ==> !crate::path_util::spec_is_hidden_name(spec_file_name(h)))
            } by {
                assert(acc2[m] == ep);
                assert forall|h: Seq<char>|
                    #[trigger] spec_under_dir(ep, h) && spec_under_dir(h, dir)
                        implies !crate::path_util::spec_is_hidden_name(spec_file_name(h)) by {
                    crate::path_util::lemma_under_facts(ep, h);
                    crate::path_util::lemma_under_facts(h, dir);
                    lemma_last_index(ep, '/');
                    assert(ep[h.len() as int] == '/');
                    assert(false);
                }
            }
        }
        // the combined walk: elements past `acc` are either from `acc2` or
        // from the tail, and both carry the guarantees
        let rt = crate::scan::spec_scan_files(s, kids, i + 1, depth, max_depth, kind, acc2);
        assert(r == rt);
        assert forall|m: int| acc.len() <= m < r.len() implies {
            &&& crate::scan::spec_matches_kind(kind, #[trigger] r[m])
            &&& spec_under_dir(r[m], dir)
            &&& !crate::path_util::spec_is_hidden_name(spec_file_name(r[m]))
            &&& (depth == max_depth ==> crate::scan::spec_child_of(r[m], dir))
            &&& (forall|h: Seq<char>|
                #[trigger] spec_under_dir(r[m], h) && spec_under_dir(h, dir)
                    ==> !crate::path_util::spec_is_hidden_name(spec_file_name(h)))
        } by {
            if m < acc2.len() {
                assert(r[m] == r.subrange(0, acc2.len() as int)[m]);
                assert(r[m] == acc2[m]);
            }
        }
        assert(r.subrange(0, acc.len() as int) =~= acc) by {
            assert(forall|j: int|
                0 <= j < acc.len() ==> r.subrange(0, acc2.len() as int)[j] == #[trigger] r[j]);
            assert(forall|j: int|
                0 <= j < acc.len() ==> acc2.subrange(0, acc.len() as int)[j] == #[trigger] acc2[j]);
        }
    }
}

} // verus!
