//! The recursive scanner.
//!
//! The scanner walks a directory of the modelled tree depth-first, visiting
//! each directory's entries in tree order. Hidden entries (names starting
//! with `.`) are skipped entirely — a hidden directory is not descended
//! into — and recursion is bounded by a depth limit, with depth 0 standing
//! for the root's direct children. In file mode the walk collects the
//! qualifying file paths without duplicates; in folder mode it collects a
//! descriptor for every directory, with its root-relative path.

use vstd::prelude::*;
use vstd::string::*;
use crate::fs_model::{FsTree, FsEntry};
use crate::path_util::{
    spec_under_dir, spec_file_name, spec_is_hidden_name, spec_is_photo_path, spec_is_image_path,
    last_index, is_under_dir, rfind_char, str_eq, file_name_part, is_hidden_name, is_photo_file,
    is_image_file,
};

verus! {

/// `p` is a direct child of directory `d`: it lies under `d` and its last
/// separator closes the `d` prefix.
pub open spec fn spec_child_of(p: Seq<char>, d: Seq<char>) -> bool {
    spec_under_dir(p, d) && last_index(p, '/') == d.len()
}

/// The entries that are direct children of `d`, in tree order.
pub open spec fn spec_children(s: Seq<FsEntry>, d: Seq<char>) -> Seq<FsEntry> {
    s.filter(|e: FsEntry| spec_child_of(e.path@, d))
}

/// Every element of a child list is a direct child of the directory.
pub proof fn lemma_children_are_children(s: Seq<FsEntry>, d: Seq<char>, m: int)
    requires
        0 <= m < spec_children(s, d).len(),
    ensures
        spec_child_of(spec_children(s, d)[m].path@, d),
{
    Seq::lemma_filter_pred(s, |e: FsEntry| spec_child_of(e.path@, d), m);
}

/// Directory `d` has at least one direct child directory.
pub open spec fn spec_has_subdir(s: Seq<FsEntry>, d: Seq<char>) -> bool {
    exists|i: int| 0 <= i < s.len() && spec_child_of(s[i].path@, d) && s[i].node is Dir
}

/// Which allow-list a scan matches file names against.
#[derive(Clone, Copy, Debug, PartialEq, Eq, Structural)]
pub enum ScanKind {
    /// The broad photo list of the volume scanner.
    VolumePhotos,
    /// The narrower image list of the catalog ingestion scan.
    CatalogImages,
}

/// Whether a path qualifies under the given scan kind.
pub open spec fn spec_matches_kind(k: ScanKind, p: Seq<char>) -> bool {
    match k {
        ScanKind::VolumePhotos => spec_is_photo_path(p),
        ScanKind::CatalogImages => spec_is_image_path(p),
    }
}

/// A path list holds `p`.
pub open spec fn spec_list_contains(s: Seq<Seq<char>>, p: Seq<char>) -> bool {
    exists|i: int| 0 <= i < s.len() && s[i] == p
}

/// The file-mode walk. `kids` is the child list of the directory being
/// visited and `i` the position reached in it; `acc` is everything
/// collected so far. A hidden entry is skipped whole; a child directory is
/// descended into while `depth < max_depth`; a qualifying, not yet
/// collected file path is appended.
pub open spec fn spec_scan_files(
    s: Seq<FsEntry>,
    kids: Seq<FsEntry>,
    i: int,
    depth: nat,
    max_depth: nat,
    kind: ScanKind,
    acc: Seq<Seq<char>>,
) -> Seq<Seq<char>>
    decreases max_depth - depth, kids.len() - i,
{
    if i < 0 || i >= kids.len() || depth > max_depth {
        acc
    } else {
        let e = kids[i];
        let acc2 = if spec_is_hidden_name(spec_file_name(e.path@)) {
            acc
        } else if e.node is Dir {
            if depth < max_depth {
                spec_scan_files(s, spec_children(s, e.path@), 0, depth + 1, max_depth, kind, acc)
            } else {
                acc
            }
        } else if spec_matches_kind(kind, e.path@) && !spec_list_contains(acc, e.path@) {
            acc.push(e.path@)
        } else {
            acc
        };
        spec_scan_files(s, kids, i + 1, depth, max_depth, kind, acc2)
    }
}

/// The folder-mode walk: a descriptor `(root-relative path, name, has
/// subfolders)` for every non-hidden directory, parents before children.
pub open spec fn spec_scan_folders(
    s: Seq<FsEntry>,
    kids: Seq<FsEntry>,
    i: int,
    depth: nat,
    max_depth: nat,
    base: Seq<char>,
) -> Seq<(Seq<char>, Seq<char>, bool)>
    decreases max_depth - depth, kids.len() - i,
{
    if i < 0 || i >= kids.len() || depth > max_depth {
        Seq::empty()
    } else {
        let e = kids[i];
        let head: Seq<(Seq<char>, Seq<char>, bool)> = if e.node is Dir && !spec_is_hidden_name(
            spec_file_name(e.path@),
        ) {
            seq![
                (
                    e.path@.subrange(base.len() as int, e.path@.len() as int),
                    spec_file_name(e.path@),
                    spec_has_subdir(s, e.path@),
                ),
            ] + if depth < max_depth {
                spec_scan_folders(s, spec_children(s, e.path@), 0, depth + 1, max_depth, base)
            } else {
                Seq::empty()
            }
        } else {
            Seq::empty()
        };
        head + spec_scan_folders(s, kids, i + 1, depth, max_depth, base)
    }
}

/// The views of a list of strings.
pub open spec fn spec_views(s: Seq<String>) -> Seq<Seq<char>> {
    s.map_values(|x: String| x@)
}

/// Collects the direct children of `d`, in tree order.
pub fn child_entries(fs: &FsTree, d: &str) -> (r: Vec<FsEntry>)
    ensures
        r@ == spec_children(fs.entries@, d@),
{
    let mut out: Vec<FsEntry> = Vec::new();
    let n = fs.entries.len();
    let mut i: usize = 0;
    while i < n
        invariant
            n == fs.entries@.len(),
            i <= n,
            out@ == spec_children(fs.entries@.subrange(0, i as int), d@),
        decreases n - i,
    {
        proof {
            let sub1 = fs.entries@.subrange(0, i as int + 1);
            assert(sub1.drop_last() =~= fs.entries@.subrange(0, i as int));
            assert(sub1.last() == fs.entries@[i as int]);
            reveal_with_fuel(Seq::<_>::filter, 2);
        }
        let under = is_under_dir(fs.entries[i].path.as_str(), d);
        let boundary = match rfind_char(fs.entries[i].path.as_str(), '/') {
            Some(j) => j == d.unicode_len(),
            None => false,
        };
        if under && boundary {
            let e = fs.entries[i].duplicate();
            proof {
                assert(e == fs.entries@[i as int]);
            }
            out.push(e);
            proof {
                assert(out@ =~= spec_children(fs.entries@.subrange(0, i as int + 1), d@));
            }
        }
        i += 1;
    }
    proof {
        assert(fs.entries@.subrange(0, n as int) =~= fs.entries@);
    }
    out
}

/// Whether `d` has a direct child directory.
pub fn has_subdir(fs: &FsTree, d: &str) -> (r: bool)
    ensures
        r == spec_has_subdir(fs.entries@, d@),
{
    let n = fs.entries.len();
    let mut i: usize = 0;
    while i < n
        invariant
            n == fs.entries@.len(),
            i <= n,
            forall|j: int|
                0 <= j < i ==> !(spec_child_of(fs.entries@[j].path@, d@) && fs.entries@[j].node
                    is Dir),
        decreases n - i,
    {
        let under = is_under_dir(fs.entries[i].path.as_str(), d);
        let boundary = match rfind_char(fs.entries[i].path.as_str(), '/') {
            Some(j) => j == d.unicode_len(),
            None => false,
        };
        let is_dir = match fs.entries[i].node {
            crate::fs_model::FsNode::Dir => true,
            _ => false,
        };
        if under && boundary && is_dir {
            return true;
        }
        i += 1;
    }
    false
}

/// Whether the collected list already holds `p`.
fn list_contains(out: &Vec<String>, p: &str) -> (r: bool)
    ensures
        r == spec_list_contains(spec_views(out@), p@),
{
    let n = out.len();
    let mut i: usize = 0;
    while i < n
        invariant
            n == out@.len(),
            i <= n,
            forall|j: int| 0 <= j < i ==> out@[j]@ != p@,
        decreases n - i,
    {
        if str_eq(out[i].as_str(), p) {
            proof {
                assert(spec_views(out@)[i as int] == p@);
            }
            return true;
        }
        i += 1;
    }
    proof {
        if spec_list_contains(spec_views(out@), p@) {
            let j = choose|j: int| 0 <= j < spec_views(out@).len() && spec_views(out@)[j] == p@;
            assert(out@[j]@ == p@);
        }
    }
    false
}

fn scan_files_dir(
    fs: &FsTree,
    dir: &str,
    depth: u32,
    max_depth: u32,
    kind: ScanKind,
    out: &mut Vec<String>,
)
    requires
        fs.wf(),
        depth <= max_depth,
    ensures
        spec_views(final(out)@) == spec_scan_files(
            fs.entries@,
            spec_children(fs.entries@, dir@),
            0,
            depth as nat,
            max_depth as nat,
            kind,
            spec_views(old(out)@),
        ),
    decreases max_depth - depth,
{
    let kids = child_entries(fs, dir);
    let n = kids.len();
    let mut i: usize = 0;
    while i < n
        invariant
            fs.wf(),
            depth <= max_depth,
            n == kids@.len(),
            i <= n,
            kids@ == spec_children(fs.entries@, dir@),
            spec_scan_files(
                fs.entries@,
                kids@,
                i as int,
                depth as nat,
                max_depth as nat,
                kind,
                spec_views(out@),
            ) == spec_scan_files(
                fs.entries@,
                kids@,
                0,
                depth as nat,
                max_depth as nat,
                kind,
                spec_views(old(out)@),
            ),
        decreases n - i,
    {
        let name = file_name_part(kids[i].path.as_str());
        if !is_hidden_name(name.as_str()) {
            let is_dir = match kids[i].node {
                crate::fs_model::FsNode::Dir => true,
                _ => false,
            };
            if is_dir {
                if depth < max_depth {
                    scan_files_dir(fs, kids[i].path.as_str(), depth + 1, max_depth, kind, out);
                }
            } else {
                let qualifies = match kind {
                    ScanKind::VolumePhotos => is_photo_file(kids[i].path.as_str()),
                    ScanKind::CatalogImages => is_image_file(kids[i].path.as_str()),
                };
                if qualifies && !list_contains(out, kids[i].path.as_str()) {
                    let p = kids[i].path.clone();
                    let ghost prev = out@;
                    out.push(p);
                    proof {
                        assert(spec_views(out@) =~= spec_views(prev).push(kids@[i as int].path@));
                    }
                }
            }
        }
        i += 1;
    }
}

/// How deep the volume scanner descends: depth 0 is the root's direct
/// children.
pub const VOLUME_SCAN_DEPTH: u32 = 10;

/// How deep the ingestion scan and the folder-structure scan descend.
pub const INGEST_SCAN_DEPTH: u32 = 64;

/// Walks `root` depth-first and collects the qualifying file paths,
/// without duplicates: hidden entries are skipped whole and recursion
/// stops at `max_depth`.
pub fn scan_for_photos(fs: &FsTree, root: &str, max_depth: u32, kind: ScanKind) -> (r: Vec<String>)
    requires
        fs.wf(),
    ensures
        spec_views(r@) == spec_scan_files(
            fs.entries@,
            spec_children(fs.entries@, root@),
            0,
            0,
            max_depth as nat,
            kind,
            Seq::empty(),
        ),
{
    let mut out: Vec<String> = Vec::new();
    proof {
        assert(spec_views(out@) =~= Seq::<Seq<char>>::empty());
    }
    scan_files_dir(fs, root, 0, max_depth, kind, &mut out);
    out
}

/// One folder descriptor of the folder-structure scan: the root-relative
/// path (leading separator, separator-normalized), the folder's own name,
/// and whether it has child folders.
#[derive(Debug)]
pub struct FolderInfo {
    pub path: String,
    pub name: String,
    pub has_subfolders: bool,
}

/// The view triples of a descriptor list.
pub open spec fn spec_folder_views(s: Seq<FolderInfo>) -> Seq<(Seq<char>, Seq<char>, bool)> {
    s.map_values(|f: FolderInfo| (f.path@, f.name@, f.has_subfolders))
}

pub fn scan_folders_dir(
    fs: &FsTree,
    dir: &str,
    base: &str,
    depth: u32,
    max_depth: u32,
    out: &mut Vec<FolderInfo>,
)
    requires
        fs.wf(),
        depth <= max_depth,
        dir@ == base@ || spec_under_dir(dir@, base@),
    ensures
        spec_folder_views(final(out)@) == spec_folder_views(old(out)@) + spec_scan_folders(
            fs.entries@,
            spec_children(fs.entries@, dir@),
            0,
            depth as nat,
            max_depth as nat,
            base@,
        ),
    decreases max_depth - depth,
{
    let kids = child_entries(fs, dir);
    let n = kids.len();
    let mut i: usize = 0;
    while i < n
        invariant
            fs.wf(),
            depth <= max_depth,
            dir@ == base@ || spec_under_dir(dir@, base@),
            n == kids@.len(),
            i <= n,
            kids@ == spec_children(fs.entries@, dir@),
            spec_folder_views(out@) + spec_scan_folders(
                fs.entries@,
                kids@,
                i as int,
                depth as nat,
                max_depth as nat,
                base@,
            ) == spec_folder_views(old(out)@) + spec_scan_folders(
                fs.entries@,
                kids@,
                0,
                depth as nat,
                max_depth as nat,
                base@,
            ),
        decreases n - i,
    {
        let ghost s = fs.entries@;
        let ghost dd = depth as nat;
        let ghost mm = max_depth as nat;
        let ghost lhs_pre = spec_folder_views(out@);
        let ghost tail = spec_scan_folders(s, kids@, i as int + 1, dd, mm, base@);
        let ghost e = kids@[i as int];
        let ghost head: Seq<(Seq<char>, Seq<char>, bool)> = if e.node is Dir
            && !spec_is_hidden_name(spec_file_name(e.path@)) {
            seq![
                (
                    e.path@.subrange(base@.len() as int, e.path@.len() as int),
                    spec_file_name(e.path@),
                    spec_has_subdir(s, e.path@),
                ),
            ] + if dd < mm {
                spec_scan_folders(s, spec_children(s, e.path@), 0, dd + 1, mm, base@)
            } else {
                Seq::empty()
            }
        } else {
            Seq::empty()
        };
        proof {
            assert(spec_scan_folders(s, kids@, i as int, dd, mm, base@) == head + tail);
        }
        let name = file_name_part(kids[i].path.as_str());
        let is_dir = match kids[i].node {
            crate::fs_model::FsNode::Dir => true,
            _ => false,
        };
        if is_dir && !is_hidden_name(name.as_str()) {
            proof {
                // every child of `dir` lies under `base`, so the relative
                // slice below is meaningful
                if dir@ != base@ {
                    crate::path_util::lemma_under_trans(e.path@, dir@, base@);
                }
                assert(e.path@.len() > base@.len());
            }
            let plen = kids[i].path.as_str().unicode_len();
            let blen = base.unicode_len();
            let rel = String::from_str(kids[i].path.as_str().substring_char(blen, plen));
            let subs = has_subdir(fs, kids[i].path.as_str());
            let info = FolderInfo { path: rel, name, has_subfolders: subs };
            let ghost t = (info.path@, info.name@, info.has_subfolders);
            let ghost prev = out@;
            out.push(info);
            proof {
                assert(spec_folder_views(out@) =~= lhs_pre + seq![t]);
            }
            if depth < max_depth {
                let ghost mid = spec_folder_views(out@);
                scan_folders_dir(fs, kids[i].path.as_str(), base, depth + 1, max_depth, out);
                proof {
                    let sub = spec_scan_folders(s, spec_children(s, e.path@), 0, dd + 1, mm, base@);
                    assert(spec_folder_views(out@) == mid + sub);
                    assert(head =~= seq![t] + sub);
                    assert((lhs_pre + seq![t]) + sub =~= lhs_pre + head);
                }
            } else {
                proof {
                    assert(head =~= seq![t]);
                }
            }
            proof {
                assert(spec_folder_views(out@) =~= lhs_pre + head);
            }
        } else {
            proof {
                assert(head =~= Seq::<(Seq<char>, Seq<char>, bool)>::empty());
                assert(spec_folder_views(out@) =~= lhs_pre + head);
            }
        }
        proof {
            assert((lhs_pre + head) + tail =~= lhs_pre + (head + tail));
        }
        i += 1;
    }
    proof {
        assert(spec_scan_folders(
            fs.entries@,
            kids@,
            n as int,
            depth as nat,
            max_depth as nat,
            base@,
        ) =~= Seq::<(Seq<char>, Seq<char>, bool)>::empty());
        assert(spec_folder_views(out@) + Seq::<(Seq<char>, Seq<char>, bool)>::empty()
            =~= spec_folder_views(out@));
    }
}

} // verus!
