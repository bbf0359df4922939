//! An explicit model of the filesystem tree.
//!
//! The engines of this library must keep a filesystem and a catalog in
//! agreement, so the filesystem itself is represented as a value: a list of
//! absolute paths, each carrying either a directory marker or the file
//! attributes that the engines read (byte size and, when the file decodes
//! as an image, its pixel dimensions). An embedding program mirrors real
//! directories into this model; one that asks the engines to mutate is
//! responsible for replaying the model's changes onto the real stores.
//!
//! Paths follow the discipline of [`crate::path_util`]: `/`-separated,
//! without a trailing separator. Physical subtree operations (rename,
//! recursive removal) use the segment-boundary containment test, as a real
//! filesystem does.

use vstd::prelude::*;
use vstd::string::*;
use crate::path_util::{spec_under_dir, is_under_dir, str_eq, replace_path_prefix};

verus! {

/// What a path names: a directory, or a file with the attributes the
/// engines read. Dimensions are absent when the file did not decode as an
/// image; that does not make the node invalid.
#[derive(Clone, Copy, Debug)]
pub enum FsNode {
    Dir,
    File { size: i64, width: Option<i32>, height: Option<i32> },
}

/// One path of the modelled tree together with its node.
#[derive(Debug)]
pub struct FsEntry {
    pub path: String,
    pub node: FsNode,
}

/// The modelled filesystem: a list of entries with pairwise distinct paths.
#[derive(Debug)]
pub struct FsTree {
    pub entries: Vec<FsEntry>,
}

impl FsEntry {
    /// A field-for-field copy of the entry.
    pub fn duplicate(&self) -> (r: FsEntry)
        ensures
            r == *self,
    {
        FsEntry { path: self.path.clone(), node: self.node }
    }
}

/// Pairwise distinct paths: the well-formedness invariant of a tree.
pub open spec fn spec_distinct_paths(s: Seq<FsEntry>) -> bool {
    forall|i: int, j: int| 0 <= i < j < s.len() ==> s[i].path@ != s[j].path@
}

/// Some entry of `s` has path `p`.
pub open spec fn spec_has(s: Seq<FsEntry>, p: Seq<char>) -> bool {
    exists|i: int| 0 <= i < s.len() && s[i].path@ == p
}

/// The index of the entry with path `p` (meaningful when `spec_has` holds
/// and the paths are distinct).
pub open spec fn spec_index_of(s: Seq<FsEntry>, p: Seq<char>) -> int {
    choose|i: int| 0 <= i < s.len() && s[i].path@ == p
}

/// The node stored at path `p`.
pub open spec fn spec_node(s: Seq<FsEntry>, p: Seq<char>) -> FsNode {
    s[spec_index_of(s, p)].node
}

/// `p` names a directory of `s`.
pub open spec fn spec_is_dir(s: Seq<FsEntry>, p: Seq<char>) -> bool {
    spec_has(s, p) && spec_node(s, p) is Dir
}

/// `p` names a file of `s`.
pub open spec fn spec_is_file(s: Seq<FsEntry>, p: Seq<char>) -> bool {
    spec_has(s, p) && spec_node(s, p) is File
}

impl FsTree {
    /// Distinct paths, so that each path names at most one node.
    pub open spec fn wf(&self) -> bool {
        spec_distinct_paths(self.entries@)
    }

    /// The empty tree.
    pub fn new() -> (r: FsTree)
        ensures
            r.wf(),
            r.entries@.len() == 0,
    {
        FsTree { entries: Vec::new() }
    }

    /// Index of the entry holding `p`, if any.
    pub fn find_path(&self, p: &str) -> (r: Option<usize>)
        ensures
            match r {
                Some(i) => i < self.entries@.len() && self.entries@[i as int].path@ == p@,
                None => !spec_has(self.entries@, p@),
            },
    {
        let n = self.entries.len();
        let mut i: usize = 0;
        while i < n
            invariant
                n == self.entries@.len(),
                i <= n,
                forall|j: int| 0 <= j < i ==> self.entries@[j].path@ != p@,
            decreases n - i,
        {
            if str_eq(self.entries[i].path.as_str(), p) {
                return Some(i);
            }
            i += 1;
        }
        None
    }

    /// Whether any node is stored at `p`.
    pub fn has_path(&self, p: &str) -> (r: bool)
        ensures
            r == spec_has(self.entries@, p@),
    {
        self.find_path(p).is_some()
    }

    /// The node stored at `p`, if any.
    pub fn node_at(&self, p: &str) -> (r: Option<FsNode>)
        requires
            self.wf(),
        ensures
            match r {
                Some(n) => spec_has(self.entries@, p@) && n == spec_node(self.entries@, p@),
                None => !spec_has(self.entries@, p@),
            },
    {
        match self.find_path(p) {
            Some(i) => {
                proof {
                    let j = spec_index_of(self.entries@, p@);
                    assert(0 <= j < self.entries@.len() && self.entries@[j].path@ == p@);
                }
                Some(self.entries[i].node)
            },
            None => None,
        }
    }

    /// Whether `p` names a directory.
    pub fn is_dir(&self, p: &str) -> (r: bool)
        requires
            self.wf(),
        ensures
            r == spec_is_dir(self.entries@, p@),
    {
        match self.node_at(p) {
            Some(FsNode::Dir) => true,
            _ => false,
        }
    }

    /// Whether `p` names a file.
    pub fn is_file(&self, p: &str) -> (r: bool)
        requires
            self.wf(),
        ensures
            r == spec_is_file(self.entries@, p@),
    {
        match self.node_at(p) {
            Some(FsNode::File { .. }) => true,
            _ => false,
        }
    }

    /// Writes a file node at `p`, creating it or overwriting a previous
    /// file. Refuses to overwrite a directory, as a real file write does.
    pub fn write_file(&mut self, p: &str, size: i64, width: Option<i32>, height: Option<i32>) -> (r:
        Result<(), ()>)
        requires
            old(self).wf(),
        ensures
            final(self).wf(),
            r is Err <==> spec_is_dir(old(self).entries@, p@),
            r is Err ==> *final(self) == *old(self),
            r is Ok && spec_has(old(self).entries@, p@) ==> {
                &&& final(self).entries@.len() == old(self).entries@.len()
                &&& forall|k: int|
                    0 <= k < old(self).entries@.len() && k != spec_index_of(old(self).entries@, p@)
                        ==> final(self).entries@[k] == old(self).entries@[k]
                &&& final(self).entries@[spec_index_of(old(self).entries@, p@)].path@ == p@
                &&& final(self).entries@[spec_index_of(old(self).entries@, p@)].node == (
                FsNode::File { size, width, height })
            },
            r is Ok && !spec_has(old(self).entries@, p@) ==> {
                &&& final(self).entries@.len() == old(self).entries@.len() + 1
                &&& final(self).entries@.drop_last() == old(self).entries@
                &&& final(self).entries@.last().path@ == p@
                &&& final(self).entries@.last().node == (FsNode::File { size, width, height })
            },
    {
        match self.find_path(p) {
            Some(i) => {
                proof {
                    let j = spec_index_of(self.entries@, p@);
                    assert(0 <= j < self.entries@.len() && self.entries@[j].path@ == p@);
                }
                match self.entries[i].node {
                    FsNode::Dir => Err(()),
                    FsNode::File { .. } => {
                        let path = self.entries[i].path.clone();
                        self.entries.set(i, FsEntry { path, node: FsNode::File { size, width, height } });
                        Ok(())
                    },
                }
            },
            None => {
                self.entries.push(FsEntry { path: String::from_str(p), node: FsNode::File { size, width, height } });
                proof {
                    assert(final(self).entries@.drop_last() =~= old(self).entries@);
                }
                Ok(())
            },
        }
    }

    /// Removes the file at `p`; fails when `p` is absent or a directory.
    pub fn remove_file(&mut self, p: &str) -> (r: Result<(), ()>)
        requires
            old(self).wf(),
        ensures
            final(self).wf(),
            r is Err <==> !spec_is_file(old(self).entries@, p@),
            r is Err ==> *final(self) == *old(self),
            r is Ok ==> final(self).entries@ == old(self).entries@.remove(
                spec_index_of(old(self).entries@, p@),
            ),
    {
        match self.find_path(p) {
            Some(i) => {
                proof {
                    let j = spec_index_of(self.entries@, p@);
                    assert(0 <= j < self.entries@.len() && self.entries@[j].path@ == p@);
                }
                match self.entries[i].node {
                    FsNode::File { .. } => {
                        self.entries.remove(i);
                        Ok(())
                    },
                    FsNode::Dir => Err(()),
                }
            },
            None => Err(()),
        }
    }
}

/// `q` is `p` itself or a proper ancestor of `p`: the prefix of `p` that
/// ends just before a separator.
pub open spec fn spec_dir_chain(p: Seq<char>, q: Seq<char>) -> bool {
    q == p || (exists|k: int| 0 < k < p.len() && p[k] == '/' && q == p.subrange(0, k))
}

/// The entries that survive the recursive removal of directory `p`:
/// everything but `p` itself and the paths strictly under it.
pub open spec fn spec_remove_tree(s: Seq<FsEntry>, p: Seq<char>) -> Seq<FsEntry> {
    s.filter(|e: FsEntry| !(e.path@ == p || spec_under_dir(e.path@, p)))
}

/// A recursive removal keeps every entry that is neither the removed
/// directory nor under it.
pub proof fn lemma_remove_tree_keeps(s: Seq<FsEntry>, p: Seq<char>, i: int)
    requires
        0 <= i < s.len(),
        s[i].path@ != p,
        !spec_under_dir(s[i].path@, p),
    ensures
        spec_has(spec_remove_tree(s, p), s[i].path@),
{
    let pred = |e: FsEntry| !(e.path@ == p || spec_under_dir(e.path@, p));
    Seq::lemma_filter_contains(s, pred, i);
    assert(spec_remove_tree(s, p).contains(s[i]));
    let m = choose|m: int|
        0 <= m < spec_remove_tree(s, p).len() && spec_remove_tree(s, p)[m] == s[i];
    assert(spec_remove_tree(s, p)[m].path@ == s[i].path@);
}

/// Some entry of `s` lies strictly under directory `d`.
pub open spec fn spec_any_under(s: Seq<FsEntry>, d: Seq<char>) -> bool {
    exists|i: int| 0 <= i < s.len() && spec_under_dir(s[i].path@, d)
}

/// With distinct paths, an entry whose path is `q` settles membership, the
/// looked-up index and the stored node all at once.
pub proof fn lemma_node_from_index(s: Seq<FsEntry>, i: int, q: Seq<char>)
    requires
        spec_distinct_paths(s),
        0 <= i < s.len(),
        s[i].path@ == q,
    ensures
        spec_has(s, q),
        spec_index_of(s, q) == i,
        spec_node(s, q) == s[i].node,
{
    let j = spec_index_of(s, q);
    assert(0 <= j < s.len() && s[j].path@ == q);
}

/// Appending distinct suffixes to one prefix gives distinct sequences.
proof fn lemma_concat_injective(d: Seq<char>, a: Seq<char>, b: Seq<char>)
    ensures
        (d + a == d + b) ==> a == b,
{
    if d + a == d + b {
        assert(a =~= (d + a).subrange(d.len() as int, (d + a).len() as int));
        assert(b =~= (d + b).subrange(d.len() as int, (d + b).len() as int));
    }
}

/// A path that lies at or under directory `src` splits into `src` and a
/// suffix that is empty or begins with the separator.
pub proof fn lemma_affected_decompose(p: Seq<char>, src: Seq<char>)
    requires
        p == src || spec_under_dir(p, src),
    ensures
        p == src + p.subrange(src.len() as int, p.len() as int),
        p != src ==> p.subrange(src.len() as int, p.len() as int).len() > 0 && p.subrange(
            src.len() as int,
            p.len() as int,
        )[0] == '/',
{
    if p == src {
        assert(p =~= src + p.subrange(src.len() as int, p.len() as int));
    } else {
        assert(p.subrange(0, src.len() as int + 1) == src.push('/'));
        assert forall|i: int| 0 <= i < src.len() implies p[i] == src[i] by {
            assert(p.subrange(0, src.len() as int + 1)[i] == src.push('/')[i]);
        }
        assert(p[src.len() as int] == p.subrange(0, src.len() as int + 1)[src.len() as int]);
        assert(p[src.len() as int] == '/');
        assert(p =~= src + p.subrange(src.len() as int, p.len() as int));
    }
}

/// A path that is neither `dst` nor under `dst` differs from every path of
/// the form `dst` + separator-led suffix (and from `dst` itself).
proof fn lemma_renamed_path_fresh(o: Seq<char>, dst: Seq<char>, suffix: Seq<char>)
    requires
        o != dst,
        !spec_under_dir(o, dst),
        suffix.len() == 0 || suffix[0] == '/',
    ensures
        o != dst + suffix,
{
    if o == dst + suffix {
        if suffix.len() == 0 {
            assert(o =~= dst);
        } else {
            assert forall|i: int| 0 <= i < dst.len() as int + 1 implies o.subrange(
                0,
                dst.len() as int + 1,
            )[i] == dst.push('/')[i] by {
                if i < dst.len() {
                    assert(o[i] == (dst + suffix)[i]);
                } else {
                    assert(o[i] == (dst + suffix)[i]);
                    assert((dst + suffix)[i] == suffix[0]);
                }
            }
            assert(o.subrange(0, dst.len() as int + 1) =~= dst.push('/'));
            assert(spec_under_dir(o, dst));
        }
    }
}

/// An entry present in a prefix-preserved extension was already present,
/// with the same looked-up node.
pub proof fn lemma_preserve_node(orig: Seq<FsEntry>, cur: Seq<FsEntry>, q: Seq<char>)
    requires
        spec_distinct_paths(orig),
        spec_distinct_paths(cur),
        cur.len() >= orig.len(),
        cur.subrange(0, orig.len() as int) == orig,
        spec_has(orig, q),
    ensures
        spec_has(cur, q),
        spec_node(cur, q) == spec_node(orig, q),
{
    let i = spec_index_of(orig, q);
    assert(0 <= i < orig.len() && orig[i].path@ == q);
    lemma_node_from_index(orig, i, q);
    assert(cur[i] == cur.subrange(0, orig.len() as int)[i]);
    lemma_node_from_index(cur, i, q);
}

/// When the extension past a preserved prefix holds only directories, any
/// file of the extension was already a file of the prefix.
pub proof fn lemma_file_back(orig: Seq<FsEntry>, cur: Seq<FsEntry>, q: Seq<char>)
    requires
        spec_distinct_paths(orig),
        spec_distinct_paths(cur),
        cur.len() >= orig.len(),
        cur.subrange(0, orig.len() as int) == orig,
        forall|m: int| orig.len() <= m < cur.len() ==> cur[m].node is Dir,
        spec_is_file(cur, q),
    ensures
        spec_is_file(orig, q),
{
    let i = spec_index_of(cur, q);
    assert(0 <= i < cur.len() && cur[i].path@ == q);
    lemma_node_from_index(cur, i, q);
    if i < orig.len() {
        assert(orig[i] == cur.subrange(0, orig.len() as int)[i]);
        lemma_node_from_index(orig, i, q);
    }
}

impl FsTree {
    /// Whether a file stands somewhere on the directory chain of `p`.
    fn chain_has_file(&self, p: &str) -> (r: bool)
        requires
            self.wf(),
        ensures
            r == (exists|q: Seq<char>| spec_dir_chain(p@, q) && spec_is_file(self.entries@, q)),
    {
        let n = p.unicode_len();
        let mut k: usize = 0;
        while k < n
            invariant
                self.wf(),
                n == p@.len(),
                k <= n,
                forall|j: int|
                    0 < j < k && p@[j] == '/' ==> !spec_is_file(
                        self.entries@,
                        p@.subrange(0, j),
                    ),
            decreases n - k,
        {
            if k > 0 && p.get_char(k) == '/' {
                if self.is_file(p.substring_char(0, k)) {
                    proof {
                        assert(spec_dir_chain(p@, p@.subrange(0, k as int)));
                        assert(exists|q: Seq<char>|
                            spec_dir_chain(p@, q) && spec_is_file(self.entries@, q));
                    }
                    return true;
                }
            }
            k += 1;
        }
        if self.is_file(p) {
            proof {
                assert(spec_dir_chain(p@, p@));
                assert(exists|q: Seq<char>|
                    spec_dir_chain(p@, q) && spec_is_file(self.entries@, q));
            }
            return true;
        }
        proof {
            assert forall|q: Seq<char>|
                spec_dir_chain(p@, q) implies !spec_is_file(self.entries@, q) by {
                if q != p@ {
                    let j = choose|j: int| 0 < j < p@.len() && p@[j] == '/' && q == p@.subrange(0, j);
                    assert(!spec_is_file(self.entries@, p@.subrange(0, j)));
                }
            }
        }
        false
    }

    /// Creates the directory `p` and any missing ancestors, as a recursive
    /// directory creation does; fails, leaving the tree unchanged, when a
    /// link of the chain is a file.
    pub fn create_dir_all(&mut self, p: &str) -> (r: Result<(), ()>)
        requires
            old(self).wf(),
        ensures
            final(self).wf(),
            r is Err <==> (exists|q: Seq<char>|
                spec_dir_chain(p@, q) && spec_is_file(old(self).entries@, q)),
            r is Err ==> *final(self) == *old(self),
            r is Ok ==> {
                &&& final(self).entries@.len() >= old(self).entries@.len()
                &&& final(self).entries@.subrange(0, old(self).entries@.len() as int) == old(
                    self,
                ).entries@
                &&& forall|k: int|
                    old(self).entries@.len() <= k < final(self).entries@.len() ==> {
                        &&& final(self).entries@[k].node is Dir
                        &&& spec_dir_chain(p@, final(self).entries@[k].path@)
                        &&& !spec_has(old(self).entries@, final(self).entries@[k].path@)
                    }
                &&& forall|q: Seq<char>|
                    spec_dir_chain(p@, q) ==> spec_is_dir(final(self).entries@, q)
            },
    {
        if self.chain_has_file(p) {
            return Err(());
        }
        let n = p.unicode_len();
        let mut k: usize = 0;
        while k < n
            invariant
                self.wf(),
                n == p@.len(),
                k <= n,
                self.entries@.len() >= old(self).entries@.len(),
                self.entries@.subrange(0, old(self).entries@.len() as int) == old(self).entries@,
                forall|m: int|
                    old(self).entries@.len() <= m < self.entries@.len() ==> {
                        &&& self.entries@[m].node is Dir
                        &&& spec_dir_chain(p@, self.entries@[m].path@)
                        &&& !spec_has(old(self).entries@, self.entries@[m].path@)
                    },
                forall|j: int|
                    0 < j < k && p@[j] == '/' ==> spec_is_dir(self.entries@, p@.subrange(0, j)),
                !(exists|q: Seq<char>|
                    spec_dir_chain(p@, q) && spec_is_file(old(self).entries@, q)),
            decreases n - k,
        {
            if k > 0 && p.get_char(k) == '/' {
                let prefix = p.substring_char(0, k);
                let ghost pre = self.entries@;
                match self.ensure_dir(prefix) {
                    Ok(()) => {
                        proof {
                            let ghost q = p@.subrange(0, k as int);
                            if !spec_has(pre, q) {
                                assert(self.entries@.drop_last() == pre);
                                assert forall|m: int| 0 <= m < pre.len() implies self.entries@[m]
                                    == pre[m] by {
                                    assert(self.entries@.drop_last()[m] == pre[m]);
                                }
                            } else {
                                assert(self.entries@ == pre);
                            }
                            assert(self.entries@.subrange(0, pre.len() as int) =~= pre);
                            assert(self.entries@.subrange(0, old(self).entries@.len() as int)
                                =~= old(self).entries@);
                            if self.entries@.len() > pre.len() {
                                assert(0 < k < p@.len() && p@[k as int] == '/');
                                assert(spec_dir_chain(p@, q));
                                if spec_has(old(self).entries@, q) {
                                    lemma_preserve_node(old(self).entries@, pre, q);
                                }
                                assert(!spec_has(old(self).entries@, q));
                            }
                            assert forall|m: int|
                                old(self).entries@.len() <= m < self.entries@.len() implies {
                                &&& self.entries@[m].node is Dir
                                &&& spec_dir_chain(p@, self.entries@[m].path@)
                                &&& !spec_has(old(self).entries@, self.entries@[m].path@)
                            } by {
                                if m < pre.len() {
                                    assert(self.entries@[m] == pre[m]);
                                    assert(pre[m].node is Dir);
                                } else {
                                    assert(m == self.entries@.len() - 1);
                                    assert(self.entries@[m] == self.entries@.last());
                                    assert(self.entries@.last().path@ == q);
                                }
                            }
                            assert forall|j: int|
                                0 < j < k + 1 && p@[j] == '/' implies spec_is_dir(
                                self.entries@,
                                p@.subrange(0, j),
                            ) by {
                                if j < k {
                                    lemma_preserve_node(pre, self.entries@, p@.subrange(0, j));
                                }
                            }
                        }
                    },
                    Err(()) => {
                        proof {
                            lemma_file_back(old(self).entries@, pre, p@.subrange(0, k as int));
                            assert(0 < k < p@.len() && p@[k as int] == '/');
                            assert(spec_dir_chain(p@, p@.subrange(0, k as int)));
                            assert(exists|q: Seq<char>|
                                spec_dir_chain(p@, q) && spec_is_file(old(self).entries@, q));
                        }
                        return Err(());
                    },
                }
            }
            k += 1;
        }
        let ghost pre = self.entries@;
        match self.ensure_dir(p) {
            Ok(()) => {
                proof {
                    if !spec_has(pre, p@) {
                        assert(self.entries@.drop_last() == pre);
                        assert forall|m: int| 0 <= m < pre.len() implies self.entries@[m]
                            == pre[m] by {
                            assert(self.entries@.drop_last()[m] == pre[m]);
                        }
                    } else {
                        assert(self.entries@ == pre);
                    }
                    assert(self.entries@.subrange(0, pre.len() as int) =~= pre);
                    assert(self.entries@.subrange(0, old(self).entries@.len() as int)
                        =~= old(self).entries@);
                    if self.entries@.len() > pre.len() {
                        if spec_has(old(self).entries@, p@) {
                            lemma_preserve_node(old(self).entries@, pre, p@);
                        }
                        assert(!spec_has(old(self).entries@, p@));
                    }
                    assert forall|m: int|
                        old(self).entries@.len() <= m < self.entries@.len() implies {
                        &&& self.entries@[m].node is Dir
                        &&& spec_dir_chain(p@, self.entries@[m].path@)
                        &&& !spec_has(old(self).entries@, self.entries@[m].path@)
                    } by {
                        if m < pre.len() {
                            assert(self.entries@[m] == pre[m]);
                            assert(pre[m].node is Dir);
                        } else {
                            assert(m == self.entries@.len() - 1);
                            assert(self.entries@[m] == self.entries@.last());
                            assert(self.entries@.last().path@ == p@);
                        }
                    }
                    assert forall|q: Seq<char>|
                        spec_dir_chain(p@, q) implies spec_is_dir(self.entries@, q) by {
                        if q != p@ {
                            let j = choose|j: int|
                                0 < j < p@.len() && p@[j] == '/' && q == p@.subrange(0, j);
                            assert(spec_is_dir(pre, p@.subrange(0, j)));
                            lemma_preserve_node(pre, self.entries@, q);
                        }
                    }
                }
                Ok(())
            },
            Err(()) => {
                proof {
                    lemma_file_back(old(self).entries@, pre, p@);
                    assert(spec_dir_chain(p@, p@));
                    assert(exists|q: Seq<char>|
                        spec_dir_chain(p@, q) && spec_is_file(old(self).entries@, q));
                }
                Err(())
            },
        }
    }

    /// Makes `q` a directory if nothing is stored there; fails when a file
    /// is in the way.
    fn ensure_dir(&mut self, q: &str) -> (r: Result<(), ()>)
        requires
            old(self).wf(),
        ensures
            final(self).wf(),
            r is Err <==> spec_is_file(old(self).entries@, q@),
            r is Err ==> *final(self) == *old(self),
            r is Ok ==> spec_is_dir(final(self).entries@, q@),
            spec_has(old(self).entries@, q@) ==> *final(self) == *old(self),
            !spec_has(old(self).entries@, q@) ==> {
                &&& final(self).entries@.len() == old(self).entries@.len() + 1
                &&& final(self).entries@.drop_last() == old(self).entries@
                &&& final(self).entries@.last().path@ == q@
                &&& final(self).entries@.last().node is Dir
            },
    {
        match self.node_at(q) {
            Some(FsNode::Dir) => Ok(()),
            Some(FsNode::File { .. }) => Err(()),
            None => {
                self.entries.push(FsEntry { path: String::from_str(q), node: FsNode::Dir });
                proof {
                    assert(final(self).entries@.drop_last() =~= old(self).entries@);
                }
                Ok(())
            },
        }
    }

    /// Copies the file at `src` to `dst`, carrying its attributes over, as
    /// a byte-for-byte copy does. Fails when `src` is not a file or a
    /// directory stands at `dst`.
    pub fn copy_file(&mut self, src: &str, dst: &str) -> (r: Result<(), ()>)
        requires
            old(self).wf(),
        ensures
            final(self).wf(),
            r is Err <==> !spec_is_file(old(self).entries@, src@) || spec_is_dir(
                old(self).entries@,
                dst@,
            ),
            r is Err ==> *final(self) == *old(self),
            r is Ok ==> spec_is_file(final(self).entries@, dst@) && spec_node(
                final(self).entries@,
                dst@,
            ) == spec_node(old(self).entries@, src@),
            r is Ok && spec_has(old(self).entries@, dst@) ==> {
                &&& final(self).entries@.len() == old(self).entries@.len()
                &&& forall|k: int|
                    0 <= k < old(self).entries@.len() && k != spec_index_of(old(self).entries@, dst@)
                        ==> final(self).entries@[k] == old(self).entries@[k]
                &&& final(self).entries@[spec_index_of(old(self).entries@, dst@)].path@ == dst@
            },
            r is Ok && !spec_has(old(self).entries@, dst@) ==> {
                &&& final(self).entries@.len() == old(self).entries@.len() + 1
                &&& final(self).entries@.drop_last() == old(self).entries@
                &&& final(self).entries@.last().path@ == dst@
            },
    {
        match self.node_at(src) {
            Some(FsNode::File { size, width, height }) => {
                let r = self.write_file(dst, size, width, height);
                proof {
                    if r is Ok {
                        let s = final(self).entries@;
                        if spec_has(old(self).entries@, dst@) {
                            let i = spec_index_of(old(self).entries@, dst@);
                            assert(s[i].path@ == dst@);
                            let j = spec_index_of(s, dst@);
                            assert(0 <= j < s.len() && s[j].path@ == dst@);
                            assert(i == j);
                        } else {
                            let j = spec_index_of(s, dst@);
                            assert(s[s.len() - 1].path@ == dst@);
                            assert(0 <= j < s.len() && s[j].path@ == dst@);
                            assert forall|k: int| 0 <= k < s.len() - 1 implies s[k].path@ != dst@ by {
                                assert(s.drop_last()[k] == s[k]);
                                assert(!spec_has(old(self).entries@, dst@));
                            }
                            assert(j == s.len() - 1);
                        }
                    }
                }
                r
            },
            _ => Err(()),
        }
    }

    /// Whether some entry lies strictly under directory `d`.
    pub fn any_under(&self, d: &str) -> (r: bool)
        ensures
            r == spec_any_under(self.entries@, d@),
    {
        let n = self.entries.len();
        let mut i: usize = 0;
        while i < n
            invariant
                n == self.entries@.len(),
                i <= n,
                forall|j: int| 0 <= j < i ==> !spec_under_dir(self.entries@[j].path@, d@),
            decreases n - i,
        {
            if is_under_dir(self.entries[i].path.as_str(), d) {
                return true;
            }
            i += 1;
        }
        false
    }

    /// Removes the directory `p` and everything under it in one step, as a
    /// recursive directory removal does; fails when `p` is not a directory.
    pub fn remove_tree(&mut self, p: &str) -> (r: Result<(), ()>)
        requires
            old(self).wf(),
        ensures
            final(self).wf(),
            r is Err <==> !spec_is_dir(old(self).entries@, p@),
            r is Err ==> *final(self) == *old(self),
            r is Ok ==> final(self).entries@ == spec_remove_tree(old(self).entries@, p@),
    {
        if !self.is_dir(p) {
            return Err(());
        }
        let mut kept: Vec<FsEntry> = Vec::new();
        let n = self.entries.len();
        let mut i: usize = 0;
        while i < n
            invariant
                self.wf(),
                n == self.entries@.len(),
                i <= n,
                spec_distinct_paths(kept@),
                kept@ == spec_remove_tree(self.entries@.subrange(0, i as int), p@),
                forall|m: int|
                    0 <= m < kept@.len() ==> (exists|j: int|
                        0 <= j < i && #[trigger] kept@[m].path@ == self.entries@[j].path@),
            decreases n - i,
        {
            let keep = !(str_eq(self.entries[i].path.as_str(), p) || is_under_dir(
                self.entries[i].path.as_str(),
                p,
            ));
            proof {
                let sub1 = self.entries@.subrange(0, i as int + 1);
                assert(sub1.drop_last() =~= self.entries@.subrange(0, i as int));
                assert(sub1.last() == self.entries@[i as int]);
                assert(sub1.len() > 0);
                reveal_with_fuel(Seq::<_>::filter, 2);
            }
            if keep {
                let e = FsEntry { path: self.entries[i].path.clone(), node: self.entries[i].node };
                proof {
                    assert(e.path@ == self.entries@[i as int].path@);
                    assert(e == self.entries@[i as int]);
                }
                kept.push(e);
                proof {
                    assert(kept@.last() == self.entries@[i as int]);
                    assert(kept@ =~= spec_remove_tree(
                        self.entries@.subrange(0, i as int + 1),
                        p@,
                    ));
                }
            }
            i += 1;
        }
        proof {
            assert(self.entries@.subrange(0, n as int) =~= self.entries@);
        }
        self.entries = kept;
        Ok(())
    }

    /// Moves the node at `src` to `dst`, leaving every other entry alone.
    /// Fails when `src` is absent or something already stands at `dst`.
    pub fn rename_entry(&mut self, src: &str, dst: &str) -> (r: Result<(), ()>)
        requires
            old(self).wf(),
        ensures
            final(self).wf(),
            r is Err <==> !spec_has(old(self).entries@, src@) || spec_has(old(self).entries@, dst@),
            r is Err ==> *final(self) == *old(self),
            r is Ok ==> {
                &&& final(self).entries@.len() == old(self).entries@.len()
                &&& forall|k: int|
                    0 <= k < old(self).entries@.len() && k != spec_index_of(old(self).entries@, src@)
                        ==> final(self).entries@[k] == old(self).entries@[k]
                &&& final(self).entries@[spec_index_of(old(self).entries@, src@)].path@ == dst@
                &&& final(self).entries@[spec_index_of(old(self).entries@, src@)].node == spec_node(
                    old(self).entries@,
                    src@,
                )
            },
    {
        if self.has_path(dst) {
            return Err(());
        }
        match self.find_path(src) {
            Some(i) => {
                proof {
                    let j = spec_index_of(self.entries@, src@);
                    assert(0 <= j < self.entries@.len() && self.entries@[j].path@ == src@);
                }
                let node = self.entries[i].node;
                self.entries.set(i, FsEntry { path: String::from_str(dst), node });
                Ok(())
            },
            None => Err(()),
        }
    }

    /// Moves the directory `src` and every path under it to `dst` in one
    /// step, as a directory rename does: each affected path keeps its node
    /// and has its `src` prefix replaced by `dst`. Fails when `src` is not
    /// a directory or anything stands at or under `dst`.
    pub fn rename_tree(&mut self, src: &str, dst: &str) -> (r: Result<(), ()>)
        requires
            old(self).wf(),
        ensures
            final(self).wf(),
            r is Err <==> (!spec_is_dir(old(self).entries@, src@) || spec_has(
                old(self).entries@,
                dst@,
            ) || spec_any_under(old(self).entries@, dst@)),
            r is Err ==> *final(self) == *old(self),
            r is Ok ==> {
                &&& final(self).entries@.len() == old(self).entries@.len()
                &&& forall|k: int|
                    0 <= k < old(self).entries@.len() && (old(self).entries@[k].path@ == src@
                        || spec_under_dir(old(self).entries@[k].path@, src@)) ==> {
                        &&& final(self).entries@[k].path@ == dst@
                            + old(self).entries@[k].path@.subrange(
                            src@.len() as int,
                            old(self).entries@[k].path@.len() as int,
                        )
                        &&& final(self).entries@[k].node == old(self).entries@[k].node
                    }
                &&& forall|k: int|
                    0 <= k < old(self).entries@.len() && !(old(self).entries@[k].path@ == src@
                        || spec_under_dir(old(self).entries@[k].path@, src@))
                        ==> final(self).entries@[k] == old(self).entries@[k]
            },
    {
        if !self.is_dir(src) {
            return Err(());
        }
        if self.has_path(dst) {
            return Err(());
        }
        if self.any_under(dst) {
            return Err(());
        }
        let n = self.entries.len();
        let mut k: usize = 0;
        while k < n
            invariant
                old(self).wf(),
                !spec_has(old(self).entries@, dst@),
                !spec_any_under(old(self).entries@, dst@),
                n == old(self).entries@.len(),
                self.entries@.len() == n,
                k <= n,
                spec_distinct_paths(self.entries@),
                forall|j: int| k <= j < n ==> self.entries@[j] == old(self).entries@[j],
                forall|j: int|
                    0 <= j < k && (old(self).entries@[j].path@ == src@ || spec_under_dir(
                        old(self).entries@[j].path@,
                        src@,
                    )) ==> {
                        &&& self.entries@[j].path@ == dst@ + old(self).entries@[j].path@.subrange(
                            src@.len() as int,
                            old(self).entries@[j].path@.len() as int,
                        )
                        &&& self.entries@[j].node == old(self).entries@[j].node
                    },
                forall|j: int|
                    0 <= j < k && !(old(self).entries@[j].path@ == src@ || spec_under_dir(
                        old(self).entries@[j].path@,
                        src@,
                    )) ==> self.entries@[j] == old(self).entries@[j],
            decreases n - k,
        {
            let affected_eq = str_eq(self.entries[k].path.as_str(), src);
            let affected_under = is_under_dir(self.entries[k].path.as_str(), src);
            if affected_eq || affected_under {
                let ghost oldp = old(self).entries@[k as int].path@;
                proof {
                    lemma_affected_decompose(oldp, src@);
                    if affected_under {
                        assert(oldp.subrange(0, src@.len() as int) =~= src@);
                    }
                }
                let node = self.entries[k].node;
                let np = if affected_eq {
                    String::from_str(dst)
                } else {
                    replace_path_prefix(self.entries[k].path.as_str(), src, dst)
                };
                proof {
                    assert(np@ =~= dst@ + oldp.subrange(src@.len() as int, oldp.len() as int));
                }
                self.entries.set(k, FsEntry { path: np, node });
                proof {
                    let ghost cur = self.entries@;
                    let ghost sfx = oldp.subrange(src@.len() as int, oldp.len() as int);
                    assert forall|i: int|
                        0 <= i < n && i != k implies cur[i].path@ != cur[k as int].path@ by {
                        let oi = old(self).entries@[i].path@;
                        if i < k && (oi == src@ || spec_under_dir(oi, src@)) {
                            let si = oi.subrange(src@.len() as int, oi.len() as int);
                            lemma_affected_decompose(oi, src@);
                            lemma_concat_injective(dst@, si, sfx);
                            assert(oi != oldp);
                        } else {
                            assert(cur[i] == old(self).entries@[i]);
                            assert(oi != dst@);
                            assert(!spec_under_dir(oi, dst@));
                            lemma_renamed_path_fresh(oi, dst@, sfx);
                        }
                    }
                }
            }
            k += 1;
        }
        Ok(())
    }
}

} // verus!
