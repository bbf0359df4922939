//! An explicit model of the photo index.
//!
//! The catalog stores one row per photo: an opaque numeric identity, the
//! current absolute file path, the import-time provenance path, the display
//! name, the byte size and optional pixel dimensions, and a creation stamp.
//! Selection by folder uses the raw string-prefix test on the stored path,
//! exactly as the engines' queries do — not a segment-boundary test — so a
//! folder selection for `/lib/Trip1` also selects rows under `/lib/Trip10`.
//! The embedding program mirrors a relational store into this model.

use vstd::prelude::*;
use vstd::string::*;
use crate::path_util::{spec_starts_with, starts_with_str, str_eq};

verus! {

/// One catalog row.
#[derive(Debug)]
pub struct Photo {
    pub id: i64,
    pub file_path: String,
    pub original_path: String,
    pub file_name: String,
    pub file_size: Option<i64>,
    pub width: Option<i32>,
    pub height: Option<i32>,
    pub created_at: String,
}

/// The photo index: rows with pairwise distinct ids, all below `next_id`.
#[derive(Debug)]
pub struct Catalog {
    pub next_id: i64,
    pub rows: Vec<Photo>,
}

/// Pairwise distinct row ids.
pub open spec fn spec_distinct_ids(s: Seq<Photo>) -> bool {
    forall|i: int, j: int| 0 <= i < j < s.len() ==> s[i].id != s[j].id
}

/// Some row of `s` has id `id`.
pub open spec fn cat_has(s: Seq<Photo>, id: i64) -> bool {
    exists|i: int| 0 <= i < s.len() && s[i].id == id
}

/// The index of the row with id `id` (meaningful when `cat_has` holds and
/// the ids are distinct).
pub open spec fn cat_index_of(s: Seq<Photo>, id: i64) -> int {
    choose|i: int| 0 <= i < s.len() && s[i].id == id
}

/// The row with id `id`.
pub open spec fn cat_row(s: Seq<Photo>, id: i64) -> Photo {
    s[cat_index_of(s, id)]
}

/// Some row stores exactly this file path.
pub open spec fn cat_has_path(s: Seq<Photo>, p: Seq<char>) -> bool {
    exists|i: int| 0 <= i < s.len() && s[i].file_path@ == p
}

/// The rows whose stored path has `prefix` as a raw string prefix.
pub open spec fn spec_select_prefix(s: Seq<Photo>, prefix: Seq<char>) -> Seq<Photo> {
    s.filter(|p: Photo| spec_starts_with(p.file_path@, prefix))
}

/// With distinct ids, a row whose id is `id` settles membership, the
/// looked-up index and the row itself all at once.
pub proof fn lemma_row_from_index(s: Seq<Photo>, i: int, id: i64)
    requires
        spec_distinct_ids(s),
        0 <= i < s.len(),
        s[i].id == id,
    ensures
        cat_has(s, id),
        cat_index_of(s, id) == i,
        cat_row(s, id) == s[i],
{
    let j = cat_index_of(s, id);
    assert(0 <= j < s.len() && s[j].id == id);
}

impl Photo {
    /// A field-for-field copy of the row.
    pub fn duplicate(&self) -> (r: Photo)
        ensures
            r == *self,
    {
        Photo {
            id: self.id,
            file_path: self.file_path.clone(),
            original_path: self.original_path.clone(),
            file_name: self.file_name.clone(),
            file_size: self.file_size,
            width: self.width,
            height: self.height,
            created_at: self.created_at.clone(),
        }
    }
}

impl Catalog {
    /// Distinct ids, every id below the next free one, ids positive.
    pub open spec fn wf(&self) -> bool {
        &&& spec_distinct_ids(self.rows@)
        &&& forall|i: int| 0 <= i < self.rows@.len() ==> 0 < #[trigger] self.rows@[i].id
            < self.next_id
        &&& self.next_id >= 1
    }

    /// The empty catalog.
    pub fn new() -> (r: Catalog)
        ensures
            r.wf(),
            r.rows@.len() == 0,
            r.next_id == 1,
    {
        Catalog { next_id: 1, rows: Vec::new() }
    }

    /// Index of the row with id `id`, if any.
    fn find_id(&self, id: i64) -> (r: Option<usize>)
        ensures
            match r {
                Some(i) => i < self.rows@.len() && self.rows@[i as int].id == id,
                None => !cat_has(self.rows@, id),
            },
    {
        let n = self.rows.len();
        let mut i: usize = 0;
        while i < n
            invariant
                n == self.rows@.len(),
                i <= n,
                forall|j: int| 0 <= j < i ==> self.rows@[j].id != id,
            decreases n - i,
        {
            if self.rows[i].id == id {
                return Some(i);
            }
            i += 1;
        }
        None
    }

    /// Looks a row up by id, returning a copy of it.
    pub fn get(&self, id: i64) -> (r: Option<Photo>)
        requires
            self.wf(),
        ensures
            match r {
                Some(p) => cat_has(self.rows@, id) && p == cat_row(self.rows@, id),
                None => !cat_has(self.rows@, id),
            },
    {
        match self.find_id(id) {
            Some(i) => {
                proof {
                    lemma_row_from_index(self.rows@, i as int, id);
                }
                Some(self.rows[i].duplicate())
            },
            None => None,
        }
    }

    /// Whether some row stores exactly this file path.
    pub fn has_file_path(&self, p: &str) -> (r: bool)
        ensures
            r == cat_has_path(self.rows@, p@),
    {
        let n = self.rows.len();
        let mut i: usize = 0;
        while i < n
            invariant
                n == self.rows@.len(),
                i <= n,
                forall|j: int| 0 <= j < i ==> self.rows@[j].file_path@ != p@,
            decreases n - i,
        {
            if str_eq(self.rows[i].file_path.as_str(), p) {
                return true;
            }
            i += 1;
        }
        false
    }

    /// Inserts a new row and returns its freshly assigned id.
    pub fn insert(
        &mut self,
        file_path: &str,
        original_path: &str,
        file_name: &str,
        file_size: Option<i64>,
        width: Option<i32>,
        height: Option<i32>,
        created_at: &str,
    ) -> (r: i64)
        requires
            old(self).wf(),
            old(self).next_id < 0x7fff_ffff_ffff_ffff,
        ensures
            final(self).wf(),
            r == old(self).next_id,
            final(self).next_id == old(self).next_id + 1,
            final(self).rows@.len() == old(self).rows@.len() + 1,
            final(self).rows@.drop_last() == old(self).rows@,
            final(self).rows@.last().id == r,
            final(self).rows@.last().file_path@ == file_path@,
            final(self).rows@.last().original_path@ == original_path@,
            final(self).rows@.last().file_name@ == file_name@,
            final(self).rows@.last().file_size == file_size,
            final(self).rows@.last().width == width,
            final(self).rows@.last().height == height,
            final(self).rows@.last().created_at@ == created_at@,
    {
        let id = self.next_id;
        self.rows.push(
            Photo {
                id,
                file_path: String::from_str(file_path),
                original_path: String::from_str(original_path),
                file_name: String::from_str(file_name),
                file_size,
                width,
                height,
                created_at: String::from_str(created_at),
            },
        );
        self.next_id = id + 1;
        proof {
            assert(final(self).rows@.drop_last() =~= old(self).rows@);
        }
        id
    }

    /// Repoints the stored path and the provenance path of row `id` to
    /// `new_path`, as a move does; reports whether the row was found.
    pub fn update_paths(&mut self, id: i64, new_path: &str) -> (r: bool)
        requires
            old(self).wf(),
        ensures
            final(self).wf(),
            final(self).next_id == old(self).next_id,
            r == cat_has(old(self).rows@, id),
            !r ==> *final(self) == *old(self),
            r ==> {
                &&& final(self).rows@.len() == old(self).rows@.len()
                &&& forall|k: int|
                    0 <= k < old(self).rows@.len() && k != cat_index_of(old(self).rows@, id)
                        ==> final(self).rows@[k] == old(self).rows@[k]
                &&& {
                    let i = cat_index_of(old(self).rows@, id);
                    let n = final(self).rows@[i];
                    let o = old(self).rows@[i];
                    &&& n.id == o.id
                    &&& n.file_path@ == new_path@
                    &&& n.original_path@ == new_path@
                    &&& n.file_name == o.file_name
                    &&& n.file_size == o.file_size
                    &&& n.width == o.width
                    &&& n.height == o.height
                    &&& n.created_at == o.created_at
                }
            },
    {
        match self.find_id(id) {
            Some(i) => {
                proof {
                    lemma_row_from_index(self.rows@, i as int, id);
                }
                let row = self.rows[i].duplicate();
                self.rows.set(
                    i,
                    Photo {
                        id: row.id,
                        file_path: String::from_str(new_path),
                        original_path: String::from_str(new_path),
                        file_name: row.file_name,
                        file_size: row.file_size,
                        width: row.width,
                        height: row.height,
                        created_at: row.created_at,
                    },
                );
                true
            },
            None => false,
        }
    }

    /// Replaces the stored size and dimensions of row `id`, as an edit in
    /// place does; reports whether the row was found.
    pub fn update_media(
        &mut self,
        id: i64,
        file_size: Option<i64>,
        width: Option<i32>,
        height: Option<i32>,
    ) -> (r: bool)
        requires
            old(self).wf(),
        ensures
            final(self).wf(),
            final(self).next_id == old(self).next_id,
            r == cat_has(old(self).rows@, id),
            !r ==> *final(self) == *old(self),
            r ==> {
                &&& final(self).rows@.len() == old(self).rows@.len()
                &&& forall|k: int|
                    0 <= k < old(self).rows@.len() && k != cat_index_of(old(self).rows@, id)
                        ==> final(self).rows@[k] == old(self).rows@[k]
                &&& {
                    let i = cat_index_of(old(self).rows@, id);
                    let n = final(self).rows@[i];
                    let o = old(self).rows@[i];
                    &&& n.id == o.id
                    &&& n.file_path == o.file_path
                    &&& n.original_path == o.original_path
                    &&& n.file_name == o.file_name
                    &&& n.file_size == file_size
                    &&& n.width == width
                    &&& n.height == height
                    &&& n.created_at == o.created_at
                }
            },
    {
        match self.find_id(id) {
            Some(i) => {
                proof {
                    lemma_row_from_index(self.rows@, i as int, id);
                }
                let row = self.rows[i].duplicate();
                self.rows.set(
                    i,
                    Photo {
                        id: row.id,
                        file_path: row.file_path,
                        original_path: row.original_path,
                        file_name: row.file_name,
                        file_size,
                        width,
                        height,
                        created_at: row.created_at,
                    },
                );
                true
            },
            None => false,
        }
    }

    /// Deletes row `id`; reports whether a row was removed.
    pub fn delete(&mut self, id: i64) -> (r: bool)
        requires
            old(self).wf(),
        ensures
            final(self).wf(),
            final(self).next_id == old(self).next_id,
            r == cat_has(old(self).rows@, id),
            !r ==> *final(self) == *old(self),
            r ==> final(self).rows@ == old(self).rows@.remove(cat_index_of(old(self).rows@, id)),
    {
        match self.find_id(id) {
            Some(i) => {
                proof {
                    lemma_row_from_index(self.rows@, i as int, id);
                }
                self.rows.remove(i);
                true
            },
            None => false,
        }
    }

    /// Copies out the rows whose stored path begins with `prefix`, in row
    /// order — the raw string-prefix selection of the folder operations.
    pub fn select_prefix(&self, prefix: &str) -> (r: Vec<Photo>)
        requires
            self.wf(),
        ensures
            r@ == spec_select_prefix(self.rows@, prefix@),
            spec_distinct_ids(r@),
            forall|m: int|
                0 <= m < r@.len() ==> cat_has(self.rows@, #[trigger] r@[m].id) && cat_row(
                    self.rows@,
                    r@[m].id,
                ) == r@[m],
    {
        let mut out: Vec<Photo> = Vec::new();
        let n = self.rows.len();
        let mut i: usize = 0;
        while i < n
            invariant
                self.wf(),
                n == self.rows@.len(),
                i <= n,
                out@ == spec_select_prefix(self.rows@.subrange(0, i as int), prefix@),
                spec_distinct_ids(out@),
                forall|m: int|
                    0 <= m < out@.len() ==> cat_has(self.rows@, #[trigger] out@[m].id) && cat_row(
                        self.rows@,
                        out@[m].id,
                    ) == out@[m] && cat_index_of(self.rows@, out@[m].id) < i,
            decreases n - i,
        {
            proof {
                let sub1 = self.rows@.subrange(0, i as int + 1);
                assert(sub1.drop_last() =~= self.rows@.subrange(0, i as int));
                assert(sub1.last() == self.rows@[i as int]);
                reveal_with_fuel(Seq::<_>::filter, 2);
            }
            if starts_with_str(self.rows[i].file_path.as_str(), prefix) {
                let e = self.rows[i].duplicate();
                proof {
                    assert(e == self.rows@[i as int]);
                    lemma_row_from_index(self.rows@, i as int, self.rows@[i as int].id);
                }
                out.push(e);
                proof {
                    assert(out@ =~= spec_select_prefix(
                        self.rows@.subrange(0, i as int + 1),
                        prefix@,
                    ));
                }
            }
            i += 1;
        }
        proof {
            assert(self.rows@.subrange(0, n as int) =~= self.rows@);
        }
        out
    }
}

} // verus!
