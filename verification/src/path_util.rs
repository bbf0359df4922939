//! Pure path-string utilities.
//!
//! The library treats a filesystem path as a sequence of characters with `/`
//! as the separator. Folder membership, file names, stems and extensions are
//! all derived from that representation, and every derived notion has a spec
//! function that the executable helpers are proved against.
//!
//! Folder membership is deliberately offered in two flavours:
//! [`spec_starts_with`] is the raw string-prefix test that the catalog
//! selection uses (so `/lib/Trip1` also matches `/lib/Trip10/pic.jpg`),
//! while [`spec_under_dir`] is the segment-boundary test that physical
//! subtree operations use.

use vstd::prelude::*;
use vstd::string::*;

verus! {

// ---------------------------------------------------------------------------
// Hidden names
// ---------------------------------------------------------------------------

/// True iff a directory entry name is hidden: it starts with the marker `.`.
pub open spec fn spec_is_hidden_name(name: Seq<char>) -> bool {
    name.len() > 0 && name[0] == '.'
}

/// Decides whether an entry name is hidden (starts with `.`).
pub fn is_hidden_name(name: &str) -> (r: bool)
    ensures
        r == spec_is_hidden_name(name@),
{
    let n = name.unicode_len();
    if n == 0 {
        false
    } else {
        name.get_char(0) == '.'
    }
}

// ---------------------------------------------------------------------------
// ASCII case folding
// ---------------------------------------------------------------------------

/// ASCII lower-casing of one character; other characters are unchanged.
pub open spec fn spec_lower_char(c: char) -> char {
    if 'A' <= c && c <= 'Z' {
        ((c as u32 + 32) as u8) as char
    } else {
        c
    }
}

/// ASCII lower-casing of a character sequence.
pub open spec fn spec_lower(s: Seq<char>) -> Seq<char> {
    s.map_values(|c: char| spec_lower_char(c))
}

fn lower_char(c: char) -> (r: char)
    ensures
        r == spec_lower_char(c),
{
    if 'A' <= c && c <= 'Z' {
        ((c as u32 + 32) as u8) as char
    } else {
        c
    }
}

/// Compares two strings for equality up to ASCII case.
pub fn eq_ignore_ascii(a: &str, b: &str) -> (r: bool)
    ensures
        r == (spec_lower(a@) == spec_lower(b@)),
{
    let alen = a.unicode_len();
    let blen = b.unicode_len();
    if alen != blen {
        proof {
            assert(spec_lower(a@).len() != spec_lower(b@).len());
        }
        return false;
    }
    let mut i: usize = 0;
    while i < alen
        invariant
            alen == a@.len(),
            alen == b@.len(),
            i <= alen,
            forall|j: int| 0 <= j < i ==> spec_lower_char(a@[j]) == spec_lower_char(b@[j]),
        decreases alen - i,
    {
        if lower_char(a.get_char(i)) != lower_char(b.get_char(i)) {
            proof {
                assert(spec_lower(a@)[i as int] != spec_lower(b@)[i as int]);
            }
            return false;
        }
        i += 1;
    }
    proof {
        assert(spec_lower(a@) =~= spec_lower(b@));
    }
    true
}

// ---------------------------------------------------------------------------
// String equality and prefixes
// ---------------------------------------------------------------------------

/// Compares two string slices for equality.
pub fn str_eq(a: &str, b: &str) -> (r: bool)
    ensures
        r == (a@ == b@),
{
    let alen = a.unicode_len();
    let blen = b.unicode_len();
    if alen != blen {
        return false;
    }
    let mut i: usize = 0;
    while i < alen
        invariant
            alen == a@.len(),
            alen == b@.len(),
            i <= alen,
            forall|j: int| 0 <= j < i ==> a@[j] == b@[j],
        decreases alen - i,
    {
        if a.get_char(i) != b.get_char(i) {
            return false;
        }
        i += 1;
    }
    proof {
        assert(a@ =~= b@);
    }
    true
}

/// Raw string-prefix test: `p` is an initial run of the characters of `s`.
pub open spec fn spec_starts_with(s: Seq<char>, p: Seq<char>) -> bool {
    p.len() <= s.len() && s.subrange(0, p.len() as int) == p
}

/// Decides whether `s` starts with `p`, character for character.
pub fn starts_with_str(s: &str, p: &str) -> (r: bool)
    ensures
        r == spec_starts_with(s@, p@),
{
    let slen = s.unicode_len();
    let plen = p.unicode_len();
    if plen > slen {
        return false;
    }
    let mut i: usize = 0;
    while i < plen
        invariant
            slen == s@.len(),
            plen == p@.len(),
            plen <= slen,
            i <= plen,
            forall|j: int| 0 <= j < i ==> s@[j] == p@[j],
        decreases plen - i,
    {
        if s.get_char(i) != p.get_char(i) {
            proof {
                assert(s@.subrange(0, p@.len() as int)[i as int] != p@[i as int]);
            }
            return false;
        }
        i += 1;
    }
    proof {
        assert(s@.subrange(0, p@.len() as int) =~= p@);
    }
    true
}

/// Segment-boundary containment: `p` lies strictly inside directory `d`,
/// that is `p` starts with `d` followed by a separator.
pub open spec fn spec_under_dir(p: Seq<char>, d: Seq<char>) -> bool {
    spec_starts_with(p, d.push('/'))
}

/// Decides whether `p` lies strictly under directory `d` (boundary-aware).
pub fn is_under_dir(p: &str, d: &str) -> (r: bool)
    ensures
        r == spec_under_dir(p@, d@),
{
    let dlen = d.unicode_len();
    let plen = p.unicode_len();
    if dlen >= plen {
        proof {
            if spec_starts_with(p@, d@.push('/')) {
                assert(d@.push('/').len() <= p@.len());
            }
        }
        return false;
    }
    if !starts_with_str(p, d) {
        proof {
            if spec_starts_with(p@, d@.push('/')) {
                assert forall|j: int| 0 <= j < d@.len() implies p@[j] == d@[j] by {
                    assert(p@.subrange(0, d@.len() as int + 1)[j] == d@.push('/')[j]);
                }
                assert(p@.subrange(0, d@.len() as int) =~= d@);
            }
        }
        return false;
    }
    let r = p.get_char(dlen) == '/';
    proof {
        if r {
            assert forall|j: int| 0 <= j < d@.len() as int + 1 implies (p@.subrange(
                0,
                d@.len() as int + 1,
            ))[j] == d@.push('/')[j] by {
                if j < d@.len() {
                    assert(p@.subrange(0, d@.len() as int)[j] == d@[j]);
                }
            }
            assert(p@.subrange(0, d@.len() as int + 1) =~= d@.push('/'));
        } else {
            if spec_starts_with(p@, d@.push('/')) {
                assert(p@.subrange(0, d@.len() as int + 1)[d@.len() as int] == d@.push('/')[d@.len() as int]);
            }
        }
    }
    r
}

/// What strict containment unpacks to: the directory is a proper prefix,
/// closed by a separator.
pub proof fn lemma_under_facts(p: Seq<char>, h: Seq<char>)
    requires
        spec_under_dir(p, h),
    ensures
        p.len() > h.len(),
        p[h.len() as int] == '/',
        forall|j: int| 0 <= j < h.len() ==> p[j] == h[j],
        p.subrange(0, h.len() as int) == h,
{
    assert forall|j: int| 0 <= j < h.len() implies p[j] == h[j] by {
        assert(p.subrange(0, h.len() as int + 1)[j] == h.push('/')[j]);
    }
    assert(p[h.len() as int] == p.subrange(0, h.len() as int + 1)[h.len() as int]);
    assert(p.subrange(0, h.len() as int) =~= h);
}

/// The converse: a proper prefix closed by a separator is containment.
pub proof fn lemma_under_intro(p: Seq<char>, h: Seq<char>)
    requires
        p.len() > h.len(),
        p[h.len() as int] == '/',
        forall|j: int| 0 <= j < h.len() ==> p[j] == h[j],
    ensures
        spec_under_dir(p, h),
{
    assert(p.subrange(0, h.len() as int + 1) =~= h.push('/'));
}

/// Strict containment under a directory is transitive through nesting.
pub proof fn lemma_under_trans(p: Seq<char>, d: Seq<char>, b: Seq<char>)
    requires
        spec_under_dir(p, d),
        spec_under_dir(d, b),
    ensures
        spec_under_dir(p, b),
{
    assert forall|i: int| 0 <= i < d.len() implies p[i] == d[i] by {
        assert(p.subrange(0, d.len() as int + 1)[i] == d.push('/')[i]);
    }
    assert forall|i: int| 0 <= i < b.len() implies d[i] == b[i] by {
        assert(d.subrange(0, b.len() as int + 1)[i] == b.push('/')[i]);
    }
    assert(d[b.len() as int] == d.subrange(0, b.len() as int + 1)[b.len() as int]);
    assert forall|i: int| 0 <= i < b.len() as int + 1 implies p.subrange(
        0,
        b.len() as int + 1,
    )[i] == b.push('/')[i] by {
        assert(p[i] == d[i]);
    }
    assert(p.subrange(0, b.len() as int + 1) =~= b.push('/'));
}

// ---------------------------------------------------------------------------
// Last occurrence of a character
// ---------------------------------------------------------------------------

/// Index of the last occurrence of `c` in `s`, or `-1` if `c` does not occur.
pub open spec fn last_index(s: Seq<char>, c: char) -> int
    decreases s.len(),
{
    if s.len() == 0 {
        -1
    } else if s[s.len() - 1] == c {
        s.len() - 1
    } else {
        last_index(s.drop_last(), c)
    }
}

/// `last_index` really is the greatest index holding `c`, or `-1` if none does.
pub proof fn lemma_last_index(s: Seq<char>, c: char)
    ensures
        last_index(s, c) >= -1,
        last_index(s, c) == -1 ==> (forall|j: int| 0 <= j < s.len() ==> s[j] != c),
        last_index(s, c) >= 0 ==> 0 <= last_index(s, c) < s.len() && s[last_index(s, c)] == c
            && (forall|j: int| last_index(s, c) < j < s.len() ==> s[j] != c),
    decreases s.len(),
{
    if s.len() > 0 && s[s.len() - 1] != c {
        lemma_last_index(s.drop_last(), c);
        assert(forall|j: int| 0 <= j < s.len() - 1 ==> s.drop_last()[j] == s[j]);
    }
}

/// Finds the last occurrence of `c` in `s`.
pub fn rfind_char(s: &str, c: char) -> (r: Option<usize>)
    ensures
        match r {
            Some(i) => last_index(s@, c) == i,
            None => last_index(s@, c) == -1,
        },
{
    proof {
        lemma_last_index(s@, c);
    }
    let len = s.unicode_len();
    let mut i: usize = len;
    while i > 0
        invariant
            len == s@.len(),
            i <= len,
            forall|j: int| i <= j < len ==> s@[j] != c,
        decreases i,
    {
        i -= 1;
        if s.get_char(i) == c {
            proof {
                lemma_last_index(s@, c);
                let li = last_index(s@, c);
                assert(li >= 0);
                if li > i {
                    assert(s@[li] != c);
                }
                if li < i {
                    assert(s@[i as int] != c);
                }
            }
            return Some(i);
        }
    }
    None
}

// ---------------------------------------------------------------------------
// File name, parent, stem and extension
// ---------------------------------------------------------------------------

/// The characters after the last separator; the whole path if none occurs.
pub open spec fn spec_file_name(p: Seq<char>) -> Seq<char> {
    p.subrange(last_index(p, '/') + 1, p.len() as int)
}

/// The characters before the last separator; empty if none occurs.
/// For an absolute path `/a/b/x` this is `/a/b`, and for `/x` it is empty,
/// so that re-joining with [`spec_join`] restores the original path.
pub open spec fn spec_parent(p: Seq<char>) -> Seq<char> {
    if last_index(p, '/') < 0 {
        Seq::empty()
    } else {
        p.subrange(0, last_index(p, '/'))
    }
}

/// A file name carries an extension iff it holds a `.` past its first
/// character; a leading `.` alone marks a hidden name, not an extension.
pub open spec fn spec_has_ext(name: Seq<char>) -> bool {
    last_index(name, '.') > 0
}

/// The file name without its extension (the name itself if it has none).
pub open spec fn spec_stem(name: Seq<char>) -> Seq<char> {
    if spec_has_ext(name) {
        name.subrange(0, last_index(name, '.'))
    } else {
        name
    }
}

/// The extension of a file name; empty if it has none (or a trailing `.`).
pub open spec fn spec_ext(name: Seq<char>) -> Seq<char> {
    if spec_has_ext(name) {
        name.subrange(last_index(name, '.') + 1, name.len() as int)
    } else {
        Seq::empty()
    }
}

/// `dir` and `name` joined with a single separator.
pub open spec fn spec_join(dir: Seq<char>, name: Seq<char>) -> Seq<char> {
    dir.push('/') + name
}

/// Extracts the file-name portion of a path.
pub fn file_name_part(p: &str) -> (r: String)
    ensures
        r@ == spec_file_name(p@),
{
    proof {
        lemma_last_index(p@, '/');
    }
    let len = p.unicode_len();
    let cut: usize = match rfind_char(p, '/') {
        Some(i) => i + 1,
        None => 0,
    };
    String::from_str(p.substring_char(cut, len))
}

/// Extracts the parent-directory portion of a path.
pub fn parent_part(p: &str) -> (r: String)
    ensures
        r@ == spec_parent(p@),
{
    proof {
        lemma_last_index(p@, '/');
    }
    match rfind_char(p, '/') {
        Some(i) => String::from_str(p.substring_char(0, i)),
        None => String::new(),
    }
}

/// Splits a file name into its stem and, when it has one, its extension.
pub fn split_stem_ext(name: &str) -> (r: (String, Option<String>))
    ensures
        r.0@ == spec_stem(name@),
        match r.1 {
            Some(e) => spec_has_ext(name@) && e@ == spec_ext(name@),
            None => !spec_has_ext(name@),
        },
{
    proof {
        lemma_last_index(name@, '.');
    }
    let len = name.unicode_len();
    match rfind_char(name, '.') {
        Some(i) if i > 0 => (
            String::from_str(name.substring_char(0, i)),
            Some(String::from_str(name.substring_char(i + 1, len))),
        ),
        _ => (String::from_str(name), None),
    }
}

/// Joins a directory path and an entry name with a separator.
pub fn join_path(dir: &str, name: &str) -> (r: String)
    ensures
        r@ == spec_join(dir@, name@),
{
    let r = String::from_str(dir).concat("/").concat(name);
    proof {
        reveal_strlit("/");
        assert(r@ =~= spec_join(dir@, name@));
    }
    r
}

/// Replaces the prefix `old_p` of `p` by `new_p`.
pub fn replace_path_prefix(p: &str, old_p: &str, new_p: &str) -> (r: String)
    requires
        spec_starts_with(p@, old_p@),
    ensures
        r@ == new_p@ + p@.subrange(old_p@.len() as int, p@.len() as int),
{
    let plen = p.unicode_len();
    let olen = old_p.unicode_len();
    String::from_str(new_p).concat(p.substring_char(olen, plen))
}

// ---------------------------------------------------------------------------
// Photo / image extension allow-lists
// ---------------------------------------------------------------------------

/// The extension allow-list of the volume scanner: common raster and raw
/// photo formats, compared up to ASCII case.
pub open spec fn spec_is_photo_ext(e: Seq<char>) -> bool {
    ||| spec_lower(e) == "jpg"@
    ||| spec_lower(e) == "jpeg"@
    ||| spec_lower(e) == "png"@
    ||| spec_lower(e) == "heic"@
    ||| spec_lower(e) == "raw"@
    ||| spec_lower(e) == "cr2"@
    ||| spec_lower(e) == "nef"@
    ||| spec_lower(e) == "orf"@
    ||| spec_lower(e) == "arw"@
    ||| spec_lower(e) == "dng"@
    ||| spec_lower(e) == "tif"@
    ||| spec_lower(e) == "tiff"@
    ||| spec_lower(e) == "gif"@
    ||| spec_lower(e) == "bmp"@
    ||| spec_lower(e) == "webp"@
}

/// The narrower allow-list of the catalog ingestion scan.
pub open spec fn spec_is_image_ext(e: Seq<char>) -> bool {
    ||| spec_lower(e) == "jpg"@
    ||| spec_lower(e) == "jpeg"@
    ||| spec_lower(e) == "png"@
    ||| spec_lower(e) == "gif"@
    ||| spec_lower(e) == "bmp"@
    ||| spec_lower(e) == "webp"@
}

/// A path qualifies for the volume scanner iff its file name has an
/// extension on the photo allow-list.
pub open spec fn spec_is_photo_path(p: Seq<char>) -> bool {
    spec_has_ext(spec_file_name(p)) && spec_is_photo_ext(spec_ext(spec_file_name(p)))
}

/// A path qualifies for catalog ingestion iff its file name has an
/// extension on the image allow-list.
pub open spec fn spec_is_image_path(p: Seq<char>) -> bool {
    spec_has_ext(spec_file_name(p)) && spec_is_image_ext(spec_ext(spec_file_name(p)))
}

proof fn lemma_lower_fixed()
    ensures
        spec_lower("jpg"@) == "jpg"@,
        spec_lower("jpeg"@) == "jpeg"@,
        spec_lower("png"@) == "png"@,
        spec_lower("heic"@) == "heic"@,
        spec_lower("raw"@) == "raw"@,
        spec_lower("cr2"@) == "cr2"@,
        spec_lower("nef"@) == "nef"@,
        spec_lower("orf"@) == "orf"@,
        spec_lower("arw"@) == "arw"@,
        spec_lower("dng"@) == "dng"@,
        spec_lower("tif"@) == "tif"@,
        spec_lower("tiff"@) == "tiff"@,
        spec_lower("gif"@) == "gif"@,
        spec_lower("bmp"@) == "bmp"@,
        spec_lower("webp"@) == "webp"@,
{
    reveal_strlit("jpg");
    reveal_strlit("jpeg");
    reveal_strlit("png");
    reveal_strlit("heic");
    reveal_strlit("raw");
    reveal_strlit("cr2");
    reveal_strlit("nef");
    reveal_strlit("orf");
    reveal_strlit("arw");
    reveal_strlit("dng");
    reveal_strlit("tif");
    reveal_strlit("tiff");
    reveal_strlit("gif");
    reveal_strlit("bmp");
    reveal_strlit("webp");
    assert(spec_lower("jpg"@) =~= "jpg"@);
    assert(spec_lower("jpeg"@) =~= "jpeg"@);
    assert(spec_lower("png"@) =~= "png"@);
    assert(spec_lower("heic"@) =~= "heic"@);
    assert(spec_lower("raw"@) =~= "raw"@);
    assert(spec_lower("cr2"@) =~= "cr2"@);
    assert(spec_lower("nef"@) =~= "nef"@);
    assert(spec_lower("orf"@) =~= "orf"@);
    assert(spec_lower("arw"@) =~= "arw"@);
    assert(spec_lower("dng"@) =~= "dng"@);
    assert(spec_lower("tif"@) =~= "tif"@);
    assert(spec_lower("tiff"@) =~= "tiff"@);
    assert(spec_lower("gif"@) =~= "gif"@);
    assert(spec_lower("bmp"@) =~= "bmp"@);
    assert(spec_lower("webp"@) =~= "webp"@);
}

fn ext_of_path(p: &str) -> (r: Option<String>)
    ensures
        match r {
            Some(e) => spec_has_ext(spec_file_name(p@)) && e@ == spec_ext(spec_file_name(p@)),
            None => !spec_has_ext(spec_file_name(p@)),
        },
{
    let name = file_name_part(p);
    let (_, ext) = split_stem_ext(name.as_str());
    ext
}

/// Decides whether a path's extension is on the volume scanner's photo
/// allow-list (ASCII case-insensitive).
pub fn is_photo_file(path: &str) -> (r: bool)
    ensures
        r == spec_is_photo_path(path@),
{
    proof {
        lemma_lower_fixed();
    }
    match ext_of_path(path) {
        Some(e) => {
            let s = e.as_str();
            eq_ignore_ascii(s, "jpg") || eq_ignore_ascii(s, "jpeg") || eq_ignore_ascii(s, "png")
                || eq_ignore_ascii(s, "heic") || eq_ignore_ascii(s, "raw") || eq_ignore_ascii(
                s,
                "cr2",
            ) || eq_ignore_ascii(s, "nef") || eq_ignore_ascii(s, "orf") || eq_ignore_ascii(
                s,
                "arw",
            ) || eq_ignore_ascii(s, "dng") || eq_ignore_ascii(s, "tif") || eq_ignore_ascii(
                s,
                "tiff",
            ) || eq_ignore_ascii(s, "gif") || eq_ignore_ascii(s, "bmp") || eq_ignore_ascii(
                s,
                "webp",
            )
        },
        None => false,
    }
}

/// Decides whether a path's extension is on the catalog ingestion
/// allow-list (ASCII case-insensitive).
pub fn is_image_file(path: &str) -> (r: bool)
    ensures
        r == spec_is_image_path(path@),
{
    proof {
        lemma_lower_fixed();
    }
    match ext_of_path(path) {
        Some(e) => {
            let s = e.as_str();
            eq_ignore_ascii(s, "jpg") || eq_ignore_ascii(s, "jpeg") || eq_ignore_ascii(s, "png")
                || eq_ignore_ascii(s, "gif") || eq_ignore_ascii(s, "bmp") || eq_ignore_ascii(
                s,
                "webp",
            )
        },
        None => false,
    }
}

} // verus!
