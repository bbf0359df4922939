//! The collision resolver: given a desired destination, produce a path that
//! does not exist in the tree, by appending ` (n)` to the file stem for
//! n = start, start+1, … — the numbering never skips a candidate, so the
//! first free candidate is the one returned. The unbounded search of a
//! naive resolver is capped so that the operation always terminates; an
//! exhausted cap is reported as a failure.

use vstd::prelude::*;
use vstd::string::*;
use crate::fs_model::{FsTree, FsEntry, spec_has};
use crate::path_util::{spec_join, spec_stem, spec_ext, join_path, split_stem_ext};

verus! {

/// How many numbered candidates are tried before the resolver gives up.
pub const COLLISION_CAP: u32 = 1000000;

/// The decimal digit character for `d` (meaningful for 0 through 9).
pub open spec fn spec_digit(d: int) -> char {
    ((d + 48) as u8) as char
}

/// The decimal numeral of `n`, most significant digit first.
pub open spec fn spec_dec(n: nat) -> Seq<char>
    decreases n,
{
    if n < 10 {
        seq![spec_digit(n as int)]
    } else {
        spec_dec(n / 10) + seq![spec_digit((n % 10) as int)]
    }
}

/// The collision-suffixed variant of a file name: `stem (n)` with the
/// extension, if there is one, re-appended after a dot.
pub open spec fn spec_candidate(stem: Seq<char>, ext: Seq<char>, n: nat) -> Seq<char> {
    if ext.len() == 0 {
        stem + " ("@ + spec_dec(n) + ")"@
    } else {
        stem + " ("@ + spec_dec(n) + ")."@ + ext
    }
}

/// The full path of the `n`-th candidate in `dir`.
pub open spec fn spec_cand_path(dir: Seq<char>, stem: Seq<char>, ext: Seq<char>, n: nat) -> Seq<
    char,
> {
    spec_join(dir, spec_candidate(stem, ext, n))
}

/// The path the numbered search settles on: the first candidate, counting
/// up from `n`, that is free in `s`; `None` once `fuel` candidates are
/// exhausted.
pub open spec fn spec_resolve_numbered(
    s: Seq<FsEntry>,
    dir: Seq<char>,
    stem: Seq<char>,
    ext: Seq<char>,
    n: nat,
    fuel: nat,
) -> Option<Seq<char>>
    decreases fuel,
{
    if fuel == 0 {
        None
    } else if !spec_has(s, spec_cand_path(dir, stem, ext, n)) {
        Some(spec_cand_path(dir, stem, ext, n))
    } else {
        spec_resolve_numbered(s, dir, stem, ext, n + 1, (fuel - 1) as nat)
    }
}

/// The path the full resolver settles on: the plain name when it is free,
/// otherwise the first free numbered candidate from `start` on.
pub open spec fn spec_resolve_dest(
    s: Seq<FsEntry>,
    dir: Seq<char>,
    name: Seq<char>,
    stem: Seq<char>,
    ext: Seq<char>,
    start: nat,
) -> Option<Seq<char>> {
    if !spec_has(s, spec_join(dir, name)) {
        Some(spec_join(dir, name))
    } else {
        spec_resolve_numbered(s, dir, stem, ext, start, COLLISION_CAP as nat)
    }
}

/// The numbered search returns a free path, never skips a free candidate,
/// and fails only when every candidate within the fuel is taken.
pub proof fn lemma_resolve_no_skip(
    s: Seq<FsEntry>,
    dir: Seq<char>,
    stem: Seq<char>,
    ext: Seq<char>,
    n: nat,
    fuel: nat,
)
    ensures
        match spec_resolve_numbered(s, dir, stem, ext, n, fuel) {
            Some(p) => {
                &&& !spec_has(s, p)
                &&& exists|m: nat|
                    n <= m < n + fuel && p == spec_cand_path(dir, stem, ext, m) && (forall|k: nat|
                        n <= k < m ==> spec_has(s, #[trigger] spec_cand_path(dir, stem, ext, k)))
            },
            None => forall|m: nat|
                n <= m < n + fuel ==> spec_has(s, #[trigger] spec_cand_path(dir, stem, ext, m)),
        },
    decreases fuel,
{
    if fuel > 0 {
        if spec_has(s, spec_cand_path(dir, stem, ext, n)) {
            lemma_resolve_no_skip(s, dir, stem, ext, n + 1, (fuel - 1) as nat);
            match spec_resolve_numbered(s, dir, stem, ext, n, fuel) {
                Some(p) => {
                    let m0 = choose|m: nat|
                        n + 1 <= m < n + fuel && p == spec_cand_path(dir, stem, ext, m) && (forall|
                            k: nat,
                        |
                            n + 1 <= k < m ==> spec_has(
                                s,
                                #[trigger] spec_cand_path(dir, stem, ext, k),
                            ));
                    assert(forall|k: nat|
                        n <= k < m0 ==> spec_has(s, #[trigger] spec_cand_path(dir, stem, ext, k)));
                },
                None => {},
            }
        } else {
            let p = spec_cand_path(dir, stem, ext, n);
            assert(n <= n < n + fuel && p == spec_cand_path(dir, stem, ext, n));
        }
    }
}

/// Whatever the full resolver settles on is free in the tree.
pub proof fn lemma_resolve_dest_free(
    s: Seq<FsEntry>,
    dir: Seq<char>,
    name: Seq<char>,
    stem: Seq<char>,
    ext: Seq<char>,
    start: nat,
)
    ensures
        spec_resolve_dest(s, dir, name, stem, ext, start) matches Some(p) ==> !spec_has(s, p),
{
    if spec_has(s, spec_join(dir, name)) {
        lemma_resolve_no_skip(s, dir, stem, ext, start, COLLISION_CAP as nat);
    }
}

fn digit_str(d: u32) -> (r: &'static str)
    requires
        d < 10,
    ensures
        r@ == seq![spec_digit(d as int)],
{
    proof {
        reveal_strlit("0");
        reveal_strlit("1");
        reveal_strlit("2");
        reveal_strlit("3");
        reveal_strlit("4");
        reveal_strlit("5");
        reveal_strlit("6");
        reveal_strlit("7");
        reveal_strlit("8");
        reveal_strlit("9");
        assert("0"@ =~= seq![spec_digit(0)]);
        assert("1"@ =~= seq![spec_digit(1)]);
        assert("2"@ =~= seq![spec_digit(2)]);
        assert("3"@ =~= seq![spec_digit(3)]);
        assert("4"@ =~= seq![spec_digit(4)]);
        assert("5"@ =~= seq![spec_digit(5)]);
        assert("6"@ =~= seq![spec_digit(6)]);
        assert("7"@ =~= seq![spec_digit(7)]);
        assert("8"@ =~= seq![spec_digit(8)]);
        assert("9"@ =~= seq![spec_digit(9)]);
    }
    match d {
        0 => "0",
        1 => "1",
        2 => "2",
        3 => "3",
        4 => "4",
        5 => "5",
        6 => "6",
        7 => "7",
        8 => "8",
        _ => "9",
    }
}

/// The decimal numeral of an integer, with a leading minus when negative.
pub open spec fn spec_dec_i64(v: int) -> Seq<char> {
    if v >= 0 {
        spec_dec(v as nat)
    } else {
        "-"@ + spec_dec((-v) as nat)
    }
}

/// Formats `n` in decimal.
pub fn u64_to_dec(n: u64) -> (r: String)
    ensures
        r@ == spec_dec(n as nat),
    decreases n,
{
    if n < 10 {
        String::from_str(digit_str(n as u32))
    } else {
        let r = u64_to_dec(n / 10).concat(digit_str((n % 10) as u32));
        proof {
            assert(r@ =~= spec_dec(n as nat));
        }
        r
    }
}

/// Formats `v` in decimal, with a leading minus when negative.
pub fn i64_to_dec(v: i64) -> (r: String)
    ensures
        r@ == spec_dec_i64(v as int),
{
    if v >= 0 {
        u64_to_dec(v as u64)
    } else {
        let a = -(v + 1);
        let m = (a as u64) + 1;
        let r = String::from_str("-").concat(u64_to_dec(m).as_str());
        proof {
            assert(m as int == -(v as int));
        }
        r
    }
}

/// Builds the collision-suffixed file name `stem (n)` / `stem (n).ext`.
pub fn candidate_name(stem: &str, ext: &str, n: u32) -> (r: String)
    ensures
        r@ == spec_candidate(stem@, ext@, n as nat),
{
    let num = u64_to_dec(n as u64);
    let mut s = String::from_str(stem);
    s.append(" (");
    s.append(num.as_str());
    if ext.unicode_len() == 0 {
        s.append(")");
        proof {
            reveal_strlit(" (");
            reveal_strlit(")");
            assert(s@ =~= spec_candidate(stem@, ext@, n as nat));
        }
    } else {
        s.append(").");
        s.append(ext);
        proof {
            reveal_strlit(" (");
            reveal_strlit(").");
            assert(s@ =~= spec_candidate(stem@, ext@, n as nat));
        }
    }
    s
}

/// The numbered search, counting up from `start`: returns the first free
/// candidate path, or fails once the cap is exhausted.
pub fn resolve_numbered(fs: &FsTree, dir: &str, stem: &str, ext: &str, start: u32) -> (r: Result<
    String,
    (),
>)
    requires
        start <= u32::MAX - COLLISION_CAP,
    ensures
        match r {
            Ok(p) => spec_resolve_numbered(
                fs.entries@,
                dir@,
                stem@,
                ext@,
                start as nat,
                COLLISION_CAP as nat,
            ) == Some(p@),
            Err(_) => spec_resolve_numbered(
                fs.entries@,
                dir@,
                stem@,
                ext@,
                start as nat,
                COLLISION_CAP as nat,
            ) is None,
        },
{
    let mut n: u32 = start;
    while n < start + COLLISION_CAP
        invariant
            start <= u32::MAX - COLLISION_CAP,
            start <= n <= start + COLLISION_CAP,
            spec_resolve_numbered(
                fs.entries@,
                dir@,
                stem@,
                ext@,
                start as nat,
                COLLISION_CAP as nat,
            ) == spec_resolve_numbered(
                fs.entries@,
                dir@,
                stem@,
                ext@,
                n as nat,
                (COLLISION_CAP - (n - start)) as nat,
            ),
        decreases start + COLLISION_CAP - n,
    {
        let cand = join_path(dir, candidate_name(stem, ext, n).as_str());
        if !fs.has_path(cand.as_str()) {
            return Ok(cand);
        }
        n += 1;
    }
    Err(())
}

/// The full resolver for a file destination: `dir/name` itself when free,
/// otherwise the first free `dir/stem (n).ext` counting up from `start`.
pub fn resolve_file_dest(fs: &FsTree, dir: &str, name: &str, start: u32) -> (r: Result<String, ()>)
    requires
        start <= u32::MAX - COLLISION_CAP,
    ensures
        match r {
            Ok(p) => spec_resolve_dest(
                fs.entries@,
                dir@,
                name@,
                spec_stem(name@),
                spec_ext(name@),
                start as nat,
            ) == Some(p@),
            Err(_) => spec_resolve_dest(
                fs.entries@,
                dir@,
                name@,
                spec_stem(name@),
                spec_ext(name@),
                start as nat,
            ) is None,
        },
{
    let plain = join_path(dir, name);
    if !fs.has_path(plain.as_str()) {
        return Ok(plain);
    }
    let (stem, ext) = split_stem_ext(name);
    let e = match ext {
        Some(e) => e,
        None => String::new(),
    };
    resolve_numbered(fs, dir, stem.as_str(), e.as_str(), start)
}

/// The full resolver for a folder destination: `dir/name` itself when
/// free, otherwise the first free `dir/name (n)` counting up from `start`.
/// A folder name is numbered whole; no extension is split off.
pub fn resolve_dir_dest(fs: &FsTree, dir: &str, name: &str, start: u32) -> (r: Result<String, ()>)
    requires
        start <= u32::MAX - COLLISION_CAP,
    ensures
        match r {
            Ok(p) => spec_resolve_dest(
                fs.entries@,
                dir@,
                name@,
                name@,
                Seq::empty(),
                start as nat,
            ) == Some(p@),
            Err(_) => spec_resolve_dest(
                fs.entries@,
                dir@,
                name@,
                name@,
                Seq::empty(),
                start as nat,
            ) is None,
        },
{
    let plain = join_path(dir, name);
    if !fs.has_path(plain.as_str()) {
        return Ok(plain);
    }
    let r = resolve_numbered(fs, dir, name, "", start);
    proof {
        reveal_strlit("");
        assert(""@ =~= Seq::<char>::empty());
    }
    r
}

} // verus!
