use crate::paths::{
    file_name_of, file_stem_of, insert_in_order, inserted, is_sorted, joined,
    lemma_inserted_keeps_sorted, name_path, parent_of, path_extension_of, path_models,
    stripped_prefix, FilePath, PartModel,
};
use crate::text::{
    append_chars, chars_equal, chars_of, equal_ignoring_ascii_case, lower, lower_chars,
    same_ignoring_ascii_case, string_of, upper, upper_chars,
};
use vstd::prelude::*;

verus! {

/// The companion files of one lower-case stem, in one directory.
#[derive(Debug)]
pub struct StemBucket {
    pub stem_key: String,
    pub candidates: Vec<FilePath>,
}

/// The companion files of one directory, given relative to the companion root.
#[derive(Debug)]
pub struct DirBucket {
    pub rel_dir: FilePath,
    pub stems: Vec<StemBucket>,
}

/// The companion files of a batch, by relative directory and lower-case stem.
#[derive(Debug)]
pub struct RawMatchIndex {
    pub recursive: bool,
    pub jpg_root: FilePath,
    pub files_by_rel_dir: Vec<DirBucket>,
}

/// An extension of a companion file: `dng`, `raf` or `xmp`, whatever the case.
pub open spec fn is_companion_extension(ext: Seq<char>) -> bool {
    same_ignoring_ascii_case(ext, "dng"@) || same_ignoring_ascii_case(ext, "raf"@)
        || same_ignoring_ascii_case(ext, "xmp"@)
}

/// The file `p` is taken into the index: it has the extension of a companion file.
pub open spec fn is_indexed(p: Seq<PartModel>) -> bool {
    path_extension_of(p) is Some && is_companion_extension(path_extension_of(p)->0)
        && file_stem_of(p)->0.len() > 0
}

/// The directory under which the file `p` is indexed: its directory relative to the companion
/// root in recursive mode, where it lies below that root; the empty path in all other cases.
pub open spec fn indexed_dir(p: Seq<PartModel>, raw_root: Seq<PartModel>, recursive: bool) -> Seq<
    PartModel,
> {
    if recursive && parent_of(p) is Some && stripped_prefix(parent_of(p)->0, raw_root) is Some {
        stripped_prefix(parent_of(p)->0, raw_root)->0
    } else {
        Seq::empty()
    }
}

/// The stem of the file `p`, in lower case.
pub open spec fn stem_key_of(p: Seq<PartModel>) -> Seq<char> {
    lower(file_stem_of(p)->0)
}

/// The candidates that the first `n` of `files` give for the directory `dir` and the stem key
/// `key`, each put in its place as it comes.
pub open spec fn indexed_upto(
    files: Seq<FilePath>,
    raw_root: Seq<PartModel>,
    recursive: bool,
    n: int,
    dir: Seq<PartModel>,
    key: Seq<char>,
) -> Seq<Seq<PartModel>>
    decreases n,
{
    if n <= 0 {
        Seq::empty()
    } else {
        let before = indexed_upto(files, raw_root, recursive, n - 1, dir, key);
        let p = files[n - 1]@;
        if is_indexed(p) && indexed_dir(p, raw_root, recursive) == dir && stem_key_of(p) == key {
            inserted(before, p)
        } else {
            before
        }
    }
}

/// The candidates of a directory and a stem key stand in ascending order.
pub proof fn lemma_indexed_candidates_are_sorted(
    files: Seq<FilePath>,
    raw_root: Seq<PartModel>,
    recursive: bool,
    n: int,
    dir: Seq<PartModel>,
    key: Seq<char>,
)
    requires
        0 <= n <= files.len(),
    ensures
        is_sorted(indexed_upto(files, raw_root, recursive, n, dir, key)),
    decreases n,
{
    if n > 0 {
        lemma_indexed_candidates_are_sorted(files, raw_root, recursive, n - 1, dir, key);
        lemma_inserted_keeps_sorted(
            indexed_upto(files, raw_root, recursive, n - 1, dir, key),
            files[n - 1]@,
        );
    }
}

/// The position of the first bucket, at or after `i`, of the directory `dir`; the number of
/// buckets where there is none.
pub open spec fn dir_position(dirs: Seq<DirBucket>, dir: Seq<PartModel>, i: int) -> int
    decreases dirs.len() - i,
{
    if i < 0 || i >= dirs.len() || dirs[i].rel_dir@ == dir {
        i
    } else {
        dir_position(dirs, dir, i + 1)
    }
}

/// The position of the first bucket, at or after `i`, of the stem key `key`; the number of
/// buckets where there is none.
pub open spec fn stem_position(stems: Seq<StemBucket>, key: Seq<char>, i: int) -> int
    decreases stems.len() - i,
{
    if i < 0 || i >= stems.len() || stems[i].stem_key@ == key {
        i
    } else {
        stem_position(stems, key, i + 1)
    }
}

/// The candidates that the stem buckets of one directory hold for a stem key.
pub open spec fn stem_candidates(stems: Seq<StemBucket>, key: Seq<char>) -> Seq<Seq<PartModel>> {
    let s = stem_position(stems, key, 0);
    if 0 <= s < stems.len() {
        path_models(stems[s].candidates@)
    } else {
        Seq::empty()
    }
}

/// The candidates that the buckets hold for a directory and a stem key.
pub open spec fn bucket_of(dirs: Seq<DirBucket>, dir: Seq<PartModel>, key: Seq<char>) -> Seq<
    Seq<PartModel>,
> {
    let d = dir_position(dirs, dir, 0);
    if 0 <= d < dirs.len() {
        stem_candidates(dirs[d].stems@, key)
    } else {
        Seq::empty()
    }
}

proof fn lemma_dir_position_bounds(dirs: Seq<DirBucket>, dir: Seq<PartModel>, i: int)
    requires
        0 <= i <= dirs.len(),
    ensures
        i <= dir_position(dirs, dir, i) <= dirs.len(),
        dir_position(dirs, dir, i) < dirs.len() ==> dirs[dir_position(dirs, dir, i)].rel_dir@
            == dir,
        forall|j: int| i <= j < dir_position(dirs, dir, i) ==> (#[trigger] dirs[j]).rel_dir@ != dir,
    decreases dirs.len() - i,
{
    if i < dirs.len() && dirs[i].rel_dir@ != dir {
        lemma_dir_position_bounds(dirs, dir, i + 1);
    }
}

proof fn lemma_stem_position_bounds(stems: Seq<StemBucket>, key: Seq<char>, i: int)
    requires
        0 <= i <= stems.len(),
    ensures
        i <= stem_position(stems, key, i) <= stems.len(),
        stem_position(stems, key, i) < stems.len() ==> stems[stem_position(
            stems,
            key,
            i,
        )].stem_key@ == key,
        forall|j: int|
            i <= j < stem_position(stems, key, i) ==> (#[trigger] stems[j]).stem_key@ != key,
    decreases stems.len() - i,
{
    if i < stems.len() && stems[i].stem_key@ != key {
        lemma_stem_position_bounds(stems, key, i + 1);
    }
}

proof fn lemma_dir_position_unique(dirs: Seq<DirBucket>, dir: Seq<PartModel>, i: int, d: int)
    requires
        0 <= i <= d <= dirs.len(),
        d < dirs.len() ==> dirs[d].rel_dir@ == dir,
        forall|j: int| i <= j < d ==> (#[trigger] dirs[j]).rel_dir@ != dir,
    ensures
        dir_position(dirs, dir, i) == d,
    decreases d - i,
{
    if i < d {
        lemma_dir_position_unique(dirs, dir, i + 1, d);
    }
}

proof fn lemma_stem_position_unique(stems: Seq<StemBucket>, key: Seq<char>, i: int, s: int)
    requires
        0 <= i <= s <= stems.len(),
        s < stems.len() ==> stems[s].stem_key@ == key,
        forall|j: int| i <= j < s ==> (#[trigger] stems[j]).stem_key@ != key,
    ensures
        stem_position(stems, key, i) == s,
    decreases s - i,
{
    if i < s {
        lemma_stem_position_unique(stems, key, i + 1, s);
    }
}

/// Whether `ext` is the extension of a companion file.
pub fn is_index_target_extension(ext: &str) -> (r: bool)
    ensures
        r == is_companion_extension(ext@),
{
    let e = chars_of(ext);
    equal_ignoring_ascii_case(&e, &chars_of("dng")) || equal_ignoring_ascii_case(
        &e,
        &chars_of("raf"),
    ) || equal_ignoring_ascii_case(&e, &chars_of("xmp"))
}

fn find_dir(dirs: &Vec<DirBucket>, dir: &FilePath) -> (d: usize)
    ensures
        d == dir_position(dirs@, dir@, 0),
        d <= dirs.len(),
{
    let mut d: usize = 0;
    while d < dirs.len() && !dirs[d].rel_dir.same_as(dir)
        invariant
            d <= dirs.len(),
            dir_position(dirs@, dir@, 0) == dir_position(dirs@, dir@, d as int),
        decreases dirs.len() - d,
    {
        d += 1;
    }
    d
}

fn find_stem(stems: &Vec<StemBucket>, key: &Vec<char>) -> (s: usize)
    ensures
        s == stem_position(stems@, key@, 0),
        s <= stems.len(),
{
    let mut s: usize = 0;
    while s < stems.len() && !chars_equal(&chars_of(stems[s].stem_key.as_str()), key)
        invariant
            s <= stems.len(),
            stem_position(stems@, key@, 0) == stem_position(stems@, key@, s as int),
        decreases stems.len() - s,
    {
        s += 1;
    }
    s
}

/// What the buckets hold after the file `p` was offered to them: `p` in its place among the
/// candidates of its directory and stem key where it is a companion file, and all else as
/// before.
pub open spec fn offered(
    before: Seq<DirBucket>,
    after: Seq<DirBucket>,
    p: Seq<PartModel>,
    raw_root: Seq<PartModel>,
    recursive: bool,
) -> bool {
    forall|dir: Seq<PartModel>, key: Seq<char>| #[trigger]
        bucket_of(after, dir, key) == if is_indexed(p) && indexed_dir(p, raw_root, recursive)
            == dir && stem_key_of(p) == key {
            inserted(bucket_of(before, dir, key), p)
        } else {
            bucket_of(before, dir, key)
        }
}

fn single_candidate(path: &FilePath) -> (out: Vec<FilePath>)
    ensures
        path_models(out@) == inserted(Seq::empty(), path@),
{
    let mut out: Vec<FilePath> = Vec::new();
    out.push(path.duplicate());
    assert(path_models(out@) =~= Seq::<Seq<PartModel>>::empty().insert(0, path@));
    out
}

fn put_in_stems(stems: &mut Vec<StemBucket>, key: &Vec<char>, path: &FilePath)
    ensures
        forall|k: Seq<char>| #[trigger]
            stem_candidates(final(stems)@, k) == if k == key@ {
                inserted(stem_candidates(old(stems)@, k), path@)
            } else {
                stem_candidates(old(stems)@, k)
            },
{
    let s = find_stem(stems, key);
    proof {
        lemma_stem_position_bounds(stems@, key@, 0);
    }
    if s == stems.len() {
        stems.push(StemBucket { stem_key: string_of(key), candidates: single_candidate(path) });
        assert forall|k: Seq<char>| #[trigger]
            stem_candidates(stems@, k) == if k == key@ {
                inserted(stem_candidates(old(stems)@, k), path@)
            } else {
                stem_candidates(old(stems)@, k)
            } by {
            lemma_stem_position_bounds(old(stems)@, k, 0);
            let s0 = stem_position(old(stems)@, k, 0);
            if s0 < old(stems)@.len() {
                lemma_stem_position_unique(stems@, k, 0, s0);
            } else if k == key@ {
                lemma_stem_position_unique(stems@, k, 0, s0);
            } else {
                lemma_stem_position_unique(stems@, k, 0, s0 + 1);
            }
        }
    } else {
        let mut bucket = stems.remove(s);
        insert_in_order(&mut bucket.candidates, path.duplicate());
        stems.insert(s, bucket);
        assert(stems@.len() == old(stems)@.len());
        assert forall|k: Seq<char>| #[trigger]
            stem_candidates(stems@, k) == if k == key@ {
                inserted(stem_candidates(old(stems)@, k), path@)
            } else {
                stem_candidates(old(stems)@, k)
            } by {
            lemma_stem_position_bounds(old(stems)@, k, 0);
            let s0 = stem_position(old(stems)@, k, 0);
            assert(forall|j: int|
                0 <= j < stems@.len() ==> (#[trigger] stems@[j]).stem_key@ == old(
                    stems,
                )@[j].stem_key@);
            lemma_stem_position_unique(stems@, k, 0, s0);
            if s0 < stems@.len() && s0 != s {
                assert(stems@[s0] == old(stems)@[s0]);
            }
        }
    }
}

/// Offers one file to the buckets of an index.
pub fn insert_index_path(
    files_by_rel_dir: &mut Vec<DirBucket>,
    raw_root: &FilePath,
    path: &FilePath,
    recursive: bool,
)
    ensures
        offered(old(files_by_rel_dir)@, final(files_by_rel_dir)@, path@, raw_root@, recursive),
{
    let ext = match path.extension() {
        Some(e) => e,
        None => { return ; },
    };
    if !is_index_target_extension(ext.as_str()) {
        return ;
    }
    let stem = match path.file_stem() {
        Some(s) => s,
        None => { return ; },
    };
    let stem_chars = chars_of(stem.as_str());
    if stem_chars.len() == 0 {
        return ;
    }
    let mut rel_dir = FilePath::new();
    if recursive {
        match path.parent() {
            Some(parent) => {
                match parent.strip_prefix(raw_root) {
                    Some(rest) => {
                        rel_dir = rest;
                    },
                    None => {},
                }
            },
            None => {},
        }
    }
    assert(rel_dir@ == indexed_dir(path@, raw_root@, recursive));
    let key = lower_chars(&stem_chars);
    let d = find_dir(files_by_rel_dir, &rel_dir);
    proof {
        lemma_dir_position_bounds(files_by_rel_dir@, rel_dir@, 0);
    }
    if d == files_by_rel_dir.len() {
        let mut stems: Vec<StemBucket> = Vec::new();
        stems.push(StemBucket { stem_key: string_of(&key), candidates: single_candidate(path) });
        let ghost fresh = stems@;
        files_by_rel_dir.push(DirBucket { rel_dir, stems });
        assert forall|dir: Seq<PartModel>, k: Seq<char>| #[trigger]
            bucket_of(files_by_rel_dir@, dir, k) == if is_indexed(path@) && indexed_dir(
                path@,
                raw_root@,
                recursive,
            ) == dir && stem_key_of(path@) == k {
                inserted(bucket_of(old(files_by_rel_dir)@, dir, k), path@)
            } else {
                bucket_of(old(files_by_rel_dir)@, dir, k)
            } by {
            lemma_dir_position_bounds(old(files_by_rel_dir)@, dir, 0);
            let d0 = dir_position(old(files_by_rel_dir)@, dir, 0);
            if d0 < old(files_by_rel_dir)@.len() {
                lemma_dir_position_unique(files_by_rel_dir@, dir, 0, d0);
            } else if dir == rel_dir@ {
                lemma_dir_position_unique(files_by_rel_dir@, dir, 0, d0);
                lemma_stem_position_bounds(fresh, k, 0);
            } else {
                lemma_dir_position_unique(files_by_rel_dir@, dir, 0, d0 + 1);
            }
        }
    } else {
        let mut bucket = files_by_rel_dir.remove(d);
        let ghost stems_before = bucket.stems@;
        put_in_stems(&mut bucket.stems, &key, path);
        let ghost stems_after = bucket.stems@;
        files_by_rel_dir.insert(d, bucket);
        assert(files_by_rel_dir@.len() == old(files_by_rel_dir)@.len());
        assert forall|dir: Seq<PartModel>, k: Seq<char>| #[trigger]
            bucket_of(files_by_rel_dir@, dir, k) == if is_indexed(path@) && indexed_dir(
                path@,
                raw_root@,
                recursive,
            ) == dir && stem_key_of(path@) == k {
                inserted(bucket_of(old(files_by_rel_dir)@, dir, k), path@)
            } else {
                bucket_of(old(files_by_rel_dir)@, dir, k)
            } by {
            lemma_dir_position_bounds(old(files_by_rel_dir)@, dir, 0);
            let d0 = dir_position(old(files_by_rel_dir)@, dir, 0);
            assert(forall|j: int|
                0 <= j < files_by_rel_dir@.len() ==> (#[trigger] files_by_rel_dir@[j]).rel_dir@
                    == old(files_by_rel_dir)@[j].rel_dir@);
            lemma_dir_position_unique(files_by_rel_dir@, dir, 0, d0);
            if d0 == d {
                assert(stem_candidates(stems_after, k) == if k == key@ {
                    inserted(stem_candidates(stems_before, k), path@)
                } else {
                    stem_candidates(stems_before, k)
                });
            } else if d0 < files_by_rel_dir@.len() {
                assert(files_by_rel_dir@[d0] == old(files_by_rel_dir)@[d0]);
            }
        }
    }
}

impl RawMatchIndex {
    /// The candidates that the index holds for a directory and a stem key, in their order.
    pub open spec fn lookup(self, dir: Seq<PartModel>, key: Seq<char>) -> Seq<Seq<PartModel>> {
        bucket_of(self.files_by_rel_dir@, dir, key)
    }
}

/// Builds the index of the companion files among `files`, the files found under the companion
/// root (in recursive mode in all its directories, else in the root itself). For each directory
/// and stem key the index holds the companion files among `files` that belong there.
pub fn build_raw_match_index(
    jpg_root: &FilePath,
    raw_root: &FilePath,
    files: &Vec<FilePath>,
    recursive: bool,
) -> (index: RawMatchIndex)
    ensures
        index.recursive == recursive,
        index.jpg_root@ == jpg_root@,
        forall|dir: Seq<PartModel>, key: Seq<char>| #[trigger]
            index.lookup(dir, key) == indexed_upto(
                files@,
                raw_root@,
                recursive,
                files@.len() as int,
                dir,
                key,
            ),
{
    let mut dirs: Vec<DirBucket> = Vec::new();
    let mut i: usize = 0;
    assert forall|dir: Seq<PartModel>, key: Seq<char>| #[trigger]
        bucket_of(dirs@, dir, key) == indexed_upto(files@, raw_root@, recursive, 0, dir, key) by {}
    while i < files.len()
        invariant
            i <= files.len(),
            forall|dir: Seq<PartModel>, key: Seq<char>| #[trigger]
                bucket_of(dirs@, dir, key) == indexed_upto(
                    files@,
                    raw_root@,
                    recursive,
                    i as int,
                    dir,
                    key,
                ),
        decreases files.len() - i,
    {
        let ghost before = dirs@;
        insert_index_path(&mut dirs, raw_root, &files[i], recursive);
        assert forall|dir: Seq<PartModel>, key: Seq<char>| #[trigger]
            bucket_of(dirs@, dir, key) == indexed_upto(
                files@,
                raw_root@,
                recursive,
                i + 1,
                dir,
                key,
            ) by {
            assert(bucket_of(before, dir, key) == indexed_upto(
                files@,
                raw_root@,
                recursive,
                i as int,
                dir,
                key,
            ));
        }
        i += 1;
    }
    RawMatchIndex { recursive, jpg_root: jpg_root.duplicate(), files_by_rel_dir: dirs }
}

/// How a candidate is matched against a text.
#[derive(Clone, Copy, Debug)]
pub enum MatchKind {
    /// Its file name is the text.
    Name,
    /// Its file name, in lower case, is the text.
    LowerName,
    /// Its extension is the text, whatever the case.
    Extension,
}

/// The candidate `p` matches `text` in the way that `kind` names.
pub open spec fn fits(p: Seq<PartModel>, kind: MatchKind, text: Seq<char>) -> bool {
    match kind {
        MatchKind::Name => file_name_of(p) == Some(text),
        MatchKind::LowerName => file_name_of(p) is Some && lower(file_name_of(p)->0) == text,
        MatchKind::Extension => path_extension_of(p) is Some && same_ignoring_ascii_case(
            path_extension_of(p)->0,
            text,
        ),
    }
}

/// The first candidate, from position `i` on, that matches.
pub open spec fn first_fitting(
    candidates: Seq<Seq<PartModel>>,
    kind: MatchKind,
    text: Seq<char>,
    i: int,
) -> Option<Seq<PartModel>>
    decreases candidates.len() - i,
{
    if i < 0 || i >= candidates.len() {
        None
    } else if fits(candidates[i], kind, text) {
        Some(candidates[i])
    } else {
        first_fitting(candidates, kind, text, i + 1)
    }
}

/// The name of the companion file of a stem: the stem, a dot, the extension.
pub open spec fn companion_name(stem: Seq<char>, ext: Seq<char>) -> Seq<char> {
    stem + seq!['.'] + ext
}

/// The candidate that is picked for a stem and an extension: the first one named exactly so,
/// else the first one named so with the extension in upper case, else the first one named so
/// whatever the case, else the first one with that extension.
pub open spec fn picked_candidate(
    candidates: Seq<Seq<PartModel>>,
    stem: Seq<char>,
    ext: Seq<char>,
) -> Option<Seq<PartModel>> {
    let exact = first_fitting(candidates, MatchKind::Name, companion_name(stem, ext), 0);
    let shouted = first_fitting(candidates, MatchKind::Name, companion_name(stem, upper(ext)), 0);
    let any_case = first_fitting(
        candidates,
        MatchKind::LowerName,
        lower(companion_name(stem, ext)),
        0,
    );
    if exact is Some {
        exact
    } else if shouted is Some {
        shouted
    } else if any_case is Some {
        any_case
    } else {
        first_fitting(candidates, MatchKind::Extension, ext, 0)
    }
}

/// The candidate picked for the first of `exts`, from position `k` on, that has one.
pub open spec fn picked_by_priority(
    candidates: Seq<Seq<PartModel>>,
    stem: Seq<char>,
    exts: Seq<&str>,
    k: int,
) -> Option<Seq<PartModel>>
    decreases exts.len() - k,
{
    if k < 0 || k >= exts.len() {
        None
    } else if picked_candidate(candidates, stem, exts[k]@) is Some {
        picked_candidate(candidates, stem, exts[k]@)
    } else {
        picked_by_priority(candidates, stem, exts, k + 1)
    }
}

/// The directory, relative to the companion root, in which the companions of a photo are looked
/// for: the photo's directory relative to the photo root in recursive mode, where it lies below
/// that root; the empty path in all other cases.
pub open spec fn search_rel_dir(
    recursive: bool,
    jpg_root: Seq<PartModel>,
    jpg_path: Seq<PartModel>,
) -> Seq<PartModel> {
    if recursive && stripped_prefix(jpg_path, jpg_root) is Some && parent_of(
        stripped_prefix(jpg_path, jpg_root)->0,
    ) is Some {
        parent_of(stripped_prefix(jpg_path, jpg_root)->0)->0
    } else {
        Seq::empty()
    }
}

/// The extensions of RAW companions, in their order of priority.
pub open spec fn raw_extensions() -> Seq<&'static str> {
    seq!["dng", "raf"]
}

/// The extension of sidecars.
pub open spec fn xmp_extensions() -> Seq<&'static str> {
    seq!["xmp"]
}

/// The path of an optional path.
pub open spec fn path_model(p: Option<FilePath>) -> Option<Seq<PartModel>> {
    match p {
        Some(path) => Some(path@),
        None => None,
    }
}

impl RawMatchIndex {
    /// The companion that the index gives for a photo and a list of extensions.
    pub open spec fn matching(self, jpg_path: Seq<PartModel>, exts: Seq<&str>) -> Option<
        Seq<PartModel>,
    > {
        match file_stem_of(jpg_path) {
            Some(stem) => picked_by_priority(
                self.lookup(search_rel_dir(self.recursive, self.jpg_root@, jpg_path), lower(stem)),
                stem,
                exts,
                0,
            ),
            None => None,
        }
    }

    /// The RAW companion of a photo: a DNG file before a RAF file.
    pub fn find_raw(&self, jpg_path: &FilePath) -> (out: Option<FilePath>)
        ensures
            path_model(out) == self.matching(jpg_path@, raw_extensions()),
    {
        let exts = vec!["dng", "raf"];
        assert(exts@ =~= raw_extensions());
        self.find_matching_by_priority(jpg_path, &exts)
    }

    /// The sidecar of a photo.
    pub fn find_xmp(&self, jpg_path: &FilePath) -> (out: Option<FilePath>)
        ensures
            path_model(out) == self.matching(jpg_path@, xmp_extensions()),
    {
        let exts = vec!["xmp"];
        assert(exts@ =~= xmp_extensions());
        self.find_matching_by_priority(jpg_path, &exts)
    }

    /// The companion of a photo with the first of `extensions` that has one.
    pub fn find_matching_by_priority(&self, jpg_path: &FilePath, extensions: &Vec<&str>) -> (out:
        Option<FilePath>)
        ensures
            path_model(out) == self.matching(jpg_path@, extensions@),
    {
        let rel_dir = self.resolve_search_rel_dir(jpg_path);
        let stem_original = match jpg_path.file_stem() {
            Some(s) => chars_of(s.as_str()),
            None => { return None; },
        };
        let stem_key = lower_chars(&stem_original);
        let d = find_dir(&self.files_by_rel_dir, &rel_dir);
        proof {
            lemma_nothing_picked_from_nothing(stem_original@, extensions@, 0);
        }
        if d >= self.files_by_rel_dir.len() {
            return None;
        }
        let stems = &self.files_by_rel_dir[d].stems;
        let s = find_stem(stems, &stem_key);
        if s >= stems.len() {
            return None;
        }
        pick_by_priority(&stems[s].candidates, &stem_original, extensions)
    }

    /// The directory, relative to the companion root, in which the companions of a photo are looked
    /// for.
    pub fn resolve_search_rel_dir(&self, jpg_path: &FilePath) -> (out: FilePath)
        ensures
            out@ == search_rel_dir(self.recursive, self.jpg_root@, jpg_path@),
    {
        if !self.recursive {
            return FilePath::new();
        }
        match jpg_path.strip_prefix(&self.jpg_root) {
            Some(rel) => match rel.parent() {
                Some(dir) => dir,
                None => FilePath::new(),
            },
            None => FilePath::new(),
        }
    }
}

proof fn lemma_nothing_picked_from_nothing(stem: Seq<char>, exts: Seq<&str>, k: int)
    requires
        0 <= k,
    ensures
        picked_by_priority(Seq::empty(), stem, exts, k) is None,
    decreases exts.len() - k,
{
    if k < exts.len() {
        lemma_nothing_picked_from_nothing(stem, exts, k + 1);
    }
}

fn pick_by_priority(candidates: &Vec<FilePath>, stem: &Vec<char>, extensions: &Vec<&str>) -> (out:
    Option<FilePath>)
    ensures
        path_model(out) == picked_by_priority(path_models(candidates@), stem@, extensions@, 0),
{
    let mut k: usize = 0;
    while k < extensions.len()
        invariant
            k <= extensions.len(),
            picked_by_priority(path_models(candidates@), stem@, extensions@, 0)
                == picked_by_priority(path_models(candidates@), stem@, extensions@, k as int),
        decreases extensions.len() - k,
    {
        let found = pick_candidate_with_case_variants(candidates, stem, extensions[k]);
        if found.is_some() {
            return found;
        }
        k += 1;
    }
    None
}

fn candidate_fits(candidate: &FilePath, kind: MatchKind, text: &Vec<char>) -> (r: bool)
    ensures
        r == fits(candidate@, kind, text@),
{
    match kind {
        MatchKind::Name => file_name_equals(candidate, text),
        MatchKind::LowerName => match candidate.file_name() {
            Some(name) => chars_equal(&lower_chars(&chars_of(name.as_str())), text),
            None => false,
        },
        MatchKind::Extension => match candidate.extension() {
            Some(ext) => equal_ignoring_ascii_case(&chars_of(ext.as_str()), text),
            None => false,
        },
    }
}

fn first_candidate(candidates: &Vec<FilePath>, kind: MatchKind, text: &Vec<char>) -> (out: Option<
    FilePath,
>)
    ensures
        path_model(out) == first_fitting(path_models(candidates@), kind, text@, 0),
{
    let mut i: usize = 0;
    while i < candidates.len()
        invariant
            i <= candidates.len(),
            first_fitting(path_models(candidates@), kind, text@, 0) == first_fitting(
                path_models(candidates@),
                kind,
                text@,
                i as int,
            ),
        decreases candidates.len() - i,
    {
        if candidate_fits(&candidates[i], kind, text) {
            return Some(candidates[i].duplicate());
        }
        i += 1;
    }
    None
}

fn name_of(stem: &Vec<char>, ext: &Vec<char>) -> (out: Vec<char>)
    ensures
        out@ == companion_name(stem@, ext@),
{
    let mut out = copy_chars(stem);
    out.push('.');
    append_chars(&mut out, ext);
    assert(stem@.push('.') == stem@ + seq!['.']);
    out
}

fn copy_chars(v: &Vec<char>) -> (out: Vec<char>)
    ensures
        out@ == v@,
{
    let out = crate::text::copy_range(v, 0, v.len());
    assert(v@.subrange(0, v.len() as int) == v@);
    out
}

/// The candidate that is picked for a stem and an extension.
pub fn pick_candidate_with_case_variants(
    candidates: &Vec<FilePath>,
    stem_original: &Vec<char>,
    ext: &str,
) -> (out: Option<FilePath>)
    ensures
        path_model(out) == picked_candidate(path_models(candidates@), stem_original@, ext@),
{
    let ext_chars = chars_of(ext);
    let exact_lower = name_of(stem_original, &ext_chars);
    let exact = first_candidate(candidates, MatchKind::Name, &exact_lower);
    if exact.is_some() {
        return exact;
    }
    let exact_upper = name_of(stem_original, &upper_chars(&ext_chars));
    let shouted = first_candidate(candidates, MatchKind::Name, &exact_upper);
    if shouted.is_some() {
        return shouted;
    }
    let expected = lower_chars(&exact_lower);
    let any_case = first_candidate(candidates, MatchKind::LowerName, &expected);
    if any_case.is_some() {
        return any_case;
    }
    first_candidate(candidates, MatchKind::Extension, &ext_chars)
}

/// Whether the file name of `path` is `expected`.
pub fn file_name_equals(path: &FilePath, expected: &Vec<char>) -> (r: bool)
    ensures
        r == (file_name_of(path@) == Some(expected@)),
{
    match path.file_name() {
        Some(name) => chars_equal(&chars_of(name.as_str()), expected),
        None => false,
    }
}

/// An entry of a directory: its name, and whether it is a plain file.
#[derive(Debug, Clone)]
pub struct DirItem {
    pub name: String,
    pub is_file: bool,
}

/// The directory in which the companions of a photo are looked for: the photo's directory
/// relative to the photo root, taken from the companion root; the companion root itself where
/// the mode is not recursive or the photo does not lie below its root.
pub open spec fn search_dir(
    jpg_root: Seq<PartModel>,
    raw_root: Seq<PartModel>,
    jpg_path: Seq<PartModel>,
    recursive: bool,
) -> Seq<PartModel> {
    if recursive && stripped_prefix(jpg_path, jpg_root) is Some && parent_of(
        stripped_prefix(jpg_path, jpg_root)->0,
    ) is Some {
        joined(raw_root, parent_of(stripped_prefix(jpg_path, jpg_root)->0)->0)
    } else {
        raw_root
    }
}

/// The directory in which the companions of a photo are looked for.
pub fn resolve_search_dir(
    jpg_root: &FilePath,
    raw_root: &FilePath,
    jpg_path: &FilePath,
    recursive: bool,
) -> (out: FilePath)
    ensures
        out@ == search_dir(jpg_root@, raw_root@, jpg_path@, recursive),
{
    if !recursive {
        return raw_root.duplicate();
    }
    match jpg_path.strip_prefix(jpg_root) {
        Some(rel) => match rel.parent() {
            Some(dir) => raw_root.join(&dir),
            None => raw_root.duplicate(),
        },
        None => raw_root.duplicate(),
    }
}

/// An entry named `name` is among `entries`, from position `i` on.
pub open spec fn is_listed(entries: Seq<DirItem>, name: Seq<char>, i: int) -> bool
    decreases entries.len() - i,
{
    if i < 0 || i >= entries.len() {
        false
    } else if entries[i].name@ == name {
        true
    } else {
        is_listed(entries, name, i + 1)
    }
}

/// The name of the first plain file among `entries`, from position `i` on, that is named
/// `name` whatever the case.
pub open spec fn listed_file(entries: Seq<DirItem>, name: Seq<char>, i: int) -> Option<Seq<char>>
    decreases entries.len() - i,
{
    if i < 0 || i >= entries.len() {
        None
    } else if entries[i].is_file && same_ignoring_ascii_case(entries[i].name@, name) {
        Some(entries[i].name@)
    } else {
        listed_file(entries, name, i + 1)
    }
}

/// The companion of a stem and an extension in the directory `dir` with the entries `entries`:
/// the entry named exactly so, else the one named so with the extension in upper case, else the
/// first plain file named so whatever the case.
pub open spec fn found_candidate(
    dir: Seq<PartModel>,
    entries: Seq<DirItem>,
    stem: Seq<char>,
    ext: Seq<char>,
) -> Option<Seq<PartModel>> {
    if is_listed(entries, companion_name(stem, ext), 0) {
        Some(joined(dir, name_path(companion_name(stem, ext))))
    } else if is_listed(entries, companion_name(stem, upper(ext)), 0) {
        Some(joined(dir, name_path(companion_name(stem, upper(ext)))))
    } else {
        match listed_file(entries, companion_name(stem, ext), 0) {
            Some(name) => Some(joined(dir, name_path(name))),
            None => None,
        }
    }
}

/// The companion found for the first of `exts`, from position `k` on, that has one.
pub open spec fn found_by_priority(
    dir: Seq<PartModel>,
    entries: Seq<DirItem>,
    stem: Seq<char>,
    exts: Seq<&str>,
    k: int,
) -> Option<Seq<PartModel>>
    decreases exts.len() - k,
{
    if k < 0 || k >= exts.len() {
        None
    } else if found_candidate(dir, entries, stem, exts[k]@) is Some {
        found_candidate(dir, entries, stem, exts[k]@)
    } else {
        found_by_priority(dir, entries, stem, exts, k + 1)
    }
}

/// The companion of a photo among the entries of its search directory.
pub open spec fn direct_match(
    jpg_root: Seq<PartModel>,
    raw_root: Seq<PartModel>,
    jpg_path: Seq<PartModel>,
    recursive: bool,
    entries: Seq<DirItem>,
    exts: Seq<&str>,
) -> Option<Seq<PartModel>> {
    match file_stem_of(jpg_path) {
        Some(stem) => found_by_priority(
            search_dir(jpg_root, raw_root, jpg_path, recursive),
            entries,
            stem,
            exts,
            0,
        ),
        None => None,
    }
}

fn has_entry(entries: &Vec<DirItem>, name: &Vec<char>) -> (r: bool)
    ensures
        r == is_listed(entries@, name@, 0),
{
    let mut i: usize = 0;
    while i < entries.len()
        invariant
            i <= entries.len(),
            is_listed(entries@, name@, 0) == is_listed(entries@, name@, i as int),
        decreases entries.len() - i,
    {
        if chars_equal(&chars_of(entries[i].name.as_str()), name) {
            return true;
        }
        i += 1;
    }
    false
}

/// The companion of a stem and an extension among the entries of a directory.
pub fn find_candidate_with_case_variants(
    search_dir: &FilePath,
    entries: &Vec<DirItem>,
    stem: &Vec<char>,
    ext: &str,
) -> (out: Option<FilePath>)
    ensures
        path_model(out) == found_candidate(search_dir@, entries@, stem@, ext@),
{
    let ext_chars = chars_of(ext);
    let lower_name = name_of(stem, &ext_chars);
    if has_entry(entries, &lower_name) {
        return Some(search_dir.join_name(string_of(&lower_name).as_str()));
    }
    let upper_name = name_of(stem, &upper_chars(&ext_chars));
    if has_entry(entries, &upper_name) {
        return Some(search_dir.join_name(string_of(&upper_name).as_str()));
    }
    let mut i: usize = 0;
    while i < entries.len()
        invariant
            i <= entries.len(),
            lower_name@ == companion_name(stem@, ext@),
            !is_listed(entries@, companion_name(stem@, ext@), 0),
            !is_listed(entries@, companion_name(stem@, upper(ext@)), 0),
            listed_file(entries@, lower_name@, 0) == listed_file(entries@, lower_name@, i as int),
        decreases entries.len() - i,
    {
        if entries[i].is_file && equal_ignoring_ascii_case(
            &chars_of(entries[i].name.as_str()),
            &lower_name,
        ) {
            return Some(search_dir.join_name(entries[i].name.as_str()));
        }
        i += 1;
    }
    None
}

/// The companion of a photo among `entries`, the entries of the directory that
/// `resolve_search_dir` gives for it.
pub fn find_matching_by_priority(
    jpg_root: &FilePath,
    raw_root: &FilePath,
    jpg_path: &FilePath,
    recursive: bool,
    entries: &Vec<DirItem>,
    extensions: &Vec<&str>,
) -> (out: Option<FilePath>)
    ensures
        path_model(out) == direct_match(
            jpg_root@,
            raw_root@,
            jpg_path@,
            recursive,
            entries@,
            extensions@,
        ),
{
    let dir = resolve_search_dir(jpg_root, raw_root, jpg_path, recursive);
    let stem = match jpg_path.file_stem() {
        Some(s) => chars_of(s.as_str()),
        None => { return None; },
    };
    let mut k: usize = 0;
    while k < extensions.len()
        invariant
            k <= extensions.len(),
            dir@ == search_dir(jpg_root@, raw_root@, jpg_path@, recursive),
            file_stem_of(jpg_path@) == Some(stem@),
            found_by_priority(dir@, entries@, stem@, extensions@, 0) == found_by_priority(
                dir@,
                entries@,
                stem@,
                extensions@,
                k as int,
            ),
        decreases extensions.len() - k,
    {
        let found = find_candidate_with_case_variants(&dir, entries, &stem, extensions[k]);
        if found.is_some() {
            return found;
        }
        k += 1;
    }
    None
}

/// The RAW companion of a photo among `entries`, the entries of the directory that
/// `resolve_search_dir` gives for it: a DNG file before a RAF file.
pub fn find_matching_raw(
    jpg_root: &FilePath,
    raw_root: &FilePath,
    jpg_path: &FilePath,
    recursive: bool,
    entries: &Vec<DirItem>,
) -> (out: Option<FilePath>)
    ensures
        path_model(out) == direct_match(
            jpg_root@,
            raw_root@,
            jpg_path@,
            recursive,
            entries@,
            raw_extensions(),
        ),
{
    let exts = vec!["dng", "raf"];
    assert(exts@ =~= raw_extensions());
    find_matching_by_priority(jpg_root, raw_root, jpg_path, recursive, entries, &exts)
}

/// The sidecar of a photo among `entries`, the entries of the directory that
/// `resolve_search_dir` gives for it.
pub fn find_matching_xmp(
    jpg_root: &FilePath,
    raw_root: &FilePath,
    jpg_path: &FilePath,
    recursive: bool,
    entries: &Vec<DirItem>,
) -> (out: Option<FilePath>)
    ensures
        path_model(out) == direct_match(
            jpg_root@,
            raw_root@,
            jpg_path@,
            recursive,
            entries@,
            xmp_extensions(),
        ),
{
    let exts = vec!["xmp"];
    assert(exts@ =~= xmp_extensions());
    find_matching_by_priority(jpg_root, raw_root, jpg_path, recursive, entries, &exts)
}

} // verus!
