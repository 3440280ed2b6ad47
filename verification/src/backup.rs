use crate::apply::{
    governing, pick_most_specific_root, resolved_original, ApplyError, ApplyErrorKind,
    CandidateFacts, RenameOperation,
};
use crate::matcher::path_model;
use crate::paths::{
    file_name_of, file_stem_of, joined, name_path, parent_of, path_extension_of, path_models,
    paths_contain, starts_with, stripped_prefix, FilePath, PartModel, PathPart,
};
use crate::text::{append_chars, chars_of, push_padded, string_of, zero_padded};
use vstd::prelude::*;

verus! {

/// One copy to make: from an original to its place in the backup tree.
#[derive(Debug, Clone)]
pub struct BackupJob {
    pub original_path: FilePath,
    pub backup_path: FilePath,
}

/// The backup paths of jobs.
pub open spec fn backup_paths_of(jobs: Seq<BackupJob>) -> Seq<Seq<PartModel>> {
    jobs.map_values(|j: BackupJob| j.backup_path@)
}

/// The `n`-th name tried for a backup: the stem, an underscore, the number with at least three
/// digits, and the extension where there is one.
pub open spec fn backup_name(stem: Seq<char>, ext: Seq<char>, n: nat) -> Seq<char> {
    let numbered = stem + seq!['_'] + zero_padded(n, 3);
    if ext.len() > 0 {
        numbered + seq!['.'] + ext
    } else {
        numbered
    }
}

/// The `n`-th path tried for a backup at `candidate`: the candidate itself for 0, else the
/// numbered name beside it.
pub open spec fn numbered_backup(candidate: Seq<PartModel>, n: nat) -> Seq<PartModel> {
    if n == 0 {
        candidate
    } else {
        let parent = match parent_of(candidate) {
            Some(p) => p,
            None => seq![(2int, Seq::<char>::empty())],
        };
        let stem = match file_stem_of(candidate) {
            Some(s) => s,
            None => "file"@,
        };
        let ext = match path_extension_of(candidate) {
            Some(e) => e,
            None => Seq::empty(),
        };
        joined(parent, name_path(backup_name(stem, ext, n)))
    }
}

/// Nothing exists at `p`, and no backup of this run is to go there.
pub open spec fn is_vacant(
    p: Seq<PartModel>,
    reserved: Seq<Seq<PartModel>>,
    existing: Seq<Seq<PartModel>>,
) -> bool {
    !existing.contains(p) && !reserved.contains(p)
}

/// `n` is the first number whose backup path is vacant.
pub open spec fn is_first_vacant(
    candidate: Seq<PartModel>,
    reserved: Seq<Seq<PartModel>>,
    existing: Seq<Seq<PartModel>>,
    n: nat,
) -> bool {
    &&& n < usize::MAX
    &&& is_vacant(numbered_backup(candidate, n), reserved, existing)
    &&& forall|m: nat| m < n ==> !is_vacant(#[trigger] numbered_backup(candidate, m), reserved, existing)
}

/// The path that a backup at `candidate` gets: the first vacant one among its numbered paths;
/// none where no number below the largest gives a vacant path.
pub open spec fn backup_target(
    candidate: Seq<PartModel>,
    reserved: Seq<Seq<PartModel>>,
    existing: Seq<Seq<PartModel>>,
) -> Option<Seq<PartModel>> {
    if exists|n: nat| is_first_vacant(candidate, reserved, existing, n) {
        Some(
            numbered_backup(
                candidate,
                choose|n: nat| is_first_vacant(candidate, reserved, existing, n),
            ),
        )
    } else {
        None
    }
}

proof fn lemma_first_vacant_is_target(
    candidate: Seq<PartModel>,
    reserved: Seq<Seq<PartModel>>,
    existing: Seq<Seq<PartModel>>,
    n: nat,
)
    requires
        is_first_vacant(candidate, reserved, existing, n),
    ensures
        backup_target(candidate, reserved, existing) == Some(numbered_backup(candidate, n)),
{
    let chosen = choose|k: nat| is_first_vacant(candidate, reserved, existing, k);
    if chosen < n {
        assert(!is_vacant(numbered_backup(candidate, chosen), reserved, existing));
    } else if n < chosen {
        assert(!is_vacant(numbered_backup(candidate, n), reserved, existing));
    }
}

proof fn lemma_nothing_vacant(
    candidate: Seq<PartModel>,
    reserved: Seq<Seq<PartModel>>,
    existing: Seq<Seq<PartModel>>,
)
    requires
        forall|m: nat|
            m < usize::MAX ==> !is_vacant(#[trigger] numbered_backup(candidate, m), reserved, existing),
    ensures
        backup_target(candidate, reserved, existing) is None,
{
    assert forall|k: nat| !is_first_vacant(candidate, reserved, existing, k) by {
        if k < usize::MAX {
            assert(!is_vacant(numbered_backup(candidate, k), reserved, existing));
        }
    }
}

fn numbered_backup_path(candidate: &FilePath, n: usize) -> (out: FilePath)
    ensures
        out@ == numbered_backup(candidate@, n as nat),
{
    if n == 0 {
        return candidate.duplicate();
    }
    let parent = match candidate.parent() {
        Some(p) => p,
        None => {
            let mut p = FilePath::new();
            p.parts.push(PathPart::Current);
            assert(p@ =~= seq![(2int, Seq::<char>::empty())]);
            p
        },
    };
    let stem = match candidate.file_stem() {
        Some(s) => s,
        None => "file".to_string(),
    };
    let ext = match candidate.extension() {
        Some(e) => chars_of(e.as_str()),
        None => Vec::new(),
    };
    let mut name = chars_of(stem.as_str());
    name.push('_');
    push_padded(&mut name, n as u128, 3);
    proof {
        assert(stem@.push('_') == stem@ + seq!['_']);
    }
    if ext.len() > 0 {
        let ghost numbered = name@;
        name.push('.');
        append_chars(&mut name, &ext);
        assert(numbered.push('.') == numbered + seq!['.']);
    }
    parent.join_name(string_of(&name).as_str())
}

/// Reserves a place for a backup at `candidate`: the first vacant one among the candidate
/// itself and its numbered names. `existing` holds the paths that exist in the backup tree.
pub fn unique_backup_path_with_reserved(
    candidate: FilePath,
    reserved_paths: &mut Vec<FilePath>,
    existing: &Vec<FilePath>,
) -> (out: Option<FilePath>)
    ensures
        path_model(out) == backup_target(
            candidate@,
            path_models(old(reserved_paths)@),
            path_models(existing@),
        ),
        path_models(final(reserved_paths)@) == match out {
            Some(p) => path_models(old(reserved_paths)@).push(p@),
            None => path_models(old(reserved_paths)@),
        },
{
    let ghost reserved = path_models(reserved_paths@);
    let ghost listed = path_models(existing@);
    let mut n: usize = 0;
    while n < usize::MAX
        invariant
            *reserved_paths == *old(reserved_paths),
            reserved == path_models(reserved_paths@),
            listed == path_models(existing@),
            forall|m: nat|
                m < n ==> !is_vacant(#[trigger] numbered_backup(candidate@, m), reserved, listed),
        decreases usize::MAX - n,
    {
        let next = numbered_backup_path(&candidate, n);
        if !paths_contain(existing, &next) && !paths_contain(reserved_paths, &next) {
            proof {
                lemma_first_vacant_is_target(candidate@, reserved, listed, n as nat);
            }
            reserved_paths.push(next.duplicate());
            assert(path_models(reserved_paths@) =~= reserved.push(next@));
            return Some(next);
        }
        n += 1;
    }
    proof {
        lemma_nothing_vacant(candidate@, reserved, listed);
    }
    None
}

/// The place in the backup tree that mirrors an original: its path relative to its root, taken
/// from the backup root; its file name alone where it does not lie below the root.
pub open spec fn backup_candidate(
    backup_root: Seq<PartModel>,
    jpg_root: Seq<PartModel>,
    original: Seq<PartModel>,
) -> Seq<PartModel> {
    if stripped_prefix(original, jpg_root) is Some && stripped_prefix(original, jpg_root)->0.len()
        > 0 {
        joined(backup_root, stripped_prefix(original, jpg_root)->0)
    } else {
        joined(
            backup_root,
            name_path(
                match file_name_of(original) {
                    Some(n) => n,
                    None => "file"@,
                },
            ),
        )
    }
}

/// Reserves the place in the backup tree for one original.
pub fn resolve_backup_path_with_reserved(
    backup_root: &FilePath,
    jpg_root: &FilePath,
    original_path: &FilePath,
    reserved_paths: &mut Vec<FilePath>,
    existing: &Vec<FilePath>,
) -> (out: Option<FilePath>)
    ensures
        path_model(out) == backup_target(
            backup_candidate(backup_root@, jpg_root@, original_path@),
            path_models(old(reserved_paths)@),
            path_models(existing@),
        ),
        path_models(final(reserved_paths)@) == match out {
            Some(p) => path_models(old(reserved_paths)@).push(p@),
            None => path_models(old(reserved_paths)@),
        },
{
    match original_path.strip_prefix(jpg_root) {
        Some(relative) => {
            if !relative.is_empty() {
                let candidate = backup_root.join(&relative);
                return unique_backup_path_with_reserved(candidate, reserved_paths, existing);
            }
        },
        None => {},
    }
    let file_name = match original_path.file_name() {
        Some(n) => n,
        None => "file".to_string(),
    };
    unique_backup_path_with_reserved(
        backup_root.join_name(file_name.as_str()),
        reserved_paths,
        existing,
    )
}

/// The backup folder of a root: the directory `backup` in it.
pub open spec fn backup_folder(root: Seq<PartModel>) -> Seq<PartModel> {
    joined(root, name_path("backup"@))
}

/// The resolved backup folder of the root at `i`; none where it is not known.
pub open spec fn resolved_backup_folder(folders: Seq<Option<FilePath>>, i: int) -> Option<
    Seq<PartModel>,
> {
    if 0 <= i < folders.len() {
        path_model(folders[i])
    } else {
        None
    }
}

/// The position of the first root, at or after `i`, whose backup folder cannot be resolved or
/// resolves to a place that is not at or below the root; the number of roots where there is
/// none.
pub open spec fn first_bad_folder(
    roots: Seq<Seq<PartModel>>,
    folders: Seq<Option<FilePath>>,
    i: int,
) -> int
    decreases roots.len() - i,
{
    if i < 0 || i >= roots.len() || resolved_backup_folder(folders, i) is None || !starts_with(
        resolved_backup_folder(folders, i)->0,
        roots[i],
    ) {
        i
    } else {
        first_bad_folder(roots, folders, i + 1)
    }
}

/// The backup paths of the first `n` originals, each reserved in its turn; none where one of
/// them cannot be had: its original is not resolved, lies below no root, or finds no vacant
/// place.
pub open spec fn backups_upto(
    roots: Seq<Seq<PartModel>>,
    folders: Seq<Option<FilePath>>,
    facts: Seq<CandidateFacts>,
    existing: Seq<Seq<PartModel>>,
    n: int,
) -> Option<Seq<Seq<PartModel>>>
    decreases n,
{
    if n <= 0 {
        Some(Seq::empty())
    } else {
        match backups_upto(roots, folders, facts, existing, n - 1) {
            Some(made) => {
                let original = resolved_original(facts, n - 1);
                if original is None || governing(original->0, roots) is None {
                    None
                } else {
                    let g = governing(original->0, roots)->0;
                    match backup_target(
                        backup_candidate(
                            resolved_backup_folder(folders, g)->0,
                            roots[g],
                            original->0,
                        ),
                        made,
                        existing,
                    ) {
                        Some(t) => Some(made.push(t)),
                        None => None,
                    }
                }
            },
            None => None,
        }
    }
}

/// Why the original at `i` gets no backup.
pub open spec fn backup_fault(
    roots: Seq<Seq<PartModel>>,
    facts: Seq<CandidateFacts>,
    i: int,
) -> ApplyErrorKind {
    if resolved_original(facts, i) is None {
        ApplyErrorKind::OriginalUnresolved
    } else if governing(resolved_original(facts, i)->0, roots) is None {
        ApplyErrorKind::BackupOutsideRoot
    } else {
        ApplyErrorKind::NamesExhausted
    }
}

/// What planning the backups gives.
pub open spec fn backup_plan_result(
    roots: Seq<Seq<PartModel>>,
    folders: Seq<Option<FilePath>>,
    ops: Seq<RenameOperation>,
    facts: Seq<CandidateFacts>,
    existing: Seq<Seq<PartModel>>,
    out: Result<Vec<BackupJob>, ApplyError>,
) -> bool {
    let bad = first_bad_folder(roots, folders, 0);
    let n = ops.len() as int;
    match out {
        Ok(jobs) => {
            &&& bad >= roots.len()
            &&& jobs@.len() == n
            &&& backups_upto(roots, folders, facts, existing, n) == Some(backup_paths_of(jobs@))
            &&& forall|i: int| 0 <= i < n ==> (#[trigger] jobs@[i]).original_path@ == ops[i].from@
        },
        Err(e) => if bad < roots.len() {
            e.path@ == backup_folder(roots[bad]) && e.kind == if resolved_backup_folder(
                folders,
                bad,
            ) is None {
                ApplyErrorKind::BackupFolderUnresolved
            } else {
                ApplyErrorKind::BackupFolderOutsideRoot
            }
        } else {
            exists|i: int|
                0 <= i < n && (#[trigger] backups_upto(roots, folders, facts, existing, i)) is Some
                    && backups_upto(roots, folders, facts, existing, i + 1) is None && e.path@
                    == ops[i].from@ && e.kind == backup_fault(roots, facts, i)
        },
    }
}

/// Plans the backups of a run, before anything is copied: each original gets a place in the
/// backup folder of the root that governs it, mirroring its path below that root; places are
/// reserved one after the other, so that no two backups of the run share one, and none takes
/// the place of something that exists. `roots` are the resolved roots, `folders` the resolved
/// backup folders of the roots, and `existing` the paths that exist in the backup folders. A
/// backup folder that resolves to a place outside its root is an error.
pub fn plan_backups(
    roots: &Vec<FilePath>,
    folders: &Vec<Option<FilePath>>,
    operations: &Vec<RenameOperation>,
    facts: &Vec<CandidateFacts>,
    existing: &Vec<FilePath>,
) -> (out: Result<Vec<BackupJob>, ApplyError>)
    ensures
        backup_plan_result(
            path_models(roots@),
            folders@,
            operations@,
            facts@,
            path_models(existing@),
            out,
        ),
{
    let ghost root_models = path_models(roots@);
    let ghost listed = path_models(existing@);
    let mut r: usize = 0;
    while r < roots.len()
        invariant
            r <= roots.len(),
            root_models == path_models(roots@),
            first_bad_folder(root_models, folders@, 0) == first_bad_folder(
                root_models,
                folders@,
                r as int,
            ),
        decreases roots.len() - r,
    {
        assert(root_models[r as int] == roots@[r as int]@);
        let resolved = if r < folders.len() {
            match &folders[r] {
                Some(f) => Some(f),
                None => None,
            }
        } else {
            None
        };
        match resolved {
            Some(folder) => {
                if !folder.starts_with(&roots[r]) {
                    return Err(
                        ApplyError {
                            kind: ApplyErrorKind::BackupFolderOutsideRoot,
                            path: roots[r].join_name("backup"),
                        },
                    );
                }
            },
            None => {
                return Err(
                    ApplyError {
                        kind: ApplyErrorKind::BackupFolderUnresolved,
                        path: roots[r].join_name("backup"),
                    },
                );
            },
        }
        r += 1;
    }
    let mut reserved: Vec<FilePath> = Vec::new();
    let mut jobs: Vec<BackupJob> = Vec::new();
    let mut i: usize = 0;
    assert(path_models(reserved@) =~= Seq::<Seq<PartModel>>::empty());
    assert(backup_paths_of(jobs@) =~= Seq::<Seq<PartModel>>::empty());
    while i < operations.len()
        invariant
            i <= operations.len(),
            root_models == path_models(roots@),
            listed == path_models(existing@),
            first_bad_folder(root_models, folders@, 0) >= roots@.len(),
            jobs@.len() == i,
            backups_upto(root_models, folders@, facts@, listed, i as int) == Some(
                backup_paths_of(jobs@),
            ),
            path_models(reserved@) == backup_paths_of(jobs@),
            forall|k: int| 0 <= k < i ==> (#[trigger] jobs@[k]).original_path@ == operations@[k].from@,
        decreases operations.len() - i,
    {
        let ghost index = i as int;
        let original = if i < facts.len() {
            match &facts[i].original_canonical {
                Some(c) => Some(c),
                None => None,
            }
        } else {
            None
        };
        let original = match original {
            Some(c) => c,
            None => {
                assert(backups_upto(root_models, folders@, facts@, listed, index + 1) is None);
                return Err(
                    ApplyError {
                        kind: ApplyErrorKind::OriginalUnresolved,
                        path: operations[i].from.duplicate(),
                    },
                );
            },
        };
        let g = match pick_most_specific_root(original, roots) {
            Some(g) => g,
            None => {
                assert(backups_upto(root_models, folders@, facts@, listed, index + 1) is None);
                return Err(
                    ApplyError {
                        kind: ApplyErrorKind::BackupOutsideRoot,
                        path: operations[i].from.duplicate(),
                    },
                );
            },
        };
        proof {
            lemma_folders_are_good(root_models, folders@, 0, g as int);
            assert(root_models[g as int] == roots@[g as int]@);
        }
        let folder = match &folders[g] {
            Some(f) => f,
            None => {
                return Err(
                    ApplyError {
                        kind: ApplyErrorKind::BackupFolderUnresolved,
                        path: roots[g].join_name("backup"),
                    },
                );
            },
        };
        let backup_path = match resolve_backup_path_with_reserved(
            folder,
            &roots[g],
            original,
            &mut reserved,
            existing,
        ) {
            Some(p) => p,
            None => {
                assert(backups_upto(root_models, folders@, facts@, listed, index + 1) is None);
                return Err(
                    ApplyError {
                        kind: ApplyErrorKind::NamesExhausted,
                        path: operations[i].from.duplicate(),
                    },
                );
            },
        };
        let ghost before = backup_paths_of(jobs@);
        let ghost jobs_before = jobs@;
        jobs.push(BackupJob { original_path: operations[i].from.duplicate(), backup_path });
        assert(backup_paths_of(jobs@) =~= before.push(jobs@[index].backup_path@));
        assert forall|k: int| 0 <= k < index + 1 implies (#[trigger] jobs@[k]).original_path@
            == operations@[k].from@ by {
            if k < index {
                assert(jobs@[k] == jobs_before[k]);
            }
        }
        i += 1;
    }
    Ok(jobs)
}

proof fn lemma_folders_are_good(
    roots: Seq<Seq<PartModel>>,
    folders: Seq<Option<FilePath>>,
    i: int,
    g: int,
)
    requires
        0 <= i <= g < roots.len(),
        first_bad_folder(roots, folders, i) >= roots.len(),
    ensures
        resolved_backup_folder(folders, g) is Some,
        g < folders.len(),
        starts_with(resolved_backup_folder(folders, g)->0, roots[g]),
    decreases g - i,
{
    if i < g {
        lemma_folders_are_good(roots, folders, i + 1, g);
    }
}

/// The backups of a run do not collide: each has a place of its own, where nothing existed.
pub proof fn lemma_backups_do_not_collide(
    roots: Seq<Seq<PartModel>>,
    folders: Seq<Option<FilePath>>,
    facts: Seq<CandidateFacts>,
    existing: Seq<Seq<PartModel>>,
    n: int,
)
    requires
        0 <= n,
        backups_upto(roots, folders, facts, existing, n) is Some,
    ensures
        backups_upto(roots, folders, facts, existing, n)->0.len() == n,
        forall|i: int, j: int|
            0 <= i < j < n ==> backups_upto(roots, folders, facts, existing, n)->0[i]
                != backups_upto(roots, folders, facts, existing, n)->0[j],
        forall|i: int|
            0 <= i < n ==> !existing.contains(
                #[trigger] backups_upto(roots, folders, facts, existing, n)->0[i],
            ),
    decreases n,
{
    if n > 0 {
        lemma_backups_do_not_collide(roots, folders, facts, existing, n - 1);
        let made = backups_upto(roots, folders, facts, existing, n - 1)->0;
        let all = backups_upto(roots, folders, facts, existing, n)->0;
        let original = resolved_original(facts, n - 1)->0;
        let g = governing(original, roots)->0;
        let candidate = backup_candidate(resolved_backup_folder(folders, g)->0, roots[g], original);
        let t = backup_target(candidate, made, existing)->0;
        let k = choose|k: nat| is_first_vacant(candidate, made, existing, k);
        assert(is_vacant(t, made, existing));
        assert(all == made.push(t));
        assert forall|i: int, j: int| 0 <= i < j < n implies all[i] != all[j] by {
            if j == n - 1 {
                if all[i] == t {
                    assert(made[i] == t);
                    assert(made.contains(t));
                }
            } else {
                assert(all[i] == made[i] && all[j] == made[j]);
            }
        }
        assert forall|i: int| 0 <= i < n implies !existing.contains(#[trigger] all[i]) by {
            if i < n - 1 {
                assert(all[i] == made[i]);
            }
        }
    }
}

} // verus!
