use crate::matcher::path_model;
use crate::paths::{
    copy_paths, file_name_of, joined, name_path, parent_of, path_models, paths_contain,
    starts_with, FilePath, PartModel,
};
use crate::planner::{RenameCandidate, RenamePlan};
use crate::text::{
    append_chars, chars_of, decimal, lemma_decimal, lemma_decimal_is_injective, push_padded,
    string_of, zero_padded,
};
use vstd::prelude::*;

verus! {

/// One rename: from the path a file has to the path it gets.
#[derive(Debug, Clone)]
pub struct RenameOperation {
    pub from: FilePath,
    pub to: FilePath,
}

/// A rename as a pair of paths.
pub type OperationModel = (Seq<PartModel>, Seq<PartModel>);

impl View for RenameOperation {
    type V = OperationModel;

    open spec fn view(&self) -> OperationModel {
        (self.from@, self.to@)
    }
}

/// The renames of a list, as pairs of paths.
pub open spec fn operation_models(ops: Seq<RenameOperation>) -> Seq<OperationModel> {
    ops.map_values(|op: RenameOperation| op@)
}

/// How many renames a run applied, and how many candidates kept their path.
#[derive(Debug, Clone, Copy, PartialEq, Eq, Structural)]
pub struct ApplyResult {
    pub applied: usize,
    pub unchanged: usize,
}

/// What a run does besides renaming.
#[derive(Debug, Clone, Copy, PartialEq, Eq, Structural)]
pub struct ApplyOptions {
    pub backup_originals: bool,
}

/// How many renames an undo reversed.
#[derive(Debug, Clone, Copy, PartialEq, Eq, Structural)]
pub struct UndoResult {
    pub restored: usize,
}

impl ApplyOptions {
    /// No backups.
    pub fn default() -> (out: ApplyOptions)
        ensures
            !out.backup_originals,
    {
        ApplyOptions { backup_originals: false }
    }
}

/// Why a plan is not applied, or a journal not undone.
#[derive(Debug, Clone, Copy, PartialEq, Eq, Structural)]
pub enum ApplyErrorKind {
    /// No root is declared.
    NoRoots,
    /// A declared root cannot be resolved.
    RootUnresolved,
    /// A declared root is no directory.
    RootNotDirectory,
    /// An original cannot be resolved.
    OriginalUnresolved,
    /// An original lies outside the declared roots.
    OriginalOutsideRoot,
    /// Two candidates have the same original.
    DuplicateOriginal,
    /// A path has no parent directory.
    NoParent,
    /// A path has no file name.
    NoFileName,
    /// The parent directory of a path cannot be resolved.
    ParentUnresolved,
    /// A target lies outside the declared roots.
    TargetOutsideRoot,
    /// Two candidates have the same target.
    DuplicateTarget,
    /// The backup folder of a root resolves to a place outside that root.
    BackupFolderOutsideRoot,
    /// An original to back up lies outside the declared roots.
    BackupOutsideRoot,
    /// The backup folder of a root cannot be resolved.
    BackupFolderUnresolved,
    /// No numbered name for a backup is free.
    NamesExhausted,
    /// A path of the journal lies outside the roots it records.
    OutsideRecordedRoots,
    /// A recorded backup path is a directory.
    BackupIsDirectory,
}

/// An error of applying or undoing: its kind, and the path it is about.
#[derive(Debug, Clone)]
pub struct ApplyError {
    pub kind: ApplyErrorKind,
    pub path: FilePath,
}

fn apply_error(kind: ApplyErrorKind, path: &FilePath) -> (out: ApplyError)
    ensures
        out.kind == kind,
        out.path@ == path@,
{
    ApplyError { kind, path: path.duplicate() }
}

/// A declared root, with what the disk says of it.
#[derive(Debug, Clone)]
pub struct RootFacts {
    pub root: FilePath,
    /// The resolved form of the root; none where it cannot be resolved.
    pub canonical: Option<FilePath>,
    pub is_dir: bool,
}

/// The roots that a plan declares: its list of roots, or its single root where the list is
/// empty.
pub open spec fn declared_roots(plan: RenamePlan) -> Seq<Seq<PartModel>> {
    if plan.jpg_roots@.len() == 0 {
        seq![plan.jpg_root@]
    } else {
        path_models(plan.jpg_roots@)
    }
}

/// The roots that a plan declares.
pub fn plan_jpg_roots(plan: &RenamePlan) -> (out: Vec<FilePath>)
    ensures
        path_models(out@) == declared_roots(*plan),
{
    if plan.jpg_roots.len() == 0 {
        let mut out: Vec<FilePath> = Vec::new();
        out.push(plan.jpg_root.duplicate());
        assert(path_models(out@) =~= seq![plan.jpg_root@]);
        return out;
    }
    copy_paths(&plan.jpg_roots)
}

/// The position of the first root, at or after `i`, that cannot be resolved or is no
/// directory; the number of roots where there is none.
pub open spec fn first_bad_root(roots: Seq<RootFacts>, i: int) -> int
    decreases roots.len() - i,
{
    if i < 0 || i >= roots.len() || roots[i].canonical is None || !roots[i].is_dir {
        i
    } else {
        first_bad_root(roots, i + 1)
    }
}

/// The resolved forms of the first `n` roots, each once, in the order in which they come.
pub open spec fn resolved_roots_upto(roots: Seq<RootFacts>, n: int) -> Seq<Seq<PartModel>>
    decreases n,
{
    if n <= 0 {
        Seq::empty()
    } else {
        let r = resolved_roots_upto(roots, n - 1);
        let c = roots[n - 1].canonical->0@;
        if r.contains(c) {
            r
        } else {
            r.push(c)
        }
    }
}

/// What resolving the declared roots gives.
pub open spec fn roots_result(roots: Seq<RootFacts>, out: Result<Vec<FilePath>, ApplyError>) -> bool {
    let bad = first_bad_root(roots, 0);
    match out {
        Ok(resolved) => roots.len() > 0 && bad >= roots.len() && path_models(resolved@)
            == resolved_roots_upto(roots, roots.len() as int),
        Err(e) => if roots.len() == 0 {
            e.kind == ApplyErrorKind::NoRoots
        } else {
            &&& 0 <= bad < roots.len()
            &&& if roots[bad].canonical is None {
                e.kind == ApplyErrorKind::RootUnresolved && e.path@ == roots[bad].root@
            } else {
                e.kind == ApplyErrorKind::RootNotDirectory && e.path@ == roots[bad].canonical->0@
            }
        },
    }
}

/// The resolved forms of the declared roots, each once. A list without roots, a root that
/// cannot be resolved and a root that is no directory are errors.
pub fn canonicalize_jpg_roots(raw_roots: &Vec<RootFacts>) -> (out: Result<Vec<FilePath>, ApplyError>)
    ensures
        roots_result(raw_roots@, out),
{
    if raw_roots.len() == 0 {
        return Err(apply_error(ApplyErrorKind::NoRoots, &FilePath::new()));
    }
    let mut out: Vec<FilePath> = Vec::new();
    let mut i: usize = 0;
    assert(path_models(out@) =~= resolved_roots_upto(raw_roots@, 0));
    while i < raw_roots.len()
        invariant
            i <= raw_roots.len(),
            first_bad_root(raw_roots@, 0) == first_bad_root(raw_roots@, i as int),
            path_models(out@) == resolved_roots_upto(raw_roots@, i as int),
        decreases raw_roots.len() - i,
    {
        let canonical = match &raw_roots[i].canonical {
            Some(c) => c,
            None => {
                return Err(apply_error(ApplyErrorKind::RootUnresolved, &raw_roots[i].root));
            },
        };
        if !raw_roots[i].is_dir {
            return Err(apply_error(ApplyErrorKind::RootNotDirectory, canonical));
        }
        if !paths_contain(&out, canonical) {
            let ghost before = path_models(out@);
            out.push(canonical.duplicate());
            assert(path_models(out@) =~= before.push(canonical@));
        }
        i += 1;
    }
    Ok(out)
}

/// The path lies at or below one of the roots.
pub open spec fn within_roots(path: Seq<PartModel>, roots: Seq<Seq<PartModel>>) -> bool {
    exists|i: int| 0 <= i < roots.len() && starts_with(path, #[trigger] roots[i])
}

/// Whether a path lies at or below one of the roots.
pub fn path_within_any_root(path: &FilePath, roots: &Vec<FilePath>) -> (r: bool)
    ensures
        r == within_roots(path@, path_models(roots@)),
{
    let mut i: usize = 0;
    while i < roots.len()
        invariant
            i <= roots.len(),
            forall|j: int| 0 <= j < i ==> !starts_with(path@, #[trigger] path_models(roots@)[j]),
        decreases roots.len() - i,
    {
        if path.starts_with(&roots[i]) {
            assert(starts_with(path@, path_models(roots@)[i as int]));
            return true;
        }
        i += 1;
    }
    false
}

/// The position, among the first `n` roots, of the root that governs a path: the longest of the
/// roots that the path lies at or below (the last of them, where two are of one length, which
/// are then the same path); none where the path lies below none.
pub open spec fn governing_upto(path: Seq<PartModel>, roots: Seq<Seq<PartModel>>, n: int) -> Option<
    int,
>
    decreases n,
{
    if n <= 0 {
        None
    } else {
        let before = governing_upto(path, roots, n - 1);
        if starts_with(path, roots[n - 1]) && (before is None || roots[n - 1].len()
            >= roots[before->0].len()) {
            Some(n - 1)
        } else {
            before
        }
    }
}

/// The root that governs a path.
pub open spec fn governing(path: Seq<PartModel>, roots: Seq<Seq<PartModel>>) -> Option<int> {
    governing_upto(path, roots, roots.len() as int)
}

/// The governing root is a root that the path lies at or below, and no such root is longer;
/// there is none only where the path lies below no root.
pub proof fn lemma_governing(path: Seq<PartModel>, roots: Seq<Seq<PartModel>>, n: int)
    requires
        0 <= n <= roots.len(),
    ensures
        match governing_upto(path, roots, n) {
            Some(k) => 0 <= k < n && starts_with(path, roots[k]) && forall|j: int|
                0 <= j < n && starts_with(path, #[trigger] roots[j]) ==> roots[j].len()
                    <= roots[k].len(),
            None => forall|j: int| 0 <= j < n ==> !starts_with(path, #[trigger] roots[j]),
        },
    decreases n,
{
    if n > 0 {
        lemma_governing(path, roots, n - 1);
    }
}

/// The position of the root that governs a path; none where the path lies below no root.
pub fn pick_most_specific_root(path: &FilePath, roots: &Vec<FilePath>) -> (out: Option<usize>)
    ensures
        match out {
            Some(k) => governing(path@, path_models(roots@)) == Some(k as int) && k < roots@.len(),
            None => governing(path@, path_models(roots@)) is None,
        },
        out is None <==> !within_roots(path@, path_models(roots@)),
{
    let mut best: Option<usize> = None;
    let mut i: usize = 0;
    while i < roots.len()
        invariant
            i <= roots.len(),
            match best {
                Some(k) => governing_upto(path@, path_models(roots@), i as int) == Some(k as int)
                    && k < i,
                None => governing_upto(path@, path_models(roots@), i as int) is None,
            },
        decreases roots.len() - i,
    {
        assert(path_models(roots@)[i as int] == roots@[i as int]@);
        if path.starts_with(&roots[i]) {
            let better = match best {
                Some(k) => {
                    assert(path_models(roots@)[k as int] == roots@[k as int]@);
                    roots[i].component_count() >= roots[k].component_count()
                },
                None => true,
            };
            if better {
                best = Some(i);
            }
        }
        i += 1;
    }
    proof {
        lemma_governing(path@, path_models(roots@), roots@.len() as int);
    }
    best
}

/// What the disk says of one candidate: the resolved form of its original, and of the parent
/// directory of its target; none where one cannot be resolved.
#[derive(Debug, Clone)]
pub struct CandidateFacts {
    pub original_canonical: Option<FilePath>,
    pub target_parent_canonical: Option<FilePath>,
}

/// The resolved original of the candidate at `i`; none where it is not known.
pub open spec fn resolved_original(facts: Seq<CandidateFacts>, i: int) -> Option<Seq<PartModel>> {
    if 0 <= i < facts.len() {
        path_model(facts[i].original_canonical)
    } else {
        None
    }
}

/// The resolved parent directory of the target of the candidate at `i`; none where it is not
/// known.
pub open spec fn resolved_target_parent(facts: Seq<CandidateFacts>, i: int) -> Option<
    Seq<PartModel>,
> {
    if 0 <= i < facts.len() {
        path_model(facts[i].target_parent_canonical)
    } else {
        None
    }
}

/// The target of the candidate at `i`, with its parent directory in resolved form.
pub open spec fn normalized_target(
    ops: Seq<RenameOperation>,
    facts: Seq<CandidateFacts>,
    i: int,
) -> Seq<PartModel> {
    joined(resolved_target_parent(facts, i)->0, name_path(file_name_of(ops[i].to@)->0))
}

/// The original of the candidate at `i` is that of an earlier candidate.
pub open spec fn repeats_original(facts: Seq<CandidateFacts>, i: int) -> bool {
    exists|j: int| 0 <= j < i && #[trigger] resolved_original(facts, j) == resolved_original(facts, i)
}

/// The target of the candidate at `i` is that of an earlier candidate.
pub open spec fn repeats_target(ops: Seq<RenameOperation>, facts: Seq<CandidateFacts>, i: int) -> bool {
    exists|j: int|
        0 <= j < i && #[trigger] normalized_target(ops, facts, j) == normalized_target(
            ops,
            facts,
            i,
        )
}

/// Why the candidate at `i` is refused; none where it is accepted.
pub open spec fn candidate_fault(
    roots: Seq<Seq<PartModel>>,
    ops: Seq<RenameOperation>,
    facts: Seq<CandidateFacts>,
    i: int,
) -> Option<ApplyErrorKind> {
    if resolved_original(facts, i) is None {
        Some(ApplyErrorKind::OriginalUnresolved)
    } else if !within_roots(resolved_original(facts, i)->0, roots) {
        Some(ApplyErrorKind::OriginalOutsideRoot)
    } else if repeats_original(facts, i) {
        Some(ApplyErrorKind::DuplicateOriginal)
    } else if parent_of(ops[i].to@) is None {
        Some(ApplyErrorKind::NoParent)
    } else if file_name_of(ops[i].to@) is None {
        Some(ApplyErrorKind::NoFileName)
    } else if resolved_target_parent(facts, i) is None {
        Some(ApplyErrorKind::ParentUnresolved)
    } else if !within_roots(resolved_target_parent(facts, i)->0, roots) {
        Some(ApplyErrorKind::TargetOutsideRoot)
    } else if repeats_target(ops, facts, i) {
        Some(ApplyErrorKind::DuplicateTarget)
    } else {
        None
    }
}

/// The path that the fault of the candidate at `i` is about: its original, its target, or the
/// parent directory of its target.
pub open spec fn candidate_fault_subject(
    roots: Seq<Seq<PartModel>>,
    ops: Seq<RenameOperation>,
    facts: Seq<CandidateFacts>,
    i: int,
) -> Seq<PartModel> {
    match candidate_fault(roots, ops, facts, i) {
        Some(ApplyErrorKind::OriginalUnresolved) | Some(ApplyErrorKind::OriginalOutsideRoot) | Some(
            ApplyErrorKind::DuplicateOriginal,
        ) => ops[i].from@,
        Some(ApplyErrorKind::ParentUnresolved) => parent_of(ops[i].to@)->0,
        _ => ops[i].to@,
    }
}

/// The position of the first candidate, at or after `i`, that is refused; the number of
/// candidates where none is.
pub open spec fn first_refused(
    roots: Seq<Seq<PartModel>>,
    ops: Seq<RenameOperation>,
    facts: Seq<CandidateFacts>,
    i: int,
) -> int
    decreases ops.len() - i,
{
    if i < 0 || i >= ops.len() || candidate_fault(roots, ops, facts, i) is Some {
        i
    } else {
        first_refused(roots, ops, facts, i + 1)
    }
}

/// The first refused candidate is refused, and none before it is.
pub proof fn lemma_first_refused_bounds(
    roots: Seq<Seq<PartModel>>,
    ops: Seq<RenameOperation>,
    facts: Seq<CandidateFacts>,
    i: int,
)
    requires
        0 <= i <= ops.len(),
    ensures
        i <= first_refused(roots, ops, facts, i) <= ops.len(),
        forall|k: int|
            i <= k < first_refused(roots, ops, facts, i) ==> candidate_fault(roots, ops, facts, k)
                is None,
        first_refused(roots, ops, facts, i) < ops.len() ==> candidate_fault(
            roots,
            ops,
            facts,
            first_refused(roots, ops, facts, i),
        ) is Some,
    decreases ops.len() - i,
{
    if i < ops.len() && candidate_fault(roots, ops, facts, i) is None {
        lemma_first_refused_bounds(roots, ops, facts, i + 1);
    }
}

/// What validating the candidates gives: the fault of the first candidate that is refused, or
/// the fault of the roots.
pub open spec fn validation_result(
    roots: Seq<RootFacts>,
    ops: Seq<RenameOperation>,
    facts: Seq<CandidateFacts>,
    out: Result<(), ApplyError>,
) -> bool {
    let resolved = resolved_roots_upto(roots, roots.len() as int);
    let refused = first_refused(resolved, ops, facts, 0);
    let roots_fail = roots.len() == 0 || first_bad_root(roots, 0) < roots.len();
    match out {
        Ok(_) => !roots_fail && refused >= ops.len(),
        Err(e) => if roots_fail {
            roots_result(roots, Err::<Vec<FilePath>, ApplyError>(e))
        } else {
            0 <= refused < ops.len() && Some(e.kind) == candidate_fault(resolved, ops, facts, refused)
                && e.path@ == candidate_fault_subject(resolved, ops, facts, refused)
        },
    }
}

/// Checks the candidates of a plan against its roots, before anything is renamed: each
/// original resolves to a place at or below a root, each target has its parent directory at or
/// below a root, and no original and no target comes twice.
pub fn validate_apply_candidates(
    roots: &Vec<RootFacts>,
    operations: &Vec<RenameOperation>,
    facts: &Vec<CandidateFacts>,
) -> (out: Result<(), ApplyError>)
    ensures
        validation_result(roots@, operations@, facts@, out),
{
    let jpg_roots = match canonicalize_jpg_roots(roots) {
        Ok(r) => r,
        Err(e) => {
            proof {
                lemma_bad_root_bounds(roots@, 0);
            }
            return Err(e);
        },
    };
    proof {
        lemma_bad_root_bounds(roots@, 0);
    }
    let ghost resolved = path_models(jpg_roots@);
    let mut seen_originals: Vec<FilePath> = Vec::new();
    let mut seen_targets: Vec<FilePath> = Vec::new();
    let mut i: usize = 0;
    while i < operations.len()
        invariant
            i <= operations.len(),
            resolved == path_models(jpg_roots@),
            resolved == resolved_roots_upto(roots@, roots@.len() as int),
            roots@.len() > 0,
            first_bad_root(roots@, 0) >= roots@.len(),
            first_refused(resolved, operations@, facts@, 0) == first_refused(
                resolved,
                operations@,
                facts@,
                i as int,
            ),
            seen_originals@.len() == i,
            seen_targets@.len() == i,
            forall|j: int|
                0 <= j < i ==> Some(#[trigger] path_models(seen_originals@)[j]) == resolved_original(
                    facts@,
                    j,
                ),
            forall|j: int|
                0 <= j < i ==> (#[trigger] path_models(seen_targets@)[j]) == normalized_target(
                    operations@,
                    facts@,
                    j,
                ),
        decreases operations.len() - i,
    {
        let op = &operations[i];
        let ghost index = i as int;
        if i >= facts.len() {
            return Err(apply_error(ApplyErrorKind::OriginalUnresolved, &op.from));
        }
        let original_canonical = match &facts[i].original_canonical {
            Some(c) => c,
            None => { return Err(apply_error(ApplyErrorKind::OriginalUnresolved, &op.from)); },
        };
        if !path_within_any_root(original_canonical, &jpg_roots) {
            return Err(apply_error(ApplyErrorKind::OriginalOutsideRoot, &op.from));
        }
        let again = paths_contain(&seen_originals, original_canonical);
        proof {
            if again {
                let j = choose|j: int|
                    0 <= j < path_models(seen_originals@).len() && path_models(seen_originals@)[j]
                        == original_canonical@;
                assert(resolved_original(facts@, j) == resolved_original(facts@, index));
            } else if repeats_original(facts@, index) {
                let j = choose|j: int|
                    0 <= j < index && #[trigger] resolved_original(facts@, j) == resolved_original(
                        facts@,
                        index,
                    );
                assert(path_models(seen_originals@)[j] == original_canonical@);
            }
        }
        if again {
            return Err(apply_error(ApplyErrorKind::DuplicateOriginal, &op.from));
        }
        let target_parent = match op.to.parent() {
            Some(p) => p,
            None => { return Err(apply_error(ApplyErrorKind::NoParent, &op.to)); },
        };
        let target_name = match op.to.file_name() {
            Some(n) => n,
            None => { return Err(apply_error(ApplyErrorKind::NoFileName, &op.to)); },
        };
        let target_parent_canonical = match &facts[i].target_parent_canonical {
            Some(c) => c,
            None => { return Err(apply_error(ApplyErrorKind::ParentUnresolved, &target_parent)); },
        };
        if !path_within_any_root(target_parent_canonical, &jpg_roots) {
            return Err(apply_error(ApplyErrorKind::TargetOutsideRoot, &op.to));
        }
        let normalized = target_parent_canonical.join_name(target_name.as_str());
        let again_target = paths_contain(&seen_targets, &normalized);
        proof {
            if again_target {
                let j = choose|j: int|
                    0 <= j < path_models(seen_targets@).len() && path_models(seen_targets@)[j]
                        == normalized@;
                assert(normalized_target(operations@, facts@, j) == normalized_target(
                    operations@,
                    facts@,
                    index,
                ));
            } else if repeats_target(operations@, facts@, index) {
                let j = choose|j: int|
                    0 <= j < index && #[trigger] normalized_target(operations@, facts@, j)
                        == normalized_target(operations@, facts@, index);
                assert(path_models(seen_targets@)[j] == normalized@);
            }
        }
        if again_target {
            return Err(apply_error(ApplyErrorKind::DuplicateTarget, &op.to));
        }
        let ghost originals_before = path_models(seen_originals@);
        let ghost targets_before = path_models(seen_targets@);
        seen_originals.push(original_canonical.duplicate());
        seen_targets.push(normalized);
        assert(path_models(seen_originals@) =~= originals_before.push(original_canonical@));
        assert(path_models(seen_targets@) =~= targets_before.push(
            normalized_target(operations@, facts@, index),
        ));
        i += 1;
    }
    Ok(())
}

proof fn lemma_bad_root_bounds(roots: Seq<RootFacts>, i: int)
    requires
        0 <= i <= roots.len(),
    ensures
        i <= first_bad_root(roots, i) <= roots.len(),
    decreases roots.len() - i,
{
    if i < roots.len() && roots[i].canonical is Some && roots[i].is_dir {
        lemma_bad_root_bounds(roots, i + 1);
    }
}

/// A candidate whose target has its parent directory outside the roots makes the validation
/// fail, whatever the other candidates are.
pub proof fn lemma_target_outside_roots_is_refused(
    roots: Seq<RootFacts>,
    ops: Seq<RenameOperation>,
    facts: Seq<CandidateFacts>,
    i: int,
    out: Result<(), ApplyError>,
)
    requires
        0 <= i < ops.len(),
        resolved_target_parent(facts, i) is Some,
        !within_roots(
            resolved_target_parent(facts, i)->0,
            resolved_roots_upto(roots, roots.len() as int),
        ),
        validation_result(roots, ops, facts, out),
    ensures
        out is Err,
{
    let resolved = resolved_roots_upto(roots, roots.len() as int);
    lemma_first_refused_bounds(resolved, ops, facts, 0);
    assert(candidate_fault(resolved, ops, facts, i) is Some);
}

/// A rename in two steps: from the original to a temporary name beside it, and from there
/// to the target.
#[derive(Debug, Clone)]
pub struct StagedRename {
    pub original_path: FilePath,
    pub target_path: FilePath,
    pub temp_path: FilePath,
}

/// A staged rename as its three paths.
pub struct EntryModel {
    pub original: Seq<PartModel>,
    pub target: Seq<PartModel>,
    pub temp: Seq<PartModel>,
}

impl View for StagedRename {
    type V = EntryModel;

    open spec fn view(&self) -> EntryModel {
        EntryModel { original: self.original_path@, target: self.target_path@, temp: self.temp_path@ }
    }
}

/// The staged renames of a list, as paths.
pub open spec fn entry_models(entries: Seq<StagedRename>) -> Seq<EntryModel> {
    entries.map_values(|e: StagedRename| e@)
}

/// The step of applying that failed.
#[derive(Debug, Clone, Copy, PartialEq, Eq, Structural)]
pub enum FailedStep {
    Stage,
    Commit,
}

/// How applying a plan ended.
#[derive(Debug, Clone, Copy, PartialEq, Eq, Structural)]
pub enum ApplyOutcome {
    /// All renames are made and the journal is written.
    Applied { applied: usize },
    /// The rename to a temporary name failed for the entry at `index`. With `rolled_back` all
    /// that was staged before is back at its original path.
    StageFailed { index: usize, rolled_back: bool },
    /// The rename to the target failed for the entry at `index`. With `rolled_back` all
    /// entries are back at their original paths.
    CommitFailed { index: usize, rolled_back: bool },
    /// The journal could not be written. With `rolled_back` all entries are back at their
    /// original paths; with `backups_removed` the backups made for this run are gone.
    PersistFailed { rolled_back: bool, backups_removed: bool },
}

/// Where applying a plan stands.
#[derive(Debug, Clone, Copy, PartialEq, Eq, Structural)]
pub enum ApplyPhase {
    /// The first `done` entries are at their temporary names.
    Staging { done: usize },
    /// All entries were staged, and the first `done` are at their targets.
    Committing { done: usize },
    /// All entries are at their targets; the journal is to be written.
    Persisting,
    /// After the commit of the entry at `failed_at` failed: the first `left` entries are still
    /// at their targets and go back to their temporary names, the last one first.
    Uncommitting { left: usize, failed_at: usize },
    /// The first `left` entries are at their temporary names and go back to their originals,
    /// the last one first.
    Unstaging { left: usize, step: FailedStep, failed_at: usize },
    /// After the journal could not be written: the first `left` entries are still at their
    /// targets and go back to their originals, the last one first.
    Reverting { left: usize },
    /// After the journal could not be written: the backups made for this run are removed.
    Cleaning { reverted: bool },
    Finished(ApplyOutcome),
}

/// What is to be done next.
#[derive(Debug, Clone)]
pub enum ApplyAction {
    /// Rename `from` to `to`.
    Rename { from: FilePath, to: FilePath },
    /// Rename `from` to `to` where `from` exists; else do nothing.
    Restore { from: FilePath, to: FilePath },
    /// Write the journal of this run.
    WriteJournal,
    /// Remove the backups made for this run.
    RemoveBackups,
    /// Nothing: the run has ended.
    Finish(ApplyOutcome),
}

/// An action as paths.
pub enum ActionModel {
    Rename { from: Seq<PartModel>, to: Seq<PartModel> },
    Restore { from: Seq<PartModel>, to: Seq<PartModel> },
    WriteJournal,
    RemoveBackups,
    Finish(ApplyOutcome),
}

impl View for ApplyAction {
    type V = ActionModel;

    open spec fn view(&self) -> ActionModel {
        match self {
            ApplyAction::Rename { from, to } => ActionModel::Rename { from: from@, to: to@ },
            ApplyAction::Restore { from, to } => ActionModel::Restore { from: from@, to: to@ },
            ApplyAction::WriteJournal => ActionModel::WriteJournal,
            ApplyAction::RemoveBackups => ActionModel::RemoveBackups,
            ApplyAction::Finish(o) => ActionModel::Finish(*o),
        }
    }
}

/// How an action ended.
#[derive(Debug, Clone, Copy, PartialEq, Eq, Structural)]
pub enum StepEvent {
    /// It was done.
    Done,
    /// Nothing was to be done: the file to restore was not there.
    Skipped,
    /// It failed, and nothing was changed.
    Failed,
}

/// The phase fits a run of `n` entries.
pub open spec fn phase_fits(n: int, phase: ApplyPhase) -> bool {
    match phase {
        ApplyPhase::Staging { done } => done < n,
        ApplyPhase::Committing { done } => done < n,
        ApplyPhase::Persisting => n >= 1,
        ApplyPhase::Uncommitting { left, failed_at } => 1 <= left <= n && failed_at < n,
        ApplyPhase::Unstaging { left, step, failed_at } => 1 <= left <= n && failed_at < n,
        ApplyPhase::Reverting { left } => 1 <= left <= n,
        ApplyPhase::Cleaning { reverted } => n >= 1,
        ApplyPhase::Finished(_) => true,
    }
}

/// How a run ends after the step `step` failed at the entry `index`.
pub open spec fn failure_outcome(step: FailedStep, index: usize, rolled_back: bool) -> ApplyOutcome {
    match step {
        FailedStep::Stage => ApplyOutcome::StageFailed { index, rolled_back },
        FailedStep::Commit => ApplyOutcome::CommitFailed { index, rolled_back },
    }
}

/// The phase that follows `phase` in a run of `n` entries, when the action of `phase` ended
/// with `event`. A failure while staging or committing turns the run around: what was
/// committed is taken back to the temporary names, then what was staged to the originals. A
/// failure while taking back ends the run at once.
pub open spec fn next_phase(n: int, has_backups: bool, phase: ApplyPhase, event: StepEvent) -> ApplyPhase {
    let ok = event != StepEvent::Failed;
    match phase {
        ApplyPhase::Staging { done } => if ok {
            if done + 1 == n {
                ApplyPhase::Committing { done: 0 }
            } else {
                ApplyPhase::Staging { done: (done + 1) as usize }
            }
        } else if done == 0 {
            ApplyPhase::Finished(ApplyOutcome::StageFailed { index: 0, rolled_back: true })
        } else {
            ApplyPhase::Unstaging { left: done, step: FailedStep::Stage, failed_at: done }
        },
        ApplyPhase::Committing { done } => if ok {
            if done + 1 == n {
                ApplyPhase::Persisting
            } else {
                ApplyPhase::Committing { done: (done + 1) as usize }
            }
        } else if done == 0 {
            ApplyPhase::Unstaging { left: n as usize, step: FailedStep::Commit, failed_at: 0 }
        } else {
            ApplyPhase::Uncommitting { left: done, failed_at: done }
        },
        ApplyPhase::Persisting => if ok {
            ApplyPhase::Finished(ApplyOutcome::Applied { applied: n as usize })
        } else {
            ApplyPhase::Reverting { left: n as usize }
        },
        ApplyPhase::Uncommitting { left, failed_at } => if !ok {
            ApplyPhase::Finished(ApplyOutcome::CommitFailed { index: failed_at, rolled_back: false })
        } else if left == 1 {
            ApplyPhase::Unstaging { left: n as usize, step: FailedStep::Commit, failed_at }
        } else {
            ApplyPhase::Uncommitting { left: (left - 1) as usize, failed_at }
        },
        ApplyPhase::Unstaging { left, step, failed_at } => if !ok {
            ApplyPhase::Finished(failure_outcome(step, failed_at, false))
        } else if left == 1 {
            ApplyPhase::Finished(failure_outcome(step, failed_at, true))
        } else {
            ApplyPhase::Unstaging { left: (left - 1) as usize, step, failed_at }
        },
        ApplyPhase::Reverting { left } => if ok && left > 1 {
            ApplyPhase::Reverting { left: (left - 1) as usize }
        } else if has_backups {
            ApplyPhase::Cleaning { reverted: ok }
        } else {
            ApplyPhase::Finished(ApplyOutcome::PersistFailed { rolled_back: ok, backups_removed: true })
        },
        ApplyPhase::Cleaning { reverted } => ApplyPhase::Finished(
            ApplyOutcome::PersistFailed { rolled_back: reverted, backups_removed: ok },
        ),
        ApplyPhase::Finished(o) => ApplyPhase::Finished(o),
    }
}

/// The action of a phase.
pub open spec fn action_of(entries: Seq<EntryModel>, phase: ApplyPhase) -> ActionModel {
    match phase {
        ApplyPhase::Staging { done } => ActionModel::Rename {
            from: entries[done as int].original,
            to: entries[done as int].temp,
        },
        ApplyPhase::Committing { done } => ActionModel::Rename {
            from: entries[done as int].temp,
            to: entries[done as int].target,
        },
        ApplyPhase::Persisting => ActionModel::WriteJournal,
        ApplyPhase::Uncommitting { left, failed_at } => ActionModel::Restore {
            from: entries[left - 1].target,
            to: entries[left - 1].temp,
        },
        ApplyPhase::Unstaging { left, step, failed_at } => ActionModel::Restore {
            from: entries[left - 1].temp,
            to: entries[left - 1].original,
        },
        ApplyPhase::Reverting { left } => ActionModel::Restore {
            from: entries[left - 1].target,
            to: entries[left - 1].original,
        },
        ApplyPhase::Cleaning { reverted } => ActionModel::RemoveBackups,
        ApplyPhase::Finished(o) => ActionModel::Finish(o),
    }
}

/// A run of the apply engine: the staged renames, and where the run stands.
#[derive(Debug, Clone)]
pub struct ApplyRun {
    pub entries: Vec<StagedRename>,
    pub has_backups: bool,
    pub phase: ApplyPhase,
}

impl ApplyRun {
    /// The run has entries, and its phase fits their number.
    pub open spec fn well_formed(self) -> bool {
        self.entries@.len() >= 1 && phase_fits(self.entries@.len() as int, self.phase)
    }

    /// A run that has staged nothing yet.
    pub fn begin(entries: Vec<StagedRename>, has_backups: bool) -> (run: ApplyRun)
        requires
            entries@.len() >= 1,
        ensures
            run.well_formed(),
            run.entries == entries,
            run.has_backups == has_backups,
            run.phase == (ApplyPhase::Staging { done: 0 }),
    {
        ApplyRun { entries, has_backups, phase: ApplyPhase::Staging { done: 0 } }
    }

    /// What is to be done next.
    pub fn action(&self) -> (out: ApplyAction)
        requires
            self.well_formed(),
        ensures
            out@ == action_of(entry_models(self.entries@), self.phase),
    {
        match self.phase {
            ApplyPhase::Staging { done } => ApplyAction::Rename {
                from: self.entries[done].original_path.duplicate(),
                to: self.entries[done].temp_path.duplicate(),
            },
            ApplyPhase::Committing { done } => ApplyAction::Rename {
                from: self.entries[done].temp_path.duplicate(),
                to: self.entries[done].target_path.duplicate(),
            },
            ApplyPhase::Persisting => ApplyAction::WriteJournal,
            ApplyPhase::Uncommitting { left, failed_at } => ApplyAction::Restore {
                from: self.entries[left - 1].target_path.duplicate(),
                to: self.entries[left - 1].temp_path.duplicate(),
            },
            ApplyPhase::Unstaging { left, step, failed_at } => ApplyAction::Restore {
                from: self.entries[left - 1].temp_path.duplicate(),
                to: self.entries[left - 1].original_path.duplicate(),
            },
            ApplyPhase::Reverting { left } => ApplyAction::Restore {
                from: self.entries[left - 1].target_path.duplicate(),
                to: self.entries[left - 1].original_path.duplicate(),
            },
            ApplyPhase::Cleaning { reverted } => ApplyAction::RemoveBackups,
            ApplyPhase::Finished(o) => ApplyAction::Finish(o),
        }
    }

    /// Takes note of how the action ended, and moves on.
    pub fn advance(&mut self, event: StepEvent)
        requires
            old(self).well_formed(),
        ensures
            final(self).well_formed(),
            final(self).entries == old(self).entries,
            final(self).has_backups == old(self).has_backups,
            final(self).phase == next_phase(
                old(self).entries@.len() as int,
                old(self).has_backups,
                old(self).phase,
                event,
            ),
    {
        let n = self.entries.len();
        let ok = event != StepEvent::Failed;
        let next = match self.phase {
            ApplyPhase::Staging { done } => {
                if ok {
                    if done + 1 == n {
                        ApplyPhase::Committing { done: 0 }
                    } else {
                        ApplyPhase::Staging { done: done + 1 }
                    }
                } else if done == 0 {
                    ApplyPhase::Finished(ApplyOutcome::StageFailed { index: 0, rolled_back: true })
                } else {
                    ApplyPhase::Unstaging { left: done, step: FailedStep::Stage, failed_at: done }
                }
            },
            ApplyPhase::Committing { done } => {
                if ok {
                    if done + 1 == n {
                        ApplyPhase::Persisting
                    } else {
                        ApplyPhase::Committing { done: done + 1 }
                    }
                } else if done == 0 {
                    ApplyPhase::Unstaging { left: n, step: FailedStep::Commit, failed_at: 0 }
                } else {
                    ApplyPhase::Uncommitting { left: done, failed_at: done }
                }
            },
            ApplyPhase::Persisting => {
                if ok {
                    ApplyPhase::Finished(ApplyOutcome::Applied { applied: n })
                } else {
                    ApplyPhase::Reverting { left: n }
                }
            },
            ApplyPhase::Uncommitting { left, failed_at } => {
                if !ok {
                    ApplyPhase::Finished(
                        ApplyOutcome::CommitFailed { index: failed_at, rolled_back: false },
                    )
                } else if left == 1 {
                    ApplyPhase::Unstaging { left: n, step: FailedStep::Commit, failed_at }
                } else {
                    ApplyPhase::Uncommitting { left: left - 1, failed_at }
                }
            },
            ApplyPhase::Unstaging { left, step, failed_at } => {
                if !ok || left == 1 {
                    ApplyPhase::Finished(
                        match step {
                            FailedStep::Stage => ApplyOutcome::StageFailed {
                                index: failed_at,
                                rolled_back: ok,
                            },
                            FailedStep::Commit => ApplyOutcome::CommitFailed {
                                index: failed_at,
                                rolled_back: ok,
                            },
                        },
                    )
                } else {
                    ApplyPhase::Unstaging { left: left - 1, step, failed_at }
                }
            },
            ApplyPhase::Reverting { left } => {
                if ok && left > 1 {
                    ApplyPhase::Reverting { left: left - 1 }
                } else if self.has_backups {
                    ApplyPhase::Cleaning { reverted: ok }
                } else {
                    ApplyPhase::Finished(
                        ApplyOutcome::PersistFailed { rolled_back: ok, backups_removed: true },
                    )
                }
            },
            ApplyPhase::Cleaning { reverted } => ApplyPhase::Finished(
                ApplyOutcome::PersistFailed { rolled_back: reverted, backups_removed: ok },
            ),
            ApplyPhase::Finished(o) => ApplyPhase::Finished(o),
        };
        self.phase = next;
    }
}

/// The renames of the first `n` candidates that change their path.
pub open spec fn changes_upto(candidates: Seq<RenameCandidate>, n: int) -> Seq<OperationModel>
    decreases n,
{
    if n <= 0 {
        Seq::empty()
    } else if candidates[n - 1].changed {
        changes_upto(candidates, n - 1).push(
            (candidates[n - 1].original_path@, candidates[n - 1].target_path@),
        )
    } else {
        changes_upto(candidates, n - 1)
    }
}

/// The renames that a plan asks for: one for each candidate that changes its path, in the
/// order of the plan.
pub open spec fn changes_of(plan: RenamePlan) -> Seq<OperationModel> {
    changes_upto(plan.candidates@, plan.candidates@.len() as int)
}

/// Candidates that all keep their path ask for no rename.
pub proof fn lemma_no_changes(candidates: Seq<RenameCandidate>, n: int)
    requires
        0 <= n <= candidates.len(),
        forall|i: int| 0 <= i < n ==> !(#[trigger] candidates[i]).changed,
    ensures
        changes_upto(candidates, n).len() == 0,
    decreases n,
{
    if n > 0 {
        lemma_no_changes(candidates, n - 1);
    }
}

/// How applying a plan starts.
#[derive(Debug, Clone)]
pub enum ApplyStart {
    /// No candidate changes its path: nothing is to be done, and this is the result.
    Nothing(ApplyResult),
    /// These renames are to be validated and made.
    Changes(Vec<RenameOperation>),
}

/// Looks at what a plan asks for. A plan in which no candidate changes its path asks for
/// nothing: applying it ends at once, with no rename applied and every candidate unchanged.
pub fn start_apply(plan: &RenamePlan) -> (out: ApplyStart)
    ensures
        match out {
            ApplyStart::Nothing(result) => changes_of(*plan).len() == 0 && result == (ApplyResult {
                applied: 0,
                unchanged: plan.candidates@.len() as usize,
            }),
            ApplyStart::Changes(ops) => operation_models(ops@) == changes_of(*plan) && ops@.len()
                > 0,
        },
        (forall|i: int| 0 <= i < plan.candidates@.len() ==> !(#[trigger] plan.candidates@[i]).changed)
            ==> out is Nothing,
{
    let mut ops: Vec<RenameOperation> = Vec::new();
    let mut i: usize = 0;
    assert(operation_models(ops@) =~= changes_upto(plan.candidates@, 0));
    while i < plan.candidates.len()
        invariant
            i <= plan.candidates.len(),
            operation_models(ops@) == changes_upto(plan.candidates@, i as int),
        decreases plan.candidates.len() - i,
    {
        if plan.candidates[i].changed {
            let ghost before = operation_models(ops@);
            ops.push(
                RenameOperation {
                    from: plan.candidates[i].original_path.duplicate(),
                    to: plan.candidates[i].target_path.duplicate(),
                },
            );
            assert(operation_models(ops@) =~= before.push(
                (plan.candidates@[i as int].original_path@, plan.candidates@[i as int].target_path@),
            ));
        }
        i += 1;
    }
    proof {
        if forall|i: int| 0 <= i < plan.candidates@.len() ==> !(#[trigger] plan.candidates@[i]).changed {
            lemma_no_changes(plan.candidates@, plan.candidates@.len() as int);
        }
    }
    if ops.len() == 0 {
        ApplyStart::Nothing(ApplyResult { applied: 0, unchanged: plan.candidates.len() })
    } else {
        ApplyStart::Changes(ops)
    }
}

/// The result of a run that applied `applied` renames of a plan.
pub fn apply_result(plan: &RenamePlan, applied: usize) -> (out: ApplyResult)
    ensures
        out.applied == applied,
        out.unchanged == if plan.candidates@.len() >= applied {
            plan.candidates@.len() - applied
        } else {
            0
        },
{
    let total = plan.candidates.len();
    ApplyResult {
        applied,
        unchanged: if total >= applied {
            total - applied
        } else {
            0
        },
    }
}

/// The name of the temporary file for a file named `file_name`: a fixed beginning, the time
/// `now` in milliseconds, the position of the file in the run, and the file's name.
pub open spec fn temp_name(file_name: Seq<char>, index: nat, now: nat) -> Seq<char> {
    ".fphoto_tmp_"@ + zero_padded(now, 1) + seq!['_'] + zero_padded(index, 1) + seq!['_']
        + file_name
}

/// The path of the temporary file for the file at `original`: beside it where it has a parent
/// directory, else in the current directory; a path without a file name counts as `file`.
pub open spec fn temp_path_of(original: Seq<PartModel>, index: nat, now: nat) -> Seq<PartModel> {
    let parent = match parent_of(original) {
        Some(p) => p,
        None => seq![(2int, Seq::<char>::empty())],
    };
    let file_name = match file_name_of(original) {
        Some(n) => n,
        None => "file"@,
    };
    joined(parent, name_path(temp_name(file_name, index, now)))
}

/// The path of the temporary file for the entry at `index` of a run that starts at the time `now`,
/// in milliseconds.
pub fn temp_path_for(original_path: &FilePath, index: usize, now: u128) -> (out: FilePath)
    ensures
        out@ == temp_path_of(original_path@, index as nat, now as nat),
{
    let parent = match original_path.parent() {
        Some(p) => p,
        None => {
            let mut p = FilePath::new();
            p.parts.push(crate::paths::PathPart::Current);
            assert(p@ =~= seq![(2int, Seq::<char>::empty())]);
            p
        },
    };
    let file_name = match original_path.file_name() {
        Some(n) => n,
        None => "file".to_string(),
    };
    let mut name = chars_of(".fphoto_tmp_");
    push_padded(&mut name, now, 1);
    name.push('_');
    push_padded(&mut name, index as u128, 1);
    name.push('_');
    append_chars(&mut name, &chars_of(file_name.as_str()));
    proof {
        let a = ".fphoto_tmp_"@ + zero_padded(now as nat, 1);
        assert(a.push('_') == a + seq!['_']);
        let b = a + seq!['_'] + zero_padded(index as nat, 1);
        assert(b.push('_') == b + seq!['_']);
    }
    parent.join_name(string_of(&name).as_str())
}

/// The staged renames for a list of renames: each with its temporary path.
pub open spec fn staged_for(ops: Seq<RenameOperation>, now: nat) -> Seq<EntryModel> {
    Seq::new(
        ops.len(),
        |i: int|
            EntryModel {
                original: ops[i].from@,
                target: ops[i].to@,
                temp: temp_path_of(ops[i].from@, i as nat, now),
            },
    )
}

/// Gives each rename its temporary path, for a run that starts at the time `now`.
pub fn stage_entries(operations: &Vec<RenameOperation>, now: u128) -> (out: Vec<StagedRename>)
    ensures
        entry_models(out@) == staged_for(operations@, now as nat),
{
    let mut out: Vec<StagedRename> = Vec::new();
    let mut i: usize = 0;
    while i < operations.len()
        invariant
            i <= operations.len(),
            out@.len() == i,
            forall|k: int|
                0 <= k < i ==> (#[trigger] out@[k])@ == staged_for(operations@, now as nat)[k],
        decreases operations.len() - i,
    {
        out.push(
            StagedRename {
                original_path: operations[i].from.duplicate(),
                target_path: operations[i].to.duplicate(),
                temp_path: temp_path_for(&operations[i].from, i, now),
            },
        );
        i += 1;
    }
    assert(entry_models(out@) =~= staged_for(operations@, now as nat));
    out
}

proof fn lemma_temp_names_differ(first: Seq<char>, second: Seq<char>, i: nat, j: nat, now: nat)
    requires
        temp_name(first, i, now) == temp_name(second, j, now),
    ensures
        i == j,
{
    lemma_decimal(i, i);
    lemma_decimal(j, j);
    lemma_decimal(now, now);
    let head = ".fphoto_tmp_"@ + zero_padded(now, 1) + seq!['_'];
    let di = decimal(i);
    let dj = decimal(j);
    assert(zero_padded(i, 1) =~= di);
    assert(zero_padded(j, 1) =~= dj);
    let a = temp_name(first, i, now);
    let b = temp_name(second, j, now);
    assert(a =~= head + (di + seq!['_'] + first));
    assert(b =~= head + (dj + seq!['_'] + second));
    let ta = di + seq!['_'] + first;
    let tb = dj + seq!['_'] + second;
    assert(ta =~= a.skip(head.len() as int));
    assert(tb =~= b.skip(head.len() as int));
    assert(ta == tb);
    if di.len() < dj.len() {
        assert(ta[di.len() as int] == '_');
        assert(tb[di.len() as int] == dj[di.len() as int]);
    } else if dj.len() < di.len() {
        assert(tb[dj.len() as int] == '_');
        assert(ta[dj.len() as int] == di[dj.len() as int]);
    } else {
        assert(di =~= ta.take(di.len() as int));
        assert(dj =~= tb.take(dj.len() as int));
        lemma_decimal_is_injective(i, j);
    }
}

proof fn lemma_temp_path_ends_in_its_name(original: Seq<PartModel>, i: nat, now: nat)
    ensures
        temp_path_of(original, i, now).len() > 0,
        temp_path_of(original, i, now).last() == (4int, temp_name(
            match file_name_of(original) {
                Some(n) => n,
                None => "file"@,
            },
            i,
            now,
        )),
{
    reveal_strlit(".fphoto_tmp_");
    let file_name = match file_name_of(original) {
        Some(n) => n,
        None => "file"@,
    };
    let name = temp_name(file_name, i, now);
    assert(name.len() >= 12);
    assert(name != seq!['.']) by {
        assert(seq!['.'].len() == 1);
    }
    assert(name != seq!['.', '.']) by {
        assert(seq!['.', '.'].len() == 2);
    }
    assert(name_path(name) == seq![(4int, name)]);
}

/// The temporary paths of a run differ from each other: each holds the position of its entry.
pub proof fn lemma_temporary_paths_differ(ops: Seq<RenameOperation>, now: nat, i: int, j: int)
    requires
        0 <= i < j < ops.len(),
    ensures
        staged_for(ops, now)[i].temp != staged_for(ops, now)[j].temp,
{
    lemma_temp_path_ends_in_its_name(ops[i].from@, i as nat, now);
    lemma_temp_path_ends_in_its_name(ops[j].from@, j as nat, now);
    if staged_for(ops, now)[i].temp == staged_for(ops, now)[j].temp {
        let first = match file_name_of(ops[i].from@) {
            Some(n) => n,
            None => "file"@,
        };
        let second = match file_name_of(ops[j].from@) {
            Some(n) => n,
            None => "file"@,
        };
        lemma_temp_names_differ(first, second, i as nat, j as nat, now);
    }
}

/// What the journal of a run records.
#[derive(Debug, Clone)]
pub struct UndoLog {
    pub operations: Vec<RenameOperation>,
    pub backup_originals: bool,
    pub jpg_root: Option<FilePath>,
    pub jpg_roots: Vec<FilePath>,
    pub backup_paths: Vec<FilePath>,
}

fn duplicate_operations(list: &Vec<RenameOperation>) -> (out: Vec<RenameOperation>)
    ensures
        operation_models(out@) == operation_models(list@),
{
    let mut out: Vec<RenameOperation> = Vec::new();
    let mut i: usize = 0;
    assert(operation_models(out@) =~= operation_models(list@).take(0));
    while i < list.len()
        invariant
            i <= list.len(),
            operation_models(out@) == operation_models(list@).take(i as int),
        decreases list.len() - i,
    {
        let ghost before = operation_models(out@);
        out.push(RenameOperation { from: list[i].from.duplicate(), to: list[i].to.duplicate() });
        assert(operation_models(out@) =~= before.push(list@[i as int]@));
        assert(before.push(list@[i as int]@) =~= operation_models(list@).take(i + 1));
        i += 1;
    }
    assert(operation_models(list@).take(list.len() as int) == operation_models(list@));
    out
}

/// The journal of a run: every rename that was made, whether originals were backed up, the
/// root and the roots of the plan, and the backups that were made.
pub fn journal_for(
    operations: &Vec<RenameOperation>,
    plan: &RenamePlan,
    options: &ApplyOptions,
    backup_paths: &Vec<FilePath>,
) -> (log: UndoLog)
    ensures
        operation_models(log.operations@) == operation_models(operations@),
        log.backup_originals == options.backup_originals,
        path_model(log.jpg_root) == Some(plan.jpg_root@),
        path_models(log.jpg_roots@) == declared_roots(*plan),
        path_models(log.backup_paths@) == path_models(backup_paths@),
{
    UndoLog {
        operations: duplicate_operations(operations),
        backup_originals: options.backup_originals,
        jpg_root: Some(plan.jpg_root.duplicate()),
        jpg_roots: plan_jpg_roots(plan),
        backup_paths: copy_paths(backup_paths),
    }
}

} // verus!
