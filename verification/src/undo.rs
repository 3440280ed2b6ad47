use crate::apply::{
    canonicalize_jpg_roots, governing, operation_models, pick_most_specific_root,
    resolved_roots_upto, roots_result, ApplyError, ApplyErrorKind, EntryModel, OperationModel,
    RenameOperation, RootFacts, StepEvent, UndoLog,
};
use crate::atomicity::{
    applied, entries_fit, law_apply_moves_every_file, lemma_shift_back, moved, run_from, Disk,
    Faults, Files, Which,
};
use crate::backup::backup_folder;
use crate::matcher::path_model;
use crate::paths::{
    copy_paths, file_name_of, joined, name_path, parent_of, path_models, paths_contain,
    starts_with, FilePath, PartModel,
};
use vstd::prelude::*;

verus! {

/// How undoing a journal ended.
#[derive(Debug, Clone, Copy, PartialEq, Eq, Structural)]
pub enum UndoOutcome {
    /// All renames that could be reversed are reversed, the recorded backups are removed, and
    /// the journal is deleted. `restored` renames were reversed; those whose file was no longer
    /// there were passed over.
    Undone { restored: usize },
    /// Reversing the rename at `index` failed, after `restored` were reversed.
    RestoreFailed { index: usize, restored: usize },
    /// The recorded backups could not be removed.
    CleanupFailed { restored: usize },
    /// The journal could not be deleted.
    DeleteFailed { restored: usize },
}

/// Where undoing a journal stands.
#[derive(Debug, Clone, Copy, PartialEq, Eq, Structural)]
pub enum UndoPhase {
    /// The first `left` renames are still to be reversed, the last one first; `restored` were
    /// reversed.
    Restoring { left: usize, restored: usize },
    /// The recorded backups are to be removed.
    Cleaning { restored: usize },
    /// The journal is to be deleted.
    Deleting { restored: usize },
    Finished(UndoOutcome),
}

/// What is to be done next.
#[derive(Debug, Clone)]
pub enum UndoAction {
    /// Rename `from` to `to` where `from` exists; else do nothing.
    Restore { from: FilePath, to: FilePath },
    /// Remove the recorded backups, and the directories that they leave empty.
    RemoveBackups,
    /// Delete the journal.
    DeleteJournal,
    /// Nothing: the run has ended.
    Finish(UndoOutcome),
}

/// An action as paths.
pub enum UndoActionModel {
    Restore { from: Seq<PartModel>, to: Seq<PartModel> },
    RemoveBackups,
    DeleteJournal,
    Finish(UndoOutcome),
}

impl View for UndoAction {
    type V = UndoActionModel;

    open spec fn view(&self) -> UndoActionModel {
        match self {
            UndoAction::Restore { from, to } => UndoActionModel::Restore { from: from@, to: to@ },
            UndoAction::RemoveBackups => UndoActionModel::RemoveBackups,
            UndoAction::DeleteJournal => UndoActionModel::DeleteJournal,
            UndoAction::Finish(o) => UndoActionModel::Finish(*o),
        }
    }
}

/// The phase in which undoing starts, or goes on, with `left` renames to reverse.
pub open spec fn restoring_or_after(left: int, restored: usize, has_backups: bool) -> UndoPhase {
    if left > 0 {
        UndoPhase::Restoring { left: left as usize, restored }
    } else if has_backups {
        UndoPhase::Cleaning { restored }
    } else {
        UndoPhase::Deleting { restored }
    }
}

/// The phase that follows `phase` when its action ended with `event`. A rename whose file is
/// no longer there is passed over and not counted; any failure ends the run.
pub open spec fn next_undo_phase(has_backups: bool, phase: UndoPhase, event: StepEvent) -> UndoPhase {
    match phase {
        UndoPhase::Restoring { left, restored } => match event {
            StepEvent::Failed => UndoPhase::Finished(
                UndoOutcome::RestoreFailed { index: (left - 1) as usize, restored },
            ),
            StepEvent::Skipped => restoring_or_after(left - 1, restored, has_backups),
            StepEvent::Done => restoring_or_after(left - 1, (restored + 1) as usize, has_backups),
        },
        UndoPhase::Cleaning { restored } => if event == StepEvent::Failed {
            UndoPhase::Finished(UndoOutcome::CleanupFailed { restored })
        } else {
            UndoPhase::Deleting { restored }
        },
        UndoPhase::Deleting { restored } => if event == StepEvent::Failed {
            UndoPhase::Finished(UndoOutcome::DeleteFailed { restored })
        } else {
            UndoPhase::Finished(UndoOutcome::Undone { restored })
        },
        UndoPhase::Finished(o) => UndoPhase::Finished(o),
    }
}

/// The action of a phase.
pub open spec fn undo_action_of(ops: Seq<OperationModel>, phase: UndoPhase) -> UndoActionModel {
    match phase {
        UndoPhase::Restoring { left, restored } => UndoActionModel::Restore {
            from: ops[left - 1].1,
            to: ops[left - 1].0,
        },
        UndoPhase::Cleaning { restored } => UndoActionModel::RemoveBackups,
        UndoPhase::Deleting { restored } => UndoActionModel::DeleteJournal,
        UndoPhase::Finished(o) => UndoActionModel::Finish(o),
    }
}

/// The phase fits a journal of `n` renames.
pub open spec fn undo_phase_fits(n: int, phase: UndoPhase) -> bool {
    match phase {
        UndoPhase::Restoring { left, restored } => 1 <= left <= n && restored + left <= n,
        UndoPhase::Cleaning { restored } => restored <= n,
        UndoPhase::Deleting { restored } => restored <= n,
        UndoPhase::Finished(_) => true,
    }
}

/// A run of the undo engine: the renames of the journal, and where the run stands.
#[derive(Debug, Clone)]
pub struct UndoRun {
    pub operations: Vec<RenameOperation>,
    pub has_backups: bool,
    pub phase: UndoPhase,
}

impl UndoRun {
    /// The phase of the run fits the number of its renames.
    pub open spec fn well_formed(self) -> bool {
        undo_phase_fits(self.operations@.len() as int, self.phase)
    }

    /// A run that has reversed nothing yet.
    pub fn begin(operations: Vec<RenameOperation>, has_backups: bool) -> (run: UndoRun)
        ensures
            run.well_formed(),
            run.operations == operations,
            run.has_backups == has_backups,
            run.phase == restoring_or_after(operations@.len() as int, 0, has_backups),
    {
        let left = operations.len();
        let phase = if left > 0 {
            UndoPhase::Restoring { left, restored: 0 }
        } else if has_backups {
            UndoPhase::Cleaning { restored: 0 }
        } else {
            UndoPhase::Deleting { restored: 0 }
        };
        UndoRun { operations, has_backups, phase }
    }

    /// What is to be done next.
    pub fn action(&self) -> (out: UndoAction)
        requires
            self.well_formed(),
        ensures
            out@ == undo_action_of(operation_models(self.operations@), self.phase),
    {
        match self.phase {
            UndoPhase::Restoring { left, restored } => UndoAction::Restore {
                from: self.operations[left - 1].to.duplicate(),
                to: self.operations[left - 1].from.duplicate(),
            },
            UndoPhase::Cleaning { restored } => UndoAction::RemoveBackups,
            UndoPhase::Deleting { restored } => UndoAction::DeleteJournal,
            UndoPhase::Finished(o) => UndoAction::Finish(o),
        }
    }

    /// Takes note of how the action ended, and moves on.
    pub fn advance(&mut self, event: StepEvent)
        requires
            old(self).well_formed(),
        ensures
            final(self).well_formed(),
            final(self).operations == old(self).operations,
            final(self).has_backups == old(self).has_backups,
            final(self).phase == next_undo_phase(old(self).has_backups, old(self).phase, event),
    {
        let next = match self.phase {
            UndoPhase::Restoring { left, restored } => {
                match event {
                    StepEvent::Failed => UndoPhase::Finished(
                        UndoOutcome::RestoreFailed { index: left - 1, restored },
                    ),
                    _ => {
                        let n = self.operations.len();
                        assert(restored + left <= n);
                        let count = if event == StepEvent::Done {
                            restored + 1
                        } else {
                            restored
                        };
                        if left > 1 {
                            UndoPhase::Restoring { left: left - 1, restored: count }
                        } else if self.has_backups {
                            UndoPhase::Cleaning { restored: count }
                        } else {
                            UndoPhase::Deleting { restored: count }
                        }
                    },
                }
            },
            UndoPhase::Cleaning { restored } => {
                if event == StepEvent::Failed {
                    UndoPhase::Finished(UndoOutcome::CleanupFailed { restored })
                } else {
                    UndoPhase::Deleting { restored }
                }
            },
            UndoPhase::Deleting { restored } => {
                if event == StepEvent::Failed {
                    UndoPhase::Finished(UndoOutcome::DeleteFailed { restored })
                } else {
                    UndoPhase::Finished(UndoOutcome::Undone { restored })
                }
            },
            UndoPhase::Finished(o) => UndoPhase::Finished(o),
        };
        self.phase = next;
    }
}

/// What an action of undoing does to a disk, and how it ends. Restoring a file that is not
/// there does nothing; a rename to a blocked path fails; an action that fails changes nothing.
pub open spec fn perform_undo(action: UndoActionModel, disk: Disk, faults: Faults) -> (
    Disk,
    StepEvent,
) {
    match action {
        UndoActionModel::Restore { from, to } => if !disk.files.contains_key(from) {
            (disk, StepEvent::Skipped)
        } else if faults.blocked.contains(to) {
            (disk, StepEvent::Failed)
        } else {
            (Disk { files: moved(disk.files, from, to), ..disk }, StepEvent::Done)
        },
        UndoActionModel::RemoveBackups => if faults.cleanup_fails {
            (disk, StepEvent::Failed)
        } else {
            (disk, StepEvent::Done)
        },
        UndoActionModel::DeleteJournal => if faults.journal_fails {
            (disk, StepEvent::Failed)
        } else {
            (Disk { journal: false, ..disk }, StepEvent::Done)
        },
        UndoActionModel::Finish(_) => (disk, StepEvent::Done),
    }
}

/// Where a run of the undo engine stands, and what the disk holds, after at most `fuel`
/// actions were performed from the phase `phase` on.
pub open spec fn run_undo_from(
    ops: Seq<OperationModel>,
    has_backups: bool,
    phase: UndoPhase,
    disk: Disk,
    faults: Faults,
    fuel: nat,
) -> (UndoPhase, Disk)
    decreases fuel,
{
    if fuel == 0 || phase is Finished {
        (phase, disk)
    } else {
        let (after, event) = perform_undo(undo_action_of(ops, phase), disk, faults);
        run_undo_from(
            ops,
            has_backups,
            next_undo_phase(has_backups, phase, event),
            after,
            faults,
            (fuel - 1) as nat,
        )
    }
}

/// The renames that a journal records for staged entries: from each original to its target.
pub open spec fn recorded(entries: Seq<EntryModel>) -> Seq<OperationModel> {
    entries.map_values(|e: EntryModel| (e.original, e.target))
}

proof fn lemma_undo_step(
    ops: Seq<OperationModel>,
    has_backups: bool,
    phase: UndoPhase,
    disk: Disk,
    faults: Faults,
    fuel: nat,
)
    requires
        fuel >= 1,
        !(phase is Finished),
    ensures
        run_undo_from(ops, has_backups, phase, disk, faults, fuel) == run_undo_from(
            ops,
            has_backups,
            next_undo_phase(
                has_backups,
                phase,
                perform_undo(undo_action_of(ops, phase), disk, faults).1,
            ),
            perform_undo(undo_action_of(ops, phase), disk, faults).0,
            faults,
            (fuel - 1) as nat,
        ),
{
}

proof fn lemma_undo_finished(
    ops: Seq<OperationModel>,
    has_backups: bool,
    outcome: UndoOutcome,
    disk: Disk,
    faults: Faults,
    fuel: nat,
)
    ensures
        run_undo_from(ops, has_backups, UndoPhase::Finished(outcome), disk, faults, fuel) == (
            UndoPhase::Finished(outcome),
            disk,
        ),
{
}

proof fn lemma_undo_tail(
    ops: Seq<OperationModel>,
    has_backups: bool,
    restored: usize,
    disk: Disk,
    faults: Faults,
    fuel: nat,
)
    requires
        !faults.cleanup_fails,
        !faults.journal_fails,
        fuel >= 2,
    ensures
        run_undo_from(
            ops,
            has_backups,
            restoring_or_after(0, restored, has_backups),
            disk,
            faults,
            fuel,
        ) == (
            UndoPhase::Finished(UndoOutcome::Undone { restored }),
            Disk { journal: false, ..disk },
        ),
{
    let done = UndoOutcome::Undone { restored };
    let after = Disk { journal: false, ..disk };
    if has_backups {
        lemma_undo_step(ops, has_backups, UndoPhase::Cleaning { restored }, disk, faults, fuel);
        lemma_undo_step(
            ops,
            has_backups,
            UndoPhase::Deleting { restored },
            disk,
            faults,
            (fuel - 1) as nat,
        );
        lemma_undo_finished(ops, has_backups, done, after, faults, (fuel - 2) as nat);
    } else {
        lemma_undo_step(ops, has_backups, UndoPhase::Deleting { restored }, disk, faults, fuel);
        lemma_undo_finished(ops, has_backups, done, after, faults, (fuel - 1) as nat);
    }
}

proof fn lemma_run_restoring(
    entries: Seq<EntryModel>,
    has_backups: bool,
    files: Files,
    journal: bool,
    faults: Faults,
    left: int,
    fuel: nat,
)
    requires
        entries_fit(entries, files, faults.blocked),
        !faults.cleanup_fails,
        !faults.journal_fails,
        1 <= left <= entries.len(),
        fuel >= left + 2,
    ensures
        run_undo_from(
            recorded(entries),
            has_backups,
            UndoPhase::Restoring { left: left as usize, restored: (entries.len() - left) as usize },
            Disk { files: applied(files, entries, left), journal },
            faults,
            fuel,
        ) == (
            UndoPhase::Finished(UndoOutcome::Undone { restored: entries.len() as usize }),
            Disk { files, journal: false },
        ),
    decreases left,
{
    let n = entries.len() as int;
    let ops = recorded(entries);
    lemma_shift_back(files, entries, left, Which::Original, Which::Target);
    let now = Disk { files: applied(files, entries, left), journal };
    let phase = UndoPhase::Restoring { left: left as usize, restored: (n - left) as usize };
    assert(ops[left - 1] == (entries[left - 1].original, entries[left - 1].target));
    assert(!faults.blocked.contains(entries[left - 1].original));
    let (after, event) = perform_undo(undo_action_of(ops, phase), now, faults);
    assert(event == StepEvent::Done);
    assert(after == Disk { files: applied(files, entries, left - 1), journal });
    lemma_undo_step(ops, has_backups, phase, now, faults, fuel);
    if left > 1 {
        lemma_run_restoring(entries, has_backups, files, journal, faults, left - 1, (fuel - 1) as nat);
    } else {
        lemma_undo_tail(ops, has_backups, n as usize, after, faults, (fuel - 1) as nat);
    }
}

/// Undoing gives back what applying took: from a disk with every entry at its target, the run
/// of the journal's renames ends with all of them reversed, every file at its original path
/// with what it held, and the journal deleted.
pub proof fn law_undo_restores_every_file(
    entries: Seq<EntryModel>,
    has_backups: bool,
    files: Files,
    faults: Faults,
    fuel: nat,
)
    requires
        entries_fit(entries, files, faults.blocked),
        !faults.cleanup_fails,
        !faults.journal_fails,
        fuel >= entries.len() + 2,
    ensures
        run_undo_from(
            recorded(entries),
            has_backups,
            restoring_or_after(entries.len() as int, 0, has_backups),
            Disk { files: applied(files, entries, entries.len() as int), journal: true },
            faults,
            fuel,
        ) == (
            UndoPhase::Finished(UndoOutcome::Undone { restored: entries.len() as usize }),
            Disk { files, journal: false },
        ),
{
    lemma_run_restoring(entries, has_backups, files, true, faults, entries.len() as int, fuel);
}

/// Applying and then undoing leaves the disk as it was, but for the journal, which is gone:
/// where nothing fails, the run of the apply engine puts every file at its target, and the run
/// of the undo engine over the journal's renames puts every file back.
pub proof fn law_apply_then_undo_restores_the_disk(
    entries: Seq<EntryModel>,
    has_backups: bool,
    disk: Disk,
    faults: Faults,
    fuel: nat,
)
    requires
        entries_fit(entries, disk.files, faults.blocked),
        forall|i: int|
            0 <= i < entries.len() ==> !faults.blocked.contains((#[trigger] entries[i]).target),
        !faults.journal_fails,
        !faults.cleanup_fails,
        fuel >= 2 * entries.len() + 2,
    ensures
        ({
            let after_apply = run_from(
                entries,
                has_backups,
                crate::apply::ApplyPhase::Staging { done: 0 },
                disk,
                faults,
                fuel,
            );
            let after_undo = run_undo_from(
                recorded(entries),
                has_backups,
                restoring_or_after(entries.len() as int, 0, has_backups),
                after_apply.1,
                faults,
                fuel,
            );
            &&& after_apply.0 == crate::apply::ApplyPhase::Finished(
                crate::apply::ApplyOutcome::Applied { applied: entries.len() as usize },
            )
            &&& after_undo.0 == UndoPhase::Finished(
                UndoOutcome::Undone { restored: entries.len() as usize },
            )
            &&& after_undo.1 == Disk { files: disk.files, journal: false }
        }),
{
    law_apply_moves_every_file(entries, has_backups, disk, faults, fuel);
    law_undo_restores_every_file(entries, has_backups, disk.files, faults, fuel);
}

/// What the disk says of one recorded rename: the resolved parent directories of its two
/// paths; none where one cannot be resolved.
#[derive(Debug, Clone)]
pub struct OperationFacts {
    pub from_parent_canonical: Option<FilePath>,
    pub to_parent_canonical: Option<FilePath>,
}

/// What the disk says of one recorded backup.
#[derive(Debug, Clone)]
pub struct BackupFacts {
    pub exists: bool,
    pub is_dir: bool,
    pub parent_canonical: Option<FilePath>,
}

/// A journal that was checked: its renames and backups with their parent directories in
/// resolved form, and its roots resolved.
#[derive(Debug, Clone)]
pub struct ValidatedUndoLog {
    pub operations: Vec<RenameOperation>,
    pub jpg_roots: Vec<FilePath>,
    pub backup_paths: Vec<FilePath>,
}

/// The roots that a journal records: its list of roots, or its single root where the list is
/// empty.
pub open spec fn recorded_roots(log: UndoLog) -> Seq<Seq<PartModel>> {
    if log.jpg_roots@.len() > 0 {
        path_models(log.jpg_roots@)
    } else if log.jpg_root is Some {
        seq![log.jpg_root->0@]
    } else {
        Seq::empty()
    }
}

/// The roots that a journal records.
pub fn undo_log_roots(log: &UndoLog) -> (out: Vec<FilePath>)
    ensures
        path_models(out@) == recorded_roots(*log),
{
    if log.jpg_roots.len() > 0 {
        return copy_paths(&log.jpg_roots);
    }
    let mut out: Vec<FilePath> = Vec::new();
    match &log.jpg_root {
        Some(root) => {
            out.push(root.duplicate());
            assert(path_models(out@) =~= seq![root@]);
        },
        None => {
            assert(path_models(out@) =~= Seq::<Seq<PartModel>>::empty());
        },
    }
    out
}

/// Why a recorded path is refused; none where it is accepted.
pub open spec fn normal_fault(
    path: Seq<PartModel>,
    roots: Seq<Seq<PartModel>>,
    parent_canonical: Option<Seq<PartModel>>,
) -> Option<ApplyErrorKind> {
    if parent_of(path) is None {
        Some(ApplyErrorKind::NoParent)
    } else if file_name_of(path) is None {
        Some(ApplyErrorKind::NoFileName)
    } else if parent_canonical is None {
        Some(ApplyErrorKind::ParentUnresolved)
    } else if governing(parent_canonical->0, roots) is None {
        Some(ApplyErrorKind::OutsideRecordedRoots)
    } else {
        None
    }
}

/// A recorded path with its parent directory in resolved form.
pub open spec fn normal_form(path: Seq<PartModel>, parent_canonical: Option<Seq<PartModel>>) -> Seq<
    PartModel,
> {
    joined(parent_canonical->0, name_path(file_name_of(path)->0))
}

/// A recorded path with its parent directory in resolved form. A path without a parent
/// directory or a file name, one whose parent directory cannot be resolved, and one whose
/// parent directory lies below none of the roots, is an error.
pub fn normalize_path_within_roots(
    path: &FilePath,
    roots: &Vec<FilePath>,
    parent_canonical: Option<&FilePath>,
) -> (out: Result<FilePath, ApplyError>)
    ensures
        match out {
            Ok(p) => normal_fault(path@, path_models(roots@), path_model_ref(parent_canonical))
                is None && p@ == normal_form(path@, path_model_ref(parent_canonical)),
            Err(e) => normal_fault(path@, path_models(roots@), path_model_ref(parent_canonical))
                == Some(e.kind) && e.path@ == if e.kind == ApplyErrorKind::ParentUnresolved {
                parent_of(path@)->0
            } else {
                path@
            },
        },
{
    let parent = match path.parent() {
        Some(p) => p,
        None => {
            return Err(ApplyError { kind: ApplyErrorKind::NoParent, path: path.duplicate() });
        },
    };
    let file_name = match path.file_name() {
        Some(n) => n,
        None => {
            return Err(ApplyError { kind: ApplyErrorKind::NoFileName, path: path.duplicate() });
        },
    };
    let canonical_parent = match parent_canonical {
        Some(c) => c,
        None => {
            return Err(ApplyError { kind: ApplyErrorKind::ParentUnresolved, path: parent });
        },
    };
    if pick_most_specific_root(canonical_parent, roots).is_none() {
        return Err(
            ApplyError { kind: ApplyErrorKind::OutsideRecordedRoots, path: path.duplicate() },
        );
    }
    Ok(canonical_parent.join_name(file_name.as_str()))
}

/// The path of an optional reference to a path.
pub open spec fn path_model_ref(p: Option<&FilePath>) -> Option<Seq<PartModel>> {
    match p {
        Some(path) => Some(path@),
        None => None,
    }
}

/// The resolved parent directory of the source of the rename at `i`.
pub open spec fn from_parent(facts: Seq<OperationFacts>, i: int) -> Option<Seq<PartModel>> {
    if 0 <= i < facts.len() {
        path_model(facts[i].from_parent_canonical)
    } else {
        None
    }
}

/// The resolved parent directory of the destination of the rename at `i`.
pub open spec fn to_parent(facts: Seq<OperationFacts>, i: int) -> Option<Seq<PartModel>> {
    if 0 <= i < facts.len() {
        path_model(facts[i].to_parent_canonical)
    } else {
        None
    }
}

/// The rename at `i` with the parent directories of its paths in resolved form.
pub open spec fn normal_operation(
    ops: Seq<RenameOperation>,
    facts: Seq<OperationFacts>,
    i: int,
) -> OperationModel {
    (
        normal_form(ops[i].from@, from_parent(facts, i)),
        normal_form(ops[i].to@, to_parent(facts, i)),
    )
}

/// Why the recorded rename at `i` is refused; none where it is accepted.
pub open spec fn recorded_fault(
    roots: Seq<Seq<PartModel>>,
    ops: Seq<RenameOperation>,
    facts: Seq<OperationFacts>,
    i: int,
) -> Option<ApplyErrorKind> {
    if normal_fault(ops[i].from@, roots, from_parent(facts, i)) is Some {
        normal_fault(ops[i].from@, roots, from_parent(facts, i))
    } else if normal_fault(ops[i].to@, roots, to_parent(facts, i)) is Some {
        normal_fault(ops[i].to@, roots, to_parent(facts, i))
    } else if exists|j: int|
        0 <= j < i && (#[trigger] normal_operation(ops, facts, j)).0 == normal_operation(
            ops,
            facts,
            i,
        ).0 {
        Some(ApplyErrorKind::DuplicateOriginal)
    } else if exists|j: int|
        0 <= j < i && (#[trigger] normal_operation(ops, facts, j)).1 == normal_operation(
            ops,
            facts,
            i,
        ).1 {
        Some(ApplyErrorKind::DuplicateTarget)
    } else {
        None
    }
}

/// The path that a fault of a recorded path is about: its parent directory where that cannot be
/// resolved, else the path.
pub open spec fn normal_fault_subject(
    path: Seq<PartModel>,
    roots: Seq<Seq<PartModel>>,
    parent_canonical: Option<Seq<PartModel>>,
) -> Seq<PartModel> {
    if normal_fault(path, roots, parent_canonical) == Some(ApplyErrorKind::ParentUnresolved) {
        parent_of(path)->0
    } else {
        path
    }
}

/// The path that the fault of the recorded rename at `i` is about: the path that is refused,
/// or the resolved form of the path that comes twice.
pub open spec fn recorded_fault_subject(
    roots: Seq<Seq<PartModel>>,
    ops: Seq<RenameOperation>,
    facts: Seq<OperationFacts>,
    i: int,
) -> Seq<PartModel> {
    if normal_fault(ops[i].from@, roots, from_parent(facts, i)) is Some {
        normal_fault_subject(ops[i].from@, roots, from_parent(facts, i))
    } else if normal_fault(ops[i].to@, roots, to_parent(facts, i)) is Some {
        normal_fault_subject(ops[i].to@, roots, to_parent(facts, i))
    } else if recorded_fault(roots, ops, facts, i) == Some(ApplyErrorKind::DuplicateOriginal) {
        normal_operation(ops, facts, i).0
    } else {
        normal_operation(ops, facts, i).1
    }
}

/// The position of the first recorded rename, at or after `i`, that is refused; the number of
/// renames where none is.
pub open spec fn first_recorded_fault(
    roots: Seq<Seq<PartModel>>,
    ops: Seq<RenameOperation>,
    facts: Seq<OperationFacts>,
    i: int,
) -> int
    decreases ops.len() - i,
{
    if i < 0 || i >= ops.len() || recorded_fault(roots, ops, facts, i) is Some {
        i
    } else {
        first_recorded_fault(roots, ops, facts, i + 1)
    }
}

/// The recorded renames in resolved form.
pub open spec fn normal_operations(ops: Seq<RenameOperation>, facts: Seq<OperationFacts>) -> Seq<
    OperationModel,
> {
    Seq::new(ops.len(), |i: int| normal_operation(ops, facts, i))
}

/// The backup folders of roots.
pub open spec fn backup_folders(roots: Seq<Seq<PartModel>>) -> Seq<Seq<PartModel>> {
    roots.map_values(|r: Seq<PartModel>| backup_folder(r))
}

/// What the disk says of the backup at `i`; of one that is not known, that it is not there.
pub open spec fn backup_exists(facts: Seq<BackupFacts>, i: int) -> bool {
    0 <= i < facts.len() && facts[i].exists
}

/// The first `n` recorded backups that are still there, in resolved form; none where one of
/// them is a directory or is refused as a path.
pub open spec fn kept_backups_upto(
    folders: Seq<Seq<PartModel>>,
    paths: Seq<FilePath>,
    facts: Seq<BackupFacts>,
    n: int,
) -> Option<Seq<Seq<PartModel>>>
    decreases n,
{
    if n <= 0 {
        Some(Seq::empty())
    } else {
        match kept_backups_upto(folders, paths, facts, n - 1) {
            Some(kept) => if !backup_exists(facts, n - 1) {
                Some(kept)
            } else if facts[n - 1].is_dir || normal_fault(
                paths[n - 1]@,
                folders,
                path_model(facts[n - 1].parent_canonical),
            ) is Some {
                None
            } else {
                Some(
                    kept.push(normal_form(paths[n - 1]@, path_model(facts[n - 1].parent_canonical))),
                )
            },
            None => None,
        }
    }
}

/// Why the recorded backup at `i`, which is still there, is refused.
pub open spec fn backup_entry_fault(
    folders: Seq<Seq<PartModel>>,
    paths: Seq<FilePath>,
    facts: Seq<BackupFacts>,
    i: int,
) -> Option<ApplyErrorKind> {
    if facts[i].is_dir {
        Some(ApplyErrorKind::BackupIsDirectory)
    } else {
        normal_fault(paths[i]@, folders, path_model(facts[i].parent_canonical))
    }
}

/// The path that the fault of the recorded backup at `i` is about.
pub open spec fn backup_entry_fault_subject(
    folders: Seq<Seq<PartModel>>,
    paths: Seq<FilePath>,
    facts: Seq<BackupFacts>,
    i: int,
) -> Seq<PartModel> {
    if facts[i].is_dir {
        paths[i]@
    } else {
        normal_fault_subject(paths[i]@, folders, path_model(facts[i].parent_canonical))
    }
}

/// What checking a journal gives.
pub open spec fn undo_validation_result(
    log: UndoLog,
    root_facts: Seq<RootFacts>,
    op_facts: Seq<OperationFacts>,
    backup_facts: Seq<BackupFacts>,
    out: Result<ValidatedUndoLog, ApplyError>,
) -> bool {
    let roots = resolved_roots_upto(root_facts, root_facts.len() as int);
    let fault = first_recorded_fault(roots, log.operations@, op_facts, 0);
    let n = log.operations@.len() as int;
    let roots_fail = root_facts.len() == 0 || crate::apply::first_bad_root(root_facts, 0)
        < root_facts.len();
    let kept = kept_backups_upto(
        backup_folders(roots),
        log.backup_paths@,
        backup_facts,
        log.backup_paths@.len() as int,
    );
    match out {
        Ok(v) => {
            &&& !roots_fail
            &&& fault >= n
            &&& path_models(v.jpg_roots@) == roots
            &&& operation_models(v.operations@) == normal_operations(log.operations@, op_facts)
            &&& if log.backup_originals {
                kept == Some(path_models(v.backup_paths@))
            } else {
                v.backup_paths@.len() == 0
            }
        },
        Err(e) => if roots_fail {
            roots_result(root_facts, Err::<Vec<FilePath>, ApplyError>(e))
        } else if fault < n {
            Some(e.kind) == recorded_fault(roots, log.operations@, op_facts, fault) && e.path@
                == recorded_fault_subject(roots, log.operations@, op_facts, fault)
        } else {
            log.backup_originals && kept is None && exists|i: int|
                0 <= i < log.backup_paths@.len() && backup_exists(backup_facts, i)
                    && (#[trigger] kept_backups_upto(
                    backup_folders(roots),
                    log.backup_paths@,
                    backup_facts,
                    i,
                )) is Some && Some(e.kind) == backup_entry_fault(
                    backup_folders(roots),
                    log.backup_paths@,
                    backup_facts,
                    i,
                ) && e.path@ == backup_entry_fault_subject(
                    backup_folders(roots),
                    log.backup_paths@,
                    backup_facts,
                    i,
                )
        },
    }
}

fn backup_roots_of(roots: &Vec<FilePath>) -> (out: Vec<FilePath>)
    ensures
        path_models(out@) == backup_folders(path_models(roots@)),
{
    let mut out: Vec<FilePath> = Vec::new();
    let mut i: usize = 0;
    while i < roots.len()
        invariant
            i <= roots.len(),
            out@.len() == i,
            forall|k: int| 0 <= k < i ==> (#[trigger] out@[k])@ == backup_folder(roots@[k]@),
        decreases roots.len() - i,
    {
        out.push(roots[i].join_name("backup"));
        i += 1;
    }
    assert(path_models(out@) =~= backup_folders(path_models(roots@)));
    out
}

/// Checks a journal before anything is undone: its roots resolve, every path of its renames
/// has its parent directory at or below a root, and no path comes twice; of its backups those
/// that are still there are files in the backup folders of the roots. `root_facts` tell of
/// the roots that `undo_log_roots` gives, `op_facts` of the renames and `backup_facts` of the
/// backups, each in the order of the journal.
pub fn validate_undo_log(
    log: &UndoLog,
    root_facts: &Vec<RootFacts>,
    op_facts: &Vec<OperationFacts>,
    backup_facts: &Vec<BackupFacts>,
) -> (out: Result<ValidatedUndoLog, ApplyError>)
    ensures
        undo_validation_result(*log, root_facts@, op_facts@, backup_facts@, out),
{
    let jpg_roots = match canonicalize_jpg_roots(root_facts) {
        Ok(r) => r,
        Err(e) => {
            proof {
                lemma_bad_root_in_range(root_facts@, 0);
            }
            return Err(e);
        },
    };
    proof {
        lemma_bad_root_in_range(root_facts@, 0);
    }
    let ghost roots = path_models(jpg_roots@);
    let mut seen_from: Vec<FilePath> = Vec::new();
    let mut seen_to: Vec<FilePath> = Vec::new();
    let mut operations: Vec<RenameOperation> = Vec::new();
    let mut i: usize = 0;
    while i < log.operations.len()
        invariant
            i <= log.operations.len(),
            roots == path_models(jpg_roots@),
            roots == resolved_roots_upto(root_facts@, root_facts@.len() as int),
            root_facts@.len() > 0,
            crate::apply::first_bad_root(root_facts@, 0) >= root_facts@.len(),
            first_recorded_fault(roots, log.operations@, op_facts@, 0) == first_recorded_fault(
                roots,
                log.operations@,
                op_facts@,
                i as int,
            ),
            operations@.len() == i,
            seen_from@.len() == i,
            seen_to@.len() == i,
            forall|j: int|
                0 <= j < i ==> (#[trigger] operations@[j])@ == normal_operation(
                    log.operations@,
                    op_facts@,
                    j,
                ),
            forall|j: int|
                0 <= j < i ==> (#[trigger] path_models(seen_from@)[j]) == normal_operation(
                    log.operations@,
                    op_facts@,
                    j,
                ).0,
            forall|j: int|
                0 <= j < i ==> (#[trigger] path_models(seen_to@)[j]) == normal_operation(
                    log.operations@,
                    op_facts@,
                    j,
                ).1,
        decreases log.operations.len() - i,
    {
        let ghost index = i as int;
        let op = &log.operations[i];
        let from_canonical = if i < op_facts.len() {
            match &op_facts[i].from_parent_canonical {
                Some(c) => Some(c),
                None => None,
            }
        } else {
            None
        };
        let to_canonical = if i < op_facts.len() {
            match &op_facts[i].to_parent_canonical {
                Some(c) => Some(c),
                None => None,
            }
        } else {
            None
        };
        let normalized_from = match normalize_path_within_roots(&op.from, &jpg_roots, from_canonical) {
            Ok(p) => p,
            Err(e) => { return Err(e); },
        };
        let normalized_to = match normalize_path_within_roots(&op.to, &jpg_roots, to_canonical) {
            Ok(p) => p,
            Err(e) => { return Err(e); },
        };
        let from_again = paths_contain(&seen_from, &normalized_from);
        proof {
            if from_again {
                let j = choose|j: int|
                    0 <= j < path_models(seen_from@).len() && path_models(seen_from@)[j]
                        == normalized_from@;
                assert(normal_operation(log.operations@, op_facts@, j).0 == normal_operation(
                    log.operations@,
                    op_facts@,
                    index,
                ).0);
            } else if exists|j: int|
                0 <= j < index && (#[trigger] normal_operation(log.operations@, op_facts@, j)).0
                    == normal_operation(log.operations@, op_facts@, index).0 {
                let j = choose|j: int|
                    0 <= j < index && (#[trigger] normal_operation(log.operations@, op_facts@, j)).0
                        == normal_operation(log.operations@, op_facts@, index).0;
                assert(path_models(seen_from@)[j] == normalized_from@);
            }
        }
        if from_again {
            return Err(ApplyError { kind: ApplyErrorKind::DuplicateOriginal, path: normalized_from });
        }
        let to_again = paths_contain(&seen_to, &normalized_to);
        proof {
            if to_again {
                let j = choose|j: int|
                    0 <= j < path_models(seen_to@).len() && path_models(seen_to@)[j]
                        == normalized_to@;
                assert(normal_operation(log.operations@, op_facts@, j).1 == normal_operation(
                    log.operations@,
                    op_facts@,
                    index,
                ).1);
            } else if exists|j: int|
                0 <= j < index && (#[trigger] normal_operation(log.operations@, op_facts@, j)).1
                    == normal_operation(log.operations@, op_facts@, index).1 {
                let j = choose|j: int|
                    0 <= j < index && (#[trigger] normal_operation(log.operations@, op_facts@, j)).1
                        == normal_operation(log.operations@, op_facts@, index).1;
                assert(path_models(seen_to@)[j] == normalized_to@);
            }
        }
        if to_again {
            return Err(ApplyError { kind: ApplyErrorKind::DuplicateTarget, path: normalized_to });
        }
        let ghost from_before = path_models(seen_from@);
        let ghost to_before = path_models(seen_to@);
        let ghost ops_before = operations@;
        seen_from.push(normalized_from.duplicate());
        seen_to.push(normalized_to.duplicate());
        operations.push(RenameOperation { from: normalized_from, to: normalized_to });
        assert(path_models(seen_from@) =~= from_before.push(
            normal_operation(log.operations@, op_facts@, index).0,
        ));
        assert(path_models(seen_to@) =~= to_before.push(
            normal_operation(log.operations@, op_facts@, index).1,
        ));
        assert forall|j: int| 0 <= j < index + 1 implies (#[trigger] operations@[j])@
            == normal_operation(log.operations@, op_facts@, j) by {
            if j < index {
                assert(operations@[j] == ops_before[j]);
            }
        }
        i += 1;
    }
    assert(operation_models(operations@) =~= normal_operations(log.operations@, op_facts@));
    if !log.backup_originals {
        return Ok(ValidatedUndoLog { operations, jpg_roots, backup_paths: Vec::new() });
    }
    let backup_roots = backup_roots_of(&jpg_roots);
    let ghost folders = backup_folders(roots);
    let mut backup_paths: Vec<FilePath> = Vec::new();
    let mut k: usize = 0;
    assert(path_models(backup_paths@) =~= Seq::<Seq<PartModel>>::empty());
    while k < log.backup_paths.len()
        invariant
            k <= log.backup_paths.len(),
            folders == path_models(backup_roots@),
            folders == backup_folders(roots),
            roots == resolved_roots_upto(root_facts@, root_facts@.len() as int),
            root_facts@.len() > 0,
            crate::apply::first_bad_root(root_facts@, 0) >= root_facts@.len(),
            first_recorded_fault(roots, log.operations@, op_facts@, 0) >= log.operations@.len(),
            log.backup_originals,
            kept_backups_upto(folders, log.backup_paths@, backup_facts@, k as int) == Some(
                path_models(backup_paths@),
            ),
        decreases log.backup_paths.len() - k,
    {
        let ghost index = k as int;
        if k < backup_facts.len() && backup_facts[k].exists {
            if backup_facts[k].is_dir {
                assert(kept_backups_upto(folders, log.backup_paths@, backup_facts@, index + 1)
                    is None);
                proof {
                    lemma_kept_stays_none(
                        folders,
                        log.backup_paths@,
                        backup_facts@,
                        index + 1,
                        log.backup_paths@.len() as int,
                    );
                }
                return Err(
                    ApplyError {
                        kind: ApplyErrorKind::BackupIsDirectory,
                        path: log.backup_paths[k].duplicate(),
                    },
                );
            }
            let canonical = match &backup_facts[k].parent_canonical {
                Some(c) => Some(c),
                None => None,
            };
            match normalize_path_within_roots(&log.backup_paths[k], &backup_roots, canonical) {
                Ok(p) => {
                    let ghost before = path_models(backup_paths@);
                    backup_paths.push(p);
                    assert(path_models(backup_paths@) =~= before.push(
                        normal_form(
                            log.backup_paths@[index]@,
                            path_model(backup_facts@[index].parent_canonical),
                        ),
                    ));
                },
                Err(e) => {
                    assert(kept_backups_upto(folders, log.backup_paths@, backup_facts@, index + 1)
                        is None);
                    proof {
                        lemma_kept_stays_none(
                            folders,
                            log.backup_paths@,
                            backup_facts@,
                            index + 1,
                            log.backup_paths@.len() as int,
                        );
                    }
                    return Err(e);
                },
            }
        }
        k += 1;
    }
    Ok(ValidatedUndoLog { operations, jpg_roots, backup_paths })
}

proof fn lemma_kept_stays_none(
    folders: Seq<Seq<PartModel>>,
    paths: Seq<FilePath>,
    facts: Seq<BackupFacts>,
    at: int,
    n: int,
)
    requires
        0 <= at <= n,
        kept_backups_upto(folders, paths, facts, at) is None,
    ensures
        kept_backups_upto(folders, paths, facts, n) is None,
    decreases n - at,
{
    if at < n {
        lemma_kept_stays_none(folders, paths, facts, at, n - 1);
    }
}

proof fn lemma_bad_root_in_range(roots: Seq<RootFacts>, i: int)
    requires
        0 <= i <= roots.len(),
    ensures
        i <= crate::apply::first_bad_root(roots, i) <= roots.len(),
    decreases roots.len() - i,
{
    if i < roots.len() && roots[i].canonical is Some && roots[i].is_dir {
        lemma_bad_root_in_range(roots, i + 1);
    }
}

/// The directories between `start` and `stop` that a cleanup tries to remove, `start` first:
/// `start` and the directories above it, as far as they lie below `stop`. There are none
/// where `start` does not lie below `stop`.
pub fn empty_dir_chain(start: &FilePath, stop: &FilePath) -> (out: Vec<FilePath>)
    ensures
        out@.len() == if starts_with(start@, stop@) {
            start@.len() - stop@.len()
        } else {
            0
        },
        forall|k: int| 0 <= k < out@.len() ==> (#[trigger] out@[k])@ == start@.take(start@.len() - k),
{
    let mut out: Vec<FilePath> = Vec::new();
    if !start.starts_with(stop) {
        return out;
    }
    let mut current = start.duplicate();
    assert(start@.take(start@.len() as int) == start@);
    while current.component_count() > stop.component_count()
        invariant
            stop@.len() <= current@.len() <= start@.len(),
            out@.len() == start@.len() - current@.len(),
            current@ == start@.take(current@.len() as int),
            forall|k: int|
                0 <= k < out@.len() ==> (#[trigger] out@[k])@ == start@.take(start@.len() - k),
        decreases current@.len(),
    {
        let ghost len = current@.len() as int;
        let above = FilePath { parts: copy_head(&current.parts, current.parts.len() - 1) };
        assert(above@ =~= start@.take(len - 1));
        let ghost before = out@;
        out.push(current);
        assert forall|k: int| 0 <= k < out@.len() implies (#[trigger] out@[k])@ == start@.take(
            start@.len() - k,
        ) by {
            if k < before.len() {
                assert(out@[k] == before[k]);
            }
        }
        current = above;
    }
    out
}

fn copy_head(parts: &Vec<crate::paths::PathPart>, n: usize) -> (out: Vec<crate::paths::PathPart>)
    requires
        n <= parts.len(),
    ensures
        out@ == parts@.take(n as int),
{
    let mut out: Vec<crate::paths::PathPart> = Vec::new();
    let mut i: usize = 0;
    while i < n
        invariant
            i <= n <= parts.len(),
            out@ == parts@.take(i as int),
        decreases n - i,
    {
        out.push(parts[i].duplicate());
        i += 1;
    }
    out
}

/// What a cleanup does for one recorded backup: it removes the file, and then the
/// directories of `dirs`, one after the other, as long as they are empty.
#[derive(Debug, Clone)]
pub struct CleanupStep {
    pub file: FilePath,
    pub dirs: Vec<FilePath>,
}

/// The steps of removing the backups of a checked journal, and the backup folders that are
/// removed at the end where they are empty. For each backup the directories between it and
/// the backup folder that governs it are given, the nearest first; a backup below no backup
/// folder has none.
pub fn cleanup_steps(log: &ValidatedUndoLog) -> (out: (Vec<CleanupStep>, Vec<FilePath>))
    ensures
        out.0@.len() == log.backup_paths@.len(),
        path_models(out.1@) == backup_folders(path_models(log.jpg_roots@)),
        forall|i: int|
            0 <= i < out.0@.len() ==> (#[trigger] out.0@[i]).file@ == log.backup_paths@[i]@,
        forall|i: int|
            0 <= i < out.0@.len() ==> {
                let parent = parent_of(log.backup_paths@[i]@);
                let dirs = (#[trigger] out.0@[i]).dirs@;
                if parent is Some && governing(parent->0, path_models(out.1@)) is Some {
                    let stop = path_models(out.1@)[governing(parent->0, path_models(out.1@))->0];
                    dirs.len() == parent->0.len() - stop.len() && forall|k: int|
                        0 <= k < dirs.len() ==> (#[trigger] dirs[k])@ == parent->0.take(
                            parent->0.len() - k,
                        )
                } else {
                    dirs.len() == 0
                }
            },
{
    let backup_roots = backup_roots_of(&log.jpg_roots);
    let mut steps: Vec<CleanupStep> = Vec::new();
    let mut i: usize = 0;
    while i < log.backup_paths.len()
        invariant
            i <= log.backup_paths.len(),
            steps@.len() == i,
            path_models(backup_roots@) == backup_folders(path_models(log.jpg_roots@)),
            forall|j: int|
                0 <= j < i ==> (#[trigger] steps@[j]).file@ == log.backup_paths@[j]@,
            forall|j: int|
                0 <= j < i ==> {
                    let parent = parent_of(log.backup_paths@[j]@);
                    let dirs = (#[trigger] steps@[j]).dirs@;
                    if parent is Some && governing(parent->0, path_models(backup_roots@)) is Some {
                        let stop = path_models(backup_roots@)[governing(
                            parent->0,
                            path_models(backup_roots@),
                        )->0];
                        dirs.len() == parent->0.len() - stop.len() && forall|k: int|
                            0 <= k < dirs.len() ==> (#[trigger] dirs[k])@ == parent->0.take(
                                parent->0.len() - k,
                            )
                    } else {
                        dirs.len() == 0
                    }
                },
        decreases log.backup_paths.len() - i,
    {
        let path = &log.backup_paths[i];
        let mut dirs: Vec<FilePath> = Vec::new();
        match path.parent() {
            Some(parent) => {
                match pick_most_specific_root(&parent, &backup_roots) {
                    Some(g) => {
                        proof {
                            crate::apply::lemma_governing(
                                parent@,
                                path_models(backup_roots@),
                                backup_roots@.len() as int,
                            );
                            assert(path_models(backup_roots@)[g as int] == backup_roots@[g as int]@);
                        }
                        dirs = empty_dir_chain(&parent, &backup_roots[g]);
                    },
                    None => {},
                }
            },
            None => {},
        }
        let ghost before = steps@;
        steps.push(CleanupStep { file: path.duplicate(), dirs });
        assert forall|j: int| 0 <= j < i + 1 implies (#[trigger] steps@[j]).file@
            == log.backup_paths@[j]@ by {
            if j < i {
                assert(steps@[j] == before[j]);
            }
        }
        assert forall|j: int| 0 <= j < i + 1 implies {
            let parent = parent_of(log.backup_paths@[j]@);
            let dirs = (#[trigger] steps@[j]).dirs@;
            if parent is Some && governing(parent->0, path_models(backup_roots@)) is Some {
                let stop = path_models(backup_roots@)[governing(
                    parent->0,
                    path_models(backup_roots@),
                )->0];
                dirs.len() == parent->0.len() - stop.len() && forall|k: int|
                    0 <= k < dirs.len() ==> (#[trigger] dirs[k])@ == parent->0.take(
                        parent->0.len() - k,
                    )
            } else {
                dirs.len() == 0
            }
        } by {
            if j < i {
                assert(steps@[j] == before[j]);
            }
        }
        i += 1;
    }
    (steps, backup_roots)
}

} // verus!
