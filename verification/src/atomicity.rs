use crate::apply::{
    action_of, next_phase, ActionModel, ApplyOutcome, ApplyPhase, EntryModel, FailedStep, StepEvent,
};
use crate::paths::PartModel;
use vstd::prelude::*;

verus! {

/// The files of a disk: each path that names a file, with what the file holds.
pub type Files = Map<Seq<PartModel>, int>;

/// A disk: its files, and whether the journal is there.
pub struct Disk {
    pub files: Files,
    pub journal: bool,
}

/// What goes wrong on a disk: renames to the paths of `blocked` fail, and so do the writing of
/// the journal and the removal of backups where that is set.
pub struct Faults {
    pub blocked: Set<Seq<PartModel>>,
    pub journal_fails: bool,
    pub cleanup_fails: bool,
}

/// The files after the file at `from` was renamed to `to`.
pub open spec fn moved(files: Files, from: Seq<PartModel>, to: Seq<PartModel>) -> Files {
    files.remove(from).insert(to, files[from])
}

/// What an action does to a disk, and how it ends. A rename fails where the file is not there
/// or the new path is blocked; restoring a file that is not there does nothing; an action that
/// fails changes nothing.
pub open spec fn perform(action: ActionModel, disk: Disk, faults: Faults) -> (Disk, StepEvent) {
    match action {
        ActionModel::Rename { from, to } => if disk.files.contains_key(from)
            && !faults.blocked.contains(to) {
            (Disk { files: moved(disk.files, from, to), ..disk }, StepEvent::Done)
        } else {
            (disk, StepEvent::Failed)
        },
        ActionModel::Restore { from, to } => if !disk.files.contains_key(from) {
            (disk, StepEvent::Skipped)
        } else if faults.blocked.contains(to) {
            (disk, StepEvent::Failed)
        } else {
            (Disk { files: moved(disk.files, from, to), ..disk }, StepEvent::Done)
        },
        ActionModel::WriteJournal => if faults.journal_fails {
            (disk, StepEvent::Failed)
        } else {
            (Disk { journal: true, ..disk }, StepEvent::Done)
        },
        ActionModel::RemoveBackups => if faults.cleanup_fails {
            (disk, StepEvent::Failed)
        } else {
            (disk, StepEvent::Done)
        },
        ActionModel::Finish(_) => (disk, StepEvent::Done),
    }
}

/// Where a run of the apply engine stands, and what the disk holds, after at most `fuel`
/// actions were performed from the phase `phase` on.
pub open spec fn run_from(
    entries: Seq<EntryModel>,
    has_backups: bool,
    phase: ApplyPhase,
    disk: Disk,
    faults: Faults,
    fuel: nat,
) -> (ApplyPhase, Disk)
    decreases fuel,
{
    if fuel == 0 || phase is Finished {
        (phase, disk)
    } else {
        let (after, event) = perform(action_of(entries, phase), disk, faults);
        run_from(
            entries,
            has_backups,
            next_phase(entries.len() as int, has_backups, phase, event),
            after,
            faults,
            (fuel - 1) as nat,
        )
    }
}

/// One of the three paths of a staged rename.
pub enum Which {
    Original,
    Temp,
    Target,
}

/// The path of an entry that `w` names.
pub open spec fn pick(e: EntryModel, w: Which) -> Seq<PartModel> {
    match w {
        Which::Original => e.original,
        Which::Temp => e.temp,
        Which::Target => e.target,
    }
}

/// The files after the first `k` entries were renamed from their path `a` to their path `b`.
pub open spec fn shifted(files: Files, entries: Seq<EntryModel>, k: int, a: Which, b: Which) -> Files
    decreases k,
{
    if k <= 0 {
        files
    } else {
        moved(shifted(files, entries, k - 1, a, b), pick(entries[k - 1], a), pick(entries[k - 1], b))
    }
}

/// The paths `a` of the entries name files and differ from each other; their paths `b` name
/// nothing and differ from each other.
pub open spec fn can_shift(files: Files, entries: Seq<EntryModel>, a: Which, b: Which) -> bool {
    &&& forall|i: int|
        0 <= i < entries.len() ==> files.contains_key(#[trigger] pick(entries[i], a))
    &&& forall|i: int|
        0 <= i < entries.len() ==> !files.contains_key(#[trigger] pick(entries[i], b))
    &&& forall|i: int, j: int|
        0 <= i < j < entries.len() ==> pick(entries[i], a) != pick(entries[j], a)
    &&& forall|i: int, j: int|
        0 <= i < j < entries.len() ==> pick(entries[i], b) != pick(entries[j], b)
}

/// The path `p` is none of the paths `a` and `b` of the entries.
pub open spec fn untouched(entries: Seq<EntryModel>, a: Which, b: Which, p: Seq<PartModel>) -> bool {
    forall|i: int|
        0 <= i < entries.len() ==> p != pick(#[trigger] entries[i], a) && p != pick(entries[i], b)
}

/// What the files hold after the first `k` entries were shifted: the files of those entries
/// under their new paths, and all else as before.
pub proof fn lemma_shifted(files: Files, entries: Seq<EntryModel>, k: int, a: Which, b: Which)
    requires
        can_shift(files, entries, a, b),
        0 <= k <= entries.len(),
    ensures
        forall|i: int|
            k <= i < entries.len() ==> shifted(files, entries, k, a, b).contains_key(
                #[trigger] pick(entries[i], a),
            ) && shifted(files, entries, k, a, b)[pick(entries[i], a)] == files[pick(
                entries[i],
                a,
            )],
        forall|i: int|
            k <= i < entries.len() ==> !shifted(files, entries, k, a, b).contains_key(
                #[trigger] pick(entries[i], b),
            ),
        forall|i: int|
            0 <= i < k ==> !shifted(files, entries, k, a, b).contains_key(
                #[trigger] pick(entries[i], a),
            ),
        forall|i: int|
            0 <= i < k ==> shifted(files, entries, k, a, b).contains_key(
                #[trigger] pick(entries[i], b),
            ) && shifted(files, entries, k, a, b)[pick(entries[i], b)] == files[pick(
                entries[i],
                a,
            )],
        forall|p: Seq<PartModel>| #[trigger]
            untouched(entries, a, b, p) ==> shifted(files, entries, k, a, b).contains_key(p)
                == files.contains_key(p) && shifted(files, entries, k, a, b)[p] == files[p],
    decreases k,
{
    if k > 0 {
        lemma_shifted(files, entries, k - 1, a, b);
        let before = shifted(files, entries, k - 1, a, b);
        let from = pick(entries[k - 1], a);
        let to = pick(entries[k - 1], b);
        let now = shifted(files, entries, k, a, b);
        assert(now == moved(before, from, to));
        assert(files.contains_key(from) && !files.contains_key(to));
        assert forall|i: int| k <= i < entries.len() implies now.contains_key(
            #[trigger] pick(entries[i], a),
        ) && now[pick(entries[i], a)] == files[pick(entries[i], a)] by {
            assert(files.contains_key(pick(entries[i], a)));
            assert(pick(entries[i], a) != to);
            assert(pick(entries[k - 1], a) != pick(entries[i], a));
        }
        assert forall|i: int| k <= i < entries.len() implies !now.contains_key(
            #[trigger] pick(entries[i], b),
        ) by {
            assert(pick(entries[k - 1], b) != pick(entries[i], b));
        }
        assert forall|i: int| 0 <= i < k implies !now.contains_key(
            #[trigger] pick(entries[i], a),
        ) by {
            assert(files.contains_key(pick(entries[i], a)));
            assert(pick(entries[i], a) != to);
        }
        assert forall|i: int| 0 <= i < k implies now.contains_key(#[trigger] pick(entries[i], b))
            && now[pick(entries[i], b)] == files[pick(entries[i], a)] by {
            if i < k - 1 {
                assert(!files.contains_key(pick(entries[i], b)));
                assert(pick(entries[i], b) != from);
                assert(pick(entries[i], b) != pick(entries[k - 1], b));
            } else {
                assert(before.contains_key(pick(entries[k - 1], a)));
            }
        }
        assert forall|p: Seq<PartModel>| #[trigger] untouched(entries, a, b, p) implies now.contains_key(
            p,
        ) == files.contains_key(p) && now[p] == files[p] by {
            assert(p != pick(entries[k - 1], a) && p != pick(entries[k - 1], b));
        }
    }
}

/// Shifting back the entry that was shifted last gives the files as they were before it.
pub proof fn lemma_shift_back(files: Files, entries: Seq<EntryModel>, k: int, a: Which, b: Which)
    requires
        can_shift(files, entries, a, b),
        1 <= k <= entries.len(),
    ensures
        shifted(files, entries, k, a, b).contains_key(pick(entries[k - 1], b)),
        moved(shifted(files, entries, k, a, b), pick(entries[k - 1], b), pick(entries[k - 1], a))
            == shifted(files, entries, k - 1, a, b),
{
    lemma_shifted(files, entries, k - 1, a, b);
    let before = shifted(files, entries, k - 1, a, b);
    let from = pick(entries[k - 1], a);
    let to = pick(entries[k - 1], b);
    assert(before.contains_key(from));
    assert(!before.contains_key(to));
    assert(moved(moved(before, from, to), to, from) =~= before);
}

/// The paths of the entries fit the files of a disk: the originals name files and differ from
/// each other; the temporary names and the targets name nothing, and differ from each other and
/// among themselves.
pub open spec fn paths_fit(entries: Seq<EntryModel>, files: Files) -> bool {
    &&& 1 <= entries.len() <= usize::MAX
    &&& can_shift(files, entries, Which::Original, Which::Temp)
    &&& can_shift(files, entries, Which::Original, Which::Target)
    &&& forall|i: int, j: int|
        0 <= i < entries.len() && 0 <= j < entries.len() ==> (#[trigger] entries[i]).temp
            != (#[trigger] entries[j]).target
}

/// No rename back to an original is blocked.
pub open spec fn originals_free(entries: Seq<EntryModel>, blocked: Set<Seq<PartModel>>) -> bool {
    forall|i: int| 0 <= i < entries.len() ==> !blocked.contains((#[trigger] entries[i]).original)
}

/// No rename to the temporary name of one of the first `k` entries is blocked.
pub open spec fn temps_free(entries: Seq<EntryModel>, blocked: Set<Seq<PartModel>>, k: int) -> bool {
    forall|i: int| 0 <= i < k ==> !blocked.contains((#[trigger] entries[i]).temp)
}

/// The entries fit a disk: their paths fit its files, and no rename back to an original or to
/// a temporary name is blocked.
pub open spec fn entries_fit(entries: Seq<EntryModel>, files: Files, blocked: Set<Seq<PartModel>>) -> bool {
    &&& paths_fit(entries, files)
    &&& originals_free(entries, blocked)
    &&& temps_free(entries, blocked, entries.len() as int)
}

/// The files after the first `k` entries were staged.
pub open spec fn staged(files: Files, entries: Seq<EntryModel>, k: int) -> Files {
    shifted(files, entries, k, Which::Original, Which::Temp)
}

/// The files after all entries were staged and the first `k` committed.
pub open spec fn committed(files: Files, entries: Seq<EntryModel>, k: int) -> Files {
    shifted(staged(files, entries, entries.len() as int), entries, k, Which::Temp, Which::Target)
}

/// The files with the first `k` entries at their targets.
pub open spec fn applied(files: Files, entries: Seq<EntryModel>, k: int) -> Files {
    shifted(files, entries, k, Which::Original, Which::Target)
}

proof fn lemma_staged_can_commit(files: Files, entries: Seq<EntryModel>, blocked: Set<Seq<PartModel>>)
    requires
        paths_fit(entries, files),
    ensures
        can_shift(
            staged(files, entries, entries.len() as int),
            entries,
            Which::Temp,
            Which::Target,
        ),
{
    let n = entries.len() as int;
    let s = staged(files, entries, n);
    lemma_shifted(files, entries, n, Which::Original, Which::Temp);
    assert forall|i: int| 0 <= i < n implies s.contains_key(
        #[trigger] pick(entries[i], Which::Temp),
    ) by {}
    assert forall|i: int| 0 <= i < n implies !s.contains_key(
        #[trigger] pick(entries[i], Which::Target),
    ) by {
        let p = pick(entries[i], Which::Target);
        assert forall|j: int| 0 <= j < n implies p != pick(#[trigger] entries[j], Which::Original)
            && p != pick(entries[j], Which::Temp) by {
            assert(files.contains_key(pick(entries[j], Which::Original)));
            assert(!files.contains_key(pick(entries[i], Which::Target)));
            assert(entries[j].temp != entries[i].target);
        }
        assert(untouched(entries, Which::Original, Which::Temp, p));
    }
}

/// With all entries staged and committed, the files are those with every entry at its target.
pub proof fn lemma_committed_is_applied(
    files: Files,
    entries: Seq<EntryModel>,
    blocked: Set<Seq<PartModel>>,
)
    requires
        entries_fit(entries, files, blocked),
    ensures
        committed(files, entries, entries.len() as int) == applied(
            files,
            entries,
            entries.len() as int,
        ),
{
    let n = entries.len() as int;
    let s = staged(files, entries, n);
    let c = committed(files, entries, n);
    let a = applied(files, entries, n);
    lemma_staged_can_commit(files, entries, blocked);
    lemma_shifted(files, entries, n, Which::Original, Which::Temp);
    lemma_shifted(s, entries, n, Which::Temp, Which::Target);
    lemma_shifted(files, entries, n, Which::Original, Which::Target);
    assert forall|p: Seq<PartModel>|
        (#[trigger] c.dom().contains(p)) == a.dom().contains(p) && (c.dom().contains(p) ==> c[p]
            == a[p]) by {
        if exists|i: int| 0 <= i < n && p == pick(entries[i], Which::Target) {
            let i = choose|i: int| 0 <= i < n && p == pick(entries[i], Which::Target);
            assert(c.contains_key(pick(entries[i], Which::Target)));
            assert(a.contains_key(pick(entries[i], Which::Target)));
            assert(s.contains_key(pick(entries[i], Which::Temp)));
        } else if exists|i: int| 0 <= i < n && p == pick(entries[i], Which::Temp) {
            let i = choose|i: int| 0 <= i < n && p == pick(entries[i], Which::Temp);
            assert(!c.contains_key(pick(entries[i], Which::Temp)));
            assert forall|j: int| 0 <= j < n implies p != pick(
                #[trigger] entries[j],
                Which::Original,
            ) && p != pick(entries[j], Which::Target) by {
                assert(files.contains_key(pick(entries[j], Which::Original)));
                assert(!files.contains_key(pick(entries[i], Which::Temp)));
                assert(entries[i].temp != entries[j].target);
            }
            assert(untouched(entries, Which::Original, Which::Target, p));
        } else if exists|i: int| 0 <= i < n && p == pick(entries[i], Which::Original) {
            let i = choose|i: int| 0 <= i < n && p == pick(entries[i], Which::Original);
            assert(!a.contains_key(pick(entries[i], Which::Original)));
            assert(!s.contains_key(pick(entries[i], Which::Original)));
            assert forall|j: int| 0 <= j < n implies p != pick(#[trigger] entries[j], Which::Temp)
                && p != pick(entries[j], Which::Target) by {
                assert(files.contains_key(pick(entries[i], Which::Original)));
                assert(!files.contains_key(pick(entries[j], Which::Temp)));
                assert(!files.contains_key(pick(entries[j], Which::Target)));
            }
            assert(untouched(entries, Which::Temp, Which::Target, p));
        } else {
            assert(untouched(entries, Which::Original, Which::Temp, p));
            assert(untouched(entries, Which::Temp, Which::Target, p));
            assert(untouched(entries, Which::Original, Which::Target, p));
        }
    }
    assert(c =~= a);
}

proof fn lemma_run_step(
    entries: Seq<EntryModel>,
    has_backups: bool,
    phase: ApplyPhase,
    disk: Disk,
    faults: Faults,
    fuel: nat,
)
    requires
        fuel >= 1,
        !(phase is Finished),
    ensures
        run_from(entries, has_backups, phase, disk, faults, fuel) == run_from(
            entries,
            has_backups,
            next_phase(
                entries.len() as int,
                has_backups,
                phase,
                perform(action_of(entries, phase), disk, faults).1,
            ),
            perform(action_of(entries, phase), disk, faults).0,
            faults,
            (fuel - 1) as nat,
        ),
{
}

proof fn lemma_run_finished(
    entries: Seq<EntryModel>,
    has_backups: bool,
    outcome: ApplyOutcome,
    disk: Disk,
    faults: Faults,
    fuel: nat,
)
    ensures
        run_from(entries, has_backups, ApplyPhase::Finished(outcome), disk, faults, fuel) == (
            ApplyPhase::Finished(outcome),
            disk,
        ),
{
}

proof fn lemma_run_staging(
    entries: Seq<EntryModel>,
    has_backups: bool,
    files: Files,
    journal: bool,
    faults: Faults,
    k: int,
    fuel: nat,
)
    requires
        entries_fit(entries, files, faults.blocked),
        0 <= k < entries.len(),
        fuel >= entries.len() - k,
    ensures
        run_from(
            entries,
            has_backups,
            ApplyPhase::Staging { done: k as usize },
            Disk { files: staged(files, entries, k), journal },
            faults,
            fuel,
        ) == run_from(
            entries,
            has_backups,
            ApplyPhase::Committing { done: 0 },
            Disk { files: staged(files, entries, entries.len() as int), journal },
            faults,
            (fuel - (entries.len() - k)) as nat,
        ),
    decreases entries.len() - k,
{
    let n = entries.len() as int;
    lemma_shifted(files, entries, k, Which::Original, Which::Temp);
    let now = Disk { files: staged(files, entries, k), journal };
    let phase = ApplyPhase::Staging { done: k as usize };
    assert(now.files.contains_key(pick(entries[k], Which::Original)));
    assert(!faults.blocked.contains(entries[k].temp));
    let (after, event) = perform(action_of(entries, phase), now, faults);
    assert(event == StepEvent::Done);
    assert(after == Disk { files: staged(files, entries, k + 1), journal });
    lemma_run_step(entries, has_backups, phase, now, faults, fuel);
    if k + 1 < n {
        lemma_run_staging(entries, has_backups, files, journal, faults, k + 1, (fuel - 1) as nat);
    }
}

proof fn lemma_run_committing(
    entries: Seq<EntryModel>,
    has_backups: bool,
    files: Files,
    journal: bool,
    faults: Faults,
    k: int,
    fuel: nat,
)
    requires
        entries_fit(entries, files, faults.blocked),
        0 <= k < entries.len(),
        fuel >= entries.len() - k,
        forall|i: int| k <= i < entries.len() ==> !faults.blocked.contains(
            (#[trigger] entries[i]).target,
        ),
    ensures
        run_from(
            entries,
            has_backups,
            ApplyPhase::Committing { done: k as usize },
            Disk { files: committed(files, entries, k), journal },
            faults,
            fuel,
        ) == run_from(
            entries,
            has_backups,
            ApplyPhase::Persisting,
            Disk { files: committed(files, entries, entries.len() as int), journal },
            faults,
            (fuel - (entries.len() - k)) as nat,
        ),
    decreases entries.len() - k,
{
    let n = entries.len() as int;
    let s = staged(files, entries, n);
    lemma_staged_can_commit(files, entries, faults.blocked);
    lemma_shifted(s, entries, k, Which::Temp, Which::Target);
    let now = Disk { files: committed(files, entries, k), journal };
    let phase = ApplyPhase::Committing { done: k as usize };
    assert(now.files.contains_key(pick(entries[k], Which::Temp)));
    assert(!faults.blocked.contains(entries[k].target));
    let (after, event) = perform(action_of(entries, phase), now, faults);
    assert(event == StepEvent::Done);
    assert(after == Disk { files: committed(files, entries, k + 1), journal });
    lemma_run_step(entries, has_backups, phase, now, faults, fuel);
    if k + 1 < n {
        lemma_run_committing(entries, has_backups, files, journal, faults, k + 1, (fuel - 1) as nat);
    }
}

/// The phase in which a run is after the commit of the entry at `at` failed.
pub open spec fn phase_after_failed_commit(n: int, at: int) -> ApplyPhase {
    if at == 0 {
        ApplyPhase::Unstaging { left: n as usize, step: FailedStep::Commit, failed_at: 0 }
    } else {
        ApplyPhase::Uncommitting { left: at as usize, failed_at: at as usize }
    }
}

proof fn lemma_run_committing_until_blocked(
    entries: Seq<EntryModel>,
    has_backups: bool,
    files: Files,
    journal: bool,
    faults: Faults,
    k: int,
    at: int,
    fuel: nat,
)
    requires
        entries_fit(entries, files, faults.blocked),
        0 <= k <= at < entries.len(),
        fuel >= at - k + 1,
        faults.blocked.contains(entries[at].target),
        forall|i: int| k <= i < at ==> !faults.blocked.contains((#[trigger] entries[i]).target),
    ensures
        run_from(
            entries,
            has_backups,
            ApplyPhase::Committing { done: k as usize },
            Disk { files: committed(files, entries, k), journal },
            faults,
            fuel,
        ) == run_from(
            entries,
            has_backups,
            phase_after_failed_commit(entries.len() as int, at),
            Disk { files: committed(files, entries, at), journal },
            faults,
            (fuel - (at - k + 1)) as nat,
        ),
    decreases at - k,
{
    let n = entries.len() as int;
    let s = staged(files, entries, n);
    lemma_staged_can_commit(files, entries, faults.blocked);
    lemma_shifted(s, entries, k, Which::Temp, Which::Target);
    let now = Disk { files: committed(files, entries, k), journal };
    let phase = ApplyPhase::Committing { done: k as usize };
    let (after, event) = perform(action_of(entries, phase), now, faults);
    lemma_run_step(entries, has_backups, phase, now, faults, fuel);
    if k == at {
        assert(event == StepEvent::Failed);
        assert(after == now);
    } else {
        assert(now.files.contains_key(pick(entries[k], Which::Temp)));
        assert(!faults.blocked.contains(entries[k].target));
        assert(event == StepEvent::Done);
        assert(after == Disk { files: committed(files, entries, k + 1), journal });
        lemma_run_committing_until_blocked(
            entries,
            has_backups,
            files,
            journal,
            faults,
            k + 1,
            at,
            (fuel - 1) as nat,
        );
    }
}

proof fn lemma_run_uncommitting(
    entries: Seq<EntryModel>,
    has_backups: bool,
    files: Files,
    journal: bool,
    faults: Faults,
    left: int,
    failed_at: usize,
    fuel: nat,
)
    requires
        entries_fit(entries, files, faults.blocked),
        1 <= left <= entries.len(),
        fuel >= left,
    ensures
        run_from(
            entries,
            has_backups,
            ApplyPhase::Uncommitting { left: left as usize, failed_at },
            Disk { files: committed(files, entries, left), journal },
            faults,
            fuel,
        ) == run_from(
            entries,
            has_backups,
            ApplyPhase::Unstaging {
                left: entries.len() as usize,
                step: FailedStep::Commit,
                failed_at,
            },
            Disk { files: staged(files, entries, entries.len() as int), journal },
            faults,
            (fuel - left) as nat,
        ),
    decreases left,
{
    let n = entries.len() as int;
    let s = staged(files, entries, n);
    lemma_staged_can_commit(files, entries, faults.blocked);
    lemma_shift_back(s, entries, left, Which::Temp, Which::Target);
    let now = Disk { files: committed(files, entries, left), journal };
    let phase = ApplyPhase::Uncommitting { left: left as usize, failed_at };
    assert(!faults.blocked.contains(entries[left - 1].temp));
    let (after, event) = perform(action_of(entries, phase), now, faults);
    assert(event == StepEvent::Done);
    assert(after == Disk { files: committed(files, entries, left - 1), journal });
    lemma_run_step(entries, has_backups, phase, now, faults, fuel);
    if left > 1 {
        lemma_run_uncommitting(
            entries,
            has_backups,
            files,
            journal,
            faults,
            left - 1,
            failed_at,
            (fuel - 1) as nat,
        );
    }
}

proof fn lemma_run_unstaging(
    entries: Seq<EntryModel>,
    has_backups: bool,
    files: Files,
    journal: bool,
    faults: Faults,
    left: int,
    step: FailedStep,
    failed_at: usize,
    fuel: nat,
)
    requires
        paths_fit(entries, files),
        originals_free(entries, faults.blocked),
        1 <= left <= entries.len(),
        fuel >= left,
    ensures
        run_from(
            entries,
            has_backups,
            ApplyPhase::Unstaging { left: left as usize, step, failed_at },
            Disk { files: staged(files, entries, left), journal },
            faults,
            fuel,
        ) == (
            ApplyPhase::Finished(crate::apply::failure_outcome(step, failed_at, true)),
            Disk { files, journal },
        ),
    decreases left,
{
    lemma_shift_back(files, entries, left, Which::Original, Which::Temp);
    let now = Disk { files: staged(files, entries, left), journal };
    let phase = ApplyPhase::Unstaging { left: left as usize, step, failed_at };
    assert(!faults.blocked.contains(entries[left - 1].original));
    let (after, event) = perform(action_of(entries, phase), now, faults);
    assert(event == StepEvent::Done);
    assert(after == Disk { files: staged(files, entries, left - 1), journal });
    lemma_run_step(entries, has_backups, phase, now, faults, fuel);
    if left == 1 {
        lemma_run_finished(
            entries,
            has_backups,
            crate::apply::failure_outcome(step, failed_at, true),
            after,
            faults,
            (fuel - 1) as nat,
        );
    }
    if left > 1 {
        lemma_run_unstaging(
            entries,
            has_backups,
            files,
            journal,
            faults,
            left - 1,
            step,
            failed_at,
            (fuel - 1) as nat,
        );
    }
}

proof fn lemma_run_reverting(
    entries: Seq<EntryModel>,
    has_backups: bool,
    files: Files,
    journal: bool,
    faults: Faults,
    left: int,
    fuel: nat,
)
    requires
        entries_fit(entries, files, faults.blocked),
        1 <= left <= entries.len(),
        fuel >= left + 1,
    ensures
        run_from(
            entries,
            has_backups,
            ApplyPhase::Reverting { left: left as usize },
            Disk { files: applied(files, entries, left), journal },
            faults,
            fuel,
        ) == (
            ApplyPhase::Finished(
                ApplyOutcome::PersistFailed {
                    rolled_back: true,
                    backups_removed: !has_backups || !faults.cleanup_fails,
                },
            ),
            Disk { files, journal },
        ),
    decreases left,
{
    lemma_shift_back(files, entries, left, Which::Original, Which::Target);
    let now = Disk { files: applied(files, entries, left), journal };
    let phase = ApplyPhase::Reverting { left: left as usize };
    assert(!faults.blocked.contains(entries[left - 1].original));
    let (after, event) = perform(action_of(entries, phase), now, faults);
    assert(event == StepEvent::Done);
    assert(after == Disk { files: applied(files, entries, left - 1), journal });
    lemma_run_step(entries, has_backups, phase, now, faults, fuel);
    if left > 1 {
        lemma_run_reverting(entries, has_backups, files, journal, faults, left - 1, (fuel - 1) as nat);
    } else {
        let next = next_phase(entries.len() as int, has_backups, phase, event);
        let outcome = ApplyOutcome::PersistFailed {
            rolled_back: true,
            backups_removed: !has_backups || !faults.cleanup_fails,
        };
        if has_backups {
            assert(next == ApplyPhase::Cleaning { reverted: true });
            let (last, cleaned) = perform(action_of(entries, next), after, faults);
            assert(last == after);
            lemma_run_step(entries, has_backups, next, after, faults, (fuel - 1) as nat);
            lemma_run_finished(entries, has_backups, outcome, after, faults, (fuel - 2) as nat);
        } else {
            lemma_run_finished(entries, has_backups, outcome, after, faults, (fuel - 1) as nat);
        }
    }
}

proof fn lemma_run_staging_until_blocked(
    entries: Seq<EntryModel>,
    has_backups: bool,
    files: Files,
    journal: bool,
    faults: Faults,
    k: int,
    at: int,
    fuel: nat,
)
    requires
        paths_fit(entries, files),
        0 <= k <= at < entries.len(),
        fuel >= at - k + 1,
        faults.blocked.contains(entries[at].temp),
        temps_free(entries, faults.blocked, at),
    ensures
        run_from(
            entries,
            has_backups,
            ApplyPhase::Staging { done: k as usize },
            Disk { files: staged(files, entries, k), journal },
            faults,
            fuel,
        ) == run_from(
            entries,
            has_backups,
            next_phase(
                entries.len() as int,
                has_backups,
                ApplyPhase::Staging { done: at as usize },
                StepEvent::Failed,
            ),
            Disk { files: staged(files, entries, at), journal },
            faults,
            (fuel - (at - k + 1)) as nat,
        ),
    decreases at - k,
{
    lemma_shifted(files, entries, k, Which::Original, Which::Temp);
    let now = Disk { files: staged(files, entries, k), journal };
    let phase = ApplyPhase::Staging { done: k as usize };
    let (after, event) = perform(action_of(entries, phase), now, faults);
    lemma_run_step(entries, has_backups, phase, now, faults, fuel);
    if k == at {
        assert(event == StepEvent::Failed);
        assert(after == now);
    } else {
        assert(now.files.contains_key(pick(entries[k], Which::Original)));
        assert(!faults.blocked.contains(entries[k].temp));
        assert(event == StepEvent::Done);
        assert(after == Disk { files: staged(files, entries, k + 1), journal });
        lemma_run_staging_until_blocked(
            entries,
            has_backups,
            files,
            journal,
            faults,
            k + 1,
            at,
            (fuel - 1) as nat,
        );
    }
}

/// Where staging fails, nothing is left of the run: when the rename to the temporary name is
/// blocked for the entry at `at` and for none before it, the run ends with the failure of that
/// step, rolled back, and the disk holds what it held before.
pub proof fn law_failed_stage_leaves_the_disk_as_it_was(
    entries: Seq<EntryModel>,
    has_backups: bool,
    disk: Disk,
    faults: Faults,
    at: int,
    fuel: nat,
)
    requires
        paths_fit(entries, disk.files),
        originals_free(entries, faults.blocked),
        0 <= at < entries.len(),
        faults.blocked.contains(entries[at].temp),
        temps_free(entries, faults.blocked, at),
        fuel >= 2 * entries.len() + 1,
    ensures
        run_from(entries, has_backups, ApplyPhase::Staging { done: 0 }, disk, faults, fuel) == (
            ApplyPhase::Finished(ApplyOutcome::StageFailed { index: at as usize, rolled_back: true }),
            disk,
        ),
{
    let files = disk.files;
    let journal = disk.journal;
    assert(disk == Disk { files: staged(files, entries, 0), journal });
    lemma_run_staging_until_blocked(entries, has_backups, files, journal, faults, 0, at, fuel);
    let fuel1 = (fuel - (at + 1)) as nat;
    if at == 0 {
        lemma_run_finished(
            entries,
            has_backups,
            ApplyOutcome::StageFailed { index: 0, rolled_back: true },
            disk,
            faults,
            fuel1,
        );
    } else {
        lemma_run_unstaging(
            entries,
            has_backups,
            files,
            journal,
            faults,
            at,
            FailedStep::Stage,
            at as usize,
            fuel1,
        );
    }
}

/// Where a commit fails, nothing is left of the run: when the rename to the target is blocked
/// for the entry at `at` and for none before it, the run ends with the failure of that commit,
/// rolled back, and the disk holds what it held before.
pub proof fn law_failed_commit_leaves_the_disk_as_it_was(
    entries: Seq<EntryModel>,
    has_backups: bool,
    disk: Disk,
    faults: Faults,
    at: int,
    fuel: nat,
)
    requires
        entries_fit(entries, disk.files, faults.blocked),
        0 <= at < entries.len(),
        faults.blocked.contains(entries[at].target),
        forall|i: int| 0 <= i < at ==> !faults.blocked.contains((#[trigger] entries[i]).target),
        fuel >= 4 * entries.len(),
    ensures
        run_from(entries, has_backups, ApplyPhase::Staging { done: 0 }, disk, faults, fuel) == (
            ApplyPhase::Finished(
                ApplyOutcome::CommitFailed { index: at as usize, rolled_back: true },
            ),
            disk,
        ),
{
    let n = entries.len() as int;
    let files = disk.files;
    let journal = disk.journal;
    assert(disk == Disk { files: staged(files, entries, 0), journal });
    lemma_run_staging(entries, has_backups, files, journal, faults, 0, fuel);
    let fuel1 = (fuel - n) as nat;
    assert(staged(files, entries, n) == committed(files, entries, 0));
    lemma_run_committing_until_blocked(entries, has_backups, files, journal, faults, 0, at, fuel1);
    let fuel2 = (fuel1 - (at + 1)) as nat;
    if at == 0 {
        lemma_run_unstaging(
            entries,
            has_backups,
            files,
            journal,
            faults,
            n,
            FailedStep::Commit,
            0,
            fuel2,
        );
    } else {
        lemma_run_uncommitting(entries, has_backups, files, journal, faults, at, at as usize, fuel2);
        lemma_run_unstaging(
            entries,
            has_backups,
            files,
            journal,
            faults,
            n,
            FailedStep::Commit,
            at as usize,
            (fuel2 - at) as nat,
        );
    }
}

/// Where the journal cannot be written, nothing is left of the run: the renames are taken
/// back, and the disk holds what it held before.
pub proof fn law_unwritten_journal_leaves_the_disk_as_it_was(
    entries: Seq<EntryModel>,
    has_backups: bool,
    disk: Disk,
    faults: Faults,
    fuel: nat,
)
    requires
        entries_fit(entries, disk.files, faults.blocked),
        forall|i: int|
            0 <= i < entries.len() ==> !faults.blocked.contains((#[trigger] entries[i]).target),
        faults.journal_fails,
        fuel >= 4 * entries.len() + 2,
    ensures
        run_from(entries, has_backups, ApplyPhase::Staging { done: 0 }, disk, faults, fuel) == (
            ApplyPhase::Finished(
                ApplyOutcome::PersistFailed {
                    rolled_back: true,
                    backups_removed: !has_backups || !faults.cleanup_fails,
                },
            ),
            disk,
        ),
{
    let n = entries.len() as int;
    let files = disk.files;
    let journal = disk.journal;
    assert(disk == Disk { files: staged(files, entries, 0), journal });
    lemma_run_staging(entries, has_backups, files, journal, faults, 0, fuel);
    let fuel1 = (fuel - n) as nat;
    assert(staged(files, entries, n) == committed(files, entries, 0));
    lemma_run_committing(entries, has_backups, files, journal, faults, 0, fuel1);
    let fuel2 = (fuel1 - n) as nat;
    lemma_committed_is_applied(files, entries, faults.blocked);
    let now = Disk { files: applied(files, entries, n), journal };
    let (after, event) = perform(action_of(entries, ApplyPhase::Persisting), now, faults);
    assert(event == StepEvent::Failed && after == now);
    lemma_run_step(entries, has_backups, ApplyPhase::Persisting, now, faults, fuel2);
    lemma_run_reverting(entries, has_backups, files, journal, faults, n, (fuel2 - 1) as nat);
}

/// Where nothing fails, every file is at its target and the journal is written.
pub proof fn law_apply_moves_every_file(
    entries: Seq<EntryModel>,
    has_backups: bool,
    disk: Disk,
    faults: Faults,
    fuel: nat,
)
    requires
        entries_fit(entries, disk.files, faults.blocked),
        forall|i: int|
            0 <= i < entries.len() ==> !faults.blocked.contains((#[trigger] entries[i]).target),
        !faults.journal_fails,
        fuel >= 2 * entries.len() + 1,
    ensures
        run_from(entries, has_backups, ApplyPhase::Staging { done: 0 }, disk, faults, fuel) == (
            ApplyPhase::Finished(ApplyOutcome::Applied { applied: entries.len() as usize }),
            Disk { files: applied(disk.files, entries, entries.len() as int), journal: true },
        ),
{
    let n = entries.len() as int;
    let files = disk.files;
    let journal = disk.journal;
    assert(disk == Disk { files: staged(files, entries, 0), journal });
    lemma_run_staging(entries, has_backups, files, journal, faults, 0, fuel);
    let fuel1 = (fuel - n) as nat;
    assert(staged(files, entries, n) == committed(files, entries, 0));
    lemma_run_committing(entries, has_backups, files, journal, faults, 0, fuel1);
    lemma_committed_is_applied(files, entries, faults.blocked);
    let now = Disk { files: applied(files, entries, n), journal };
    let (after, event) = perform(action_of(entries, ApplyPhase::Persisting), now, faults);
    assert(event == StepEvent::Done);
    assert(after == Disk { files: applied(files, entries, n), journal: true });
    let fuel2 = (fuel1 - n) as nat;
    lemma_run_step(entries, has_backups, ApplyPhase::Persisting, now, faults, fuel2);
    lemma_run_finished(
        entries,
        has_backups,
        ApplyOutcome::Applied { applied: n as usize },
        after,
        faults,
        (fuel2 - 1) as nat,
    );
}

} // verus!
