use fphoto_renamer_core::apply::{
    apply_result, canonicalize_jpg_roots, journal_for, path_within_any_root,
    pick_most_specific_root, plan_jpg_roots, stage_entries, start_apply, temp_path_for,
    validate_apply_candidates, ApplyAction, ApplyErrorKind, ApplyOptions, ApplyOutcome, ApplyResult,
    ApplyRun, ApplyStart, CandidateFacts, RenameOperation, RootFacts, StepEvent, UndoLog,
};
use fphoto_renamer_core::backup::{
    plan_backups, resolve_backup_path_with_reserved, unique_backup_path_with_reserved,
};
use fphoto_renamer_core::metadata::{CaptureDate, MetadataSource, PhotoMetadata};
use fphoto_renamer_core::paths::{FilePath, PathPart};
use fphoto_renamer_core::planner::{RenameCandidate, RenamePlan, RenameStats};
use fphoto_renamer_core::undo::{
    cleanup_steps, empty_dir_chain, normalize_path_within_roots, undo_log_roots, validate_undo_log,
    BackupFacts, OperationFacts, UndoAction, UndoOutcome, UndoRun,
};
use std::collections::{BTreeMap, BTreeSet};
use std::path::{Component, Path, PathBuf};

fn path(text: &str) -> FilePath {
    let mut parts = Vec::new();
    for component in Path::new(text).components() {
        parts.push(match component {
            Component::Prefix(p) => PathPart::Prefix(p.as_os_str().to_string_lossy().into_owned()),
            Component::RootDir => PathPart::Root,
            Component::CurDir => PathPart::Current,
            Component::ParentDir => PathPart::Parent,
            Component::Normal(n) => PathPart::Normal(n.to_string_lossy().into_owned()),
        });
    }
    FilePath { parts }
}

fn text(p: &FilePath) -> String {
    let mut out = PathBuf::new();
    for part in &p.parts {
        match part {
            PathPart::Root => out.push("/"),
            PathPart::Prefix(s) | PathPart::Normal(s) => out.push(s),
            PathPart::Current => out.push("."),
            PathPart::Parent => out.push(".."),
        }
    }
    out.to_string_lossy().into_owned()
}

/// A disk held in memory: files with what they hold, and paths to which no rename succeeds.
struct Disk {
    files: BTreeMap<String, String>,
    blocked: BTreeSet<String>,
    journal: Option<UndoLog>,
    journal_fails: bool,
    renames: usize,
}

impl Disk {
    fn with(files: &[(&str, &str)]) -> Disk {
        Disk {
            files: files.iter().map(|(p, c)| (p.to_string(), c.to_string())).collect(),
            blocked: BTreeSet::new(),
            journal: None,
            journal_fails: false,
            renames: 0,
        }
    }

    fn rename(&mut self, from: &FilePath, to: &FilePath) -> StepEvent {
        let (from, to) = (text(from), text(to));
        if !self.files.contains_key(&from) || self.blocked.contains(&to) {
            return StepEvent::Failed;
        }
        let held = self.files.remove(&from).expect("the file is there");
        self.files.insert(to, held);
        self.renames += 1;
        StepEvent::Done
    }

    fn restore(&mut self, from: &FilePath, to: &FilePath) -> StepEvent {
        if !self.files.contains_key(&text(from)) {
            return StepEvent::Skipped;
        }
        self.rename(from, to)
    }

    fn names(&self) -> Vec<&str> {
        self.files.keys().map(|k| k.as_str()).collect()
    }
}

fn sample_metadata(jpg_path: FilePath) -> PhotoMetadata {
    PhotoMetadata {
        source: MetadataSource::JpgExif,
        date: CaptureDate { year: 2026, month: 1, day: 2, hour: 3, minute: 4, second: 5 },
        camera_make: Some("FUJIFILM".to_string()),
        camera_model: Some("X-T5".to_string()),
        lens_make: Some("FUJIFILM".to_string()),
        lens_model: Some("XF16-55".to_string()),
        film_sim: Some("CLASSIC CHROME".to_string()),
        original_name: "IMG_0001".to_string(),
        jpg_path,
    }
}

fn candidate(original: &str, target: &str, base: &str) -> RenameCandidate {
    RenameCandidate {
        original_path: path(original),
        target_path: path(target),
        metadata_source: MetadataSource::JpgExif,
        source_label: "jpg".to_string(),
        metadata: sample_metadata(path(original)),
        rendered_base: base.to_string(),
        changed: original != target,
    }
}

fn plan(root: &str, roots: &[&str], candidates: Vec<RenameCandidate>) -> RenamePlan {
    let stats = RenameStats {
        scanned_files: candidates.len(),
        jpg_files: candidates.len(),
        skipped_non_jpg: 0,
        skipped_hidden: 0,
        planned: candidates.len(),
        unchanged: candidates.iter().filter(|c| !c.changed).count(),
    };
    RenamePlan {
        jpg_root: path(root),
        jpg_roots: roots.iter().map(|r| path(r)).collect(),
        template: "{orig_name}".to_string(),
        exclusions: Vec::new(),
        candidates,
        stats,
    }
}

fn root_facts(roots: &[FilePath]) -> Vec<RootFacts> {
    roots
        .iter()
        .map(|r| RootFacts { root: r.duplicate(), canonical: Some(r.duplicate()), is_dir: true })
        .collect()
}

fn facts_of(operations: &[RenameOperation]) -> Vec<CandidateFacts> {
    operations
        .iter()
        .map(|op| CandidateFacts {
            original_canonical: Some(op.from.duplicate()),
            target_parent_canonical: op.to.parent(),
        })
        .collect()
}

/// Applies a plan to a disk held in memory, as a caller of the library does with a real one.
fn apply(plan: &RenamePlan, disk: &mut Disk) -> Result<ApplyResult, String> {
    let operations = match start_apply(plan) {
        ApplyStart::Nothing(result) => return Ok(result),
        ApplyStart::Changes(operations) => operations,
    };
    let roots = plan_jpg_roots(plan);
    validate_apply_candidates(&root_facts(&roots), &operations, &facts_of(&operations))
        .map_err(|e| format!("{:?}: {}", e.kind, text(&e.path)))?;
    let mut run = ApplyRun::begin(stage_entries(&operations, 1_700_000_000_000), false);
    loop {
        let event = match run.action() {
            ApplyAction::Rename { from, to } => disk.rename(&from, &to),
            ApplyAction::Restore { from, to } => disk.restore(&from, &to),
            ApplyAction::WriteJournal => {
                if disk.journal_fails {
                    StepEvent::Failed
                } else {
                    disk.journal = Some(journal_for(&operations, plan, &ApplyOptions::default(), &vec![]));
                    StepEvent::Done
                }
            }
            ApplyAction::RemoveBackups => StepEvent::Done,
            ApplyAction::Finish(ApplyOutcome::Applied { applied }) => {
                return Ok(apply_result(plan, applied));
            }
            ApplyAction::Finish(outcome) => return Err(format!("{outcome:?}")),
        };
        run.advance(event);
    }
}

/// Undoes the journal of a disk held in memory.
fn undo(disk: &mut Disk) -> Result<usize, String> {
    let log = disk.journal.clone().ok_or("no journal")?;
    let roots = undo_log_roots(&log);
    let op_facts: Vec<OperationFacts> = log
        .operations
        .iter()
        .map(|op| OperationFacts {
            from_parent_canonical: op.from.parent(),
            to_parent_canonical: op.to.parent(),
        })
        .collect();
    let validated = validate_undo_log(&log, &root_facts(&roots), &op_facts, &vec![])
        .map_err(|e| format!("{:?}: {}", e.kind, text(&e.path)))?;
    let mut run = UndoRun::begin(validated.operations, false);
    loop {
        let event = match run.action() {
            UndoAction::Restore { from, to } => disk.restore(&from, &to),
            UndoAction::RemoveBackups => StepEvent::Done,
            UndoAction::DeleteJournal => {
                disk.journal = None;
                StepEvent::Done
            }
            UndoAction::Finish(UndoOutcome::Undone { restored }) => return Ok(restored),
            UndoAction::Finish(outcome) => return Err(format!("{outcome:?}")),
        };
        run.advance(event);
    }
}

#[test]
fn apply_plan_returns_unchanged_when_no_candidates_changed() {
    let plan = plan("/t/jpg", &["/t/jpg"], vec![candidate("/t/jpg/IMG_0001.JPG", "/t/jpg/IMG_0001.JPG", "IMG_0001")]);
    let mut disk = Disk::with(&[("/t/jpg/IMG_0001.JPG", "x")]);
    let result = apply(&plan, &mut disk).expect("unchanged plan should be accepted");
    assert_eq!(result.applied, 0);
    assert_eq!(result.unchanged, 1);
    assert_eq!(disk.renames, 0);
    assert!(disk.journal.is_none());
    assert_eq!(disk.names(), vec!["/t/jpg/IMG_0001.JPG"]);
}

#[test]
fn apply_plan_with_multiple_jpg_roots_succeeds() {
    let plan = plan(
        "/t",
        &["/t/a", "/t/b"],
        vec![
            candidate("/t/a/IMG_A.JPG", "/t/a/IMG_A_NEW.JPG", "IMG_A_NEW"),
            candidate("/t/b/IMG_B.JPG", "/t/b/IMG_B_NEW.JPG", "IMG_B_NEW"),
        ],
    );
    let mut disk = Disk::with(&[("/t/a/IMG_A.JPG", "A"), ("/t/b/IMG_B.JPG", "B")]);
    let result = apply(&plan, &mut disk).expect("apply should succeed for multi roots");
    assert_eq!(result.applied, 2);
    assert_eq!(disk.names(), vec!["/t/a/IMG_A_NEW.JPG", "/t/b/IMG_B_NEW.JPG"]);
    assert_eq!(disk.files["/t/a/IMG_A_NEW.JPG"], "A");
    let log = disk.journal.as_ref().expect("a journal");
    assert_eq!(log.operations.len(), 2);
    assert_eq!(log.jpg_roots, vec![path("/t/a"), path("/t/b")]);
    assert_eq!(log.jpg_root, Some(path("/t")));
    assert!(!log.backup_originals);
}

#[test]
fn apply_then_undo_restores_every_file() {
    let plan = plan(
        "/t/jpg",
        &[],
        vec![
            candidate("/t/jpg/A.JPG", "/t/jpg/X.JPG", "X"),
            candidate("/t/jpg/B.JPG", "/t/jpg/B.JPG", "B"),
            candidate("/t/jpg/C.JPG", "/t/jpg/Y.JPG", "Y"),
        ],
    );
    let before = [("/t/jpg/A.JPG", "a"), ("/t/jpg/B.JPG", "b"), ("/t/jpg/C.JPG", "c")];
    let mut disk = Disk::with(&before);
    let result = apply(&plan, &mut disk).expect("apply");
    assert_eq!((result.applied, result.unchanged), (2, 1));
    assert_eq!(disk.names(), vec!["/t/jpg/B.JPG", "/t/jpg/X.JPG", "/t/jpg/Y.JPG"]);
    assert_eq!(undo(&mut disk), Ok(2));
    assert_eq!(disk.files, Disk::with(&before).files);
    assert!(disk.journal.is_none());
    assert!(!disk.names().iter().any(|n| n.contains(".fphoto_tmp_")));
    assert_eq!(undo(&mut disk), Err("no journal".to_string()));
}

#[test]
fn apply_plan_rolls_back_when_final_rename_fails_midway() {
    let plan = plan(
        "/t/jpg",
        &["/t/jpg"],
        vec![
            candidate("/t/jpg/IMG_A.JPG", "/t/jpg/RENAMED_A.JPG", "RENAMED_A"),
            candidate("/t/jpg/IMG_B.JPG", "/t/jpg/blocked", "blocked"),
        ],
    );
    let before = [("/t/jpg/IMG_A.JPG", "A"), ("/t/jpg/IMG_B.JPG", "B")];
    let mut disk = Disk::with(&before);
    disk.blocked.insert("/t/jpg/blocked".to_string());
    let err = apply(&plan, &mut disk).expect_err("second phase should fail");
    assert_eq!(err, "CommitFailed { index: 1, rolled_back: true }");
    assert!(disk.files.contains_key("/t/jpg/IMG_A.JPG"), "original A should be restored");
    assert!(disk.files.contains_key("/t/jpg/IMG_B.JPG"), "original B should be restored");
    assert!(!disk.files.contains_key("/t/jpg/RENAMED_A.JPG"), "renamed A should be rolled back");
    assert!(
        !disk.names().iter().any(|n| n.contains(".fphoto_tmp_")),
        "temporary files should not remain"
    );
    assert_eq!(disk.files, Disk::with(&before).files);
    assert!(disk.journal.is_none());
}

#[test]
fn commit_failure_at_each_position_leaves_the_disk_as_it_was() {
    let names = ["A", "B", "C", "D"];
    for failing in 0..names.len() {
        let candidates = names
            .iter()
            .map(|n| candidate(&format!("/r/{n}.JPG"), &format!("/r/{n}_NEW.JPG"), n))
            .collect();
        let plan = plan("/r", &[], candidates);
        let files: Vec<(String, String)> =
            names.iter().map(|n| (format!("/r/{n}.JPG"), n.to_string())).collect();
        let mut disk = Disk::with(&[]);
        disk.files = files.iter().cloned().collect();
        disk.blocked.insert(format!("/r/{}_NEW.JPG", names[failing]));
        let err = apply(&plan, &mut disk).expect_err("commit fails");
        assert_eq!(err, format!("CommitFailed {{ index: {failing}, rolled_back: true }}"));
        assert_eq!(disk.files, files.iter().cloned().collect());
    }
}

#[test]
fn apply_plan_rolls_back_when_undo_log_persist_fails() {
    let plan = plan(
        "/t/jpg",
        &["/t/jpg"],
        vec![candidate("/t/jpg/IMG_0001.JPG", "/t/jpg/RENAMED_0001.JPG", "RENAMED_0001")],
    );
    let mut disk = Disk::with(&[("/t/jpg/IMG_0001.JPG", "x")]);
    disk.journal_fails = true;
    let err = apply(&plan, &mut disk).expect_err("persist should fail");
    assert_eq!(err, "PersistFailed { rolled_back: true, backups_removed: true }");
    assert!(disk.files.contains_key("/t/jpg/IMG_0001.JPG"), "original should be restored");
    assert!(!disk.files.contains_key("/t/jpg/RENAMED_0001.JPG"), "renamed file should be rolled back");
}

#[test]
fn stage_failure_takes_back_what_was_staged() {
    let plan = plan(
        "/r",
        &[],
        vec![candidate("/r/A.JPG", "/r/X.JPG", "X"), candidate("/r/GONE.JPG", "/r/Y.JPG", "Y")],
    );
    let mut disk = Disk::with(&[("/r/A.JPG", "a")]);
    let err = apply(&plan, &mut disk).expect_err("staging fails");
    assert_eq!(err, "StageFailed { index: 1, rolled_back: true }");
    assert_eq!(disk.names(), vec!["/r/A.JPG"]);
}

#[test]
fn apply_plan_rejects_target_outside_jpg_root() {
    let plan = plan(
        "/t/jpg",
        &["/t/jpg"],
        vec![candidate("/t/jpg/IMG_0001.JPG", "/t/outside/RENAMED.JPG", "RENAMED")],
    );
    let mut disk = Disk::with(&[("/t/jpg/IMG_0001.JPG", "x")]);
    let err = apply(&plan, &mut disk).expect_err("outside target should be rejected");
    assert_eq!(err, "TargetOutsideRoot: /t/outside/RENAMED.JPG");
    assert_eq!(disk.renames, 0);
    assert!(disk.files.contains_key("/t/jpg/IMG_0001.JPG"), "original file should stay untouched");
}

#[test]
fn apply_plan_rejects_duplicate_targets() {
    let plan = plan(
        "/t/jpg",
        &["/t/jpg"],
        vec![
            candidate("/t/jpg/IMG_A.JPG", "/t/jpg/SAME.JPG", "SAME"),
            candidate("/t/jpg/IMG_B.JPG", "/t/jpg/SAME.JPG", "SAME"),
        ],
    );
    let mut disk = Disk::with(&[("/t/jpg/IMG_A.JPG", "A"), ("/t/jpg/IMG_B.JPG", "B")]);
    let err = apply(&plan, &mut disk).expect_err("duplicate targets should be rejected");
    assert_eq!(err, "DuplicateTarget: /t/jpg/SAME.JPG");
    assert_eq!(disk.renames, 0);
    assert_eq!(disk.names(), vec!["/t/jpg/IMG_A.JPG", "/t/jpg/IMG_B.JPG"]);
}

#[test]
fn validation_reports_each_fault() {
    let roots = root_facts(&[path("/r")]);
    let op = |from: &str, to: &str| RenameOperation { from: path(from), to: path(to) };
    let ok = |from: &str, parent: &str| CandidateFacts {
        original_canonical: Some(path(from)),
        target_parent_canonical: Some(path(parent)),
    };
    let check = |ops: Vec<RenameOperation>, facts: Vec<CandidateFacts>| {
        validate_apply_candidates(&roots, &ops, &facts).map_err(|e| (e.kind, text(&e.path)))
    };
    assert_eq!(check(vec![op("/r/a", "/r/b")], vec![ok("/r/a", "/r")]), Ok(()));
    assert_eq!(
        check(vec![op("/r/a", "/r/b")], vec![]),
        Err((ApplyErrorKind::OriginalUnresolved, "/r/a".to_string()))
    );
    assert_eq!(
        check(vec![op("/r/a", "/r/b")], vec![ok("/x/a", "/r")]),
        Err((ApplyErrorKind::OriginalOutsideRoot, "/r/a".to_string()))
    );
    assert_eq!(
        check(vec![op("/r/a", "/r/b"), op("/r/link", "/r/c")], vec![ok("/r/a", "/r"), ok("/r/a", "/r")]),
        Err((ApplyErrorKind::DuplicateOriginal, "/r/link".to_string()))
    );
    assert_eq!(
        check(vec![op("/r/a", "/")], vec![ok("/r/a", "/r")]),
        Err((ApplyErrorKind::NoParent, "/".to_string()))
    );
    assert_eq!(
        check(vec![op("/r/a", "/r/..")], vec![ok("/r/a", "/r")]),
        Err((ApplyErrorKind::NoFileName, "/r/..".to_string()))
    );
    let unresolved =
        CandidateFacts { original_canonical: Some(path("/r/a")), target_parent_canonical: None };
    assert_eq!(
        check(vec![op("/r/a", "/r/sub/b")], vec![unresolved]),
        Err((ApplyErrorKind::ParentUnresolved, "/r/sub".to_string()))
    );
    assert_eq!(
        check(vec![op("/r/a", "/r/link/b"), op("/r/c", "/r/real/b")], vec![ok("/r/a", "/r/real"), ok("/r/c", "/r/real")]),
        Err((ApplyErrorKind::DuplicateTarget, "/r/real/b".to_string()))
    );
}

#[test]
fn roots_are_resolved_once_each() {
    let facts = vec![
        RootFacts { root: path("/a"), canonical: Some(path("/real/a")), is_dir: true },
        RootFacts { root: path("/link"), canonical: Some(path("/real/a")), is_dir: true },
        RootFacts { root: path("/b"), canonical: Some(path("/real/b")), is_dir: true },
    ];
    assert_eq!(canonicalize_jpg_roots(&facts).expect("roots"), vec![path("/real/a"), path("/real/b")]);
    let err = canonicalize_jpg_roots(&vec![]).expect_err("no roots");
    assert_eq!(err.kind, ApplyErrorKind::NoRoots);
    let gone = vec![RootFacts { root: path("/gone"), canonical: None, is_dir: false }];
    let err = canonicalize_jpg_roots(&gone).expect_err("unresolved");
    assert_eq!((err.kind, err.path), (ApplyErrorKind::RootUnresolved, path("/gone")));
    let file = vec![RootFacts { root: path("/f"), canonical: Some(path("/real/f")), is_dir: false }];
    let err = canonicalize_jpg_roots(&file).expect_err("no directory");
    assert_eq!((err.kind, err.path), (ApplyErrorKind::RootNotDirectory, path("/real/f")));
}

#[test]
fn the_longest_root_governs() {
    let roots = vec![path("/a"), path("/a/b"), path("/c"), path("/a/b")];
    assert_eq!(pick_most_specific_root(&path("/a/b/x.jpg"), &roots), Some(3));
    assert_eq!(pick_most_specific_root(&path("/a/x.jpg"), &roots), Some(0));
    assert_eq!(pick_most_specific_root(&path("/ab/x.jpg"), &roots), None);
    assert!(path_within_any_root(&path("/c"), &roots));
    assert!(!path_within_any_root(&path("/"), &roots));
    assert!(!path_within_any_root(&path("/a"), &vec![]));
}

#[test]
fn temporary_names_hold_time_position_and_name() {
    assert_eq!(
        temp_path_for(&path("/r/sub/IMG.JPG"), 7, 1234567890123),
        path("/r/sub/.fphoto_tmp_1234567890123_7_IMG.JPG")
    );
    assert_eq!(temp_path_for(&path("IMG.JPG"), 0, 0), path(".fphoto_tmp_0_0_IMG.JPG"));
    assert_eq!(temp_path_for(&path("/"), 12, 5), path("./.fphoto_tmp_5_12_file"));
    let staged = stage_entries(
        &vec![
            RenameOperation { from: path("/r/a"), to: path("/r/b") },
            RenameOperation { from: path("/r/c"), to: path("/r/d") },
        ],
        9,
    );
    assert_eq!(staged[1].temp_path, path("/r/.fphoto_tmp_9_1_c"));
    assert_eq!(staged[1].target_path, path("/r/d"));
}

#[test]
fn unique_backup_path_adds_incremental_suffix() {
    let existing = vec![path("/t/IMG_0001.JPG"), path("/t/IMG_0001_001.JPG")];
    let mut reserved = Vec::new();
    let resolved = unique_backup_path_with_reserved(path("/t/IMG_0001.JPG"), &mut reserved, &existing)
        .expect("a path");
    assert_eq!(resolved.file_name().as_deref(), Some("IMG_0001_002.JPG"));
    assert_eq!(reserved, vec![path("/t/IMG_0001_002.JPG")]);
    let again = unique_backup_path_with_reserved(path("/t/IMG_0001.JPG"), &mut reserved, &existing)
        .expect("a path");
    assert_eq!(again, path("/t/IMG_0001_003.JPG"));
    let bare = unique_backup_path_with_reserved(path("/t/README"), &mut reserved, &vec![path("/t/README")])
        .expect("a path");
    assert_eq!(bare, path("/t/README_001"));
}

#[test]
fn resolve_backup_path_keeps_relative_tree_under_backup_root() {
    let jpg_root = path("/t/jpg");
    let backup_root = path("/t/jpg/backup");
    let original = path("/t/jpg/nested/IMG_0001.JPG");
    let backup_path =
        resolve_backup_path_with_reserved(&backup_root, &jpg_root, &original, &mut Vec::new(), &vec![]);
    assert_eq!(backup_path, Some(path("/t/jpg/backup/nested/IMG_0001.JPG")));
}

#[test]
fn resolve_backup_path_falls_back_to_filename_for_outside_root() {
    let jpg_root = path("/t/jpg");
    let backup_root = path("/t/jpg/backup");
    let original = path("/t/other/IMG_9999.JPG");
    let backup_path =
        resolve_backup_path_with_reserved(&backup_root, &jpg_root, &original, &mut Vec::new(), &vec![]);
    assert_eq!(backup_path, Some(path("/t/jpg/backup/IMG_9999.JPG")));
}

#[test]
fn resolve_backup_path_with_reserved_avoids_in_batch_collisions() {
    let jpg_root = path("/t/jpg");
    let backup_root = path("/t/jpg/backup");
    let original_a = path("/t/a/IMG_0001.JPG");
    let original_b = path("/t/b/IMG_0001.JPG");

    let mut reserved = Vec::new();
    let backup_a =
        resolve_backup_path_with_reserved(&backup_root, &jpg_root, &original_a, &mut reserved, &vec![]);
    let backup_b =
        resolve_backup_path_with_reserved(&backup_root, &jpg_root, &original_b, &mut reserved, &vec![]);

    assert_eq!(backup_a, Some(path("/t/jpg/backup/IMG_0001.JPG")));
    assert_eq!(backup_b, Some(path("/t/jpg/backup/IMG_0001_001.JPG")));
}

#[test]
fn backup_original_files_rejects_backup_symlink_outside_jpg_root() {
    let roots = vec![path("/t/jpg")];
    let operations = vec![RenameOperation { from: path("/t/jpg/IMG_0001.JPG"), to: path("/t/jpg/IMG_0001_NEW.JPG") }];
    let facts = facts_of(&operations);
    let err = plan_backups(&roots, &vec![Some(path("/t/outside"))], &operations, &facts, &vec![])
        .expect_err("symlink root must fail");
    assert_eq!(err.kind, ApplyErrorKind::BackupFolderOutsideRoot);
    assert_eq!(err.path, path("/t/jpg/backup"));
    let err = plan_backups(&roots, &vec![None], &operations, &facts, &vec![]).expect_err("unresolved");
    assert_eq!(err.kind, ApplyErrorKind::BackupFolderUnresolved);
}

#[test]
fn backups_mirror_the_relative_path_and_are_removed_on_undo() {
    let roots = vec![path("/t/jpg")];
    let operations =
        vec![RenameOperation { from: path("/t/jpg/day1/IMG_0001.JPG"), to: path("/t/jpg/day1/NEW.JPG") }];
    let jobs = plan_backups(
        &roots,
        &vec![Some(path("/t/jpg/backup"))],
        &operations,
        &facts_of(&operations),
        &vec![],
    )
    .expect("backups are planned");
    assert_eq!(jobs.len(), 1);
    assert_eq!(jobs[0].original_path, path("/t/jpg/day1/IMG_0001.JPG"));
    assert_eq!(jobs[0].backup_path, path("/t/jpg/backup/day1/IMG_0001.JPG"));

    let log = UndoLog {
        operations,
        backup_originals: true,
        jpg_root: Some(path("/t/jpg")),
        jpg_roots: vec![path("/t/jpg")],
        backup_paths: vec![jobs[0].backup_path.duplicate()],
    };
    let op_facts = vec![OperationFacts {
        from_parent_canonical: Some(path("/t/jpg/day1")),
        to_parent_canonical: Some(path("/t/jpg/day1")),
    }];
    let backup_facts =
        vec![BackupFacts { exists: true, is_dir: false, parent_canonical: Some(path("/t/jpg/backup/day1")) }];
    let validated = validate_undo_log(&log, &root_facts(&[path("/t/jpg")]), &op_facts, &backup_facts)
        .expect("undo log should be valid");
    assert_eq!(validated.backup_paths, vec![path("/t/jpg/backup/day1/IMG_0001.JPG")]);
    let (steps, folders) = cleanup_steps(&validated);
    assert_eq!(folders, vec![path("/t/jpg/backup")]);
    assert_eq!(steps.len(), 1);
    assert_eq!(steps[0].file, path("/t/jpg/backup/day1/IMG_0001.JPG"));
    assert_eq!(steps[0].dirs, vec![path("/t/jpg/backup/day1")]);
}

#[test]
fn plan_backups_reports_each_fault() {
    let roots = vec![path("/t/jpg")];
    let folders = vec![Some(path("/t/jpg/backup"))];
    let operations = vec![RenameOperation { from: path("/t/jpg/A.JPG"), to: path("/t/jpg/B.JPG") }];
    let err = plan_backups(&roots, &folders, &operations, &vec![], &vec![]).expect_err("unresolved");
    assert_eq!(err.kind, ApplyErrorKind::OriginalUnresolved);
    let outside = vec![CandidateFacts {
        original_canonical: Some(path("/elsewhere/A.JPG")),
        target_parent_canonical: None,
    }];
    let err = plan_backups(&roots, &folders, &operations, &outside, &vec![]).expect_err("outside");
    assert_eq!((err.kind, err.path), (ApplyErrorKind::BackupOutsideRoot, path("/t/jpg/A.JPG")));
}

#[test]
fn cleanup_backup_if_needed_keeps_backup_when_disabled() {
    let log = UndoLog {
        operations: Vec::new(),
        backup_originals: false,
        jpg_root: Some(path("/t/jpg")),
        jpg_roots: Vec::new(),
        backup_paths: vec![path("/t/jpg/backup/file.txt")],
    };
    let facts = vec![BackupFacts { exists: true, is_dir: false, parent_canonical: Some(path("/t/jpg/backup")) }];
    let validated = validate_undo_log(&log, &root_facts(&[path("/t/jpg")]), &vec![], &facts)
        .expect("undo log should be valid");
    assert!(validated.backup_paths.is_empty());
    assert!(cleanup_steps(&validated).0.is_empty());
}

#[test]
fn cleanup_backup_if_needed_skips_when_backup_paths_missing_in_legacy_log() {
    let log = UndoLog {
        operations: Vec::new(),
        backup_originals: true,
        jpg_root: Some(path("/t/jpg")),
        jpg_roots: Vec::new(),
        backup_paths: Vec::new(),
    };
    let validated = validate_undo_log(&log, &root_facts(&[path("/t/jpg")]), &vec![], &vec![])
        .expect("undo log should be valid");
    assert!(validated.backup_paths.is_empty());
    assert_eq!(validated.jpg_roots, vec![path("/t/jpg")]);
}

#[test]
fn recorded_backups_that_are_gone_or_odd() {
    let log = UndoLog {
        operations: Vec::new(),
        backup_originals: true,
        jpg_root: None,
        jpg_roots: vec![path("/t/jpg")],
        backup_paths: vec![path("/t/jpg/backup/gone.txt"), path("/t/jpg/backup/dir")],
    };
    let roots = root_facts(&[path("/t/jpg")]);
    let gone = BackupFacts { exists: false, is_dir: false, parent_canonical: None };
    let dir = BackupFacts { exists: true, is_dir: true, parent_canonical: Some(path("/t/jpg/backup")) };
    let err = validate_undo_log(&log, &roots, &vec![], &vec![gone.clone(), dir]).expect_err("a directory");
    assert_eq!((err.kind, err.path), (ApplyErrorKind::BackupIsDirectory, path("/t/jpg/backup/dir")));
    let elsewhere = BackupFacts { exists: true, is_dir: false, parent_canonical: Some(path("/t/jpg/other")) };
    let err = validate_undo_log(&log, &roots, &vec![], &vec![gone, elsewhere]).expect_err("outside");
    assert_eq!(err.kind, ApplyErrorKind::OutsideRecordedRoots);
}

#[test]
fn restore_operations_counts_only_existing_targets() {
    let mut disk = Disk::with(&[("/t/RENAMED_A.JPG", "A")]);
    let operations = vec![
        RenameOperation { from: path("/t/A.JPG"), to: path("/t/RENAMED_A.JPG") },
        RenameOperation { from: path("/t/B.JPG"), to: path("/t/RENAMED_B.JPG") },
    ];
    let mut run = UndoRun::begin(operations, false);
    let mut order = Vec::new();
    let restored = loop {
        let event = match run.action() {
            UndoAction::Restore { from, to } => {
                order.push(text(&from));
                disk.restore(&from, &to)
            }
            UndoAction::Finish(UndoOutcome::Undone { restored }) => break restored,
            _ => StepEvent::Done,
        };
        run.advance(event);
    };
    assert_eq!(restored, 1);
    assert_eq!(order, vec!["/t/RENAMED_B.JPG", "/t/RENAMED_A.JPG"]);
    assert!(disk.files.contains_key("/t/A.JPG"));
    assert!(!disk.files.contains_key("/t/RENAMED_A.JPG"));
    assert!(!disk.files.contains_key("/t/B.JPG"));
}

#[test]
fn validate_undo_log_rejects_operation_outside_jpg_root() {
    let log = UndoLog {
        operations: vec![RenameOperation {
            from: path("/t/jpg/IMG_0001.JPG"),
            to: path("/t/outside/RENAMED_0001.JPG"),
        }],
        backup_originals: false,
        jpg_root: Some(path("/t/jpg")),
        jpg_roots: Vec::new(),
        backup_paths: Vec::new(),
    };
    let facts = vec![OperationFacts {
        from_parent_canonical: Some(path("/t/jpg")),
        to_parent_canonical: Some(path("/t/outside")),
    }];
    let err = validate_undo_log(&log, &root_facts(&undo_log_roots(&log)), &facts, &vec![])
        .expect_err("outside path must be rejected");
    assert_eq!(err.kind, ApplyErrorKind::OutsideRecordedRoots);
    assert_eq!(err.path, path("/t/outside/RENAMED_0001.JPG"));
}

#[test]
fn a_journal_without_roots_is_rejected() {
    let log = UndoLog {
        operations: Vec::new(),
        backup_originals: false,
        jpg_root: None,
        jpg_roots: Vec::new(),
        backup_paths: Vec::new(),
    };
    assert!(undo_log_roots(&log).is_empty());
    let err = validate_undo_log(&log, &vec![], &vec![], &vec![]).expect_err("no roots");
    assert_eq!(err.kind, ApplyErrorKind::NoRoots);
}

#[test]
fn recorded_paths_are_given_their_resolved_parent() {
    let roots = vec![path("/real")];
    let resolved = normalize_path_within_roots(&path("/link/a.jpg"), &roots, Some(&path("/real/sub")));
    assert_eq!(resolved.expect("a path"), path("/real/sub/a.jpg"));
    let err = normalize_path_within_roots(&path("/link/a.jpg"), &roots, None).expect_err("unresolved");
    assert_eq!((err.kind, err.path), (ApplyErrorKind::ParentUnresolved, path("/link")));
    let err = normalize_path_within_roots(&path("/"), &roots, Some(&path("/real"))).expect_err("no parent");
    assert_eq!(err.kind, ApplyErrorKind::NoParent);
    let err = normalize_path_within_roots(&path("/link/.."), &roots, Some(&path("/real"))).expect_err("no name");
    assert_eq!(err.kind, ApplyErrorKind::NoFileName);
}

#[test]
fn empty_directories_are_tried_from_the_innermost() {
    assert_eq!(
        empty_dir_chain(&path("/r/backup/a/b"), &path("/r/backup")),
        vec![path("/r/backup/a/b"), path("/r/backup/a")]
    );
    assert_eq!(empty_dir_chain(&path("/r/backup"), &path("/r/backup")), Vec::<FilePath>::new());
    assert_eq!(empty_dir_chain(&path("/r/other/a"), &path("/r/backup")), Vec::<FilePath>::new());
}

#[test]
fn undo_ends_at_the_first_failure() {
    let operations = vec![
        RenameOperation { from: path("/t/A"), to: path("/t/X") },
        RenameOperation { from: path("/t/B"), to: path("/t/Y") },
    ];
    let mut run = UndoRun::begin(operations.clone(), true);
    run.advance(StepEvent::Done);
    run.advance(StepEvent::Failed);
    assert!(matches!(
        run.action(),
        UndoAction::Finish(UndoOutcome::RestoreFailed { index: 0, restored: 1 })
    ));
    let mut run = UndoRun::begin(operations.clone(), true);
    run.advance(StepEvent::Skipped);
    run.advance(StepEvent::Done);
    assert!(matches!(run.action(), UndoAction::RemoveBackups));
    run.advance(StepEvent::Failed);
    assert!(matches!(run.action(), UndoAction::Finish(UndoOutcome::CleanupFailed { restored: 1 })));
    let mut run = UndoRun::begin(Vec::new(), false);
    assert!(matches!(run.action(), UndoAction::DeleteJournal));
    run.advance(StepEvent::Failed);
    assert!(matches!(run.action(), UndoAction::Finish(UndoOutcome::DeleteFailed { restored: 0 })));
}

#[test]
fn a_failed_rollback_is_reported() {
    let entries = stage_entries(
        &vec![
            RenameOperation { from: path("/t/A"), to: path("/t/X") },
            RenameOperation { from: path("/t/B"), to: path("/t/Y") },
        ],
        1,
    );
    let mut run = ApplyRun::begin(entries.clone(), true);
    for event in [StepEvent::Done, StepEvent::Done, StepEvent::Done, StepEvent::Failed] {
        run.advance(event);
    }
    // the second commit failed: the first target goes back to its temporary name
    match run.action() {
        ApplyAction::Restore { from, to } => {
            assert_eq!((from, to), (path("/t/X"), path("/t/.fphoto_tmp_1_0_A")));
        }
        other => panic!("unexpected action {other:?}"),
    }
    run.advance(StepEvent::Failed);
    assert!(matches!(
        run.action(),
        ApplyAction::Finish(ApplyOutcome::CommitFailed { index: 1, rolled_back: false })
    ));
    let mut run = ApplyRun::begin(entries, true);
    for event in [StepEvent::Done, StepEvent::Done, StepEvent::Done, StepEvent::Done, StepEvent::Failed] {
        run.advance(event);
    }
    // the journal was not written: the renames are taken back, then the backups removed
    run.advance(StepEvent::Done);
    run.advance(StepEvent::Failed);
    assert!(matches!(run.action(), ApplyAction::RemoveBackups));
    run.advance(StepEvent::Failed);
    assert!(matches!(
        run.action(),
        ApplyAction::Finish(ApplyOutcome::PersistFailed { rolled_back: false, backups_removed: false })
    ));
}

#[test]
fn default_apply_options_make_no_backups() {
    assert!(!ApplyOptions::default().backup_originals);
    let plan = plan("/r", &[], vec![candidate("/r/a", "/r/b", "b"), candidate("/r/c", "/r/c", "c")]);
    assert_eq!(plan_jpg_roots(&plan), vec![path("/r")]);
    assert_eq!(apply_result(&plan, 1), ApplyResult { applied: 1, unchanged: 1 });
    assert_eq!(apply_result(&plan, 5), ApplyResult { applied: 5, unchanged: 0 });
}
