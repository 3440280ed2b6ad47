use fphoto_renamer_core::metadata::{CaptureDate, MetadataSource, PartialMetadata};
use fphoto_renamer_core::paths::{FilePath, PathPart};
use fphoto_renamer_core::planner::{
    common_ancestor_path, companion_needed, fixed_sample_metadata,
    generate_plan_with_resolved_jpg_input, is_available, is_hidden, is_jpg, normalize_to_folder,
    own_metadata_needed,
    merge_with_jpg_fallback, metadata_changed, metadata_has_missing_fields, metadata_source_label,
    prepare_candidate, render_base, render_preview_sample, resolve_collision,
    resolve_explicit_jpg_files, resolve_jpg_input, resolve_metadata, resolve_raw_root_for_file,
    scan_step, to_photo_metadata, validate_raw_input, ExplicitFile, InputKind, PlanErrorKind,
    PlanOptions, PreparedCandidate, RenamePlan, RenameStats, ScanAction, ScanEntry,
};
use fphoto_renamer_core::template::{parse_template, TemplateError};
use fphoto_renamer_core::xmp_reader::read_xmp_metadata;
use std::path::{Component, Path};

fn path(text: &str) -> FilePath {
    let mut parts = Vec::new();
    for component in Path::new(text).components() {
        parts.push(match component {
            Component::Prefix(p) => PathPart::Prefix(p.as_os_str().to_string_lossy().into_owned()),
            Component::RootDir => PathPart::Root,
            Component::CurDir => PathPart::Current,
            Component::ParentDir => PathPart::Parent,
            Component::Normal(n) => PathPart::Normal(n.to_string_lossy().into_owned()),
        });
    }
    FilePath { parts }
}

fn fallback_date() -> CaptureDate {
    CaptureDate { year: 2020, month: 5, day: 6, hour: 7, minute: 8, second: 9 }
}

fn options(template: &str) -> PlanOptions {
    let mut options = PlanOptions::default();
    options.template = template.to_string();
    options
}

/// Plans the photos of a directory whose entries are given, none of which has metadata but
/// those listed in `sidecars`.
fn plan_directory(
    root: &str,
    entries: &[(&str, bool, usize)],
    options: &PlanOptions,
    sidecars: &[(&str, &str)],
) -> RenamePlan {
    let mut stats = RenameStats::default();
    let mut photos = Vec::new();
    let mut existing = Vec::new();
    for (name, is_dir, depth) in entries {
        let entry = ScanEntry { path: path(name), is_dir: *is_dir, depth: *depth };
        scan_step(&mut stats, &mut photos, &entry, options.recursive, options.include_hidden);
        existing.push(path(name));
    }
    let resolved = resolve_jpg_input(&path(root), InputKind::Directory, photos, &mut stats)
        .expect("a directory is accepted");
    let parts = parse_template(&options.template).expect("template parses");
    let mut prepared = Vec::new();
    for photo in &resolved.jpg_files {
        let xmp = sidecars
            .iter()
            .find(|(name, _)| path(name) == *photo)
            .map(|(_, text)| read_xmp_metadata(text));
        let metadata = resolve_metadata(xmp, None, None, None, fallback_date(), photo);
        prepared.push(prepare_candidate(
            &parts,
            options.dedupe_same_maker,
            &options.exclusions,
            options.max_filename_len,
            photo,
            metadata,
        ));
    }
    generate_plan_with_resolved_jpg_input(options, resolved, stats, prepared, &existing)
        .expect("plan generation should succeed")
}

fn blank() -> PartialMetadata {
    PartialMetadata::blank()
}

#[test]
fn merge_with_jpg_fallback_fills_missing_fields() {
    let base = PartialMetadata {
        camera_make: None,
        camera_model: None,
        lens_make: None,
        lens_model: None,
        ..blank()
    };
    let jpg = PartialMetadata {
        camera_make: Some("FUJIFILM".to_string()),
        camera_model: Some("X-H2".to_string()),
        lens_make: Some("FUJIFILM".to_string()),
        lens_model: Some("XF35mm F1.4 R".to_string()),
        ..blank()
    };

    let merged = merge_with_jpg_fallback(base, Some(&jpg));
    assert_eq!(merged.camera_make.as_deref(), Some("FUJIFILM"));
    assert_eq!(merged.camera_model.as_deref(), Some("X-H2"));
    assert_eq!(merged.lens_make.as_deref(), Some("FUJIFILM"));
    assert_eq!(merged.lens_model.as_deref(), Some("XF35mm F1.4 R"));
}

#[test]
fn merge_with_jpg_fallback_keeps_existing_values() {
    let base = PartialMetadata {
        camera_make: Some("SONY".to_string()),
        camera_model: Some("A7C".to_string()),
        lens_make: Some("SIGMA".to_string()),
        lens_model: Some("35mm F2 DG DN".to_string()),
        ..blank()
    };
    let jpg = PartialMetadata {
        camera_make: Some("FUJIFILM".to_string()),
        camera_model: Some("X-H2".to_string()),
        lens_make: Some("FUJIFILM".to_string()),
        lens_model: Some("XF35mm F1.4 R".to_string()),
        ..blank()
    };

    let merged = merge_with_jpg_fallback(base, Some(&jpg));
    assert_eq!(merged.camera_make.as_deref(), Some("SONY"));
    assert_eq!(merged.camera_model.as_deref(), Some("A7C"));
    assert_eq!(merged.lens_make.as_deref(), Some("SIGMA"));
    assert_eq!(merged.lens_model.as_deref(), Some("35mm F2 DG DN"));
}

#[test]
fn metadata_source_label_uses_raw_extension_for_raw_exif() {
    let label = metadata_source_label(
        MetadataSource::RawExif,
        Some(&path("/tmp/session/DSC00001.RAF")),
    );
    assert_eq!(label, "raf");
}

#[test]
fn metadata_source_label_returns_xmp_for_combined_source() {
    let label = metadata_source_label(
        MetadataSource::XmpAndRawExif,
        Some(&path("/tmp/session/DSC00001.DNG")),
    );
    assert_eq!(label, "xmp");
}

#[test]
fn metadata_source_label_returns_jpg_for_fallback_source() {
    let label = metadata_source_label(MetadataSource::FallbackFileModified, None);
    assert_eq!(label, "jpg");
}

#[test]
fn metadata_source_label_of_a_raw_file_without_extension() {
    assert_eq!(metadata_source_label(MetadataSource::RawExif, Some(&path("/r/RAWFILE"))), "raw");
    assert_eq!(metadata_source_label(MetadataSource::RawExif, None), "raw");
    assert_eq!(metadata_source_label(MetadataSource::JpgExif, Some(&path("/r/a.dng"))), "jpg");
    assert_eq!(metadata_source_label(MetadataSource::Xmp, None), "xmp");
}

#[test]
fn directory_of_photos_without_metadata_keeps_their_names() {
    let plan = plan_directory(
        "/t/jpg",
        &[("/t/jpg/B.JPG", false, 1), ("/t/jpg/A.JPG", false, 1)],
        &options("{orig_name}"),
        &[],
    );
    assert_eq!(plan.stats.scanned_files, 2);
    assert_eq!(plan.stats.jpg_files, 2);
    assert_eq!(plan.stats.skipped_non_jpg, 0);
    assert_eq!(plan.stats.skipped_hidden, 0);
    assert_eq!(plan.stats.planned, 2);
    assert_eq!(plan.stats.unchanged, 2);
    assert_eq!(plan.candidates.len(), 2);
    assert!(plan.candidates.iter().all(|c| !c.changed));
    assert!(plan.candidates.iter().all(|c| c.target_path == c.original_path));
    assert!(plan
        .candidates
        .iter()
        .all(|c| c.metadata_source == MetadataSource::FallbackFileModified && c.source_label == "jpg"));
    assert_eq!(plan.jpg_root, path("/t/jpg"));
    assert_eq!(plan.jpg_roots, vec![path("/t/jpg")]);
    assert_eq!(plan.template, "{orig_name}");
}

#[test]
fn generate_plan_non_recursive_returns_stable_sorted_order() {
    let plan = plan_directory(
        "/t/jpg",
        &[("/t/jpg/B.JPG", false, 1), ("/t/jpg/A.JPG", false, 1)],
        &options("{orig_name}"),
        &[],
    );
    assert_eq!(plan.candidates.len(), 2);
    assert_eq!(plan.candidates[0].original_path, path("/t/jpg/A.JPG"));
    assert_eq!(plan.candidates[1].original_path, path("/t/jpg/B.JPG"));
}

#[test]
fn generate_plan_uses_xmp_when_only_xmp_exists_in_raw_folder() {
    let plan = plan_directory(
        "/t/jpg",
        &[("/t/jpg/DSC00001.JPG", false, 1)],
        &options("{camera_maker}_{orig_name}"),
        &[(
            "/t/jpg/DSC00001.JPG",
            r#"<x:xmpmeta><rdf:RDF><rdf:Description><exif:DateTimeOriginal>2026:02:08 10:20:30</exif:DateTimeOriginal><exif:Make>FUJIFILM</exif:Make></rdf:Description></rdf:RDF></x:xmpmeta>"#,
        )],
    );
    assert_eq!(plan.candidates.len(), 1);
    let c = &plan.candidates[0];
    assert_eq!(c.metadata_source, MetadataSource::Xmp);
    assert_eq!(c.source_label, "xmp");
    assert_eq!(c.metadata.camera_make.as_deref(), Some("FUJIFILM"));
    assert_eq!(c.rendered_base, "FUJIFILM_DSC00001");
    assert_eq!(c.target_path, path("/t/jpg/FUJIFILM_DSC00001.JPG"));
    assert!(c.changed);
    assert_eq!(plan.stats.unchanged, 0);
}

#[test]
fn excluded_maker_leaves_no_double_underscore() {
    let template = parse_template("{camera_maker}_{orig_name}").expect("template parses");
    let meta = PartialMetadata { camera_make: Some("FUJIFILM".to_string()), ..blank() };
    let resolved = resolve_metadata(None, None, None, Some(meta), fallback_date(), &path("/t/IMG.JPG"));
    let prepared =
        prepare_candidate(&template, true, &["FUJIFILM".to_string()], 240, &path("/t/IMG.JPG"), resolved);
    assert_eq!(prepared.rendered_base, "IMG");
    assert_eq!(prepared.extension, ".JPG");
    let excluded = fphoto_renamer_core::sanitize::apply_exclusions(
        "FUJIFILM_IMG".to_string(),
        &["FUJIFILM".to_string()],
    );
    assert_eq!(excluded, "_IMG");
}

#[test]
fn colliding_names_get_numbers() {
    let mut plan_options = options("shot");
    plan_options.max_filename_len = 240;
    let plan = plan_directory(
        "/t/jpg",
        &[
            ("/t/jpg/A.JPG", false, 1),
            ("/t/jpg/B.JPG", false, 1),
            ("/t/jpg/C.JPG", false, 1),
            ("/t/jpg/shot_001.JPG", false, 1),
        ],
        &plan_options,
        &[],
    );
    let targets: Vec<FilePath> = plan.candidates.iter().map(|c| c.target_path.duplicate()).collect();
    assert_eq!(
        targets,
        vec![
            path("/t/jpg/shot.JPG"),
            path("/t/jpg/shot_002.JPG"),
            path("/t/jpg/shot_003.JPG"),
            path("/t/jpg/shot_001.JPG"),
        ]
    );
    assert_eq!(plan.stats.unchanged, 1);
    assert!(!plan.candidates[3].changed);
    for (i, a) in targets.iter().enumerate() {
        for b in &targets[i + 1..] {
            assert_ne!(a, b);
        }
    }
}

#[test]
fn an_unrelated_file_of_the_same_name_is_not_overwritten() {
    let mut planned = Vec::new();
    let existing = vec![path("/t/name.JPG"), path("/t/A.JPG"), path("/t/B.JPG")];
    let first = resolve_collision(&path("/t/A.JPG"), "name", ".JPG", &mut planned, 240, &existing)
        .expect("a target");
    let second = resolve_collision(&path("/t/B.JPG"), "name", ".JPG", &mut planned, 240, &existing)
        .expect("a target");
    assert_eq!(first, path("/t/name_001.JPG"));
    assert_eq!(second, path("/t/name_002.JPG"));
    assert_eq!(planned, vec![path("/t/name_001.JPG"), path("/t/name_002.JPG")]);
    let own = resolve_collision(&path("/t/name.JPG"), "name", ".JPG", &mut planned, 240, &existing)
        .expect("a target");
    assert_eq!(own, path("/t/name.JPG"));
}

#[test]
fn numbered_names_are_bounded_again() {
    let mut planned = vec![path("/t/abc_def.JPG")];
    let target = resolve_collision(&path("/t/A.JPG"), "abc_def", ".JPG", &mut planned, 15, &vec![])
        .expect("a target");
    assert_eq!(target, path("/t/abc_def_001.JPG"));
    // with a limit of 11 characters the number is cut off again: no numbered name is free
    let mut planned = vec![path("/t/abc_def.JPG")];
    let err = resolve_collision(&path("/t/A.JPG"), "abc_def", ".JPG", &mut planned, 11, &vec![])
        .expect_err("no free name");
    assert_eq!(err.kind, PlanErrorKind::NamesExhausted);
    assert_eq!(err.path, path("/t/A.JPG"));
    assert_eq!(planned, vec![path("/t/abc_def.JPG")]);
    // a name that is cut at an earlier underscore may be free
    let mut planned = vec![path("/t/abc_def.JPG")];
    let target = resolve_collision(&path("/t/A.JPG"), "abc_def", ".JPG", &mut planned, 10, &vec![])
        .expect("a target");
    assert_eq!(target, path("/t/abc.JPG"));
    let err = resolve_collision(&path("/"), "x", ".JPG", &mut planned, 240, &vec![])
        .expect_err("no parent");
    assert_eq!(err.kind, PlanErrorKind::NoParent);
    assert_eq!(err.path, path("/"));
}

#[test]
fn availability_of_a_target() {
    let planned = vec![path("/t/x.JPG")];
    let existing = vec![path("/t/y.JPG"), path("/t/own.JPG")];
    assert!(!is_available(&path("/t/x.JPG"), &path("/t/a.JPG"), &planned, &existing));
    assert!(!is_available(&path("/t/y.JPG"), &path("/t/a.JPG"), &planned, &existing));
    assert!(is_available(&path("/t/own.JPG"), &path("/t/own.JPG"), &planned, &existing));
    assert!(is_available(&path("/t/z.JPG"), &path("/t/a.JPG"), &planned, &existing));
    assert!(!is_available(&path("/t/x.JPG"), &path("/t/x.JPG"), &planned, &existing));
}

#[test]
fn generate_plan_recursive_skips_hidden_directories_when_disabled() {
    let mut stats = RenameStats::default();
    let mut out = Vec::new();
    let walk = [
        ScanEntry { path: path("/t/jpg"), is_dir: true, depth: 0 },
        ScanEntry { path: path("/t/jpg/.hidden"), is_dir: true, depth: 1 },
        ScanEntry { path: path("/t/jpg/VISIBLE.JPG"), is_dir: false, depth: 1 },
    ];
    let actions: Vec<ScanAction> =
        walk.iter().map(|e| scan_step(&mut stats, &mut out, e, true, false)).collect();
    assert_eq!(
        actions,
        vec![ScanAction::PassDirectory, ScanAction::SkipDirectory, ScanAction::TakePhoto]
    );
    assert_eq!(out, vec![path("/t/jpg/VISIBLE.JPG")]);
    assert_eq!(stats.skipped_hidden, 1);
    assert_eq!(stats.scanned_files, 1);
    assert_eq!(stats.jpg_files, 1);
}

#[test]
fn scan_counts_each_kind_of_entry() {
    let mut stats = RenameStats::default();
    let mut out = Vec::new();
    let root_hidden = ScanEntry { path: path("/t/.jpg"), is_dir: true, depth: 0 };
    assert_eq!(scan_step(&mut stats, &mut out, &root_hidden, true, false), ScanAction::PassDirectory);
    let dir = ScanEntry { path: path("/t/.d"), is_dir: true, depth: 1 };
    assert_eq!(scan_step(&mut stats, &mut out, &dir, false, false), ScanAction::PassDirectory);
    assert_eq!(scan_step(&mut stats, &mut out, &dir, true, true), ScanAction::PassDirectory);
    let hidden = ScanEntry { path: path("/t/.a.jpg"), is_dir: false, depth: 1 };
    assert_eq!(scan_step(&mut stats, &mut out, &hidden, false, false), ScanAction::SkipHidden);
    assert_eq!(scan_step(&mut stats, &mut out, &hidden, false, true), ScanAction::TakePhoto);
    let other = ScanEntry { path: path("/t/a.txt"), is_dir: false, depth: 1 };
    assert_eq!(scan_step(&mut stats, &mut out, &other, false, false), ScanAction::SkipOther);
    let jpeg = ScanEntry { path: path("/t/a.JpEg"), is_dir: false, depth: 1 };
    assert_eq!(scan_step(&mut stats, &mut out, &jpeg, false, false), ScanAction::TakePhoto);
    assert_eq!(
        stats,
        RenameStats {
            scanned_files: 3,
            jpg_files: 2,
            skipped_non_jpg: 1,
            skipped_hidden: 1,
            planned: 0,
            unchanged: 0,
        }
    );
    assert_eq!(out, vec![path("/t/.a.jpg"), path("/t/a.JpEg")]);
    assert!(is_jpg(&path("a.jpg")) && is_jpg(&path("a.JPEG")) && !is_jpg(&path("jpg")));
    assert!(is_hidden(&path("/a/.b")) && !is_hidden(&path("/.a/b")) && !is_hidden(&path("..")));
}

#[test]
fn generate_plan_fails_when_explicit_raw_folder_is_missing() {
    let err = validate_raw_input(Some(&path("/t/missing-raw")), InputKind::Missing)
        .expect_err("plan generation should fail");
    assert_eq!(err.kind, PlanErrorKind::RawFolderMissing);
    assert_eq!(err.path, path("/t/missing-raw"));
}

#[test]
fn generate_plan_fails_when_explicit_raw_path_is_not_directory() {
    let err = validate_raw_input(Some(&path("/t/raw-file.txt")), InputKind::File)
        .expect_err("plan generation should fail");
    assert_eq!(err.kind, PlanErrorKind::RawFolderNotDirectory);
    assert!(validate_raw_input(Some(&path("/t/raw")), InputKind::Directory).is_ok());
    assert!(validate_raw_input(None, InputKind::Missing).is_ok());
}

#[test]
fn generate_plan_fails_when_jpg_input_is_not_jpg_file() {
    let mut stats = RenameStats::default();
    let err = resolve_jpg_input(&path("/t/not-jpg.txt"), InputKind::File, vec![], &mut stats)
        .expect_err("plan generation should fail");
    assert_eq!(err.kind, PlanErrorKind::NotJpgFile);
    assert_eq!(err.path, path("/t/not-jpg.txt"));
    let err = resolve_jpg_input(&path("/t/gone"), InputKind::Missing, vec![], &mut stats)
        .expect_err("missing input");
    assert_eq!(err.kind, PlanErrorKind::JpgInputMissing);
    let err = resolve_jpg_input(&path("/t/pipe"), InputKind::Other, vec![], &mut stats)
        .expect_err("odd input");
    assert_eq!(err.kind, PlanErrorKind::JpgInputNotFileOrDirectory);
    assert_eq!(stats, RenameStats::default());
}

#[test]
fn generate_plan_single_jpg_file_sets_jpg_root_to_parent_directory() {
    let mut stats = RenameStats::default();
    let resolved = resolve_jpg_input(&path("/t/jpg/SINGLE.JPG"), InputKind::File, vec![], &mut stats)
        .expect("plan generation should succeed");
    assert_eq!(resolved.jpg_root, path("/t/jpg"));
    assert_eq!(resolved.jpg_roots, vec![path("/t/jpg")]);
    assert_eq!(resolved.jpg_files, vec![path("/t/jpg/SINGLE.JPG")]);
    assert_eq!(stats.scanned_files, 1);
    assert_eq!(stats.jpg_files, 1);
}

#[test]
fn companion_root_of_a_file() {
    let root = path("/t/session/jpg");
    assert_eq!(resolve_raw_root_for_file(Some(&path("/raw")), true, &root), Some(path("/raw")));
    assert_eq!(resolve_raw_root_for_file(None, true, &root), Some(path("/t/session")));
    assert_eq!(resolve_raw_root_for_file(None, false, &root), None);
    assert_eq!(resolve_raw_root_for_file(None, true, &path("/")), None);
}

fn explicit(name: &str, canonical_parent: Option<&str>) -> ExplicitFile {
    ExplicitFile {
        path: path(name),
        exists: true,
        is_file: true,
        parent_canonical: canonical_parent.map(path),
    }
}

#[test]
fn generate_plan_for_jpg_files_supports_cross_folder_inputs() {
    let mut stats = RenameStats::default();
    let files = vec![
        explicit("/t/session/b/B.JPG", Some("/t/session/b")),
        explicit("/t/session/a/A.JPG", Some("/t/session/a")),
        explicit("/t/session/b/B.JPG", Some("/t/session/b")),
        explicit("/t/session/a/C.JPG", Some("/t/session/a")),
    ];
    let resolved = resolve_explicit_jpg_files(&files, &mut stats)
        .expect("cross-folder files should be accepted");
    assert_eq!(resolved.jpg_root, path("/t/session"));
    assert_eq!(resolved.jpg_roots, vec![path("/t/session/a"), path("/t/session/b")]);
    assert_eq!(
        resolved.jpg_files,
        vec![path("/t/session/a/A.JPG"), path("/t/session/a/C.JPG"), path("/t/session/b/B.JPG")]
    );
    assert!(resolved.root_is_parent);
    assert_eq!(stats.scanned_files, 3);
    assert_eq!(stats.jpg_files, 3);
}

#[test]
fn explicit_files_are_checked_one_by_one() {
    let mut stats = RenameStats::default();
    let err = resolve_explicit_jpg_files(&vec![], &mut stats).expect_err("no files");
    assert_eq!(err.kind, PlanErrorKind::NoFilesGiven);
    let mut missing = explicit("/t/a/A.JPG", Some("/t/a"));
    missing.exists = false;
    let err = resolve_explicit_jpg_files(&vec![explicit("/t/a/B.JPG", Some("/t/a")), missing], &mut stats)
        .expect_err("missing file");
    assert_eq!((err.kind, err.path), (PlanErrorKind::JpgFileMissing, path("/t/a/A.JPG")));
    let mut directory = explicit("/t/a/D.JPG", Some("/t/a"));
    directory.is_file = false;
    let err = resolve_explicit_jpg_files(&vec![directory], &mut stats).expect_err("no file");
    assert_eq!(err.kind, PlanErrorKind::NotJpgFile);
    let err = resolve_explicit_jpg_files(&vec![explicit("/t/a/A.PNG", Some("/t/a"))], &mut stats)
        .expect_err("no photo");
    assert_eq!(err.kind, PlanErrorKind::NotJpgFile);
    let err = resolve_explicit_jpg_files(&vec![explicit("/t/a/A.JPG", None)], &mut stats)
        .expect_err("unresolved");
    assert_eq!((err.kind, err.path), (PlanErrorKind::ParentUnresolved, path("/t/a")));
    let err = resolve_explicit_jpg_files(
        &vec![explicit("a/A.JPG", Some("a")), explicit("b/B.JPG", Some("b"))],
        &mut stats,
    )
    .expect_err("nothing in common");
    assert_eq!(err.kind, PlanErrorKind::NoCommonRoot);
    assert_eq!(stats, RenameStats::default());
}

#[test]
fn common_ancestor_is_the_longest_shared_beginning() {
    assert_eq!(common_ancestor_path(&vec![]), None);
    assert_eq!(common_ancestor_path(&vec![path("/a/b")]), Some(path("/a/b")));
    assert_eq!(common_ancestor_path(&vec![path("/a/b/c"), path("/a/b/d"), path("/a/x")]), Some(path("/a")));
    assert_eq!(common_ancestor_path(&vec![path("/a"), path("/b")]), Some(path("/")));
    assert_eq!(common_ancestor_path(&vec![path("a"), path("b")]), None);
    assert_eq!(common_ancestor_path(&vec![path("/a/b"), path("/a/b")]), Some(path("/a/b")));
    assert_eq!(common_ancestor_path(&vec![path("/a/b"), path("/a/bc")]), Some(path("/a")));
}

#[test]
fn sidecar_comes_before_raw_and_raw_before_the_photo() {
    let date = CaptureDate { year: 2026, month: 2, day: 8, hour: 10, minute: 20, second: 30 };
    let xmp = PartialMetadata { camera_make: Some("X".to_string()), ..blank() };
    let raw = PartialMetadata {
        camera_make: Some("R".to_string()),
        camera_model: Some("RM".to_string()),
        date: Some(date),
        ..blank()
    };
    let jpg = PartialMetadata {
        camera_make: Some("J".to_string()),
        camera_model: Some("JM".to_string()),
        lens_model: Some("JL".to_string()),
        ..blank()
    };
    let photo = path("/t/IMG_1.JPG");
    let raw_path = path("/r/IMG_1.RAF");
    let all = resolve_metadata(
        Some(xmp.duplicate()),
        Some(raw.duplicate()),
        Some(&raw_path),
        Some(jpg.duplicate()),
        fallback_date(),
        &photo,
    );
    assert_eq!(all.metadata.source, MetadataSource::XmpAndRawExif);
    assert_eq!(all.source_label, "xmp");
    assert_eq!(all.metadata.date, date);
    assert_eq!(all.metadata.camera_make.as_deref(), Some("X"));
    assert_eq!(all.metadata.camera_model.as_deref(), Some("RM"));
    assert_eq!(all.metadata.lens_model.as_deref(), Some("JL"));
    assert_eq!(all.metadata.original_name, "IMG_1");
    assert_eq!(all.metadata.jpg_path, photo);

    let raw_only =
        resolve_metadata(None, Some(raw.duplicate()), Some(&raw_path), Some(jpg.duplicate()), fallback_date(), &photo);
    assert_eq!(raw_only.metadata.source, MetadataSource::RawExif);
    assert_eq!(raw_only.source_label, "raf");
    assert_eq!(raw_only.metadata.camera_make.as_deref(), Some("R"));
    assert_eq!(raw_only.metadata.lens_model.as_deref(), Some("JL"));

    let without_date =
        resolve_metadata(Some(xmp.duplicate()), None, None, Some(jpg.duplicate()), fallback_date(), &photo);
    assert_eq!(without_date.metadata.source, MetadataSource::FallbackFileModified);
    assert_eq!(without_date.source_label, "jpg");
    assert_eq!(without_date.metadata.date, fallback_date());
    assert_eq!(without_date.metadata.camera_make.as_deref(), Some("X"));

    let full_xmp = PartialMetadata { date: Some(date), ..xmp.duplicate() };
    let kept = resolve_metadata(Some(full_xmp), Some(blank()), Some(&raw_path), None, fallback_date(), &photo);
    assert_eq!(kept.metadata.source, MetadataSource::Xmp);

    let nothing = resolve_metadata(None, None, None, None, fallback_date(), &path("/"));
    assert_eq!(nothing.metadata.source, MetadataSource::FallbackFileModified);
    assert_eq!(nothing.metadata.original_name, "untitled");
    assert_eq!(nothing.metadata.camera_make, None);
}

#[test]
fn missing_and_changed_fields() {
    let full = PartialMetadata {
        date: Some(fallback_date()),
        camera_make: Some("a".to_string()),
        camera_model: Some("b".to_string()),
        lens_make: Some("c".to_string()),
        lens_model: Some("d".to_string()),
        film_sim: Some("e".to_string()),
    };
    assert!(!metadata_has_missing_fields(&full));
    assert!(metadata_has_missing_fields(&blank()));
    assert!(!metadata_changed(&full, &full.duplicate()));
    let other = PartialMetadata { film_sim: Some("E".to_string()), ..full.duplicate() };
    assert!(metadata_changed(&full, &other));
    let undated = PartialMetadata { date: None, ..full.duplicate() };
    assert!(metadata_changed(&full, &undated));
    let photo = to_photo_metadata(undated, MetadataSource::Xmp, fallback_date(), "n".to_string(), &path("a.jpg"));
    assert_eq!(photo.source, MetadataSource::FallbackFileModified);
    assert_eq!(photo.date, fallback_date());
}

#[test]
fn preview_of_a_template() {
    let meta = resolve_metadata(None, None, None, None, fallback_date(), &path("/t/IMG 1.JPG")).metadata;
    assert_eq!(
        render_preview_sample("{year}-{month} {orig_name}", true, &[], &meta, ".JPG", 240),
        Ok("2020_05_IMG-1.JPG".to_string())
    );
    assert_eq!(
        render_preview_sample("{nope}", true, &[], &meta, ".JPG", 240),
        Err(TemplateError::UnknownToken("nope".to_string()))
    );
    assert_eq!(render_preview_sample("", true, &[], &meta, ".JPG", 240), Err(TemplateError::Empty));
    assert_eq!(render_base("a/b  c__d".to_string(), &[], ".jpg", 240), "a_b_c_d");
    assert_eq!(render_base("aaaa_bbbb_cccc".to_string(), &[], ".jpg", 13), "aaaa_bbbb");
}

#[test]
fn default_options() {
    let o = PlanOptions::default();
    assert!(o.jpg_input.is_empty());
    assert_eq!(o.raw_input, None);
    assert!(!o.raw_from_jpg_parent_when_missing && !o.recursive && !o.include_hidden);
    assert!(o.dedupe_same_maker);
    assert_eq!(o.max_filename_len, 240);
    assert!(parse_template(&o.template).is_ok());
    let unused: Vec<PreparedCandidate> = Vec::new();
    assert!(unused.is_empty());
}

#[test]
fn preview_of_the_fixed_sample() {
    let date = CaptureDate { year: 2026, month: 3, day: 4, hour: 5, minute: 6, second: 7 };
    let sample = fixed_sample_metadata(date);
    assert_eq!(sample.jpg_path, path("DSC00001.JPG"));
    assert_eq!(sample.source, MetadataSource::JpgExif);
    assert_eq!(
        render_preview_sample(
            "{date}_{camera_maker}_{camera_model}_{lens_maker}_{lens_model}_{film_sim}_{orig_name}",
            true,
            &[],
            &sample,
            ".JPG",
            240
        ),
        Ok("20260304050607_FUJIFILM_X-H2_XF35mm-F1.4-R_PROVIA_DSC00001.JPG".to_string())
    );
    assert_eq!(
        render_preview_sample("{lens_maker}", false, &[], &sample, ".JPG", 240),
        Ok("FUJIFILM.JPG".to_string())
    );
}

#[test]
fn folder_of_a_path() {
    assert_eq!(normalize_to_folder(&path("/a/b"), InputKind::Directory), Some(path("/a/b")));
    assert_eq!(normalize_to_folder(&path("/a/b.jpg"), InputKind::File), Some(path("/a")));
    assert_eq!(normalize_to_folder(&path("/a/b"), InputKind::Missing), None);
    assert_eq!(normalize_to_folder(&path("/a/b"), InputKind::Other), None);
}

#[test]
fn sources_are_read_only_where_needed() {
    let full = PartialMetadata {
        date: Some(fallback_date()),
        camera_make: Some("a".to_string()),
        camera_model: Some("b".to_string()),
        lens_make: Some("c".to_string()),
        lens_model: Some("d".to_string()),
        film_sim: Some("e".to_string()),
    };
    let gaps = PartialMetadata { film_sim: None, ..full.duplicate() };
    let film = PartialMetadata { film_sim: Some("f".to_string()), ..blank() };
    assert!(companion_needed(None));
    assert!(companion_needed(Some(&gaps)));
    assert!(!companion_needed(Some(&full)));
    assert!(own_metadata_needed(None, None));
    assert!(own_metadata_needed(Some(&gaps), None));
    assert!(own_metadata_needed(None, Some(&gaps)));
    assert!(own_metadata_needed(Some(&gaps), Some(&blank())));
    assert!(!own_metadata_needed(Some(&gaps), Some(&film)));
    assert!(!own_metadata_needed(Some(&full), None));
    assert!(!own_metadata_needed(None, Some(&full)));
}
