use fphoto_renamer_core::config::{app_paths_in, atomic_temp_path, AppConfig};
use fphoto_renamer_core::dates::{first_date, parse_exif_date, parse_xmp_date};
use fphoto_renamer_core::metadata::{CaptureDate, MetadataSource, PartialMetadata, PhotoMetadata};
use fphoto_renamer_core::paths::{FilePath, PathPart};
use fphoto_renamer_core::planner::DEFAULT_TEMPLATE;
use std::path::{Component, Path};

fn path(text: &str) -> FilePath {
    let mut parts = Vec::new();
    for component in Path::new(text).components() {
        parts.push(match component {
            Component::Prefix(p) => PathPart::Prefix(p.as_os_str().to_string_lossy().into_owned()),
            Component::RootDir => PathPart::Root,
            Component::CurDir => PathPart::Current,
            Component::ParentDir => PathPart::Parent,
            Component::Normal(n) => PathPart::Normal(n.to_string_lossy().into_owned()),
        });
    }
    FilePath { parts }
}

fn date() -> CaptureDate {
    CaptureDate { year: 2026, month: 1, day: 2, hour: 10, minute: 20, second: 30 }
}

#[test]
fn normalized_make_trims_and_drops_empty() {
    let mut meta = PhotoMetadata {
        source: MetadataSource::JpgExif,
        date: date(),
        camera_make: Some("  FUJIFILM  ".to_string()),
        camera_model: None,
        lens_make: Some("   ".to_string()),
        lens_model: None,
        film_sim: None,
        original_name: "IMG_0001".to_string(),
        jpg_path: path("/tmp/IMG_0001.JPG"),
    };

    assert_eq!(meta.normalized_camera_make().as_deref(), Some("FUJIFILM"));
    assert_eq!(meta.normalized_lens_make(), None);

    meta.camera_make = Some(" ".to_string());
    assert_eq!(meta.normalized_camera_make(), None);
}

#[test]
fn merge_missing_from_only_fills_missing_fields() {
    let now = date();
    let mut base = PartialMetadata {
        date: Some(now),
        camera_make: Some("SONY".to_string()),
        camera_model: None,
        lens_make: None,
        lens_model: Some("35mm F2".to_string()),
        film_sim: None,
    };
    let fallback = PartialMetadata {
        date: None,
        camera_make: Some("FUJIFILM".to_string()),
        camera_model: Some("X-T5".to_string()),
        lens_make: Some("FUJIFILM".to_string()),
        lens_model: Some("XF16-55".to_string()),
        film_sim: Some("CLASSIC CHROME".to_string()),
    };

    base.merge_missing_from(&fallback);
    assert_eq!(base.date, Some(now));
    assert_eq!(base.camera_make.as_deref(), Some("SONY"));
    assert_eq!(base.camera_model.as_deref(), Some("X-T5"));
    assert_eq!(base.lens_make.as_deref(), Some("FUJIFILM"));
    assert_eq!(base.lens_model.as_deref(), Some("35mm F2"));
    assert_eq!(base.film_sim.as_deref(), Some("CLASSIC CHROME"));
}

#[test]
fn default_config_has_expected_values() {
    let cfg = AppConfig::default();
    assert_eq!(cfg.template, DEFAULT_TEMPLATE);
    assert!(cfg.exclude_strings.is_empty());
    assert!(cfg.dedupe_same_maker);
    assert!(!cfg.backup_originals);
    assert!(!cfg.raw_parent_if_missing);
}

#[test]
fn merge_takes_the_date_of_the_fallback() {
    let mut base = PartialMetadata::blank();
    let mut fallback = PartialMetadata::blank();
    fallback.date = Some(date());
    base.merge_missing_from(&fallback);
    assert_eq!(base.date, Some(date()));
    let copy = base.duplicate();
    assert_eq!(copy.date, base.date);
    base.merge_missing_from(&PartialMetadata::blank());
    assert_eq!(base.date, Some(date()));
}

#[test]
fn state_files_lie_in_the_config_directory() {
    let paths = app_paths_in(path("/home/user/.config/app"));
    assert_eq!(paths.config_path, path("/home/user/.config/app/config.toml"));
    assert_eq!(paths.undo_path, path("/home/user/.config/app/undo-last.json"));
    assert_eq!(
        atomic_temp_path(&paths.undo_path, "state", 4711),
        path("/home/user/.config/app/.undo-last.json.4711.tmp")
    );
    assert_eq!(atomic_temp_path(&path("/"), "state", 0), path(".state.0.tmp"));
}

#[test]
fn first_date_is_the_first_that_is_there() {
    let other = CaptureDate { year: 1999, month: 12, day: 31, hour: 23, minute: 59, second: 59 };
    assert_eq!(first_date(&vec![None, Some(date()), Some(other)]), Some(date()));
    assert_eq!(first_date(&vec![None, None]), None);
    assert_eq!(first_date(&vec![]), None);
}

#[test]
fn dates_without_offset_are_read_as_written() {
    let expected = CaptureDate { year: 2024, month: 6, day: 15, hour: 12, minute: 34, second: 56 };
    assert_eq!(parse_exif_date("  2024:06:15 12:34:56 "), Some(expected));
    assert_eq!(parse_exif_date("2024-06-15 12:34:56"), Some(expected));
    assert_eq!(parse_exif_date("2024-06-15T12:34:56"), Some(expected));
    assert_eq!(parse_exif_date("2024-06-15T12:34:56.250"), Some(expected));
    assert_eq!(parse_xmp_date("2024:06:15 12:34:56"), Some(expected));
    assert_eq!(parse_xmp_date("2024-06-15T12:34:56"), Some(expected));
    assert_eq!(parse_exif_date("2024-06-15"), None);
    assert_eq!(parse_exif_date(""), None);
    assert_eq!(parse_exif_date("2024:13:15 12:34:56"), None);
}

#[test]
fn dates_with_offset_are_well_formed() {
    let read = parse_exif_date("2024:06:15 12:34:56+09:00").expect("a date");
    assert!(1 <= read.month && read.month <= 12);
    assert!(1 <= read.day && read.day <= 31);
    assert!(read.hour <= 23 && read.minute <= 59 && read.second <= 59);
    assert_eq!(read.second, 56);
    assert!(parse_xmp_date("2024-06-15T12:34:56.5+09:00").is_some());
    assert!(parse_xmp_date("2024:06:15 12:34:56+09:00").is_none());
}
