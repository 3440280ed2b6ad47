use fphoto_renamer_core::matcher::{
    build_raw_match_index, find_matching_raw, find_matching_xmp, is_index_target_extension,
    pick_candidate_with_case_variants, resolve_search_dir, DirItem,
};
use fphoto_renamer_core::paths::{FilePath, PathPart};
use fphoto_renamer_core::text::chars_of;
use std::path::{Component, Path};

fn path(text: &str) -> FilePath {
    let mut parts = Vec::new();
    for component in Path::new(text).components() {
        parts.push(match component {
            Component::Prefix(p) => PathPart::Prefix(p.as_os_str().to_string_lossy().into_owned()),
            Component::RootDir => PathPart::Root,
            Component::CurDir => PathPart::Current,
            Component::ParentDir => PathPart::Parent,
            Component::Normal(n) => PathPart::Normal(n.to_string_lossy().into_owned()),
        });
    }
    FilePath { parts }
}

fn file(name: &str) -> DirItem {
    DirItem { name: name.to_string(), is_file: true }
}

#[test]
fn finds_xmp_even_when_raw_missing() {
    let jpg_root = path("/t/jpg");
    let raw_root = path("/t/raw");
    let jpg = path("/t/jpg/DSC00001.JPG");
    let xmp = path("/t/raw/DSC00001.xmp");
    let entries = vec![file("DSC00001.xmp")];

    let found_xmp = find_matching_xmp(&jpg_root, &raw_root, &jpg, false, &entries);
    let found_raw = find_matching_raw(&jpg_root, &raw_root, &jpg, false, &entries);
    assert_eq!(found_xmp, Some(xmp.duplicate()));
    assert!(found_raw.is_none());

    let index = build_raw_match_index(&jpg_root, &raw_root, &vec![xmp.duplicate()], false);
    assert_eq!(index.find_xmp(&jpg), Some(xmp));
    assert!(index.find_raw(&jpg).is_none());
}

#[test]
fn prefers_dng_over_raf_when_both_exist() {
    let jpg_root = path("/t/jpg");
    let raw_root = path("/t/raw");
    let jpg = path("/t/jpg/DSC00002.JPG");
    let dng = path("/t/raw/DSC00002.dng");
    let raf = path("/t/raw/DSC00002.raf");
    let entries = vec![file("DSC00002.raf"), file("DSC00002.dng")];

    let found = find_matching_raw(&jpg_root, &raw_root, &jpg, false, &entries);
    assert_eq!(found, Some(dng.duplicate()));

    let index = build_raw_match_index(&jpg_root, &raw_root, &vec![raf, dng.duplicate()], false);
    assert_eq!(index.find_raw(&jpg), Some(dng));
}

#[test]
fn resolves_recursive_relative_directory() {
    let jpg_root = path("/t/jpg");
    let raw_root = path("/t/raw");
    let jpg = path("/t/jpg/day1/DSC00003.JPG");
    let xmp = path("/t/raw/day1/DSC00003.XMP");
    let raf = path("/t/raw/day1/DSC00003.RAF");
    assert_eq!(resolve_search_dir(&jpg_root, &raw_root, &jpg, true), path("/t/raw/day1"));
    let entries = vec![file("DSC00003.XMP"), file("DSC00003.RAF")];

    let found_xmp = find_matching_xmp(&jpg_root, &raw_root, &jpg, true, &entries);
    let found_raw = find_matching_raw(&jpg_root, &raw_root, &jpg, true, &entries);

    let found_xmp = found_xmp.expect("xmp should be found");
    let found_raw = found_raw.expect("raw should be found");
    assert!(found_xmp
        .extension()
        .map(|v| v.eq_ignore_ascii_case("xmp"))
        .unwrap_or(false));
    assert!(found_raw
        .extension()
        .map(|v| v.eq_ignore_ascii_case("raf"))
        .unwrap_or(false));

    let index = build_raw_match_index(
        &jpg_root,
        &raw_root,
        &vec![raf.duplicate(), xmp.duplicate(), path("/t/raw/day2/DSC00003.xmp")],
        true,
    );
    assert_eq!(index.find_xmp(&jpg), Some(xmp));
    assert_eq!(index.find_raw(&jpg), Some(raf));
}

#[test]
fn search_directory_without_recursion_is_the_companion_root() {
    let jpg = path("/t/jpg/day1/A.JPG");
    assert_eq!(resolve_search_dir(&path("/t/jpg"), &path("/t/raw"), &jpg, false), path("/t/raw"));
    assert_eq!(resolve_search_dir(&path("/other"), &path("/t/raw"), &jpg, true), path("/t/raw"));
    assert_eq!(
        resolve_search_dir(&path("/t/jpg"), &path("/t/raw"), &path("/t/jpg/A.JPG"), true),
        path("/t/raw")
    );
}

#[test]
fn companion_extensions() {
    assert!(is_index_target_extension("dng"));
    assert!(is_index_target_extension("RAF"));
    assert!(is_index_target_extension("Xmp"));
    assert!(!is_index_target_extension("jpg"));
    assert!(!is_index_target_extension(""));
}

#[test]
fn candidates_are_picked_by_exactness() {
    let candidates = vec![
        path("/r/a.XMP"),
        path("/r/A.Xmp"),
        path("/r/A.XMP"),
        path("/r/A.xmp"),
        path("/r/b.dng"),
    ];
    let stem = chars_of("A");
    assert_eq!(pick_candidate_with_case_variants(&candidates, &stem, "xmp"), Some(path("/r/A.xmp")));
    let without_exact = vec![path("/r/a.XMP"), path("/r/A.Xmp"), path("/r/A.XMP")];
    assert_eq!(pick_candidate_with_case_variants(&without_exact, &stem, "xmp"), Some(path("/r/A.XMP")));
    let any_case = vec![path("/r/b.xmp"), path("/r/a.XMP"), path("/r/A.Xmp")];
    assert_eq!(pick_candidate_with_case_variants(&any_case, &stem, "xmp"), Some(path("/r/a.XMP")));
    let by_extension = vec![path("/r/b.dng"), path("/r/c.Xmp"), path("/r/d.xmp")];
    assert_eq!(pick_candidate_with_case_variants(&by_extension, &stem, "xmp"), Some(path("/r/c.Xmp")));
    assert_eq!(pick_candidate_with_case_variants(&by_extension, &stem, "raf"), None);
    assert_eq!(pick_candidate_with_case_variants(&vec![], &stem, "xmp"), None);
}

#[test]
fn index_skips_files_that_are_no_companions() {
    let files = vec![
        path("/t/raw/A.jpg"),
        path("/t/raw/.xmp"),
        path("/t/raw/A"),
        path("/t/raw/sub/A.xmp"),
        path("/t/raw/a.RAF"),
    ];
    let flat = build_raw_match_index(&path("/t/jpg"), &path("/t/raw"), &files, false);
    // without recursion every file is indexed under the root itself
    assert_eq!(flat.find_xmp(&path("/t/jpg/deep/A.JPG")), Some(path("/t/raw/sub/A.xmp")));
    assert_eq!(flat.find_raw(&path("/t/jpg/A.JPG")), Some(path("/t/raw/a.RAF")));
    let deep = build_raw_match_index(&path("/t/jpg"), &path("/t/raw"), &files, true);
    assert_eq!(deep.find_xmp(&path("/t/jpg/A.JPG")), None);
    assert_eq!(deep.find_xmp(&path("/t/jpg/sub/A.JPG")), Some(path("/t/raw/sub/A.xmp")));
    assert_eq!(deep.find_raw(&path("/t/jpg/A.JPG")), Some(path("/t/raw/a.RAF")));
    assert_eq!(deep.find_raw(&path("/")), None);
}

#[test]
fn directory_entries_that_are_no_files_count_only_by_exact_name() {
    let entries = vec![
        DirItem { name: "a.DNG".to_string(), is_file: false },
        DirItem { name: "A.Dng".to_string(), is_file: true },
    ];
    let found = find_matching_raw(&path("/j"), &path("/r"), &path("/j/A.JPG"), false, &entries);
    assert_eq!(found, Some(path("/r/A.Dng")));
    let exact = vec![DirItem { name: "A.DNG".to_string(), is_file: false }];
    let found = find_matching_raw(&path("/j"), &path("/r"), &path("/j/A.JPG"), false, &exact);
    assert_eq!(found, Some(path("/r/A.DNG")));
}
