use fphoto_renamer_core::paths::{sort_paths, FilePath, PathPart};
use std::path::{Component, Path, PathBuf};

fn path(text: &str) -> FilePath {
    let mut parts = Vec::new();
    for component in Path::new(text).components() {
        parts.push(match component {
            Component::Prefix(p) => PathPart::Prefix(p.as_os_str().to_string_lossy().into_owned()),
            Component::RootDir => PathPart::Root,
            Component::CurDir => PathPart::Current,
            Component::ParentDir => PathPart::Parent,
            Component::Normal(n) => PathPart::Normal(n.to_string_lossy().into_owned()),
        });
    }
    FilePath { parts }
}

const SAMPLES: [&str; 18] = [
    "",
    "/",
    ".",
    "..",
    "a",
    "/a",
    "a/b.JPG",
    "/a/b/c.tar.gz",
    "./a/.hidden",
    "a/..",
    "/a/b/..",
    "a/b.",
    "a/.b.c",
    "/tmp/IMG_0001.JPG",
    "a-b",
    "a/b",
    "a b/c",
    "強化/写真.jpg",
];

#[test]
fn parent_and_names_agree_with_std() {
    for sample in SAMPLES {
        let std_path = Path::new(sample);
        let own = path(sample);
        assert_eq!(own.parent(), std_path.parent().map(|p| path(&p.to_string_lossy())), "{sample}");
        assert_eq!(
            own.file_name(),
            std_path.file_name().map(|n| n.to_string_lossy().into_owned()),
            "{sample}"
        );
        assert_eq!(
            own.file_stem(),
            std_path.file_stem().map(|n| n.to_string_lossy().into_owned()),
            "{sample}"
        );
        assert_eq!(
            own.extension(),
            std_path.extension().map(|n| n.to_string_lossy().into_owned()),
            "{sample}"
        );
        assert_eq!(own.component_count(), std_path.components().count(), "{sample}");
        assert_eq!(own.is_empty(), std_path.components().count() == 0, "{sample}");
    }
}

#[test]
fn prefixes_and_order_agree_with_std() {
    for a in SAMPLES {
        for b in SAMPLES {
            let (pa, pb) = (Path::new(a), Path::new(b));
            let (oa, ob) = (path(a), path(b));
            assert_eq!(oa.starts_with(&ob), pa.starts_with(pb), "{a} starts with {b}");
            assert_eq!(
                oa.strip_prefix(&ob),
                pa.strip_prefix(pb).ok().map(|p| path(&p.to_string_lossy())),
                "{a} without {b}"
            );
            assert_eq!(oa.same_as(&ob), pa == pb, "{a} == {b}");
            assert_eq!(oa.precedes(&ob), pa < pb, "{a} < {b}");
            assert_eq!(oa.join(&ob), path(&pa.join(pb).to_string_lossy()), "{a} joined with {b}");
        }
    }
}

#[test]
fn names_are_joined_as_std_joins_them() {
    for dir in ["", "/", "a", "/a/b", "."] {
        for name in ["", ".", "..", "x.jpg", ".x", "強化.JPG"] {
            assert_eq!(
                path(dir).join_name(name),
                path(&Path::new(dir).join(name).to_string_lossy()),
                "{dir} joined with {name}"
            );
        }
    }
}

#[test]
fn sorting_agrees_with_std() {
    let names = ["b/a", "a-b", "a/b", "/z", "a", "", "a/b/c", "B", "a.b", "a/b"];
    let mut expected: Vec<PathBuf> = names.iter().map(PathBuf::from).collect();
    expected.sort();
    let sorted = sort_paths(&names.iter().map(|n| path(n)).collect());
    let expected: Vec<FilePath> = expected.iter().map(|p| path(&p.to_string_lossy())).collect();
    assert_eq!(sorted, expected);
    assert_eq!(sort_paths(&vec![]), vec![]);
}

#[test]
fn duplicate_keeps_the_components() {
    let p = path("/a/b/c.jpg");
    assert_eq!(p.duplicate(), p);
    assert_eq!(FilePath::new(), path(""));
}
