use cargo_deb::manifest::{glob_prefix_of, is_glob_pattern, Asset, AssetSource};
use cargo_deb::tararchive::Archive;
use std::path::{Component, Path, PathBuf};

fn is_glob(s: &str) -> bool {
    s.contains('*') || s.contains('?') || s.contains('[') || s.contains(']') || s.contains('!')
}

#[test]
fn prefix_of_a_pattern_is_made_of_its_leading_components() {
    for pattern in [
        "target/release/*.so",
        "/abs/dir/**/x",
        "*.txt",
        "a//b/[ab]/c",
        "./a/*",
        "a/b",
        "/",
        "",
        "a/./b/*",
        "a/../b/*",
        "!x/y",
        "d/?.txt",
        "a/b?/c/*",
    ] {
        let expected: PathBuf =
            Path::new(pattern).iter().take_while(|part| !is_glob(part.to_str().unwrap())).collect();
        assert_eq!(expected, Path::new(&glob_prefix_of(pattern)), "{:?}", pattern);
        assert_eq!(is_glob(pattern), is_glob_pattern(pattern));
    }
}

/// The directories that are to stand before `path`, found with the paths of
/// the system.
fn directories_above(path: &str) -> Option<Vec<String>> {
    let relative = Path::new(".").join(Path::new(path).parent()?);
    let mut directory = PathBuf::new();
    let mut out = Vec::new();
    for comp in relative.components() {
        match comp {
            Component::Normal(c) => directory.push(c),
            _ => continue,
        }
        let mut text = directory.to_string_lossy().to_string();
        if !text.ends_with('/') {
            text += "/";
        }
        if !out.contains(&text) {
            out.push(text);
        }
    }
    Some(out)
}

#[test]
fn directories_of_an_archive_are_those_above_the_path() {
    for path in ["a/b/c", "./control", "a//b/./c", "x", "a/b/", "./a/./b", "usr/share/doc/app/copyright", "a/b/c/.", "", "/"] {
        let mut ar = Archive::new(0);
        let added = ar.file(path, b"", 0o644);
        let bytes = ar.into_inner().unwrap();
        let names: Vec<String> = tar::Archive::new(&bytes[..])
            .entries()
            .unwrap()
            .map(|e| String::from_utf8(e.unwrap().path_bytes().to_vec()).unwrap())
            .collect();
        match directories_above(path) {
            Some(dirs) => {
                assert!(added.is_ok(), "{:?}", path);
                assert_eq!(dirs[..], names[..names.len() - 1], "{:?}", path);
            }
            None => {
                assert!(added.is_err(), "{:?}", path);
                assert!(names.is_empty());
            }
        }
    }
}

/// Where an asset goes, found with the paths of the system.
fn placed(source: &str, target: &str) -> PathBuf {
    let mut target_path = PathBuf::from(target);
    if target_path.to_string_lossy().ends_with('/') {
        target_path = target_path.join(Path::new(source).file_name().unwrap());
    }
    if target_path.is_absolute() || target_path.has_root() {
        target_path = target_path.strip_prefix("/").unwrap().to_owned();
    }
    target_path
}

#[test]
fn assets_are_placed_below_the_root() {
    for (source, target) in [
        ("target/release/bar", "baz/"),
        ("foo/bar", "/baz/quz"),
        ("foo/bar", "/usr/bin/"),
        ("foo/bar", "//usr//bin/"),
        ("foo/bar.txt", "usr/share/doc/x/"),
        ("a", "b"),
        ("a/b/", "/c/"),
        ("x", "/./y"),
    ] {
        let a = Asset::new(AssetSource::Path(source.to_string()), target.to_string(), 0o644, false);
        assert_eq!(placed(source, target), Path::new(&a.target_path), "{:?} to {:?}", source, target);
        assert!(!a.target_path.starts_with('/'));
    }
}
