use cargo_deb::pathbytes::AsUnixPathBytes;
use cargo_deb::paths::{join_path, last_component, paths_equal, starts_with_path, strip_prefix};
use std::path::Path;

#[test]
fn unix_path() {
    assert_eq!(b"foo/bar/baz"[..], "foo/bar/baz".as_unix_path()[..]);
}

#[test]
fn unix_path_is_utf8() {
    assert_eq!("é/ü".as_bytes(), &"é/ü".as_unix_path()[..]);
}

#[test]
fn join_follows_the_rules_of_paths() {
    assert_eq!("a/b", join_path("a", "b"));
    assert_eq!("a/b", join_path("a/", "b"));
    assert_eq!("b", join_path("", "b"));
    assert_eq!("/b", join_path("a", "/b"));
    assert_eq!("a/", join_path("a", ""));
    assert_eq!("/x", join_path("/", "x"));
}

#[test]
fn paths_are_compared_by_components() {
    assert!(paths_equal("a/b", "a//b/"));
    assert!(paths_equal("a/./b", "a/b"));
    assert!(!paths_equal("./a", "a"));
    assert!(!paths_equal("/a", "a"));
    assert!(!paths_equal("a/../b", "b"));
    assert!(starts_with_path("lib/systemd/system/a.service", "lib/systemd/system/"));
    assert!(starts_with_path("lib/systemd/system", "lib/systemd/system/"));
    assert!(!starts_with_path("lib/systemd/systemx/a", "lib/systemd/system/"));
    assert!(!starts_with_path("/lib/systemd/system/a", "lib/systemd/system/"));
    assert_eq!(Some("c/d".to_string()), strip_prefix("a/b//c/d", "a/b"));
    assert_eq!(Some("".to_string()), strip_prefix("a/b", "a/b/"));
    assert_eq!(None, strip_prefix("a/b", "a/c"));
    assert_eq!(Some("usr/bin".to_string()), strip_prefix("/usr/bin", "/"));
}

#[test]
fn last_component_is_the_file_name() {
    assert_eq!(Some("c".to_string()), last_component("a/b/c"));
    assert_eq!(Some("c".to_string()), last_component("a/b/c/."));
    assert_eq!(None, last_component("a/.."));
    assert_eq!(None, last_component("/"));
    assert_eq!(None, last_component(""));
    assert_eq!(None, last_component("."));
}

#[test]
fn paths_behave_like_the_paths_of_the_system() {
    let samples = [
        "", ".", "..", "/", "//", "a", "a/", "a/b", "a//b", "a/./b", "./a", "./a/b", "a/..", "a/../b", "/a", "/a/b/", "/./a",
        "a/b/c", "lib/systemd/system", "lib/systemd/system/", "lib/systemd/system/x.service", "a/.", "a/b/.", "../a", ".a", "a.b/c.d",
    ];
    for a in samples {
        assert_eq!(
            Path::new(a).file_name().map(|n| n.to_string_lossy().into_owned()),
            last_component(a),
            "file name of {:?}",
            a
        );
        for b in samples {
            assert_eq!(Path::new(a) == Path::new(b), paths_equal(a, b), "{:?} == {:?}", a, b);
            assert_eq!(Path::new(a).starts_with(b), starts_with_path(a, b), "{:?} starts with {:?}", a, b);
            assert_eq!(Path::new(a).join(b).to_string_lossy(), join_path(a, b), "{:?} join {:?}", a, b);
            match (Path::new(a).strip_prefix(b), strip_prefix(a, b)) {
                (Ok(rest), Some(mine)) => assert_eq!(rest, Path::new(&mine), "{:?} below {:?}", a, b),
                (Err(_), None) => {}
                (theirs, mine) => panic!("{:?} below {:?}: {:?} and {:?}", a, b, theirs, mine),
            }
        }
    }
}
