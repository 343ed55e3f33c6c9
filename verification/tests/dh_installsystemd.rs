use cargo_deb::dh_installsystemd::{find_units, is_comment, unquote, PackageUnitFiles};
use cargo_deb::fstree::FileTree;

fn tree_of(paths: &[&str]) -> FileTree {
    let mut tree = FileTree::new();
    for p in paths {
        tree.add_file(p, Vec::new());
    }
    tree
}

#[test]
fn is_comment_detects_comments() {
    assert!(is_comment("#"));
    assert!(is_comment("#  "));
    assert!(is_comment("# some comment"));
    assert!(is_comment(";"));
    assert!(is_comment(";  "));
    assert!(is_comment("; some comment"));
}

#[test]
fn is_comment_detects_non_comments() {
    assert!(!is_comment(" #"));
    assert!(!is_comment(" #  "));
    assert!(!is_comment(" # some comment"));
    assert!(!is_comment(" ;"));
    assert!(!is_comment(" ;  "));
    assert!(!is_comment(" ; some comment"));
}

#[test]
fn is_comment_of_empty_line() {
    assert!(!is_comment(""));
}

#[test]
fn unquote_unquotes_matching_single_quotes() {
    assert_eq!("", unquote("''"));
    assert_eq!("a", unquote("'a'"));
    assert_eq!("ab", unquote("'ab'"));
}

#[test]
fn unquote_unquotes_matching_double_quotes() {
    assert_eq!("", unquote(r#""""#));
    assert_eq!("a", unquote(r#""a""#));
    assert_eq!("ab", unquote(r#""ab""#));
}

#[test]
fn unquote_ignores_embedded_quotes() {
    assert_eq!("a'b", unquote("'a'b'"));
    assert_eq!(r#"a"b"#, unquote(r#"'a"b'"#));
    assert_eq!(r#"a"b"#, unquote(r#""a"b""#));
    assert_eq!(r#"a'b"#, unquote(r#""a'b""#));
}

#[test]
fn unquote_ignores_partial_quotes() {
    assert_eq!("'", unquote("'"));
    assert_eq!("'ab", unquote("'ab"));
    assert_eq!("ab'", unquote("ab'"));
    assert_eq!("'ab'ab", unquote("'ab'ab"));
    assert_eq!("ab'ab'", unquote("ab'ab'"));
    assert_eq!(r#"""#, unquote(r#"""#));
    assert_eq!(r#""ab"#, unquote(r#""ab"#));
    assert_eq!(r#"ab""#, unquote(r#"ab""#));
    assert_eq!(r#""ab"ab"#, unquote(r#""ab"ab"#));
    assert_eq!(r#"ab"ab""#, unquote(r#"ab"ab""#));
}

#[test]
fn unquote_ignores_mismatched_quotes() {
    assert_eq!(r#""'"#, unquote(r#""'"#));
    assert_eq!(r#"'""#, unquote(r#"'""#));
    assert_eq!(r#""a'"#, unquote(r#""a'"#));
    assert_eq!(r#"'a""#, unquote(r#"'a""#));
    assert_eq!(r#""ab'"#, unquote(r#""ab'"#));
    assert_eq!(r#"'ab""#, unquote(r#"'ab""#));
}

#[test]
fn unquote_keeps_text_that_is_not_ascii() {
    assert_eq!("é", unquote("'é'"));
    assert_eq!("é", unquote("é"));
}

#[test]
fn find_units_in_empty_dir_finds_nothing() {
    let pkg_unit_files = find_units(&FileTree::new(), "", "mypkg", None);
    assert!(pkg_unit_files.is_empty());
}

fn assert_eq_found_unit(pkg_unit_files: &PackageUnitFiles, expected_install_path: &str, source_path: &str) {
    let actual = pkg_unit_files.get(source_path).unwrap();
    assert_eq!(expected_install_path, actual.path);
    assert_eq!(0o644, actual.mode);
}

#[test]
fn find_units_for_package() {
    // one of each valid pattern (without a specific unit) and one
    // additional valid pattern with a unit (which should not be matched
    // as we don't specify a specific unit name to match)
    let tree = tree_of(&[
        "debian/mypkg.mount",
        "debian/mypkg@.path",
        "debian/service", // demonstrates the main package fallback
        "debian/mypkg@.socket",
        "debian/mypkg.target",
        "debian/mypkg@.timer",
        "debian/mypkg.tmpfile",
        "debian/mypkg.myunit.service", // demonstrates lack of unit name
    ]);
    let pkg_unit_files = find_units(&tree, "debian", "mypkg", None);
    assert_eq_found_unit(&pkg_unit_files, "lib/systemd/system/mypkg.mount", "debian/mypkg.mount");
    assert_eq_found_unit(&pkg_unit_files, "lib/systemd/system/mypkg@.path", "debian/mypkg@.path");
    assert_eq_found_unit(&pkg_unit_files, "lib/systemd/system/mypkg.service", "debian/service");
    assert_eq_found_unit(&pkg_unit_files, "lib/systemd/system/mypkg@.socket", "debian/mypkg@.socket");
    assert_eq_found_unit(&pkg_unit_files, "lib/systemd/system/mypkg.target", "debian/mypkg.target");
    assert_eq_found_unit(&pkg_unit_files, "lib/systemd/system/mypkg@.timer", "debian/mypkg@.timer");
    assert_eq_found_unit(&pkg_unit_files, "usr/lib/tmpfiles.d/mypkg.conf", "debian/mypkg.tmpfile");
    assert_eq!(7, pkg_unit_files.len());
}

#[test]
fn find_named_units_for_package() {
    // one of each valid pattern (with a specific unit) and one additional
    // valid pattern without a unit (which should not be matched if there is
    // match with the correctly named unit).
    let tree = tree_of(&[
        "debian/mypkg.myunit.mount",
        "debian/mypkg@.myunit.path",
        "debian/service", // main package match should be ignored
        "debian/mypkg@.myunit.socket",
        "debian/target", // no unit or package but should be matched as fallback
        "debian/mypkg@.myunit.timer",
        "debian/mypkg.tmpfile", // no unit but should be matched as fallback
        "debian/mypkg.myunit.service", // should be matched over main package match above
        // some paths that should not be matched
        "debian/nested/dir/mykpg.myunit.mount",
        "debian/README.md",
        "mypkg.myunit.mount",
        "mypkg.mount",
        "mount",
        "postinit",
        "mypkg.postinit",
        "mypkg.myunit.postinit",
    ]);

    let pkg_unit_files = find_units(&tree, "debian", "mypkg", Some("myunit"));
    // note the "myunit" target names, even when the match was less specific
    assert_eq_found_unit(&pkg_unit_files, "lib/systemd/system/myunit.mount", "debian/mypkg.myunit.mount");
    assert_eq_found_unit(&pkg_unit_files, "lib/systemd/system/myunit@.path", "debian/mypkg@.myunit.path");
    assert_eq_found_unit(&pkg_unit_files, "lib/systemd/system/myunit.service", "debian/mypkg.myunit.service");
    assert_eq_found_unit(&pkg_unit_files, "lib/systemd/system/myunit@.socket", "debian/mypkg@.myunit.socket");
    assert_eq_found_unit(&pkg_unit_files, "lib/systemd/system/myunit.target", "debian/target");
    assert_eq_found_unit(&pkg_unit_files, "lib/systemd/system/myunit@.timer", "debian/mypkg@.myunit.timer");

    // note the changed file extension
    assert_eq_found_unit(&pkg_unit_files, "usr/lib/tmpfiles.d/myunit.conf", "debian/mypkg.tmpfile");

    assert_eq!(7, pkg_unit_files.len());
}

#[test]
fn found_units_can_be_walked() {
    let tree = tree_of(&["debian/mypkg.service", "debian/mypkg.timer"]);
    let found = find_units(&tree, "debian", "mypkg", None);
    assert_eq!(2, found.len());
    assert_eq!("debian/mypkg.service", found.source_at(0));
    assert_eq!("lib/systemd/system/mypkg.service", found.recipe_at(0).path);
    assert_eq!("debian/mypkg.timer", found.source_at(1));
    assert_eq!(0o644, found.recipe_at(1).mode);
    assert!(found.get("debian/other").is_none());
}

#[test]
fn find_units_knows_template_mounts() {
    let tree = tree_of(&["debian/mypkg@.mount"]);
    let pkg_unit_files = find_units(&tree, "debian", "mypkg", None);
    assert_eq!(1, pkg_unit_files.len());
    assert_eq_found_unit(&pkg_unit_files, "lib/systemd/system/mypkg@.mount", "debian/mypkg@.mount");
}
