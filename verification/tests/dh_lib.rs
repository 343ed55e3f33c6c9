use cargo_deb::autoscripts::autoscript_names;
use cargo_deb::dh_lib::{
    apply, autoscript, autoscript_sed, debhelper_script_subst, get_embedded_autoscript,
    is_autoscript, pkgfile,
};
use cargo_deb::error::CargoDebError;
use cargo_deb::fragments::ScriptFragments;
use cargo_deb::fstree::FileTree;
use cargo_deb::listener::{Listener, NoOpListener};

struct CountingListener {
    infos: usize,
    warnings: usize,
}

impl Listener for CountingListener {
    fn warning(&mut self, _s: String) {
        self.warnings += 1;
    }
    fn info(&mut self, _s: String) {
        self.infos += 1;
    }
}

fn fs_with(paths: &[&str]) -> FileTree {
    let mut tree = FileTree::new();
    for p in paths {
        tree.add_file(p, Vec::new());
    }
    tree
}

fn opt(s: &str) -> Option<String> {
    Some(s.to_string())
}

#[test]
fn pkgfile_finds_most_specific_match_with_pkg_unit_file() {
    let tree = fs_with(&[
        "/parent/dir/postinst",
        "/parent/dir/myunit.postinst",
        "/parent/dir/mypkg.postinst",
        "/parent/dir/mypkg.myunit.postinst",
        "/parent/dir/nested/mypkg.myunit.postinst",
        "/parent/mypkg.myunit.postinst",
    ]);

    let r = pkgfile(&tree, "/parent/dir/", "mypkg", "mypkg", "postinst", Some("myunit"));
    assert_eq!(opt("/parent/dir/mypkg.myunit.postinst"), r);

    let r = pkgfile(&tree, "/parent/dir/", "mypkg", "mypkg", "postinst", None);
    assert_eq!(opt("/parent/dir/mypkg.postinst"), r);
}

#[test]
fn pkgfile_finds_most_specific_match_without_unit_file() {
    let tree = fs_with(&[
        "/parent/dir/postinst",
        "/parent/dir/myunit.postinst",
        "/parent/dir/mypkg.postinst",
        "/parent/dir/nested/mypkg.myunit.postinst",
        "/parent/mypkg.myunit.postinst",
    ]);

    let r = pkgfile(&tree, "/parent/dir/", "mypkg", "mypkg", "postinst", Some("myunit"));
    assert_eq!(opt("/parent/dir/mypkg.postinst"), r);

    let r = pkgfile(&tree, "/parent/dir/", "mypkg", "mypkg", "postinst", None);
    assert_eq!(opt("/parent/dir/mypkg.postinst"), r);
}

#[test]
fn pkgfile_finds_most_specific_match_without_pkg_file() {
    let tree = fs_with(&["/parent/dir/postinst", "/parent/dir/myunit.postinst"]);

    let r = pkgfile(&tree, "/parent/dir/", "mypkg", "mypkg", "postinst", Some("myunit"));
    assert_eq!(opt("/parent/dir/myunit.postinst"), r);

    let r = pkgfile(&tree, "/parent/dir/", "mypkg", "mypkg", "postinst", None);
    assert_eq!(opt("/parent/dir/postinst"), r);
}

#[test]
fn pkgfile_finds_a_fallback_match() {
    let tree = fs_with(&[
        "/parent/dir/postinst",
        "/parent/dir/myunit.postinst",
        "/parent/dir/mypkg.postinst",
        "/parent/dir/mypkg.myunit.postinst",
        "/parent/dir/nested/mypkg.myunit.postinst",
        "/parent/mypkg.myunit.postinst",
    ]);

    let r = pkgfile(&tree, "/parent/dir/", "mypkg", "mypkg", "postinst", Some("wrongunit"));
    assert_eq!(opt("/parent/dir/mypkg.postinst"), r);

    let r = pkgfile(&tree, "/parent/dir/", "wrongpkg", "wrongpkg", "postinst", None);
    assert_eq!(opt("/parent/dir/postinst"), r);
}

#[test]
fn pkgfile_fails_to_find_a_match() {
    let tree = fs_with(&[
        "/parent/dir/postinst",
        "/parent/dir/myunit.postinst",
        "/parent/dir/mypkg.postinst",
        "/parent/dir/mypkg.myunit.postinst",
        "/parent/dir/nested/mypkg.myunit.postinst",
        "/parent/mypkg.myunit.postinst",
    ]);

    let r = pkgfile(&tree, "/parent/dir/", "mypkg", "mypkg", "wrongfile", None);
    assert_eq!(None, r);

    let r = pkgfile(&tree, "/wrong/dir/", "mypkg", "mypkg", "postinst", None);
    assert_eq!(None, r);
}

#[test]
fn pkgfile_of_another_package_has_no_fallback() {
    let tree = fs_with(&["debian/service", "debian/myunit.service"]);
    assert_eq!(None, pkgfile(&tree, "debian", "mypkg", "mypkg@", "service", None));
    assert_eq!(None, pkgfile(&tree, "debian", "mypkg", "mypkg@", "service", Some("myunit")));
    assert_eq!(opt("debian/service"), pkgfile(&tree, "debian", "mypkg", "mypkg", "service", None));
}

#[test]
fn pkgfile_skips_directories() {
    let mut tree = FileTree::new();
    tree.entries.push(cargo_deb::fstree::FileEntry {
        path: "debian/mypkg.service".to_string(),
        is_dir: true,
        link: None,
        data: Vec::new(),
    });
    tree.add_file("debian/service", Vec::new());
    assert_eq!(opt("debian/service"), pkgfile(&tree, "debian", "mypkg", "mypkg", "service", None));
}

fn autoscript_test_wrapper(pkg: &str, script: &str, snippet: &str, unit: &str, scripts: Option<ScriptFragments>) -> ScriptFragments {
    let mut listener = CountingListener { infos: 0, warnings: 0 };
    let mut scripts = scripts.unwrap_or(ScriptFragments::new());
    let replacements = vec![("UNITFILES".to_string(), unit.to_owned())];
    assert!(is_autoscript(snippet));
    autoscript(&mut scripts, pkg, script, snippet, &replacements, "cargo-deb", &mut listener).unwrap();
    assert_eq!(1, listener.infos);
    assert_eq!(0, listener.warnings);
    scripts
}

#[test]
fn autoscript_check_embedded_files() {
    let actual_scripts = autoscript_names();

    let expected_scripts = vec![
        "postinst-init-tmpfiles",
        "postinst-systemd-dont-enable",
        "postinst-systemd-enable",
        "postinst-systemd-restart",
        "postinst-systemd-restartnostart",
        "postinst-systemd-start",
        "postrm-systemd",
        "postrm-systemd-reload-only",
        "prerm-systemd",
        "prerm-systemd-restart",
    ];

    assert_eq!(expected_scripts, actual_scripts);
}

#[test]
fn unknown_autoscript_is_not_known() {
    assert!(!is_autoscript("idontexist"));
    assert!(!is_autoscript(""));
    assert!(is_autoscript("prerm-systemd"));
}

#[test]
fn autoscript_sanity_check_with_embedded_snippets() {
    for snippet_filename in autoscript_names() {
        let text = get_embedded_autoscript(snippet_filename);
        assert!(text.ends_with('\n'));
        assert!(text.len() > 10);
        autoscript_test_wrapper("mypkg", "somescript", snippet_filename, "dummyunit", None);
    }
}

fn autoscript_detailed_check(maintainer_script: &str, prepend: bool) {
    let autoscript_name = "postrm-systemd";

    // Populate an autoscript template and add the result to a
    // collection of scripts and return it to us.
    let scripts = autoscript_test_wrapper("mypkg", maintainer_script, autoscript_name, "dummyunit", None);

    // Expect autoscript() to have created one temporary script
    // fragment called <package>.<script>.debhelper.
    assert_eq!(1, scripts.len());

    let expected_created_name = format!("mypkg.{}.debhelper", maintainer_script);
    let created_name = scripts.keys().remove(0);
    let created_bytes = scripts.get(&created_name).unwrap().clone();

    // Verify the created script filename key
    assert_eq!(expected_created_name, created_name);

    // Verify the created script contents. It should have two lines
    // more than the autoscript fragment it was based on, like so:
    //   # Automatically added by ...
    //   <autoscript fragment lines with placeholders replaced>
    //   # End automatically added section
    let autoscript_text = get_embedded_autoscript(autoscript_name);
    let autoscript_line_count = autoscript_text.lines().count();
    let created_text = std::str::from_utf8(&created_bytes).unwrap();
    let created_line_count = created_text.lines().count();
    assert_eq!(autoscript_line_count + 2, created_line_count);

    // Verify the content of the added comment lines
    let mut lines = created_text.lines();
    assert!(lines.nth(0).unwrap().starts_with("# Automatically added by"));
    assert_eq!(lines.nth_back(0).unwrap(), "# End automatically added section");

    // Check that the autoscript fragment lines were properly copied
    // into the created script complete with expected substitutions
    let expected_autoscript_text1 = autoscript_text.replace("#UNITFILES#", "dummyunit");
    let expected_autoscript_text1 = expected_autoscript_text1.trim_end();
    let start1 = 1;
    let end1 = start1 + autoscript_line_count;
    let created_autoscript_text1 = created_text.lines().collect::<Vec<&str>>()[start1..end1].join("\n");
    assert_ne!(expected_autoscript_text1, autoscript_text);
    assert_eq!(expected_autoscript_text1, created_autoscript_text1);

    // Process the same autoscript again but use a different unit
    // name so that we can see if the autoscript template was again
    // populated but this time with the different value, and pass in
    // the existing set of created scripts to check how it gets
    // modified.
    let scripts = autoscript_test_wrapper("mypkg", maintainer_script, autoscript_name, "otherunit", Some(scripts));

    // The number and name of the output scripts should remain the same
    assert_eq!(1, scripts.len());
    let created_name = scripts.keys().remove(0);
    let created_bytes = scripts.get(&created_name).unwrap().clone();
    assert_eq!(expected_created_name, created_name);

    // The line structure should now contain two injected blocks
    let created_text = std::str::from_utf8(&created_bytes).unwrap();
    let created_line_count = created_text.lines().count();
    assert_eq!((autoscript_line_count + 2) * 2, created_line_count);

    let mut lines = created_text.lines();
    assert!(lines.nth(0).unwrap().starts_with("# Automatically added by"));
    assert_eq!(lines.nth_back(0).unwrap(), "# End automatically added section");

    // The content should be different
    let expected_autoscript_text2 = autoscript_text.replace("#UNITFILES#", "otherunit");
    let expected_autoscript_text2 = expected_autoscript_text2.trim_end();
    let start2 = end1 + 2;
    let end2 = start2 + autoscript_line_count;
    let created_autoscript_text1 = created_text.lines().collect::<Vec<&str>>()[start1..end1].join("\n");
    let created_autoscript_text2 = created_text.lines().collect::<Vec<&str>>()[start2..end2].join("\n");
    assert_ne!(expected_autoscript_text1, autoscript_text);
    assert_ne!(expected_autoscript_text2, autoscript_text);

    if prepend {
        assert_eq!(expected_autoscript_text1, created_autoscript_text2);
        assert_eq!(expected_autoscript_text2, created_autoscript_text1);
    } else {
        assert_eq!(expected_autoscript_text1, created_autoscript_text1);
        assert_eq!(expected_autoscript_text2, created_autoscript_text2);
    }
}

#[test]
fn autoscript_detailed_check_prerm() {
    autoscript_detailed_check("prerm", true);
}

#[test]
fn autoscript_detailed_check_preinst() {
    autoscript_detailed_check("preinst", false);
}

#[test]
fn autoscript_detailed_check_postinst() {
    autoscript_detailed_check("postinst", false);
}

#[test]
fn autoscript_detailed_check_postrm() {
    autoscript_detailed_check("postrm", true);
}

#[test]
fn autoscript_gives_the_exact_block() {
    let scripts = autoscript_test_wrapper("mypkg", "prerm", "prerm-systemd", "a.service b.service", None);
    let bytes = scripts.get("mypkg.prerm.debhelper").unwrap();
    let expected = "# Automatically added by cargo-deb\n\
                    if [ -d /run/systemd/system ]; then\n\
                    \tdeb-systemd-invoke stop a.service b.service >/dev/null || true\n\
                    fi\n\
                    # End automatically added section\n";
    assert_eq!(expected.as_bytes(), &bytes[..]);
}

#[test]
fn autoscript_merge_order_with_two_templates() {
    // postrm: what comes last stands first
    let s = autoscript_test_wrapper("p", "postrm", "postrm-systemd", "u.service", None);
    let s = autoscript_test_wrapper("p", "postrm", "postrm-systemd-reload-only", "u.service", Some(s));
    let text = String::from_utf8(s.get("p.postrm.debhelper").unwrap().clone()).unwrap();
    let reload = text.find("daemon-reload").unwrap();
    let purge = text.find("deb-systemd-helper purge").unwrap();
    assert!(reload < purge);

    // postinst: what comes last stands last
    let s = autoscript_test_wrapper("p", "postinst", "postrm-systemd", "u.service", None);
    let s = autoscript_test_wrapper("p", "postinst", "postrm-systemd-reload-only", "u.service", Some(s));
    let text = String::from_utf8(s.get("p.postinst.debhelper").unwrap().clone()).unwrap();
    let reload = text.find("daemon-reload").unwrap();
    let purge = text.find("deb-systemd-helper purge").unwrap();
    assert!(purge < reload);
}

#[test]
fn autoscript_replaces_every_token() {
    let scripts = autoscript_test_wrapper("mypkg", "postrm", "postrm-systemd", "foo.service", None);
    let text = String::from_utf8(scripts.get("mypkg.postrm.debhelper").unwrap().clone()).unwrap();
    assert!(text.contains("foo.service"));
    assert!(!text.contains("#UNITFILES#"));
    assert_eq!(3, text.matches("foo.service").count());
}

#[test]
fn autoscript_sed_applies_replacements_in_order() {
    let reps = vec![
        ("UNITFILES".to_string(), "x #RESTART_ACTION#".to_string()),
        ("RESTART_ACTION".to_string(), "restart".to_string()),
    ];
    let text = autoscript_sed("postinst-systemd-restartnostart", &reps);
    assert!(text.contains("deb-systemd-invoke restart x restart >/dev/null"));
    assert!(!text.contains('#'));
}

#[test]
fn autoscript_fails_on_fragment_that_is_not_utf8() {
    let mut scripts = ScriptFragments::new();
    scripts.insert("mypkg.postinst.debhelper", vec![0xff, 0xfe]);
    let reps = vec![("UNITFILES".to_string(), "u".to_string())];
    let r = autoscript(&mut scripts, "mypkg", "postinst", "postinst-systemd-start", &reps, "t", &mut NoOpListener);
    match r {
        Err(CargoDebError::InvalidUtf8(k)) => assert_eq!("mypkg.postinst.debhelper", k),
        other => panic!("unexpected {:?}", other),
    }
    assert_eq!(&vec![0xff, 0xfe], scripts.get("mypkg.postinst.debhelper").unwrap());
}

#[test]
fn subst_replaces_token_in_user_script() {
    let mut tree = FileTree::new();
    tree.add_file("debian/postinst", b"#!/bin/sh\necho hi\n#DEBHELPER#\nexit 0\n".to_vec());
    let mut scripts = ScriptFragments::new();
    scripts.insert("mypkg.postinst.debhelper", b"GENERATED\n".to_vec());
    debhelper_script_subst(&tree, "debian", &mut scripts, "mypkg", "postinst", None, &mut NoOpListener).unwrap();
    assert_eq!(b"#!/bin/sh\necho hi\nGENERATED\n\nexit 0\n".to_vec(), *scripts.get("postinst").unwrap());
    assert_eq!(2, scripts.len());
}

#[test]
fn subst_removes_token_when_nothing_was_generated() {
    let mut tree = FileTree::new();
    tree.add_file("debian/mypkg.prerm", b"a\n#DEBHELPER#\nb\n".to_vec());
    let mut scripts = ScriptFragments::new();
    debhelper_script_subst(&tree, "debian", &mut scripts, "mypkg", "prerm", None, &mut NoOpListener).unwrap();
    assert_eq!(b"a\n\nb\n".to_vec(), *scripts.get("prerm").unwrap());
}

#[test]
fn subst_fails_without_token() {
    let mut tree = FileTree::new();
    tree.add_file("debian/postinst", b"#!/bin/sh\necho hi\n".to_vec());
    let mut scripts = ScriptFragments::new();
    scripts.insert("mypkg.postinst.debhelper", b"GENERATED\n".to_vec());
    let r = debhelper_script_subst(&tree, "debian", &mut scripts, "mypkg", "postinst", None, &mut NoOpListener);
    match r {
        Err(CargoDebError::DebHelperReplaceFailed(p)) => assert_eq!("debian/postinst", p),
        other => panic!("unexpected {:?}", other),
    }
    assert!(!scripts.contains_key("postinst"));
}

#[test]
fn subst_makes_a_script_of_fragments_alone() {
    let tree = FileTree::new();
    let mut scripts = ScriptFragments::new();
    scripts.insert("mypkg.postrm.debhelper", b"GENERATED\n".to_vec());
    debhelper_script_subst(&tree, "debian", &mut scripts, "mypkg", "postrm", None, &mut NoOpListener).unwrap();
    assert_eq!(b"#!/bin/sh\nset -e\nGENERATED\n".to_vec(), *scripts.get("postrm").unwrap());
}

#[test]
fn subst_does_nothing_without_script_and_fragment() {
    let tree = FileTree::new();
    let mut scripts = ScriptFragments::new();
    debhelper_script_subst(&tree, "debian", &mut scripts, "mypkg", "postrm", None, &mut NoOpListener).unwrap();
    assert!(scripts.is_empty());
}

#[test]
fn apply_merges_all_four_scripts() {
    let mut tree = FileTree::new();
    tree.add_file("debian/postinst", b"A #DEBHELPER# B".to_vec());
    tree.add_file("debian/myunit.preinst", b"#DEBHELPER#".to_vec());
    let mut scripts = ScriptFragments::new();
    scripts.insert("mypkg.postinst.debhelper", b"one".to_vec());
    scripts.insert("mypkg.prerm.debhelper", b"three".to_vec());
    apply(&tree, "debian", &mut scripts, "mypkg", Some("myunit"), &mut NoOpListener).unwrap();
    assert_eq!(b"A one B".to_vec(), *scripts.get("postinst").unwrap());
    assert_eq!(b"".to_vec(), *scripts.get("preinst").unwrap());
    assert_eq!(b"#!/bin/sh\nset -e\nthree".to_vec(), *scripts.get("prerm").unwrap());
    assert!(!scripts.contains_key("postrm"));
}

#[test]
fn apply_stops_at_the_first_failure() {
    let mut tree = FileTree::new();
    tree.add_file("debian/postinst", b"A #DEBHELPER# B".to_vec());
    tree.add_file("debian/preinst", b"no token".to_vec());
    let mut scripts = ScriptFragments::new();
    scripts.insert("mypkg.prerm.debhelper", b"three".to_vec());
    let r = apply(&tree, "debian", &mut scripts, "mypkg", None, &mut NoOpListener);
    assert!(matches!(r, Err(CargoDebError::DebHelperReplaceFailed(_))));
    assert_eq!(b"A  B".to_vec(), *scripts.get("postinst").unwrap());
    assert!(!scripts.contains_key("preinst"));
    assert!(!scripts.contains_key("prerm"));
}
