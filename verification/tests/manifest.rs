use cargo_deb::error::CargoDebError;
use cargo_deb::fstree::FileTree;
use cargo_deb::manifest::{
    debian_triple, debug_filename, get_arch, glob_prefix_of, is_glob_pattern, resolve_asset, Asset,
    AssetSource, Assets,
    Config, GlobMatch, UnresolvedAsset,
};

pub fn config() -> Config {
    Config {
        manifest_dir: "/proj".to_string(),
        deb_output_path: None,
        target: None,
        target_dir: "/proj/target".to_string(),
        name: "app".to_string(),
        deb_name: "app".to_string(),
        deb_version: "1.2.3".to_string(),
        license: Some("MIT".to_string()),
        license_file: None,
        license_file_skip_lines: 0,
        copyright: "2020, A. Author".to_string(),
        changelog: None,
        homepage: None,
        documentation: None,
        repository: None,
        description: "An app".to_string(),
        extended_description: None,
        maintainer: "A. Author <a@example.invalid>".to_string(),
        depends: "$auto".to_string(),
        build_depends: None,
        section: None,
        priority: "optional".to_string(),
        conflicts: None,
        breaks: None,
        replaces: None,
        provides: None,
        architecture: "amd64".to_string(),
        conf_files: None,
        assets: Assets::new(),
        triggers_file: None,
        maintainer_scripts: None,
        features: vec![],
        default_features: true,
        strip: true,
        separate_debug_symbols: false,
        preserve_symlinks: false,
        systemd_units: None,
        deb_name_separator: None,
    }
}

#[test]
fn assets() {
    let a = Asset::new(
        AssetSource::Path("target/release/bar".to_string()),
        "baz/".to_string(),
        0o644,
        true,
    );
    assert_eq!("baz/bar", a.target_path);
    assert!(a.is_built);

    let a = Asset::new(
        AssetSource::Path("foo/bar".to_string()),
        "/baz/quz".to_string(),
        0o644,
        false,
    );
    assert_eq!("baz/quz", a.target_path);
    assert!(!a.is_built);
}

/// Tests that getting the debug filename from a path returns the same path
/// with ".debug" appended
#[test]
fn test_debug_filename() {
    assert_eq!(debug_filename("/my/test/file"), "/my/test/file.debug");
}

/// Tests that getting the debug target for an Asset that `is_built` returns
/// the path "/usr/lib/debug/<path-to-target>.debug"
#[test]
fn test_debug_target_ok() {
    let a = Asset::new(
        AssetSource::Path("target/release/bar".to_string()),
        "/usr/bin/baz/".to_string(),
        0o644,
        true,
    );
    let debug_target = a.debug_target().expect("Got unexpected None");
    assert_eq!(debug_target, "/usr/lib/debug/usr/bin/baz/bar.debug");
}

/// Tests that getting the debug target for an Asset that `is_built` and that
/// has a relative path target returns the path "/usr/lib/debug/<path-to-target>.debug"
#[test]
fn test_debug_target_ok_relative() {
    let a = Asset::new(
        AssetSource::Path("target/release/bar".to_string()),
        "baz/".to_string(),
        0o644,
        true,
    );
    let debug_target = a.debug_target().expect("Got unexpected None");
    assert_eq!(debug_target, "/usr/lib/debug/baz/bar.debug");
}

/// Tests that getting the debug target for an Asset that with `is_built` false
/// returns None
#[test]
fn test_debug_target_not_built() {
    let a = Asset::new(
        AssetSource::Path("target/release/bar".to_string()),
        "baz/".to_string(),
        0o644,
        false,
    );

    assert_eq!(a.debug_target(), None);
}

/// Tests that debug_source() for an AssetSource::Path returns the same path
/// but with ".debug" appended
#[test]
fn test_debug_source_path() {
    let a = AssetSource::Path("target/release/bar".to_string());

    let debug_source = a.debug_source().expect("Got unexpected None");
    assert_eq!(debug_source, "target/release/bar.debug");
}

/// Tests that debug_source() for an AssetSource::Data returns None
#[test]
fn test_debug_source_data() {
    let data: Vec<u8> = Vec::new();
    let a = AssetSource::Data(data);

    assert_eq!(a.debug_source(), None);
}

#[test]
fn asset_source_reads_from_the_tree() {
    let mut tree = FileTree::new();
    tree.add_file("a//b.txt", b"hello".to_vec());
    let p = AssetSource::Path("a/b.txt".to_string());
    assert_eq!(Some("a/b.txt"), p.path());
    assert_eq!(Some(5), p.len(&tree));
    assert_eq!(b"hello".to_vec(), p.data(&tree).unwrap());
    let missing = AssetSource::Path("a/c.txt".to_string());
    assert_eq!(None, missing.len(&tree));
    assert!(matches!(missing.data(&tree), Err(CargoDebError::IoFile(_, _, _))));
    let d = AssetSource::Data(vec![1, 2, 3]);
    assert_eq!(None, d.path());
    assert_eq!(Some(3), d.len(&tree));
    assert_eq!(vec![1, 2, 3], d.data(&tree).unwrap());
}

#[test]
fn asset_kinds() {
    let exe = Asset::new(AssetSource::Data(vec![]), "usr/bin/x".to_string(), 0o755, true);
    assert!(exe.is_executable());
    assert!(!exe.is_dynamic_library());
    let lib = Asset::new(AssetSource::Data(vec![]), "usr/lib/libx.so".to_string(), 0o644, true);
    assert!(!lib.is_executable());
    assert!(lib.is_dynamic_library());
    let doc = Asset::new(AssetSource::Data(vec![]), "usr/share/doc/x/README".to_string(), 0o644, false);
    assert!(!doc.is_executable() && !doc.is_dynamic_library());

    let mut c = config();
    c.assets = Assets::with_resolved_assets(vec![doc, exe, lib]);
    assert_eq!(vec![1, 2], c.built_binaries());
    assert_eq!(vec![1, 2], c.all_binaries());
    c.assets.resolved[1].is_built = false;
    assert_eq!(vec![2], c.binaries(true));
    assert_eq!(vec![1, 2], c.binaries(false));
}

#[test]
fn glob_patterns_and_their_prefix() {
    assert!(is_glob_pattern("a/*.txt"));
    assert!(is_glob_pattern("a/[ab]"));
    assert!(is_glob_pattern("a]"));
    assert!(is_glob_pattern("!a"));
    assert!(is_glob_pattern("a/b?.txt"));
    assert!(!is_glob_pattern("a/b.txt"));
    assert!(!is_glob_pattern(""));
    assert_eq!("target/release", glob_prefix_of("target/release/*.so"));
    assert_eq!("/abs/dir", glob_prefix_of("/abs/dir/**/x[0-9]/y"));
    assert_eq!("", glob_prefix_of("*.txt"));
    assert_eq!("a/b", glob_prefix_of("a//b"));
    assert_eq!("/", glob_prefix_of("/*"));
}

fn decl(source: &str, target: &str) -> UnresolvedAsset {
    UnresolvedAsset {
        source_path: source.to_string(),
        target_path: target.to_string(),
        chmod: 0o644,
        is_built: false,
    }
}

fn m(path: &str, is_dir: bool) -> GlobMatch {
    GlobMatch { path: path.to_string(), is_dir }
}

#[test]
fn resolve_gives_one_asset_per_file_below_the_target() {
    let d = decl("assets/**/*", "var/lib/example/");
    let matches = vec![
        m("assets/1.txt", false),
        m("assets/sub", true),
        m("assets/sub/2.txt", false),
        m("assets/sub/deep/3.txt", false),
    ];
    let first = resolve_asset(&d, &matches).unwrap();
    let targets: Vec<&str> = first.iter().map(|a| a.target_path.as_str()).collect();
    assert_eq!(
        vec!["var/lib/example/1.txt", "var/lib/example/sub/2.txt", "var/lib/example/sub/deep/3.txt"],
        targets
    );
    for (a, p) in first.iter().zip(["assets/1.txt", "assets/sub/2.txt", "assets/sub/deep/3.txt"]) {
        assert_eq!(Some(p), a.source.path());
        assert_eq!(0o644, a.chmod);
        assert!(!a.is_built);
    }
    // the same matches give the same targets
    let second = resolve_asset(&d, &matches).unwrap();
    let again: Vec<&str> = second.iter().map(|a| a.target_path.as_str()).collect();
    assert_eq!(targets, again);
}

#[test]
fn resolve_of_a_plain_path_goes_to_the_target() {
    let d = UnresolvedAsset {
        source_path: "target/release/app".to_string(),
        target_path: "/usr/bin/".to_string(),
        chmod: 0o755,
        is_built: true,
    };
    let r = resolve_asset(&d, &vec![m("target/release/app", false)]).unwrap();
    assert_eq!(1, r.len());
    assert_eq!("usr/bin/app", r[0].target_path);
    assert_eq!(0o755, r[0].chmod);
    assert!(r[0].is_built);
}

#[test]
fn resolve_without_a_file_is_an_error() {
    let d = decl("assets/*.txt", "var/lib/example/");
    match resolve_asset(&d, &vec![]) {
        Err(CargoDebError::AssetFileNotFound(p)) => assert_eq!("assets/*.txt", p),
        other => panic!("unexpected {:?}", other),
    }
    match resolve_asset(&d, &vec![m("assets/d.txt", true)]) {
        Err(CargoDebError::AssetFileNotFound(p)) => assert_eq!("assets/*.txt", p),
        other => panic!("unexpected {:?}", other),
    }
    let plain = decl("README.md", "usr/share/doc/x/README.md");
    assert!(matches!(resolve_asset(&plain, &vec![]), Err(CargoDebError::AssetFileNotFound(_))));
}

#[test]
fn resolve_refuses_a_match_outside_of_the_pattern() {
    let d = decl("assets/*.txt", "var/lib/example/");
    assert!(matches!(resolve_asset(&d, &vec![m("elsewhere/1.txt", false)]), Err(CargoDebError::Str(_))));
}

#[test]
fn config_resolves_all_declared_assets() {
    let mut c = config();
    c.assets = Assets::with_unresolved_assets(vec![decl("a/*", "x/"), decl("b", "y/b")]);
    c.assets.resolved.push(Asset::new(AssetSource::Data(vec![]), "z".to_string(), 0o644, false));
    c.resolve_assets(&vec![vec![m("a/1", false), m("a/2", false)], vec![m("b", false)]]).unwrap();
    assert!(c.assets.unresolved.is_empty());
    let targets: Vec<&str> = c.assets.resolved.iter().map(|a| a.target_path.as_str()).collect();
    assert_eq!(vec!["z", "x/1", "x/2", "y/b"], targets);

    let mut c = config();
    c.assets = Assets::with_unresolved_assets(vec![decl("a/*", "x/"), decl("b", "y/b")]);
    let r = c.resolve_assets(&vec![vec![m("a/1", false)], vec![]]);
    assert!(matches!(r, Err(CargoDebError::AssetFileNotFound(_))));
    assert!(c.assets.unresolved.is_empty());
}

#[test]
fn repository_type_is_guessed_from_the_url() {
    let mut c = config();
    assert_eq!(None, c.repository_type());
    for (url, kind) in [
        ("https://github.com/a/b", Some("Git")),
        ("git+ssh://x/y", Some("Git")),
        ("https://example.org/x.git", Some("Git")),
        ("cvs+ssh://x", Some("Cvs")),
        (":pserver:anon@x", Some("Cvs")),
        ("https://hg.example.org/hg.x", Some("Hg")),
        ("svn+ssh://x", Some("Svn")),
        ("http://x/svn.y", Some("Svn")),
        ("https://example.org/x", None),
    ] {
        c.repository = Some(url.to_string());
        assert_eq!(kind, c.repository_type(), "{}", url);
    }
}

#[test]
fn config_paths() {
    let c = config();
    assert_eq!("/proj/target/release/app", c.path_in_build("app"));
    assert_eq!("/proj/LICENSE", c.path_in_workspace("LICENSE"));
    assert_eq!("/abs", c.path_in_workspace("/abs"));
    assert_eq!("/proj/target/debian", c.deb_temp_dir());
}

#[test]
fn match_arm_arch() {
    assert_eq!("armhf", get_arch("arm-unknown-linux-gnueabihf"));
}

#[test]
fn debian_names_of_targets() {
    assert_eq!("amd64", get_arch("x86_64-unknown-linux-gnu"));
    assert_eq!("x32", get_arch("x86_64-unknown-linux-gnux32"));
    assert_eq!("arm64", get_arch("aarch64-unknown-linux-gnu"));
    assert_eq!("armel", get_arch("armv7-unknown-linux-gnueabi"));
    assert_eq!("i386", get_arch("i686-pc-windows-msvc"));
    assert_eq!("mipsn32r6el", get_arch("mipsisa64r6el-unknown-linux-gnuabin32"));
    assert_eq!("sparc64", get_arch("sparc64-unknown-linux-gnu"));
    assert_eq!("riscv64gc", get_arch("riscv64gc"));
    assert_eq!("", get_arch(""));

    assert_eq!("x86_64-linux-gnu", debian_triple("x86_64-unknown-linux-gnu"));
    assert_eq!("i386-linux-gnu", debian_triple("i686-unknown-linux-musl"));
    assert_eq!("arm-linux-gnueabihf", debian_triple("armv7-unknown-linux-gnueabihf"));
    assert_eq!("arm-linux-gnueabi", debian_triple("thumbv7neon-linux-androideabi"));
    assert_eq!("riscv64-linux-gnu", debian_triple("riscv64gc-unknown-linux-gnu"));
    assert_eq!("s390x-linux-gnu", debian_triple("s390x-unknown-linux-gnu"));
    assert_eq!("powerpc-linux-", debian_triple("powerpc"));
}

#[test]
fn debug_assets_follow_built_binaries() {
    let mut tree = FileTree::new();
    tree.add_file("target/release/app.debug", vec![1]);
    tree.add_file("target/release/doc.debug", vec![1]);
    let mut c = config();
    c.assets = Assets::with_resolved_assets(vec![
        Asset::new(AssetSource::Path("target/release/app".to_string()), "/usr/bin/app".to_string(), 0o755, true),
        Asset::new(AssetSource::Path("target/release/tool".to_string()), "usr/bin/tool".to_string(), 0o755, true),
        Asset::new(AssetSource::Path("target/release/doc".to_string()), "usr/share/doc".to_string(), 0o644, true),
        Asset::new(AssetSource::Data(vec![]), "usr/bin/gen".to_string(), 0o755, true),
    ]);
    c.add_debug_assets(&tree);
    assert_eq!(5, c.assets.resolved.len());
    let d = &c.assets.resolved[4];
    assert_eq!(Some("target/release/app.debug"), d.source.path());
    assert_eq!("usr/lib/debug/usr/bin/app.debug", d.target_path);
    assert_eq!(0o644, d.chmod);
    assert!(!d.is_built);
}

#[test]
fn a_question_mark_makes_a_pattern() {
    let mut c = config();
    c.assets = Assets::with_unresolved_assets(vec![decl("d/?.txt", "out")]);
    c.resolve_assets(&vec![vec![m("d/a.txt", false), m("d/b.txt", false)]]).unwrap();
    assert!(c.assets.unresolved.is_empty());
    let targets: Vec<&str> = c.assets.resolved.iter().map(|a| a.target_path.as_str()).collect();
    assert_eq!(vec!["out/a.txt", "out/b.txt"], targets);
    assert_eq!("d", glob_prefix_of("d/?.txt"));
}

#[test]
fn the_first_declaration_that_fails_gives_the_error() {
    let mut c = config();
    c.assets = Assets::with_unresolved_assets(vec![decl("ok", "x/ok"), decl("first/*", "x/"), decl("second/*", "y/")]);
    match c.resolve_assets(&vec![vec![m("ok", false)], vec![], vec![]]) {
        Err(CargoDebError::AssetFileNotFound(p)) => assert_eq!("first/*", p),
        other => panic!("unexpected {:?}", other),
    }
    let mut c = config();
    c.assets = Assets::with_unresolved_assets(vec![decl("first/*", "x/"), decl("second/*", "y/")]);
    match c.resolve_assets(&vec![vec![m("elsewhere/1", false)], vec![]]) {
        Err(CargoDebError::Str(_)) => {}
        other => panic!("unexpected {:?}", other),
    }
}

#[test]
fn resolving_adds_one_asset_for_every_file_matched() {
    let mut c = config();
    c.assets = Assets::with_unresolved_assets(vec![decl("a/*", "x/"), decl("b/**/*", "y/")]);
    c.assets.resolved.push(Asset::new(AssetSource::Data(vec![]), "z".to_string(), 0o644, false));
    let matches = vec![
        vec![m("a/1", false), m("a/sub", true), m("a/2", false)],
        vec![m("b/k/3", false)],
    ];
    c.resolve_assets(&matches).unwrap();
    assert_eq!(1 + 3, c.assets.resolved.len());
    let sources: Vec<Option<&str>> = c.assets.resolved[1..].iter().map(|a| a.source.path()).collect();
    assert_eq!(vec![Some("a/1"), Some("a/2"), Some("b/k/3")], sources);
    for a in &c.assets.resolved[1..] {
        assert_eq!(0o644, a.chmod);
        assert!(!a.is_built);
    }
}
