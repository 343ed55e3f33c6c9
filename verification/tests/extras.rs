use cargo_deb::cargo::{parse_number, take_assets, Cargo, CargoDeb, CargoMetadataTarget};
use cargo_deb::charsplit::CharSplit;
use cargo_deb::commands::{
    cargo_build, cargo_build_args, cross_pkg_config, install_deb, select_package, strip_binaries,
    strip_commands, CargoMetadataPackage,
};
use cargo_deb::config::CargoConfig;
use cargo_deb::dependencies::resolve;
use cargo_deb::error::CargoDebError;
use cargo_deb::fstree::{FileEntry, FileTree};
use cargo_deb::listener::{Listener, NoOpListener, StdErrListener};
use cargo_deb::manifest::{Asset, AssetSource, Assets, Config};

struct Collecting {
    warnings: Vec<String>,
}

impl Listener for Collecting {
    fn warning(&mut self, s: String) {
        self.warnings.push(s);
    }
    fn info(&mut self, _s: String) {}
}

fn config() -> Config {
    Config {
        manifest_dir: "/proj".to_string(),
        deb_output_path: None,
        target: None,
        target_dir: "/proj/target".to_string(),
        name: "app".to_string(),
        deb_name: "app".to_string(),
        deb_version: "1.2.3".to_string(),
        license: None,
        license_file: None,
        license_file_skip_lines: 0,
        copyright: String::new(),
        changelog: None,
        homepage: None,
        documentation: None,
        repository: None,
        description: String::new(),
        extended_description: None,
        maintainer: String::new(),
        depends: String::new(),
        build_depends: None,
        section: None,
        priority: String::new(),
        conflicts: None,
        breaks: None,
        replaces: None,
        provides: None,
        architecture: "amd64".to_string(),
        conf_files: None,
        assets: Assets::new(),
        triggers_file: None,
        maintainer_scripts: None,
        features: vec![],
        default_features: true,
        strip: true,
        separate_debug_symbols: false,
        preserve_symlinks: false,
        systemd_units: None,
        deb_name_separator: None,
    }
}

fn cargo() -> Cargo {
    Cargo {
        name: "app".to_string(),
        version: "0.1.0".to_string(),
        authors: vec!["A. Author <a@example.invalid>".to_string(), "B".to_string()],
        description: Some("An app".to_string()),
        license: Some("MIT".to_string()),
        license_file: None,
        homepage: None,
        documentation: None,
        repository: None,
        readme: None,
        strip: true,
        deb: None,
    }
}

fn bin(name: &str) -> CargoMetadataTarget {
    CargoMetadataTarget { name: name.to_string(), kind: vec!["bin".to_string()], crate_types: vec!["bin".to_string()] }
}

#[test]
fn parse_strip() {
    let c = CargoConfig::from_str(r#"
[target.i686-unknown-dragonfly]
linker = "magic-ld"
strip = "magic-strip"

[target.'foo']
strip = { path = "strip2" }
"#, ".".into()).unwrap();
    let tree = FileTree::new();

    assert_eq!("magic-strip", c.strip_command("i686-unknown-dragonfly", &tree).unwrap());
    assert_eq!("strip2", c.strip_command("foo", &tree).unwrap());
    assert_eq!(None, c.strip_command("bar", &tree));
}

#[test]
fn parse_objcopy() {
    let c = CargoConfig::from_str(r#"
[target.i686-unknown-dragonfly]
linker = "magic-ld"
objcopy = "magic-objcopy"

[target.'foo']
objcopy = { path = "objcopy2" }
"#, ".".into()).unwrap();
    let tree = FileTree::new();

    assert_eq!("magic-objcopy", c.objcopy_command("i686-unknown-dragonfly", &tree).unwrap());
    assert_eq!("objcopy2", c.objcopy_command("foo", &tree).unwrap());
    assert_eq!(None, c.objcopy_command("bar", &tree));
}

#[test]
fn tools_next_to_the_linker_and_of_debian() {
    let c = CargoConfig::from_str("[target.armv7-unknown-linux-gnueabihf]\nlinker = \"/opt/cross/bin/ld\"\n", "cfg".into()).unwrap();
    assert_eq!("cfg", c.path());
    assert_eq!(Some("/opt/cross/bin/ld".to_string()), c.linker_command("armv7-unknown-linux-gnueabihf"));
    let mut tree = FileTree::new();
    assert_eq!(None, c.strip_command("armv7-unknown-linux-gnueabihf", &tree));
    tree.add_file("/usr/bin/arm-linux-gnueabihf-strip", vec![]);
    assert_eq!(Some("/usr/bin/arm-linux-gnueabihf-strip".to_string()), c.strip_command("armv7-unknown-linux-gnueabihf", &tree));
    tree.add_file("/opt/cross/bin/strip", vec![]);
    tree.add_file("/opt/cross/bin/objcopy", vec![]);
    assert_eq!(Some("/opt/cross/bin/strip".to_string()), c.strip_command("armv7-unknown-linux-gnueabihf", &tree));
    assert_eq!(Some("/opt/cross/bin/objcopy".to_string()), c.objcopy_command("armv7-unknown-linux-gnueabihf", &tree));
    assert!(matches!(CargoConfig::from_str("not = [toml", "x".into()), Err(CargoDebError::ParseTOML(_))));
}

#[test]
fn cargo_config_is_searched_upwards() {
    let mut tree = FileTree::new();
    assert!(CargoConfig::new("/a/b/target", Some("/home/u"), &tree).unwrap().is_none());
    tree.add_file("/etc/.cargo/config", b"[target.x]\nstrip = \"etc\"".to_vec());
    tree.add_file("/home/u/.cargo/config.toml", b"[target.x]\nstrip = \"home\"".to_vec());
    let c = CargoConfig::new("/a/b/target", Some("/home/u"), &tree).unwrap().unwrap();
    assert_eq!("/home/u/.cargo/config.toml", c.path());
    let c = CargoConfig::new("/a/b/target", None, &tree).unwrap().unwrap();
    assert_eq!("/etc/.cargo/config", c.path());
    tree.add_file("/a/.cargo/config.toml", b"[target.x]\nstrip = \"a\"".to_vec());
    let c = CargoConfig::new("/a/b/target", Some("/home/u"), &tree).unwrap().unwrap();
    assert_eq!("/a/.cargo/config.toml", c.path());
    assert_eq!(Some("a".to_string()), c.strip_command("x", &tree));
    tree.add_file("/a/b/.cargo/config", b"broken = [".to_vec());
    assert!(matches!(CargoConfig::new("/a/b/target", None, &tree), Err(CargoDebError::ParseTOML(_))));
}

#[test]
fn shlibdeps_output_is_read() {
    let deps = resolve("warning: x\nshlibs:Depends=libc6 (>= 2.28), libgcc-s1 (>= 3.0), libssl1.1 ,zlib1g\nmore").unwrap();
    assert_eq!(vec!["libc6 (>= 2.28)", "libssl1.1", "zlib1g"], deps);
    assert_eq!(vec![""], resolve("shlibs:Depends=").unwrap());
    assert_eq!(vec!["shlibs:Pre-Depends=x"], resolve("shlibs:Pre-Depends=x\nshlibs:Depends=y").unwrap());
    match resolve("nothing here\n shlibs:Depends=x") {
        Err(CargoDebError::Str(m)) => assert_eq!("Failed to find dependency specification.", m),
        other => panic!("unexpected {:?}", other),
    }
}

#[test]
fn numbers_of_the_manifest() {
    assert_eq!(Some(0o755), parse_number("755", 8, u32::MAX as u64));
    assert_eq!(Some(0o644), parse_number("+0644", 8, u32::MAX as u64));
    assert_eq!(Some(0), parse_number("0", 8, u32::MAX as u64));
    assert_eq!(Some(u32::MAX as u64), parse_number("37777777777", 8, u32::MAX as u64));
    assert_eq!(None, parse_number("40000000000", 8, u32::MAX as u64));
    assert_eq!(None, parse_number("777777777777777777777777777777777777", 8, u32::MAX as u64));
    assert_eq!(None, parse_number("", 8, 10));
    assert_eq!(None, parse_number("+", 8, 10));
    assert_eq!(None, parse_number("-1", 8, 10));
    assert_eq!(None, parse_number("8", 8, 10));
    assert_eq!(None, parse_number("1 ", 8, 10));
    assert_eq!(Some(18), parse_number("18", 10, 100));
    assert_eq!(Some(u64::MAX), parse_number("18446744073709551615", 10, u64::MAX));
    assert_eq!(None, parse_number("18446744073709551616", 10, u64::MAX));
}

#[test]
fn declared_assets_wait_for_the_build() {
    let lines = vec![
        vec!["target/release/app".to_string(), "usr/bin/".to_string(), "755".to_string()],
        vec!["README.md".to_string(), "usr/share/doc/app/README".to_string(), "644".to_string()],
    ];
    let a = take_assets(&config(), "app", Some(lines), &vec![], None).unwrap();
    assert!(a.resolved.is_empty());
    assert_eq!(2, a.unresolved.len());
    assert_eq!("/proj/target/release/app", a.unresolved[0].source_path);
    assert_eq!("usr/bin/", a.unresolved[0].target_path);
    assert_eq!(0o755, a.unresolved[0].chmod);
    assert!(a.unresolved[0].is_built);
    assert_eq!("/proj/README.md", a.unresolved[1].source_path);
    assert!(!a.unresolved[1].is_built);

    for (line, message) in [
        (vec![], "missing path (first array entry) for asset in Cargo.toml"),
        (vec!["a"], "missing target (second array entry) for asset in Cargo.toml"),
        (vec!["a", "b"], "missing chmod (third array entry) for asset in Cargo.toml"),
    ] {
        let line: Vec<String> = line.into_iter().map(|s: &str| s.to_string()).collect();
        match take_assets(&config(), "app", Some(vec![line]), &vec![], None) {
            Err(CargoDebError::Str(m)) => assert_eq!(message, m),
            other => panic!("unexpected {:?}", other),
        }
    }
    let bad = vec!["a".to_string(), "b".to_string(), "rwx".to_string()];
    match take_assets(&config(), "app", Some(vec![bad]), &vec![], None) {
        Err(CargoDebError::NumParse(m, t)) => {
            assert_eq!("unable to parse chmod argument", m);
            assert_eq!("rwx", t);
        }
        other => panic!("unexpected {:?}", other),
    }
}

#[test]
fn targets_and_readme_imply_assets() {
    let targets = vec![
        bin("app"),
        CargoMetadataTarget { name: "x".to_string(), kind: vec!["lib".to_string()], crate_types: vec!["lib".to_string()] },
        CargoMetadataTarget { name: "ffi".to_string(), kind: vec!["cdylib".to_string()], crate_types: vec!["cdylib".to_string()] },
    ];
    let readme = "README.md".to_string();
    let a = take_assets(&config(), "app", None, &targets, Some(&readme)).unwrap();
    assert!(a.unresolved.is_empty());
    let got: Vec<(Option<&str>, &str, u32, bool)> =
        a.resolved.iter().map(|x| (x.source.path(), x.target_path.as_str(), x.chmod, x.is_built)).collect();
    assert_eq!(
        vec![
            (Some("/proj/target/release/app"), "usr/bin/app", 0o755, true),
            (Some("/proj/target/release/libffi.so"), "usr/lib/libffi.so", 0o644, true),
            (Some("README.md"), "usr/share/doc/app/README.md", 0o644, false),
        ],
        got
    );
}

#[test]
fn manifest_becomes_configuration() {
    let mut listener = Collecting { warnings: vec![] };
    let mut tree = FileTree::new();
    tree.add_file("/proj/README.md", vec![]);
    let mut c = cargo();
    c.license = None;
    let config = c
        .into_config(&vec![bin("app")], "/proj", None, "/proj/target", None, None, None, "x86_64-unknown-linux-gnu", &tree, &mut listener)
        .unwrap();
    assert_eq!("app", config.name);
    assert_eq!("app", config.deb_name);
    assert_eq!("0.1.0", config.deb_version);
    assert_eq!("A. Author <a@example.invalid>, B", config.copyright);
    assert_eq!("A. Author <a@example.invalid>", config.maintainer);
    assert_eq!("$auto", config.depends);
    assert_eq!("optional", config.priority);
    assert_eq!("amd64", config.architecture);
    assert_eq!("/proj/target", config.target_dir);
    assert!(config.default_features && config.strip && !config.separate_debug_symbols);
    let targets: Vec<&str> = config.assets.resolved.iter().map(|a| a.target_path.as_str()).collect();
    assert_eq!(vec!["usr/bin/app", "usr/share/doc/app/copyright"], targets);
    assert_eq!(
        vec!["license field is missing in Cargo.toml", "README.md file exists, but is not specified in `readme` Cargo.toml field"],
        listener.warnings
    );
}

#[test]
fn variant_settings_come_first() {
    let mut variant = CargoDeb::empty();
    variant.section = Some("debug".to_string());
    variant.revision = Some("2".to_string());
    let mut deb = CargoDeb::empty();
    deb.section = Some("utils".to_string());
    deb.priority = Some("extra".to_string());
    deb.conf_files = Some(vec!["/etc/a".to_string(), "/etc/b".to_string()]);
    deb.license_file = Some(vec!["LICENSE".to_string(), "3".to_string()]);
    deb.variants = Some(vec![("other".to_string(), CargoDeb::empty()), ("debug".to_string(), variant)]);
    let mut tree = FileTree::new();
    tree.add_file("/proj/LICENSE", b"1\n2\n3\n4\n".to_vec());
    let mut c = cargo();
    c.description = None;
    c.deb = Some(deb);
    let config = c
        .into_config(&vec![bin("app")], "/proj", Some("out".to_string()), "/proj/target", Some("aarch64-unknown-linux-gnu"), Some("debug"), None, "x", &tree, &mut NoOpListener)
        .unwrap();
    assert_eq!("app-debug", config.name);
    assert_eq!("app-debug", config.deb_name);
    assert_eq!("0.1.0-2", config.deb_version);
    assert_eq!(Some("debug".to_string()), config.section);
    assert_eq!("extra", config.priority);
    assert_eq!("arm64", config.architecture);
    assert_eq!("/proj/target/aarch64-unknown-linux-gnu", config.target_dir);
    assert_eq!(Some("/etc/a\n/etc/b\n".to_string()), config.conf_files);
    assert_eq!("[generated from Rust crate app-debug]", config.description);
    assert_eq!(Some("LICENSE".to_string()), config.license_file);
    assert_eq!(3, config.license_file_skip_lines);
    assert_eq!("usr/share/doc/app-debug/copyright", config.assets.resolved.last().unwrap().target_path);

    let mut c = cargo();
    c.deb = Some(CargoDeb::empty());
    match c.into_config(&vec![bin("app")], "/proj", None, "t", None, Some("nope"), None, "x", &tree, &mut NoOpListener) {
        Err(CargoDebError::VariantNotFound(v)) => assert_eq!("nope", v),
        _ => panic!("expected failure"),
    }
}

#[test]
fn manifest_without_what_is_needed_is_refused() {
    let tree = FileTree::new();
    let mut c = cargo();
    c.authors = vec![];
    match c.into_config(&vec![bin("app")], "/proj", None, "t", None, None, None, "x", &tree, &mut NoOpListener) {
        Err(CargoDebError::Str(m)) => assert_eq!("The package must have a copyright or authors property", m),
        _ => panic!("expected failure"),
    }
    let mut c = cargo();
    c.authors = vec![];
    let mut deb = CargoDeb::empty();
    deb.copyright = Some("c".to_string());
    c.deb = Some(deb);
    match c.into_config(&vec![bin("app")], "/proj", None, "t", None, None, None, "x", &tree, &mut NoOpListener) {
        Err(CargoDebError::Str(m)) => assert_eq!("The package must have a maintainer or authors property", m),
        _ => panic!("expected failure"),
    }
    match cargo().into_config(&vec![], "/proj", None, "t", None, None, None, "x", &tree, &mut NoOpListener) {
        Err(CargoDebError::Str(m)) => assert!(m.starts_with("No binaries or cdylibs found.")),
        _ => panic!("expected failure"),
    }
    let mut c = cargo();
    c.readme = Some("README.md".to_string());
    assert!(matches!(
        c.into_config(&vec![bin("app")], "/proj", None, "t", None, None, None, "x", &tree, &mut NoOpListener),
        Err(CargoDebError::IoFile(_, _, _))
    ));
    let mut c = cargo();
    let mut deb = CargoDeb::empty();
    deb.license_file = Some(vec!["L".to_string(), "x".to_string()]);
    c.deb = Some(deb);
    assert!(matches!(
        c.into_config(&vec![bin("app")], "/proj", None, "t", None, None, None, "x", &tree, &mut NoOpListener),
        Err(CargoDebError::NumParse(_, _))
    ));
}

#[test]
fn build_arguments() {
    let mut c = config();
    assert_eq!(vec!["build", "--release", "--all"], cargo_build_args(&c, None, &vec![], false));
    c.default_features = false;
    c.features = vec!["a".to_string(), "b".to_string()];
    assert_eq!(
        vec!["build", "--release", "--all", "--locked", "--verbose", "--target=t", "--no-default-features", "--features=a,b"],
        cargo_build_args(&c, Some("t"), &vec!["--locked".to_string()], true)
    );
    let mut tree = FileTree::new();
    assert_eq!(None, cross_pkg_config(Some("aarch64-unknown-linux-gnu"), false, false, &tree));
    tree.entries.push(FileEntry { path: "/usr/lib/aarch64-linux-gnu/pkgconfig".to_string(), is_dir: true, link: None, data: vec![] });
    assert_eq!(Some("/usr/lib/aarch64-linux-gnu/pkgconfig".to_string()), cross_pkg_config(Some("aarch64-unknown-linux-gnu"), false, false, &tree));
    assert_eq!(None, cross_pkg_config(Some("aarch64-unknown-linux-gnu"), true, false, &tree));
    assert_eq!(None, cross_pkg_config(Some("aarch64-unknown-linux-gnu"), false, true, &tree));
    assert_eq!(None, cross_pkg_config(None, false, false, &tree));
}

#[test]
fn strip_plan() {
    let plan = strip_commands("target/release/app", "target/release/app.debug", false, "objcopy", "strip");
    assert_eq!(1, plan.len());
    assert_eq!("strip", plan[0].program);
    assert_eq!(vec!["--strip-unneeded", "target/release/app"], plan[0].args);
    assert_eq!(None, plan[0].current_dir);

    let plan = strip_commands("/t/release/app", "/t/release/app.debug", true, "oc", "st");
    let got: Vec<(&str, Vec<&str>, Option<&str>)> =
        plan.iter().map(|i| (i.program.as_str(), i.args.iter().map(|a| a.as_str()).collect(), i.current_dir.as_deref())).collect();
    assert_eq!(
        vec![
            ("oc", vec!["--only-keep-debug", "/t/release/app", "/t/release/app.debug"], None),
            ("st", vec!["--strip-unneeded", "/t/release/app"], None),
            ("oc", vec!["--add-gnu-debuglink=app.debug", "/t/release/app"], Some("/t/release")),
        ],
        got
    );
}

#[test]
fn package_of_the_workspace() {
    let pkg = |id: &str, name: &str| CargoMetadataPackage { id: id.to_string(), name: name.to_string(), targets: vec![], manifest_path: String::new() };
    let packages = vec![pkg("dep 1", "dep"), pkg("a 1", "a"), pkg("b 1", "b")];
    let members = vec!["a 1".to_string(), "b 1".to_string()];
    assert_eq!(2, select_package(&packages, &members, Some("a 1"), Some("b")).unwrap());
    assert_eq!(1, select_package(&packages, &members, Some("a 1"), None).unwrap());
    match select_package(&packages, &members, None, None) {
        Err(CargoDebError::NoRootFoundInWorkspace(a)) => assert_eq!("a, b", a),
        other => panic!("unexpected {:?}", other),
    }
    match select_package(&packages, &members, Some("a 1"), Some("zz")) {
        Err(e) => assert_eq!("The workspace doesn't have a package named zz. Available packages are: a, b", e.to_string()),
        other => panic!("unexpected {:?}", other),
    }
}

#[test]
fn errors_say_what_went_wrong() {
    assert_eq!("I/O error: disk full", CargoDebError::Io("disk full".to_string()).to_string());
    assert_eq!(
        "unable to read license file: LICENSE",
        CargoDebError::IoFile("unable to read license file", "x".to_string(), "LICENSE".to_string()).to_string()
    );
    assert_eq!("Command cargo failed to launch", CargoDebError::CommandFailed("x".to_string(), "cargo").to_string());
    assert_eq!(
        "dpkg (arg): bad \u{fffd}",
        CargoDebError::CommandError("dpkg", "arg".to_string(), vec![b'b', b'a', b'd', b' ', 0xff]).to_string()
    );
    assert_eq!("plain", CargoDebError::Str("plain").to_string());
    assert_eq!("invalid number", CargoDebError::NumParse("invalid number", "x".to_string()).to_string());
    assert_eq!("build failed", CargoDebError::BuildFailed.to_string());
    assert_eq!("unable to strip binary 'a': why", CargoDebError::StripFailed("a".to_string(), "why".to_string()).to_string());
    assert_eq!("[package.metadata.deb.variants.v] not found in Cargo.toml", CargoDebError::VariantNotFound("v".to_string()).to_string());
    assert_eq!(
        "Asset file path does not match any files: a/*",
        CargoDebError::AssetFileNotFound("a/*".to_string()).to_string()
    );
    assert_eq!("path 'p' does not belong to a package: r", CargoDebError::PackageNotFound("p".to_string(), b"r".to_vec()).to_string());
    assert!(CargoDebError::DebHelperReplaceFailed("debian/postinst".to_string()).to_string().contains("'debian/postinst'"));
    assert!(CargoDebError::UnitNotFound("x.service".to_string()).to_string().ends_with("x.service"));
}

#[test]
fn char_split_fills_lines_with_words() {
    let s = |t: &str| t.to_string();
    assert_eq!(vec!["This is a", "test", "string for", "splitting."], s("This is a test string  for\tsplitting.").split_by_chars(10));
    assert_eq!(vec!["a b c"], s("  a   b\nc ").split_by_chars(79));
    assert!(s("   ").split_by_chars(5).is_empty());
    // a first word that fills the line leaves an empty line before it
    assert_eq!(vec!["", "toolongword", "x"], s("toolongword x").split_by_chars(5));
}

#[test]
fn listeners_take_every_message() {
    let mut quiet = NoOpListener;
    quiet.info("i".to_string());
    quiet.warning("w".to_string());
    let mut loud = StdErrListener { verbose: false };
    loud.info("not shown".to_string());
    let mut loud = StdErrListener { verbose: true };
    loud.info("shown".to_string());
    loud.warning("shown".to_string());
}

#[test]
fn calls_of_cargo_and_dpkg() {
    let c = config();
    let call = cargo_build(&c, Some("t"), &vec![], false);
    assert_eq!("cargo", call.program);
    assert_eq!(vec!["build", "--release", "--all", "--target=t"], call.args);
    assert_eq!(Some("/proj".to_string()), call.current_dir);
    let call = install_deb("target/debian/app_1_amd64.deb");
    assert_eq!("sudo", call.program);
    assert_eq!(vec!["dpkg", "-i", "target/debian/app_1_amd64.deb"], call.args);
    assert_eq!(None, call.current_dir);
}

#[test]
fn every_built_binary_is_stripped() {
    let mut c = config();
    c.assets = Assets::with_resolved_assets(vec![
        Asset::new(AssetSource::Path("t/release/a".to_string()), "usr/bin/a".to_string(), 0o755, true),
        Asset::new(AssetSource::Path("README".to_string()), "usr/share/doc/app/README".to_string(), 0o644, false),
        Asset::new(AssetSource::Data(vec![]), "usr/bin/made".to_string(), 0o755, true),
        Asset::new(AssetSource::Path("t/release/libb.so".to_string()), "usr/lib/libb.so".to_string(), 0o644, true),
        Asset::new(AssetSource::Path("scripts/run".to_string()), "usr/bin/run".to_string(), 0o755, false),
    ]);
    let plan = strip_binaries(&c, false, "objcopy", "strip");
    let got: Vec<(&str, &str)> = plan.iter().map(|i| (i.program.as_str(), i.args[1].as_str())).collect();
    assert_eq!(vec![("strip", "t/release/a"), ("strip", "t/release/libb.so")], got);
    let plan = strip_binaries(&c, true, "objcopy", "strip");
    assert_eq!(6, plan.len());
    assert_eq!(vec!["--only-keep-debug", "t/release/a", "t/release/a.debug"], plan[0].args);
    assert_eq!(Some("t/release".to_string()), plan[5].current_dir);
    assert_eq!(vec!["--add-gnu-debuglink=libb.so.debug", "t/release/libb.so"], plan[5].args);
}

#[test]
fn configuration_needs_a_readable_license_and_changelog() {
    let mut tree = FileTree::new();
    let mut c = cargo();
    c.license_file = Some("LICENSE".to_string());
    assert!(matches!(
        c.into_config(&vec![bin("app")], "/proj", None, "t", None, None, None, "x", &tree, &mut NoOpListener),
        Err(CargoDebError::IoFile(_, _, _))
    ));
    tree.add_file("/proj/LICENSE", b"free\n".to_vec());
    let mut c = cargo();
    c.license_file = Some("LICENSE".to_string());
    let made = c
        .into_config(&vec![bin("app")], "/proj", None, "t", None, None, None, "x", &tree, &mut NoOpListener)
        .unwrap();
    assert_eq!(Some("LICENSE".to_string()), made.license_file);
    assert_eq!(2, made.assets.resolved.len());

    let mut c = cargo();
    let mut deb = CargoDeb::empty();
    deb.changelog = Some("CHANGES".to_string());
    c.deb = Some(deb);
    assert!(matches!(
        c.into_config(&vec![bin("app")], "/proj", None, "t", None, None, None, "x", &tree, &mut NoOpListener),
        Err(CargoDebError::IoFile(_, _, _))
    ));
}

#[test]
fn configuration_needs_assets_in_order() {
    let tree = FileTree::new();
    let mut c = cargo();
    let mut deb = CargoDeb::empty();
    deb.assets = Some(vec![vec!["target/release/app".to_string()]]);
    c.deb = Some(deb);
    match c.into_config(&vec![bin("app")], "/proj", None, "t", None, None, None, "x", &tree, &mut NoOpListener) {
        Err(CargoDebError::Str(m)) => assert_eq!("missing target (second array entry) for asset in Cargo.toml", m),
        _ => panic!("expected failure"),
    }
    let mut c = cargo();
    let mut deb = CargoDeb::empty();
    deb.assets = Some(vec![]);
    c.deb = Some(deb);
    match c.into_config(&vec![bin("app")], "/proj", None, "t", None, None, None, "x", &tree, &mut NoOpListener) {
        Err(CargoDebError::Str(m)) => assert!(m.starts_with("No binaries or cdylibs found.")),
        _ => panic!("expected failure"),
    }
    let lib = CargoMetadataTarget { name: "app".to_string(), kind: vec!["lib".to_string()], crate_types: vec!["lib".to_string()] };
    let mut c = cargo();
    c.deb = Some(CargoDeb::empty());
    assert!(c
        .into_config(&vec![lib, bin("tool")], "/proj", None, "t", None, None, None, "x", &tree, &mut NoOpListener)
        .is_ok());
}

#[test]
fn stderr_listener_keeps_its_setting() {
    let mut quiet = StdErrListener { verbose: false };
    quiet.info("not shown".to_string());
    quiet.warning("shown".to_string());
    assert!(!quiet.verbose);
    let mut loud = StdErrListener { verbose: true };
    loud.info("shown".to_string());
    assert!(loud.verbose);
}
