use cargo_deb::compress::{gz, gz_result, xz_or_gz, Compressed};
use cargo_deb::control;
use cargo_deb::data::{self, has_copyright_metadata, human_size};
use cargo_deb::debarchive::DebArchive;
use cargo_deb::error::CargoDebError;
use cargo_deb::fstree::{FileEntry, FileTree};
use cargo_deb::listener::NoOpListener;
use cargo_deb::manifest::{Asset, AssetSource, Assets, Config, SystemdUnitsConfig};
use cargo_deb::package::assemble;
use cargo_deb::tararchive::Archive;
use std::collections::HashMap;
use std::io::Read;

fn config() -> Config {
    Config {
        manifest_dir: "/proj".to_string(),
        deb_output_path: None,
        target: None,
        target_dir: "/proj/target".to_string(),
        name: "app".to_string(),
        deb_name: "app".to_string(),
        deb_version: "1.2.3".to_string(),
        license: Some("MIT".to_string()),
        license_file: None,
        license_file_skip_lines: 0,
        copyright: "2020, A. Author".to_string(),
        changelog: None,
        homepage: None,
        documentation: None,
        repository: None,
        description: "An app".to_string(),
        extended_description: None,
        maintainer: "A. Author <a@example.invalid>".to_string(),
        depends: "$auto".to_string(),
        build_depends: None,
        section: None,
        priority: "optional".to_string(),
        conflicts: None,
        breaks: None,
        replaces: None,
        provides: None,
        architecture: "amd64".to_string(),
        conf_files: None,
        assets: Assets::new(),
        triggers_file: None,
        maintainer_scripts: None,
        features: vec![],
        default_features: true,
        strip: true,
        separate_debug_symbols: false,
        preserve_symlinks: false,
        systemd_units: None,
        deb_name_separator: None,
    }
}

fn decode_names(bytes: &[u8]) -> Vec<String> {
    let mut ar = tar::Archive::new(bytes);
    ar.entries().unwrap().map(|e| String::from_utf8(e.unwrap().path_bytes().to_vec()).unwrap()).collect()
}

fn extract_contents(bytes: &[u8]) -> HashMap<String, String> {
    let mut ar = tar::Archive::new(bytes);
    let mut out = HashMap::new();
    for entry in ar.entries().unwrap() {
        let mut unwrapped = entry.unwrap();
        let name = String::from_utf8(unwrapped.path_bytes().to_vec()).unwrap();
        let mut buf = Vec::new();
        unwrapped.read_to_end(&mut buf).unwrap();
        out.insert(name, String::from_utf8(buf).unwrap());
    }
    out
}

fn app_config() -> (Config, FileTree) {
    let mut tree = FileTree::new();
    tree.add_file("target/release/app", b"\x7fELF binary".to_vec());
    let mut c = config();
    c.assets = Assets::with_resolved_assets(vec![Asset::new(
        AssetSource::Path("target/release/app".to_string()),
        "usr/bin/app".to_string(),
        0o755,
        true,
    )]);
    (c, tree)
}

#[test]
fn human_size_rounds_up() {
    assert_eq!((0, "B"), human_size(0));
    assert_eq!((999, "B"), human_size(999));
    assert_eq!((1, "KB"), human_size(1000));
    assert_eq!((2, "KB"), human_size(1001));
    assert_eq!((1000, "KB"), human_size(999_999));
    assert_eq!((1, "MB"), human_size(1_000_000));
    assert_eq!((2, "MB"), human_size(1_000_001));
    assert_eq!((18446744073710, "MB"), human_size(u64::MAX));
}

#[test]
fn copyright_metadata_is_looked_for_in_ten_lines() {
    assert!(has_copyright_metadata("License: MIT\n"));
    assert!(has_copyright_metadata("x\nSource: y\n"));
    assert!(has_copyright_metadata("Upstream-Name: y"));
    assert!(has_copyright_metadata("a\nb\nc\nd\ne\nf\ng\nh\ni\nFormat: x"));
    assert!(!has_copyright_metadata("a\nb\nc\nd\ne\nf\ng\nh\ni\nj\nFormat: x"));
    assert!(!has_copyright_metadata(" License: MIT\nLicense:MIT\n"));
    assert!(!has_copyright_metadata(""));
}

#[test]
fn copyright_from_metadata_alone() {
    let mut c = config();
    c.homepage = Some("https://example.org".to_string());
    let text = String::from_utf8(data::generate_copyright_asset(&c, &FileTree::new()).unwrap()).unwrap();
    assert_eq!(
        "Format: https://www.debian.org/doc/packaging-manuals/copyright-format/1.0/\n\
         Upstream-Name: app\n\
         Source: https://example.org\n\
         Copyright: 2020, A. Author\n\
         License: MIT\n",
        text
    );
    c.repository = Some("https://github.com/a/app".to_string());
    c.license = None;
    let text = String::from_utf8(data::generate_copyright_asset(&c, &FileTree::new()).unwrap()).unwrap();
    assert!(text.contains("Source: https://github.com/a/app\n"));
    assert!(!text.contains("License"));
}

#[test]
fn copyright_from_license_file() {
    let mut c = config();
    c.license_file = Some("LICENSE".to_string());
    c.license_file_skip_lines = 1;
    let mut tree = FileTree::new();
    tree.add_file("/proj/LICENSE", b"skipped\nfirst\n \nlast".to_vec());
    let text = String::from_utf8(data::generate_copyright_asset(&c, &tree).unwrap()).unwrap();
    assert!(text.starts_with("Format: "));
    assert!(text.ends_with("License: MIT\nfirst\n .\nlast\n"));

    let mut tree = FileTree::new();
    tree.add_file("/proj/LICENSE", b"License: X\nbody\n".to_vec());
    c.license_file_skip_lines = 0;
    let text = String::from_utf8(data::generate_copyright_asset(&c, &tree).unwrap()).unwrap();
    assert_eq!("License: X\nbody\n", text);

    match data::generate_copyright_asset(&c, &FileTree::new()) {
        Err(CargoDebError::IoFile(m, _, p)) => {
            assert_eq!("unable to read license file", m);
            assert_eq!("LICENSE", p);
        }
        other => panic!("unexpected {:?}", other),
    }
}

#[test]
fn changelog_is_compressed() {
    let mut c = config();
    assert_eq!(None, data::generate_changelog_asset(&c, &FileTree::new()).unwrap());
    c.changelog = Some("changelog".to_string());
    let mut tree = FileTree::new();
    tree.add_file("/proj/changelog", b"app (1.2.3) unstable\n".to_vec());
    let z = data::generate_changelog_asset(&c, &tree).unwrap().unwrap();
    assert_eq!(&[0x1F, 0x8B], &z[..2]);
    assert!(matches!(data::generate_changelog_asset(&c, &FileTree::new()), Err(CargoDebError::IoFile(_, _, _))));
}

#[test]
fn gz_makes_a_gzip_stream() {
    let input = b"hello hello hello hello hello hello hello".to_vec();
    let z = gz(&input).unwrap();
    assert_eq!(&[0x1F, 0x8B, 8], &z[..3]);
    // the stream ends with the length of the input
    let n = z.len();
    assert_eq!(input.len() as u32, u32::from_le_bytes([z[n - 4], z[n - 3], z[n - 2], z[n - 1]]));
    assert_ne!(input, z);
    assert_eq!(z, gz(&input).unwrap());
    match xz_or_gz(&input, true).unwrap() {
        Compressed::Gz(d) => assert_eq!(z, d),
        Compressed::Xz(_) => panic!("not gzip"),
    }
    let c = xz_or_gz(&input, false).unwrap();
    assert_eq!("gz", c.extension());
    assert_eq!(&z, c.data());
    assert_eq!(z.len(), c.len());
    assert_eq!(&z[..], &c[..]);
    assert_eq!("xz", Compressed::Xz(vec![]).extension());
}

#[test]
fn gz_result_maps_the_failure() {
    assert_eq!(vec![1, 2], gz_result(Ok(vec![1, 2])).unwrap());
    let failed = gz_result(Err(std::io::Error::new(std::io::ErrorKind::Other, "boom")));
    match failed {
        Err(CargoDebError::Io(m)) => assert_eq!("boom", m),
        other => panic!("unexpected {:?}", other),
    }
}

#[test]
fn deb_archive_members() {
    let c = config();
    let mut deb = DebArchive::new(&c, &FileTree::new());
    deb.add_data("debian-binary", 1234, b"2.0\n").unwrap();
    deb.add_data("odd", 5, b"abc").unwrap();
    let mut tree = FileTree::new();
    tree.add_file("/proj/target/debian/control.tar.gz", b"zz".to_vec());
    deb.add_path("/proj/target/debian/control.tar.gz", 77, 0o600, &tree).unwrap();
    match deb.add_path("/elsewhere/x", 0, 0o644, &tree) {
        Err(CargoDebError::Str(m)) => assert_eq!("invalid path", m),
        other => panic!("unexpected {:?}", other),
    }
    assert!(matches!(deb.add_path("/proj/target/debian/missing", 0, 0o644, &tree), Err(CargoDebError::Io(_))));
    let (path, bytes) = deb.finish().unwrap();
    assert_eq!("/proj/target/debian/app_1.2.3_amd64.deb", path);
    assert_eq!(
        b"!<arch>\ndebian-binary   1234        0     0     644     4         `\n2.0\n" as &[u8],
        &bytes[..72]
    );
    let mut ar = ar::Archive::new(&bytes[..]);
    let mut seen = Vec::new();
    while let Some(entry) = ar.next_entry() {
        let mut entry = entry.unwrap();
        let mut data = Vec::new();
        entry.read_to_end(&mut data).unwrap();
        let h = entry.header();
        seen.push((String::from_utf8(h.identifier().to_vec()).unwrap(), h.mtime(), h.mode(), h.uid(), h.gid(), h.size(), data));
    }
    assert_eq!(
        vec![
            ("debian-binary".to_string(), 1234, 0o644, 0, 0, 4, b"2.0\n".to_vec()),
            ("odd".to_string(), 5, 0o644, 0, 0, 3, b"abc".to_vec()),
            ("control.tar.gz".to_string(), 77, 0o600, 0, 0, 2, b"zz".to_vec()),
        ],
        seen
    );
}

#[test]
fn deb_archive_names() {
    let mut c = config();
    assert_eq!("app_*_amd64.deb", DebArchive::filename_glob(&c));
    c.deb_name_separator = Some('-');
    assert_eq!("app-*-amd64.deb", DebArchive::filename_glob(&c));
    let mut tree = FileTree::new();
    assert_eq!("/proj/target/debian/x.deb", c.deb_output_path("x.deb", &tree));
    c.deb_output_path = Some("out/".to_string());
    assert_eq!("out/x.deb", c.deb_output_path("x.deb", &tree));
    c.deb_output_path = Some("out".to_string());
    assert_eq!("out", c.deb_output_path("x.deb", &tree));
    tree.entries.push(FileEntry { path: "out".to_string(), is_dir: true, link: None, data: vec![] });
    assert_eq!("out/x.deb", c.deb_output_path("x.deb", &tree));
    let (path, bytes) = DebArchive::new(&c, &tree).finish().unwrap();
    assert_eq!("out/app-1.2.3-amd64.deb", path);
    assert!(bytes.is_empty());
}

#[test]
fn data_archive_holds_files_and_links() {
    let (mut c, mut tree) = app_config();
    tree.entries.push(FileEntry {
        path: "libs/libx.so".to_string(),
        is_dir: false,
        link: Some("libx.so.1".to_string()),
        data: b"lib".to_vec(),
    });
    c.assets.resolved.push(Asset::new(AssetSource::Path("libs/libx.so".to_string()), "usr/lib/".to_string(), 0o644, false));
    c.assets.resolved.push(Asset::new(AssetSource::Data(b"doc".to_vec()), "usr/share/doc/app/copyright".to_string(), 0o644, false));

    let (bytes, hashes) = data::generate_archive(&c, 9, &tree, &mut NoOpListener).unwrap();
    assert_eq!(
        vec!["usr/", "usr/bin/", "usr/bin/app", "usr/lib/", "usr/lib/libx.so", "usr/share/", "usr/share/doc/", "usr/share/doc/app/", "usr/share/doc/app/copyright"],
        decode_names(&bytes)
    );
    assert_eq!(3, hashes.len());
    assert_eq!(Some(md5::compute(b"\x7fELF binary").0.to_vec()), hashes[0]);
    assert_eq!(Some(md5::compute(b"lib").0.to_vec()), hashes[1]);
    assert_eq!(Some(md5::compute(b"doc").0.to_vec()), hashes[2]);

    c.preserve_symlinks = true;
    let (bytes, hashes) = data::generate_archive(&c, 9, &tree, &mut NoOpListener).unwrap();
    assert_eq!(None, hashes[1]);
    let mut ar = tar::Archive::new(&bytes[..]);
    let link = ar.entries().unwrap().map(|e| e.unwrap()).find(|e| e.header().entry_type() == tar::EntryType::Symlink).unwrap();
    assert_eq!(b"usr/lib/libx.so", &link.path_bytes()[..]);
    assert_eq!(b"libx.so.1", &link.link_name_bytes().unwrap()[..]);

    c.assets.resolved.push(Asset::new(AssetSource::Path("missing".to_string()), "x".to_string(), 0o644, false));
    assert!(matches!(data::generate_archive(&c, 9, &tree, &mut NoOpListener), Err(CargoDebError::IoFile(_, _, _))));
}

#[test]
fn end_to_end_with_one_binary() {
    let (c, tree) = app_config();
    let found = vec!["libc6 (>= 2.28)".to_string()];
    let (data_tar, hashes) = data::generate_archive(&c, 1_600_000_000, &tree, &mut NoOpListener).unwrap();
    let control_tar = control::generate_archive(&c, 1_600_000_000, &hashes, &found, &tree, "cargo-deb", &mut NoOpListener).unwrap();

    let mut names = decode_names(&control_tar);
    names.sort();
    assert_eq!(vec!["control", "md5sums"], names);
    let payload: Vec<String> = decode_names(&data_tar).into_iter().filter(|n| !n.ends_with('/')).collect();
    assert_eq!(vec!["usr/bin/app"], payload);

    let contents = extract_contents(&control_tar);
    assert_eq!(format!("{:x}  usr/bin/app\n", md5::compute(b"\x7fELF binary")), contents["md5sums"]);
    assert_eq!(
        "Package: app\n\
         Version: 1.2.3\n\
         Architecture: amd64\n\
         Priority: optional\n\
         Standards-Version: 3.9.4\n\
         Maintainer: A. Author <a@example.invalid>\n\
         Installed-Size: 0\n\
         Depends: libc6 (>= 2.28)\n\
         Description: An app\n\n",
        contents["control"]
    );

    let (path, deb) = assemble(&c, 1_600_000_000, &found, &tree, "cargo-deb", false, &mut NoOpListener).unwrap();
    assert_eq!("/proj/target/debian/app_1.2.3_amd64.deb", path);
    let mut ar = ar::Archive::new(&deb[..]);
    let mut members = Vec::new();
    while let Some(entry) = ar.next_entry() {
        let mut entry = entry.unwrap();
        let mut data = Vec::new();
        entry.read_to_end(&mut data).unwrap();
        assert_eq!(1_600_000_000, entry.header().mtime());
        assert_eq!(0, entry.header().uid());
        assert_eq!(0, entry.header().gid());
        members.push((String::from_utf8(entry.header().identifier().to_vec()).unwrap(), data));
    }
    let names: Vec<&str> = members.iter().map(|m| m.0.as_str()).collect();
    assert_eq!(vec!["debian-binary", "control.tar.gz", "data.tar.gz"], names);
    assert_eq!(b"2.0\n".to_vec(), members[0].1);
    assert_eq!(cargo_deb::compress::gz(&control_tar).unwrap(), members[1].1);
    assert_eq!(cargo_deb::compress::gz(&data_tar).unwrap(), members[2].1);
}

#[test]
fn control_file_has_all_fields() {
    let (mut c, tree) = app_config();
    c.repository = Some("https://github.com/a/app".to_string());
    c.documentation = Some("https://docs.example.org".to_string());
    c.section = Some("utils".to_string());
    c.depends = "libfoo, $auto ,libbar (>= 2)".to_string();
    c.build_depends = Some("cargo".to_string());
    c.conflicts = Some("old-app".to_string());
    c.breaks = Some("older-app".to_string());
    c.replaces = Some("app-legacy".to_string());
    c.provides = Some("virt".to_string());
    c.description = "Short".to_string();
    c.extended_description = Some("Long text\n\nwith a gap".to_string());
    c.assets.resolved.push(Asset::new(AssetSource::Data(vec![0; 4096]), "usr/share/x".to_string(), 0o644, false));
    let found = vec!["libc6".to_string(), "libbar (>= 2)".to_string()];
    let text: String = control::control_of(&c, &c.get_dependencies(&found), &tree).into_iter().collect();
    assert_eq!(
        "Package: app\n\
         Version: 1.2.3\n\
         Architecture: amd64\n\
         Vcs-Browser: https://github.com/a/app\n\
         Vcs-Git: https://github.com/a/app\n\
         Homepage: https://docs.example.org\n\
         Section: utils\n\
         Priority: optional\n\
         Standards-Version: 3.9.4\n\
         Maintainer: A. Author <a@example.invalid>\n\
         Installed-Size: 4\n\
         Depends: libbar (>= 2), libc6, libfoo\n\
         Build-Depends: cargo\n\
         Conflicts: old-app\n\
         Breaks: older-app\n\
         Replaces: app-legacy\n\
         Provides: virt\n\
         Description: Short\n Long text\n .\n with a gap\n\n",
        text
    );
    assert_eq!("", config().get_dependencies(&vec![]));
    c.depends = "a,b".to_string();
    assert_eq!("a, b", c.get_dependencies(&found));
}

#[test]
fn conffiles_and_triggers() {
    let (mut c, mut tree) = app_config();
    c.conf_files = Some("/etc/app.conf\n/etc/app2.conf".to_string());
    c.triggers_file = Some("debian/triggers".to_string());
    let (_, hashes) = data::generate_archive(&c, 0, &tree, &mut NoOpListener).unwrap();
    let bytes = control::generate_archive(&c, 0, &hashes, &vec![], &tree, "t", &mut NoOpListener).unwrap();
    assert_eq!(vec!["md5sums", "control", "conffiles"], decode_names(&bytes));
    assert_eq!("/etc/app.conf\n/etc/app2.conf\n", extract_contents(&bytes)["conffiles"]);
    tree.add_file("debian/triggers", b"activate x\n".to_vec());
    let bytes = control::generate_archive(&c, 0, &hashes, &vec![], &tree, "t", &mut NoOpListener).unwrap();
    assert_eq!(vec!["md5sums", "control", "conffiles", "triggers"], decode_names(&bytes));
    assert_eq!("activate x\n", extract_contents(&bytes)["triggers"]);
}

#[test]
fn generate_scripts_does_nothing_if_maintainer_scripts_is_not_set() {
    let (config, mut tree) = app_config();
    let mut in_ar = Archive::new(0);

    // supply a maintainer script as if it were available on disk
    tree.add_file("debian/postinst", Vec::new());

    // generate scripts and store them in the given archive
    control::generate_scripts(&mut in_ar, &config, &tree, "cargo-deb", &mut NoOpListener).unwrap();

    // finish the archive and unwrap it as a byte vector
    let archive_bytes = in_ar.into_inner().unwrap();

    // compare the file names in the archive to what we expect
    let archived_file_names = decode_names(&archive_bytes);
    assert!(archived_file_names.is_empty());
}

#[test]
fn generate_scripts_archives_user_supplied_maintainer_scripts() {
    let maintainer_script_names = &vec!["config", "preinst", "postinst", "prerm", "postrm", "templates"];

    let (mut config, mut tree) = app_config();
    let mut in_ar = Archive::new(0);

    // supply a maintainer script as if it were available on disk
    // provide file content that we can easily verify
    for script in maintainer_script_names.iter() {
        let content = format!("some contents: {}", script);
        tree.add_file(script, content.into_bytes());
    }

    // look in the current (virtual) dir for the maintainer script we just
    // "added"
    config.maintainer_scripts.get_or_insert(String::new());

    // generate scripts and store them in the given archive
    control::generate_scripts(&mut in_ar, &config, &tree, "cargo-deb", &mut NoOpListener).unwrap();

    // finish the archive and unwrap it as a byte vector
    let archive_bytes = in_ar.into_inner().unwrap();

    // compare the file contents in the archive to what we expect
    let archived_content = extract_contents(&archive_bytes);

    assert_eq!(maintainer_script_names.len(), archived_content.len());

    // verify that the content we supplied was faithfully archived
    for script in maintainer_script_names.iter() {
        let expected_content = &format!("some contents: {}", script);
        let actual_content = archived_content.get(&script.to_string()).unwrap();
        assert_eq!(expected_content, actual_content);
    }
    let mut ar = tar::Archive::new(&archive_bytes[..]);
    for e in ar.entries().unwrap() {
        assert_eq!(0o755, e.unwrap().header().mode().unwrap());
    }
}

#[test]
fn generate_scripts_generates_maintainer_scripts_for_unit() {
    let (mut config, mut tree) = app_config();
    let mut in_ar = Archive::new(0);

    // supply a systemd unit file as if it were available on disk
    tree.add_file("some.service", Vec::new());

    // make the unit file available for systemd unit processing
    config.assets.resolved.push(Asset::new(
        AssetSource::Path("some.service".to_string()),
        "lib/systemd/system/some.service".to_string(),
        0o000,
        false,
    ));

    // look in the current dir for maintainer scripts (none, but the systemd
    // unit processing will be skipped if we don't set this)
    config.maintainer_scripts.get_or_insert(String::new());

    // enable systemd unit processing
    config.systemd_units.get_or_insert(SystemdUnitsConfig::default());

    // generate scripts and store them in the given archive
    control::generate_scripts(&mut in_ar, &config, &tree, "cargo-deb", &mut NoOpListener).unwrap();

    // finish the archive and unwrap it as a byte vector
    let archive_bytes = in_ar.into_inner().unwrap();

    // compare the file names in the archive to what we expect
    let mut archived_file_names = decode_names(&archive_bytes);
    archived_file_names.sort();

    // don't check the file content, generation of correct files and content
    // is tested at a lower level, we're only testing the higher level.
    let expected_maintainer_scripts = vec!["postinst", "postrm", "prerm"]
        .iter()
        .map(|i| i.to_string())
        .collect::<Vec<String>>();
    assert_eq!(expected_maintainer_scripts, archived_file_names);
}

#[test]
fn generate_scripts_fails_when_a_user_script_has_no_token() {
    let (mut config, mut tree) = app_config();
    tree.add_file("debian/postinst", b"#!/bin/sh\n".to_vec());
    tree.add_file("some.service", b"[Install]\n".to_vec());
    config.assets.resolved.push(Asset::new(
        AssetSource::Path("some.service".to_string()),
        "lib/systemd/system/some.service".to_string(),
        0o644,
        false,
    ));
    config.maintainer_scripts = Some("debian".to_string());
    config.systemd_units = Some(SystemdUnitsConfig::default());
    let mut in_ar = Archive::new(0);
    let r = control::generate_scripts(&mut in_ar, &config, &tree, "cargo-deb", &mut NoOpListener);
    assert!(matches!(r, Err(CargoDebError::DebHelperReplaceFailed(_))));
}

#[test]
fn man_pages_are_compressed() {
    let (mut c, mut tree) = app_config();
    tree.add_file("doc/app.1", b"manual".to_vec());
    c.assets.resolved.insert(0, Asset::new(AssetSource::Path("doc/app.1".to_string()), "usr/share/man/man1/app.1".to_string(), 0o644, false));
    c.assets.resolved.push(Asset::new(AssetSource::Data(b"z".to_vec()), "usr/share/man/man1/other.1.gz".to_string(), 0o644, false));
    c.assets.resolved.push(Asset::new(AssetSource::Data(b"second".to_vec()), "usr/share/man/man5/app.5".to_string(), 0o600, false));
    data::compress_man_pages(&mut c, &tree, &mut NoOpListener).unwrap();
    let targets: Vec<&str> = c.assets.resolved.iter().map(|a| a.target_path.as_str()).collect();
    assert_eq!(
        vec!["usr/bin/app", "usr/share/man/man1/other.1.gz", "usr/share/man/man1/app.1.gz", "usr/share/man/man5/app.5.gz"],
        targets
    );
    assert_eq!(gz(b"manual").unwrap(), c.assets.resolved[2].source.data(&tree).unwrap());
    assert_eq!(gz(b"second").unwrap(), c.assets.resolved[3].source.data(&tree).unwrap());
    assert_eq!(0o600, c.assets.resolved[3].chmod);

    let (mut c, tree) = app_config();
    c.assets.resolved.push(Asset::new(AssetSource::Path("doc/missing.1".to_string()), "usr/share/man/man1/app.1".to_string(), 0o644, false));
    assert!(data::compress_man_pages(&mut c, &tree, &mut NoOpListener).is_err());
    assert_eq!(2, c.assets.resolved.len());
}

#[test]
fn copyright_and_changelog_become_assets() {
    let (mut c, mut tree) = app_config();
    c.deb_name = "my-app".to_string();
    c.add_copyright_asset(&tree).unwrap();
    let a = c.assets.resolved.last().unwrap();
    assert_eq!("usr/share/doc/my-app/copyright", a.target_path);
    assert_eq!(0o644, a.chmod);
    assert_eq!(data::generate_copyright_asset(&c, &tree).unwrap(), a.source.data(&tree).unwrap());

    c.add_changelog_asset(&tree).unwrap();
    assert_eq!(2, c.assets.resolved.len());
    c.changelog = Some("CHANGELOG".to_string());
    assert!(c.add_changelog_asset(&tree).is_err());
    tree.add_file("/proj/CHANGELOG", b"changes".to_vec());
    c.add_changelog_asset(&tree).unwrap();
    let a = c.assets.resolved.last().unwrap();
    assert_eq!("usr/share/doc/my-app/changelog.gz", a.target_path);
    assert_eq!(gz(b"changes").unwrap(), a.source.data(&tree).unwrap());
}

#[test]
fn without_manual_pages_nothing_is_compressed() {
    let (mut c, tree) = app_config();
    let before: Vec<String> = c.assets.resolved.iter().map(|a| a.target_path.clone()).collect();
    data::compress_man_pages(&mut c, &tree, &mut NoOpListener).unwrap();
    let after: Vec<String> = c.assets.resolved.iter().map(|a| a.target_path.clone()).collect();
    assert_eq!(before, after);
}

#[test]
fn a_manual_page_that_cannot_be_read_is_an_error() {
    let (mut c, tree) = app_config();
    let n = c.assets.resolved.len();
    c.assets.resolved.push(Asset::new(
        AssetSource::Path("doc/missing.1".to_string()),
        "usr/share/man/man1/app.1".to_string(),
        0o644,
        false,
    ));
    match data::compress_man_pages(&mut c, &tree, &mut NoOpListener) {
        Err(CargoDebError::IoFile(_, _, p)) => assert_eq!("doc/missing.1", p),
        _ => panic!("expected failure"),
    }
    assert_eq!(n + 1, c.assets.resolved.len());
    assert_eq!("usr/share/man/man1/app.1", c.assets.resolved[n].target_path);
}

fn members_of(deb: &[u8]) -> Vec<(String, Vec<u8>)> {
    let mut ar = ar::Archive::new(deb);
    let mut members = Vec::new();
    while let Some(entry) = ar.next_entry() {
        let mut entry = entry.unwrap();
        let mut data = Vec::new();
        entry.read_to_end(&mut data).unwrap();
        members.push((String::from_utf8(entry.header().identifier().to_vec()).unwrap(), data));
    }
    members
}

#[test]
fn pack_puts_the_members_in_debians_order() {
    let (c, tree) = app_config();
    let control = Compressed::Xz(b"control bytes".to_vec());
    let data = Compressed::Gz(b"data bytes".to_vec());
    let (path, deb) = cargo_deb::package::pack(&c, 7, &control, &data, &tree).unwrap();
    assert_eq!("/proj/target/debian/app_1.2.3_amd64.deb", path);
    let members = members_of(&deb);
    assert_eq!(
        vec![
            ("debian-binary".to_string(), b"2.0\n".to_vec()),
            ("control.tar.xz".to_string(), b"control bytes".to_vec()),
            ("data.tar.gz".to_string(), b"data bytes".to_vec()),
        ],
        members
    );
}

#[test]
fn gzip_never_fails() {
    for input in [&b""[..], &b"a"[..], &[0u8; 3000][..]] {
        let z = gz(input).unwrap();
        assert_eq!(&[31u8, 139, 8], &z[..3]);
        match xz_or_gz(input, true).unwrap() {
            Compressed::Gz(v) => assert_eq!(z, v),
            Compressed::Xz(_) => panic!("expected gzip"),
        }
    }
}
