use cargo_deb::classify::{classify, unit_facts};
use cargo_deb::dh_installsystemd::{generate, Options};
use cargo_deb::error::CargoDebError;
use cargo_deb::fstree::FileTree;
use cargo_deb::listener::NoOpListener;
use cargo_deb::manifest::{Asset, AssetSource};

fn unit(name: &str, content: &str) -> Asset {
    Asset::new(
        AssetSource::Data(content.as_bytes().to_vec()),
        format!("lib/systemd/system/{}", name),
        0o644,
        false,
    )
}

fn text_of(scripts: &cargo_deb::fragments::ScriptFragments, key: &str) -> String {
    String::from_utf8(scripts.get(key).unwrap().clone()).unwrap()
}

#[test]
fn unit_facts_reads_keys_sections_and_comments() {
    let f = unit_facts(
        "[Unit]\nDescription=x\n# Also=commented.service\n;Alias=no\n  Also =  'b.service' \nAlso=\"c d.service\"\r\nAlias=other.service\n[Install]\nWantedBy=multi-user.target\nAlso=b.service",
    );
    assert_eq!(vec!["b.service", "c d.service", "b.service"], f.also);
    assert_eq!(vec!["other.service"], f.aliases);
    assert!(f.install);

    let f = unit_facts(" [Install]\nAlso\n=x\nAlso=='y'");
    assert!(!f.install);
    assert!(f.aliases.is_empty());
    assert_eq!(vec!["='y'"], f.also);

    let f = unit_facts("");
    assert!(!f.install && f.also.is_empty() && f.aliases.is_empty());
}

#[test]
fn unit_facts_install_line_with_equal_sign_is_a_key() {
    let f = unit_facts("[Install]=x\n[Install] trailing");
    assert!(f.install);
    let f = unit_facts("[Install]=x");
    assert!(!f.install);
}

#[test]
fn classify_walks_also_cycles_once() {
    let assets = vec![
        unit("a.service", "[Unit]\nAlso=b.service\n[Install]\nWantedBy=x\n"),
        unit("b.service", "[Unit]\nAlso=a.service\nAlias=bee.service\n"),
    ];
    let c = classify(&assets, &FileTree::new(), &mut NoOpListener).unwrap();
    assert_eq!(vec!["a.service", "b.service"], c.start_units.to_vec());
    assert_eq!(vec!["a.service"], c.enable_units.to_vec());
    assert_eq!(vec!["bee.service"], c.aliases.to_vec());
}

#[test]
fn classify_follows_also_to_templates_and_ignores_other_assets() {
    let assets = vec![
        Asset::new(AssetSource::Data(b"Also=zzz.service".to_vec()), "usr/bin/app".to_string(), 0o755, true),
        unit("t@.service", "[Install]\n"),
        unit("a.service", "Also=t@.service\n"),
    ];
    let c = classify(&assets, &FileTree::new(), &mut NoOpListener).unwrap();
    assert_eq!(vec!["a.service", "t@.service"], c.start_units.to_vec());
    assert_eq!(vec!["t@.service"], c.enable_units.to_vec());

    let assets = vec![unit("t@.service", "[Install]\n")];
    let c = classify(&assets, &FileTree::new(), &mut NoOpListener).unwrap();
    assert!(c.start_units.is_empty());
    assert!(c.enable_units.is_empty());
}

#[test]
fn classify_fails_on_unit_that_is_not_installed() {
    let assets = vec![unit("a.service", "Also=missing.service\n")];
    match classify(&assets, &FileTree::new(), &mut NoOpListener) {
        Err(CargoDebError::UnitNotFound(u)) => assert_eq!("missing.service", u),
        _ => panic!("expected failure"),
    }
}

#[test]
fn classify_reads_unit_files_from_the_tree() {
    let mut tree = FileTree::new();
    tree.add_file("debian/a.service", b"[Install]\n".to_vec());
    let assets = vec![Asset::new(
        AssetSource::Path("debian/a.service".to_string()),
        "/lib/systemd/system/".to_string(),
        0o644,
        false,
    )];
    let c = classify(&assets, &tree, &mut NoOpListener).unwrap();
    assert_eq!(vec!["a.service"], c.enable_units.to_vec());

    match classify(&assets, &FileTree::new(), &mut NoOpListener) {
        Err(CargoDebError::IoFile(_, _, p)) => assert_eq!("debian/a.service", p),
        _ => panic!("expected failure"),
    }

    let mut bad = FileTree::new();
    bad.add_file("debian/a.service", vec![0xc3, 0x28]);
    match classify(&assets, &bad, &mut NoOpListener) {
        Err(CargoDebError::InvalidUtf8(p)) => assert_eq!("lib/systemd/system/a.service", p),
        _ => panic!("expected failure"),
    }
}

#[test]
fn generate_for_unit_with_install_section() {
    let assets = vec![unit("myapp.service", "[Unit]\nDescription=My app\n[Install]\nWantedBy=multi-user.target\n")];
    let scripts = generate("myapp", &assets, &Options::default(), &FileTree::new(), "cargo-deb", &mut NoOpListener).unwrap();
    assert_eq!(3, scripts.len());

    let postinst = text_of(&scripts, "myapp.postinst.debhelper");
    assert!(postinst.contains("deb-systemd-helper enable 'myapp.service' >/dev/null || true"));
    assert!(postinst.contains("deb-systemd-invoke start myapp.service >/dev/null || true"));
    assert!(postinst.find("deb-systemd-helper enable").unwrap() < postinst.find("deb-systemd-invoke start").unwrap());

    let prerm = text_of(&scripts, "myapp.prerm.debhelper");
    assert!(prerm.contains("deb-systemd-invoke stop myapp.service >/dev/null || true"));
    assert!(!prerm.contains("= remove"));

    let postrm = text_of(&scripts, "myapp.postrm.debhelper");
    assert!(postrm.contains("deb-systemd-helper purge myapp.service >/dev/null || true"));
    assert!(postrm.contains("deb-systemd-helper mask myapp.service >/dev/null || true"));
    // the reload block was asked for last, so it stands first
    assert!(postrm.find("daemon-reload").unwrap() < postrm.find("deb-systemd-helper mask").unwrap());
    assert!(!postrm.contains('#') || postrm.lines().all(|l| !l.contains("#UNIT")));
}

#[test]
fn generate_without_units_gives_nothing() {
    let assets = vec![Asset::new(
        AssetSource::Path("target/release/app".to_string()),
        "usr/bin/app".to_string(),
        0o755,
        true,
    )];
    let scripts = generate("app", &assets, &Options::default(), &FileTree::new(), "cargo-deb", &mut NoOpListener).unwrap();
    assert!(scripts.is_empty());
}

#[test]
fn generate_obeys_options() {
    let assets = vec![
        unit("b.service", "[Install]\n"),
        unit("a.service", "x\n"),
    ];
    let options = Options { no_enable: true, no_start: true, restart_after_upgrade: false, no_stop_on_upgrade: true };
    let scripts = generate("p", &assets, &options, &FileTree::new(), "tool", &mut NoOpListener).unwrap();
    let postinst = text_of(&scripts, "p.postinst.debhelper");
    assert!(postinst.contains("deb-systemd-helper debian-installed 'b.service'"));
    assert!(postinst.contains("deb-systemd-invoke try-restart a.service b.service >/dev/null || true"));
    assert!(postinst.starts_with("# Automatically added by tool\n"));
    let prerm = text_of(&scripts, "p.prerm.debhelper");
    assert!(prerm.contains("[ \"$1\" = remove ]"));

    let options = Options { no_enable: false, no_start: true, restart_after_upgrade: false, no_stop_on_upgrade: false };
    let scripts = generate("p", &assets, &options, &FileTree::new(), "tool", &mut NoOpListener).unwrap();
    assert!(!scripts.contains_key("p.prerm.debhelper"));
    let postinst = text_of(&scripts, "p.postinst.debhelper");
    assert!(!postinst.contains("deb-systemd-invoke"));
    assert!(postinst.contains("deb-systemd-helper enable 'b.service'"));

    let options = Options { no_enable: false, no_start: false, restart_after_upgrade: true, no_stop_on_upgrade: false };
    let scripts = generate("p", &assets, &options, &FileTree::new(), "tool", &mut NoOpListener).unwrap();
    assert!(text_of(&scripts, "p.prerm.debhelper").contains("[ \"$1\" = remove ]"));
    assert!(text_of(&scripts, "p.postinst.debhelper").contains("deb-systemd-invoke start a.service b.service"));
}

#[test]
fn generate_creates_tmpfiles() {
    let assets = vec![
        Asset::new(AssetSource::Path("debian/mypkg.tmpfile".to_string()), "usr/lib/tmpfiles.d/mypkg.conf".to_string(), 0o644, false),
        Asset::new(AssetSource::Path("x/other.conf".to_string()), "usr/lib/tmpfiles.d/".to_string(), 0o644, false),
    ];
    let scripts = generate("mypkg", &assets, &Options::default(), &FileTree::new(), "cargo-deb", &mut NoOpListener).unwrap();
    assert_eq!(1, scripts.len());
    let postinst = text_of(&scripts, "mypkg.postinst.debhelper");
    assert!(postinst.contains("systemd-tmpfiles --create mypkg.tmpfile other.conf >/dev/null || true"));
}

#[test]
fn generate_starts_units_in_a_circle_once() {
    let assets = vec![
        unit("a.service", "[Unit]\nAlso=b.service\n"),
        unit("b.service", "[Unit]\nAlso=a.service\n"),
    ];
    let scripts = generate("mypkg", &assets, &Options::default(), &FileTree::new(), "cargo-deb", &mut NoOpListener).unwrap();
    let postinst = text_of(&scripts, "mypkg.postinst.debhelper");
    assert_eq!(1, postinst.matches("# Automatically added by cargo-deb\n").count());
    assert_eq!(1, postinst.matches("deb-systemd-invoke start a.service b.service >/dev/null || true").count());
    assert_eq!(1, postinst.matches("a.service").count());
    assert_eq!(1, postinst.matches("b.service").count());
    assert!(!postinst.contains("#UNITFILES#"));
}
