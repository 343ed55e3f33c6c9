use cargo_deb::error::CargoDebError;
use cargo_deb::tararchive::Archive;
use std::io::Read;

struct Seen {
    path: String,
    kind: tar::EntryType,
    mode: u32,
    mtime: u64,
    size: u64,
    link: Option<String>,
    data: Vec<u8>,
}

fn read_back(bytes: &[u8]) -> Vec<Seen> {
    let mut ar = tar::Archive::new(bytes);
    let mut out = Vec::new();
    for entry in ar.entries().unwrap() {
        let mut entry = entry.unwrap();
        let mut data = Vec::new();
        entry.read_to_end(&mut data).unwrap();
        let h = entry.header();
        out.push(Seen {
            path: String::from_utf8(entry.path_bytes().to_vec()).unwrap(),
            kind: h.entry_type(),
            mode: h.mode().unwrap(),
            mtime: h.mtime().unwrap(),
            size: h.size().unwrap(),
            link: h.link_name_bytes().map(|b| String::from_utf8(b.to_vec()).unwrap()),
            data,
        });
    }
    out
}

fn paths(seen: &[Seen]) -> Vec<&str> {
    seen.iter().map(|s| s.path.as_str()).collect()
}

#[test]
fn empty_archive_is_two_empty_blocks() {
    let bytes = Archive::new(7).into_inner().unwrap();
    assert_eq!(vec![0u8; 1024], bytes);
}

#[test]
fn file_comes_after_its_directories() {
    let mut ar = Archive::new(1_600_000_000);
    ar.file("usr/bin/app", b"hello", 0o755).unwrap();
    let bytes = ar.into_inner().unwrap();
    // three headers, one block of data, the end
    assert_eq!(512 * 3 + 512 + 1024, bytes.len());
    let seen = read_back(&bytes);
    assert_eq!(vec!["usr/", "usr/bin/", "usr/bin/app"], paths(&seen));
    assert_eq!(tar::EntryType::Directory, seen[0].kind);
    assert_eq!(tar::EntryType::Directory, seen[1].kind);
    assert_eq!(tar::EntryType::Regular, seen[2].kind);
    assert_eq!(0o755, seen[0].mode);
    assert_eq!(0, seen[0].size);
    assert_eq!(0o755, seen[2].mode);
    assert_eq!(5, seen[2].size);
    assert_eq!(b"hello".to_vec(), seen[2].data);
    for s in &seen {
        assert_eq!(1_600_000_000, s.mtime);
    }
}

#[test]
fn header_bytes_of_a_file_are_as_tar_defines_them() {
    let mut ar = Archive::new(0o1234);
    ar.file("a", b"xyz", 0o644).unwrap();
    let bytes = ar.into_inner().unwrap();
    assert_eq!(512 + 512 + 1024, bytes.len());
    assert_eq!(b"a\0", &bytes[0..2]);
    assert_eq!(b"0000644\0", &bytes[100..108]);
    assert_eq!(b"00000000003\0", &bytes[124..136]);
    assert_eq!(b"00000001234\0", &bytes[136..148]);
    assert_eq!(0, bytes[156]);
    assert_eq!(b"ustar  \0", &bytes[257..265]);
    let sum: u32 = bytes[..512].iter().enumerate().map(|(i, b)| if (148..156).contains(&i) { 32 } else { *b as u32 }).sum();
    assert_eq!(format!("{:07o}\0", sum).as_bytes(), &bytes[148..156]);
    assert_eq!(b"xyz", &bytes[512..515]);
    assert!(bytes[515..].iter().all(|b| *b == 0));
}

#[test]
fn shared_directories_come_once() {
    let mut ar = Archive::new(0);
    ar.file("usr/bin/a", b"1", 0o755).unwrap();
    ar.file("usr/bin/b", b"22", 0o755).unwrap();
    ar.file("usr/share/doc/a/copyright", b"", 0o644).unwrap();
    ar.file("usr/bin/c", b"333", 0o600).unwrap();
    let seen = read_back(&ar.into_inner().unwrap());
    assert_eq!(
        vec![
            "usr/",
            "usr/bin/",
            "usr/bin/a",
            "usr/bin/b",
            "usr/share/",
            "usr/share/doc/",
            "usr/share/doc/a/",
            "usr/share/doc/a/copyright",
            "usr/bin/c",
        ],
        paths(&seen)
    );
    assert_eq!(0o644, seen[7].mode);
    assert_eq!(0o600, seen[8].mode);
    assert_eq!(b"22".to_vec(), seen[3].data);
}

#[test]
fn every_ancestor_stands_before_the_first_entry_below_it() {
    let mut ar = Archive::new(0);
    let files = ["a/b/c/d", "a/x", "q/r/s", "a/b/y", "top", "q/r/t/u/v", "a/b/c/e"];
    for f in files.iter() {
        ar.file(f, f.as_bytes(), 0o644).unwrap();
    }
    ar.symlink("l/m/n", "../../top").unwrap();
    let seen = read_back(&ar.into_inner().unwrap());
    let mut dirs: Vec<&str> = Vec::new();
    for (i, s) in seen.iter().enumerate() {
        if s.kind == tar::EntryType::Directory {
            assert!(!dirs.contains(&s.path.as_str()), "{} twice", s.path);
            dirs.push(&s.path);
        } else {
            let parts: Vec<&str> = s.path.split('/').collect();
            let mut above = String::new();
            for part in &parts[..parts.len() - 1] {
                above.push_str(part);
                above.push('/');
                assert!(seen[..i].iter().any(|d| d.kind == tar::EntryType::Directory && d.path == above));
            }
        }
    }
    assert_eq!(9, dirs.len());
    assert_eq!(8, seen.len() - dirs.len());
}

#[test]
fn current_directory_in_front_makes_no_directory() {
    let mut ar = Archive::new(0);
    ar.file("./control", b"Package: x\n", 0o644).unwrap();
    ar.file("./md5sums", b"", 0o644).unwrap();
    let seen = read_back(&ar.into_inner().unwrap());
    assert_eq!(vec!["control", "md5sums"], paths(&seen));
}

#[test]
fn symlink_has_target_and_no_data() {
    let mut ar = Archive::new(3);
    ar.symlink("usr/lib/libx.so", "libx.so.1").unwrap();
    let seen = read_back(&ar.into_inner().unwrap());
    assert_eq!(vec!["usr/", "usr/lib/", "usr/lib/libx.so"], paths(&seen));
    assert_eq!(tar::EntryType::Symlink, seen[2].kind);
    assert_eq!(Some("libx.so.1".to_string()), seen[2].link);
    assert_eq!(0o777, seen[2].mode);
    assert_eq!(0, seen[2].size);
    assert_eq!(3, seen[2].mtime);
    assert_eq!(None, seen[0].link);
}

#[test]
fn path_without_component_is_an_invalid_asset() {
    let mut ar = Archive::new(0);
    for p in ["", "/", "//"] {
        match ar.file(p, b"x", 0o644) {
            Err(CargoDebError::Str(m)) => assert_eq!("invalid asset", m),
            other => panic!("unexpected {:?}", other),
        }
    }
    assert_eq!(vec![0u8; 1024], ar.into_inner().unwrap());
}

#[test]
fn refused_path_leaves_the_archive_as_it_was() {
    let mut ar = Archive::new(0);
    ar.file("a/b", b"x", 0o644).unwrap();
    let long = format!("d/{}", "x".repeat(120));
    match ar.file(&long, b"x", 0o644) {
        Err(CargoDebError::Io(m)) => assert!(!m.is_empty()),
        other => panic!("unexpected {:?}", other),
    }
    assert!(matches!(ar.file("c/../e", b"x", 0o644), Err(CargoDebError::Io(_))));
    assert!(matches!(ar.file("/abs/file", b"x", 0o644), Err(CargoDebError::Io(_))));
    assert!(matches!(ar.symlink("s/link", "a\0b"), Err(CargoDebError::Io(_))));
    // a directory whose name does not fit
    let deep = format!("{}/f", "y".repeat(100));
    assert!(matches!(ar.file(&deep, b"x", 0o644), Err(CargoDebError::Io(_))));
    let seen = read_back(&ar.into_inner().unwrap());
    assert_eq!(vec!["a/", "a/b"], paths(&seen));
}

#[test]
fn data_is_padded_to_whole_blocks() {
    let mut ar = Archive::new(0);
    ar.file("f", &vec![7u8; 512], 0o644).unwrap();
    ar.file("g", &vec![8u8; 513], 0o644).unwrap();
    let bytes = ar.into_inner().unwrap();
    assert_eq!(512 + 512 + 512 + 1024 + 1024, bytes.len());
    let seen = read_back(&bytes);
    assert_eq!(vec![7u8; 512], seen[0].data);
    assert_eq!(vec![8u8; 513], seen[1].data);
}
