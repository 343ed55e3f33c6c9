use cargo_deb::util::{fname_from_path, StringSet};

fn set_of(items: &[&str]) -> StringSet {
    let v: Vec<String> = items.iter().map(|s| s.to_string()).collect();
    StringSet::from_strs(&v)
}

#[test]
fn btreeset_join() {
    let empty = set_of(&[]);
    assert_eq!("", empty.join(""));
    assert_eq!("", empty.join(","));

    let one = set_of(&["a"]);
    assert_eq!("a", one.join(""));
    assert_eq!("a", one.join(","));

    let two = set_of(&["a", "b"]);
    assert_eq!("ab", two.join(""));
    assert_eq!("a,b", two.join(","));
}

#[test]
fn string_set_orders_and_drops_repeats() {
    let mut s = set_of(&["b.service", "a.service", "b.service", "a@.service", "B"]);
    assert_eq!(4, s.len());
    assert_eq!("B a.service a@.service b.service", s.join(" "));
    assert!(!s.insert("a.service"));
    assert!(s.insert("a"));
    assert_eq!(vec!["B", "a", "a.service", "a@.service", "b.service"], s.to_vec());
    assert!(s.contains("a"));
    assert!(!s.contains("c"));
}

#[test]
fn fname_from_path_takes_the_last_component() {
    assert_eq!("c.service", fname_from_path("lib/systemd/system/c.service"));
    assert_eq!("b", fname_from_path("a//b/"));
    assert_eq!("a", fname_from_path("a"));
}
