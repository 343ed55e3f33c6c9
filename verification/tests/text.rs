use cargo_deb::fragments::ScriptFragments;
use cargo_deb::fstree::{FileEntry, FileTree};
use cargo_deb::text::{
    chars_of, contains, decimal_of, ends_with, find_from, hex_of, is_before, is_blank, join, lines,
    replace, split, starts_with, string_of, trim,
};
use cargo_deb::utf8::{decode, encode};

fn c(s: &str) -> Vec<char> {
    chars_of(s)
}

fn s(v: &Vec<char>) -> String {
    string_of(v)
}

fn strings(v: &Vec<Vec<char>>) -> Vec<String> {
    v.iter().map(s).collect()
}

#[test]
fn text_goes_to_characters_and_back() {
    assert_eq!(vec!['a', 'é', '漢', '🦀'], c("aé漢🦀"));
    assert_eq!("aé漢🦀", s(&c("aé漢🦀")));
    assert!(c("").is_empty());
}

#[test]
fn replace_goes_from_left_to_right() {
    assert_eq!("xx", s(&replace(&c("abab"), &c("ab"), &c("x"))));
    assert_eq!("xa", s(&replace(&c("aaa"), &c("aa"), &c("x"))));
    assert_eq!("abc", s(&replace(&c("abc"), &c(""), &c("x"))));
    assert_eq!("", s(&replace(&c("abc"), &c("abc"), &c(""))));
    assert_eq!("#K##", s(&replace(&c("##K#K##"), &c("#K#"), &c(""))));
    for (text, pat, to) in [("a##K##K##", "#K#", ""), ("aaaa", "aa", "a"), ("xyz", "y", "yy"), ("é漢é", "é", "e")] {
        assert_eq!(text.replace(pat, to), s(&replace(&c(text), &c(pat), &c(to))));
    }
    assert_eq!("#K#", s(&replace(&c("##K##"), &c("#K#"), &c("K"))));
    assert_eq!("ab", s(&replace(&c("ab"), &c("abc"), &c("x"))));
}

#[test]
fn occurrences_are_found() {
    assert!(contains(&c("hello"), &c("ell")));
    assert!(contains(&c("hello"), &c("")));
    assert!(!contains(&c("hello"), &c("elo")));
    assert!(starts_with(&c("hello"), &c("he")));
    assert!(!starts_with(&c("he"), &c("hello")));
    assert!(ends_with(&c("hello"), &c("lo")));
    assert!(ends_with(&c("hello"), &c("")));
    assert_eq!(Some(2), find_from(&c("aXaXa"), &c("aX"), 1));
    assert_eq!(None, find_from(&c("aXaXa"), &c("aX"), 3));
    assert_eq!(Some(5), find_from(&c("aXaXa"), &c(""), 5));
}

#[test]
fn lines_end_at_line_feeds() {
    assert_eq!(vec!["a", "", "b"], strings(&lines(&c("a\n\nb"))));
    assert_eq!(vec!["a", "b"], strings(&lines(&c("a\r\nb\n"))));
    assert_eq!(vec!["a\rb", "c\r"], strings(&lines(&c("a\rb\r\nc\r"))));
    assert_eq!(vec![""], strings(&lines(&c("\n"))));
    assert!(lines(&c("")).is_empty());
    for text in ["x\ny", "x\r\n\r\ny\n", "\n\nz", "one"] {
        let expected: Vec<String> = text.lines().map(|l| l.to_string()).collect();
        assert_eq!(expected, strings(&lines(&c(text))));
    }
}

#[test]
fn split_keeps_empty_pieces() {
    assert_eq!(vec!["a", "", "b", ""], strings(&split(&c("a,,b,"), ',')));
    assert_eq!(vec![""], strings(&split(&c(""), ',')));
    assert_eq!("a, b", s(&join(&vec![c("a"), c("b")], &c(", "))));
    assert_eq!("", s(&join(&vec![], &c(", "))));
}

#[test]
fn trim_takes_white_space_from_both_ends() {
    assert_eq!("a b", s(&trim(&c(" \t a b\u{a0}\n"))));
    assert_eq!("", s(&trim(&c(" \u{2003} "))));
    assert_eq!("\u{200b}x", s(&trim(&c("\u{200b}x"))));
    assert!(is_blank(&c(" \t\u{3000}")));
    assert!(is_blank(&c("")));
    assert!(!is_blank(&c(" . ")));
    for ch in (0u32..0x3100).filter_map(char::from_u32) {
        assert_eq!(ch.is_whitespace(), is_blank(&vec![ch]), "{:?}", ch);
    }
}

#[test]
fn texts_are_ordered_like_strings() {
    let words = ["", "a", "A", "ab", "b", "é", "z", "a@.service", "a.service"];
    for x in words {
        for y in words {
            assert_eq!(x < y, is_before(&c(x), &c(y)), "{:?} {:?}", x, y);
        }
    }
}

#[test]
fn numbers_are_written_out() {
    assert_eq!("0", s(&decimal_of(0)));
    assert_eq!("10", s(&decimal_of(10)));
    assert_eq!("18446744073709551615", s(&decimal_of(u64::MAX)));
    assert_eq!("00ff10a9", s(&hex_of(&vec![0, 255, 16, 0xa9])));
    assert_eq!("", s(&hex_of(&vec![])));
}

#[test]
fn utf8_is_checked() {
    assert_eq!(Some(c("aé")), decode(&"aé".as_bytes().to_vec()));
    assert_eq!(None, decode(&vec![0xff]));
    assert_eq!(None, decode(&vec![0xc3]));
    assert_eq!(Some(vec![]), decode(&vec![]));
    assert_eq!("漢a".as_bytes().to_vec(), encode(&c("漢a")));
}

#[test]
fn fragments_are_held_by_name() {
    let mut f = ScriptFragments::new();
    assert!(f.is_empty());
    f.insert("a", vec![1]);
    f.insert("b", vec![2]);
    f.insert("a", vec![3]);
    assert_eq!(2, f.len());
    assert_eq!(Some(&vec![3]), f.get("a"));
    assert!(f.contains_key("b"));
    assert!(!f.contains_key("c"));
    let mut keys = f.keys();
    keys.sort();
    assert_eq!(vec!["a", "b"], keys);
    assert_eq!(Some(vec![3]), f.remove("a"));
    assert_eq!(None, f.remove("a"));
    assert_eq!(1, f.len());
    assert_eq!(Some(&vec![2]), f.get("b"));
}

#[test]
fn file_tree_answers_by_path() {
    let mut tree = FileTree::new();
    tree.add_file("a/b", b"first".to_vec());
    tree.add_file("a//b", b"second".to_vec());
    tree.entries.push(FileEntry { path: "d".to_string(), is_dir: true, link: None, data: vec![] });
    assert_eq!(Some(0), tree.find("a/./b"));
    assert_eq!(Some(&b"first".to_vec()), tree.read("a/b/"));
    assert!(tree.is_file("a/b"));
    assert!(!tree.is_file("d"));
    assert!(tree.has_path("d"));
    assert_eq!(None, tree.read("d"));
    assert_eq!(None, tree.find("b"));
    assert!(!tree.has_path("/a/b"));
}
