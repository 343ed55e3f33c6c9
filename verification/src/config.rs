//! The configuration of cargo itself, as far as it names the tools for a
//! target.

use crate::error::{CDResult, CargoDebError};
use crate::fstree::FileTree;
use crate::manifest::{debian_triple, debian_triple_of};
use crate::paths::{
    components, components_of, copy_texts, file_name, is_rooted, join_path, joined, normal,
    path_join, rooted,
};
use crate::text::{
    append_copy, append_str, chars_of, contains_char, join, opt_view, string_of, views,
};
use crate::utf8::{decode, text_of};
use vstd::prelude::*;

verus! {

/// A value of a TOML document.
#[verifier::external_type_specification]
#[verifier::external_body]
pub struct ExTomlValue(toml::Value);

/// What the TOML parser returns for a text that is no TOML.
#[verifier::external_type_specification]
#[verifier::external_body]
pub struct ExTomlError(toml::de::Error);

/// The strings that a document holds, each under the keys that lead to it.
pub type Strings = Map<Seq<Seq<char>>, Seq<char>>;

/// The strings of the document that a text is in TOML, or nothing where the
/// text is no TOML.
pub uninterp spec fn toml_document(input: Seq<char>) -> Option<Strings>;

/// The strings that a value holds: a string holds itself under no key, a
/// table holds the strings of its values, each behind the key of the value.
pub uninterp spec fn toml_strings(value: toml::Value) -> Strings;

/// The strings that lie under `key`, without that key.
pub open spec fn under(m: Strings, key: Seq<char>) -> Strings {
    Map::new(
        |p: Seq<Seq<char>>| m.contains_key(seq![key] + p),
        |p: Seq<Seq<char>>| m[seq![key] + p],
    )
}

/// `toml::from_str` reads a document; whether it succeeds, and what the
/// document holds, depends on the text alone.
#[verifier::external_body]
fn toml_from_str(input: &str) -> (r: Result<toml::Value, toml::de::Error>)
    ensures
        match toml_document(input@) {
            Some(m) => r is Ok && toml_strings(r->Ok_0) == m,
            None => r is Err,
        },
{
    toml::from_str(input)
}

/// `toml::Value::get` with a string gives the value that a table holds under
/// the key. It gives nothing where the value is no table or has no such key;
/// then no string lies under the key.
#[verifier::external_body]
fn toml_get<'a>(value: &'a toml::Value, key: &str) -> (r: Option<&'a toml::Value>)
    ensures
        match r {
            Some(c) => toml_strings(*c) == under(toml_strings(*value), key@),
            None => under(toml_strings(*value), key@) == Map::<Seq<Seq<char>>, Seq<char>>::empty(),
        },
{
    value.get(key)
}

/// `toml::Value::as_str` gives the text of a value that is a string, the
/// string that it holds under no key.
#[verifier::external_body]
fn toml_as_str<'a>(value: &'a toml::Value) -> (r: Option<&'a str>)
    ensures
        match r {
            Some(t) => toml_strings(*value).contains_key(Seq::empty()) && toml_strings(
                *value,
            )[Seq::empty()] == t@,
            None => !toml_strings(*value).contains_key(Seq::empty()),
        },
{
    value.as_str()
}

/// The message of a TOML error.
#[verifier::external_body]
fn toml_error_text(e: &toml::de::Error) -> String {
    e.to_string()
}

/// A configuration file of cargo.
pub struct CargoConfig {
    path: String,
    config: toml::Value,
}

/// The keys that lead to what the section of a target holds under `key`.
pub open spec fn section_key(target_triple: Seq<char>, key: Seq<char>) -> Seq<Seq<char>> {
    seq!["target"@, target_triple, key]
}

/// Three keys in a row.
pub open spec fn keys3(k1: Seq<char>, k2: Seq<char>, k3: Seq<char>) -> Seq<Seq<char>> {
    seq![k1, k2, k3]
}

/// The string under the keys `path`, where there is one.
pub open spec fn string_at(m: Strings, path: Seq<Seq<char>>) -> Option<Seq<char>> {
    if m.contains_key(path) {
        Some(m[path])
    } else {
        None
    }
}

/// The tool that the section of a target names under `key`: the string
/// itself, or the string under `path` where the entry is a table.
pub open spec fn named_tool(m: Strings, target_triple: Seq<char>, key: Seq<char>) -> Option<
    Seq<char>,
> {
    match string_at(m, section_key(target_triple, key)) {
        Some(t) => Some(t),
        None => string_at(m, section_key(target_triple, key).push("path"@)),
    }
}

/// The linker that the section of a target names.
pub open spec fn named_linker(m: Strings, target_triple: Seq<char>) -> Option<Seq<char>> {
    string_at(m, section_key(target_triple, "linker"@))
}

/// The file called `name` in the directory of `path`.
pub open spec fn sibling(path: Seq<char>, name: Seq<char>) -> Seq<char> {
    let c = components(path);
    let above = joined(
        if file_name(path) is Some {
            c.drop_last()
        } else {
            c
        },
    );
    path_join(
        if is_rooted(path) {
            seq!['/'] + above
        } else {
            above
        },
        name,
    )
}

/// The tool of the same toolchain as the linker: the file called `name`
/// next to a linker that is given with its directory, where it exists.
pub open spec fn beside_linker(
    m: Strings,
    target_triple: Seq<char>,
    name: Seq<char>,
    files: &FileTree,
) -> Option<Seq<char>> {
    match named_linker(m, target_triple) {
        Some(linker) => if linker.contains('/') && files.lookup(sibling(linker, name)) is Some {
            Some(sibling(linker, name))
        } else {
            None
        },
        None => None,
    }
}

/// The `strip` that Debian installs for a target.
pub open spec fn debian_strip(target_triple: Seq<char>) -> Seq<char> {
    "/usr/bin/"@ + debian_triple_of(target_triple) + "-strip"@
}

/// The program that strips binaries for a target: the one that the
/// configuration names, else the one next to the linker, else the one that
/// Debian installs for the target, each only where it exists.
pub open spec fn strip_tool(m: Strings, target_triple: Seq<char>, files: &FileTree) -> Option<
    Seq<char>,
> {
    match named_tool(m, target_triple, "strip"@) {
        Some(t) => Some(t),
        None => match beside_linker(m, target_triple, "strip"@, files) {
            Some(t) => Some(t),
            None => if files.lookup(debian_strip(target_triple)) is Some {
                Some(debian_strip(target_triple))
            } else {
                None
            },
        },
    }
}

/// The program that copies parts of binaries for a target: the one that
/// the configuration names, else the one next to the linker.
pub open spec fn objcopy_tool(m: Strings, target_triple: Seq<char>, files: &FileTree) -> Option<
    Seq<char>,
> {
    match named_tool(m, target_triple, "objcopy"@) {
        Some(t) => Some(t),
        None => beside_linker(m, target_triple, "objcopy"@, files),
    }
}

/// The path of `path` cut after `n` components.
pub open spec fn ancestor(path: Seq<char>, n: int) -> Seq<char> {
    let above = joined(components(path).take(n));
    if is_rooted(path) {
        seq!['/'] + above
    } else {
        above
    }
}

/// The configuration file of cargo in a directory: `.cargo/config`, or else
/// `.cargo/config.toml`.
pub open spec fn config_file(dir: Seq<char>, files: &FileTree) -> Option<Seq<char>> {
    if files.lookup(path_join(dir, ".cargo/config"@)) is Some {
        Some(path_join(dir, ".cargo/config"@))
    } else if files.lookup(path_join(dir, ".cargo/config.toml"@)) is Some {
        Some(path_join(dir, ".cargo/config.toml"@))
    } else {
        None
    }
}

/// The strings of the configuration file at `path`, or nothing where the
/// file cannot be read as TOML.
pub open spec fn config_document(path: Seq<char>, files: &FileTree) -> Option<Strings> {
    match files.content(path) {
        Some(b) => match text_of(b) {
            Some(t) => toml_document(t),
            None => None,
        },
        None => None,
    }
}

/// The directories that are searched for a configuration of cargo: the
/// project's directory and all above it, the one nearest first, then the
/// home directory, then `/etc`.
pub open spec fn config_dirs(project_path: Seq<char>, home: Option<Seq<char>>) -> Seq<Seq<char>> {
    let n = components(project_path).len() as int;
    Seq::new((n + 1) as nat, |k: int| ancestor(project_path, n - k)) + (match home {
        Some(h) => seq![h],
        None => Seq::empty(),
    }) + seq!["/etc"@]
}

/// The first of `dirs` that has a configuration file.
pub open spec fn first_config(dirs: Seq<Seq<char>>, files: &FileTree) -> Option<Seq<char>>
    decreases dirs.len(),
{
    if dirs.len() == 0 {
        None
    } else {
        match config_file(dirs[0], files) {
            Some(p) => Some(p),
            None => first_config(dirs.skip(1), files),
        }
    }
}

/// Where nothing lies under the first `n` of three keys, nothing lies under
/// all three.
proof fn lemma_nothing_under(m: Strings, k1: Seq<char>, k2: Seq<char>, k3: Seq<char>, n: int)
    requires
        1 <= n <= 3,
        n == 1 ==> under(m, k1) == Map::<Seq<Seq<char>>, Seq<char>>::empty(),
        n == 2 ==> under(under(m, k1), k2) == Map::<Seq<Seq<char>>, Seq<char>>::empty(),
        n == 3 ==> under(under(under(m, k1), k2), k3) == Map::<Seq<Seq<char>>, Seq<char>>::empty(),
    ensures
        forall|p: Seq<Seq<char>>| !m.contains_key(#[trigger] (keys3(k1, k2, k3) + p)),
{
    assert forall|p: Seq<Seq<char>>| !m.contains_key(#[trigger] (keys3(k1, k2, k3) + p)) by {
        let q = keys3(k1, k2, k3) + p;
        assert(q =~= seq![k1] + (seq![k2] + (seq![k3] + p)));
        if m.contains_key(q) {
            assert(under(m, k1).contains_key(seq![k2] + (seq![k3] + p)));
            assert(under(under(m, k1), k2).contains_key(seq![k3] + p));
            assert(under(under(under(m, k1), k2), k3).contains_key(p));
        }
    }
}

impl CargoConfig {
    /// The path of the file.
    pub closed spec fn file(&self) -> Seq<char> {
        self.path@
    }

    /// The strings of the document.
    pub closed spec fn document(&self) -> Strings {
        toml_strings(self.config)
    }

    fn ancestor_of(p: &Vec<char>, comps: &Vec<Vec<char>>, n: usize) -> (r: String)
        requires
            views(comps@) == components(p@),
            n <= comps@.len(),
        ensures
            r@ == ancestor(p@, n as int),
    {
        let above = copy_texts(comps, 0, n);
        assert(views(comps@).subrange(0, n as int) =~= views(comps@).take(n as int));
        let mut slash: Vec<char> = Vec::new();
        slash.push('/');
        assert(slash@ =~= seq!['/']);
        let mut out: Vec<char> = Vec::new();
        if rooted(p) {
            out.push('/');
        }
        append_copy(&mut out, &join(&above, &slash));
        assert(out@ =~= ancestor(p@, n as int));
        string_of(&out)
    }

    /// Finds the configuration of cargo that holds for a project: the first
    /// configuration file in the project's directory, the directories above
    /// it, the home directory and `/etc`.
    #[verifier::loop_isolation(false)]
    pub fn new(project_path: &str, home: Option<&str>, files: &FileTree) -> (r: CDResult<
        Option<Self>,
    >)
        ensures
            match first_config(config_dirs(project_path@, crate::text::opt_text(home)), files) {
                Some(path) => match config_document(path, files) {
                    Some(doc) => r matches Ok(Some(c)) && c.file() == path && c.document() == doc,
                    None => r matches Err(e) && (e is ParseTOML || e is Io),
                },
                None => r matches Ok(None),
            },
    {
        let p = chars_of(project_path);
        let comps = components_of(&p);
        let n = comps.len();
        let ghost dirs = config_dirs(project_path@, crate::text::opt_text(home));
        let ghost walk = Seq::new((n + 1) as nat, |k: int| ancestor(project_path@, n - k));
        let mut k: u128 = 0;
        assert(dirs.skip(0) == dirs);
        while k <= n as u128
            invariant
                k <= n + 1,
                n == comps@.len(),
                views(comps@) == components(p@),
                p@ == project_path@,
                dirs == config_dirs(project_path@, crate::text::opt_text(home)),
                first_config(dirs.skip(k as int), files) == first_config(dirs, files),
            decreases n + 1 - k,
        {
            let dir = Self::ancestor_of(&p, &comps, n - k as usize);
            proof {
                let rest = dirs.skip(k as int);
                assert(rest[0] == dirs[k as int]);
                assert(dirs[k as int] == ancestor(project_path@, n - k));
                assert(rest.skip(1) == dirs.skip(k + 1));
            }
            match Self::try_parse(dir.as_str(), files) {
                Ok(Some(conf)) => {
                    return Ok(Some(conf));
                },
                Ok(None) => {},
                Err(e) => {
                    return Err(e);
                },
            }
            k += 1;
        }
        let ghost tail = dirs.skip(n + 1);
        assert(first_config(tail, files) == first_config(dirs, files));
        let ghost last = seq!["/etc"@];
        match home {
            Some(h) => {
                assert(tail[0] == h@);
                assert(tail.skip(1) =~= last);
                match Self::try_parse(h, files) {
                    Ok(Some(conf)) => {
                        return Ok(Some(conf));
                    },
                    Ok(None) => {},
                    Err(e) => {
                        return Err(e);
                    },
                }
                assert(first_config(tail, files) == first_config(last, files));
            },
            None => {
                assert(tail =~= last);
            },
        }
        assert(last[0] == "/etc"@);
        assert(last.skip(1).len() == 0);
        assert(first_config(last.skip(1), files) is None);
        assert(first_config(last, files) == config_file("/etc"@, files));
        Self::try_parse("/etc", files)
    }

    /// The configuration of cargo in the directory `path`, where it has one.
    pub fn try_parse(path: &str, files: &FileTree) -> (r: CDResult<Option<Self>>)
        ensures
            match config_file(path@, files) {
                Some(file) => match config_document(file, files) {
                    Some(doc) => r matches Ok(Some(c)) && c.file() == file && c.document() == doc,
                    None => r matches Err(e) && (e is ParseTOML || e is Io),
                },
                None => r matches Ok(None),
            },
    {
        let first = join_path(path, ".cargo/config");
        let file = if files.has_path(first.as_str()) {
            first
        } else {
            let second = join_path(path, ".cargo/config.toml");
            if !files.has_path(second.as_str()) {
                return Ok(None);
            }
            second
        };
        let text = match files.read(file.as_str()) {
            Some(bytes) => match decode(bytes) {
                Some(t) => string_of(&t),
                None => {
                    return Err(CargoDebError::Io("stream did not contain valid UTF-8".to_owned()));
                },
            },
            None => {
                return Err(CargoDebError::Io("not a file".to_owned()));
            },
        };
        match Self::from_str(text.as_str(), file) {
            Ok(c) => Ok(Some(c)),
            Err(e) => Err(e),
        }
    }

    /// Reads a configuration that was found at `path`.
    pub fn from_str(input: &str, path: String) -> (r: CDResult<Self>)
        ensures
            match toml_document(input@) {
                Some(doc) => r matches Ok(c) && c.file() == path@ && c.document() == doc,
                None => r matches Err(e) && e is ParseTOML,
            },
    {
        match toml_from_str(input) {
            Ok(config) => Ok(CargoConfig { path, config }),
            Err(e) => Err(CargoDebError::ParseTOML(toml_error_text(&e))),
        }
    }

    /// What the section of a target holds under `key`.
    fn target_value(&self, target_triple: &str, key: &str) -> (r: Option<&toml::Value>)
        ensures
            match r {
                Some(v) => forall|p: Seq<Seq<char>>|
                    string_at(toml_strings(*v), p) == string_at(
                        self.document(),
                        #[trigger] (section_key(target_triple@, key@) + p),
                    ),
                None => forall|p: Seq<Seq<char>>|
                    string_at(
                        self.document(),
                        #[trigger] (section_key(target_triple@, key@) + p),
                    ) is None,
            },
    {
        let ghost m = toml_strings(self.config);
        let ghost k1 = "target"@;
        let ghost k2 = target_triple@;
        let ghost k3 = key@;
        proof {
            assert(section_key(k2, k3) == keys3(k1, k2, k3));
            assert forall|p: Seq<Seq<char>>|
                string_at(under(under(under(m, k1), k2), k3), p) == string_at(
                    m,
                    #[trigger] (keys3(k1, k2, k3) + p),
                ) by {
                assert(keys3(k1, k2, k3) + p =~= seq![k1] + (seq![k2] + (seq![k3] + p)));
            }
        }
        match toml_get(&self.config, "target") {
            Some(targets) => match toml_get(targets, target_triple) {
                Some(target) => match toml_get(target, key) {
                    Some(v) => Some(v),
                    None => {
                        proof {
                            lemma_nothing_under(m, k1, k2, k3, 3);
                        }
                        None
                    },
                },
                None => {
                    proof {
                        lemma_nothing_under(m, k1, k2, k3, 2);
                    }
                    None
                },
            },
            None => {
                proof {
                    lemma_nothing_under(m, k1, k2, k3, 1);
                }
                None
            },
        }
    }

    fn tool(&self, target_triple: &str, key: &str) -> (r: Option<String>)
        ensures
            opt_view(r) == named_tool(self.document(), target_triple@, key@),
    {
        let ghost at = section_key(target_triple@, key@);
        proof {
            assert(at + Seq::<Seq<char>>::empty() =~= at);
            assert(at + seq!["path"@] =~= at.push("path"@));
        }
        match self.target_value(target_triple, key) {
            Some(top) => match toml_as_str(top) {
                Some(t) => Some(t.to_owned()),
                None => match toml_get(top, "path") {
                    Some(p) => {
                        proof {
                            let inner = toml_strings(*p);
                            let outer = toml_strings(*top);
                            assert(seq!["path"@] + Seq::<Seq<char>>::empty() =~= seq!["path"@]);
                            assert(inner.contains_key(Seq::empty()) == outer.contains_key(
                                seq!["path"@],
                            ));
                            if outer.contains_key(seq!["path"@]) {
                                assert(inner[Seq::empty()] == outer[seq!["path"@]]);
                            }
                        }
                        match toml_as_str(p) {
                            Some(t) => Some(t.to_owned()),
                            None => None,
                        }
                    },
                    None => {
                        proof {
                            let outer = toml_strings(*top);
                            assert(seq!["path"@] + Seq::<Seq<char>>::empty() =~= seq!["path"@]);
                            assert(!under(outer, "path"@).contains_key(Seq::empty()));
                        }
                        None
                    },
                },
            },
            None => None,
        }
    }

    /// The linker of a target.
    pub fn linker_command(&self, target_triple: &str) -> (r: Option<String>)
        ensures
            opt_view(r) == named_linker(self.document(), target_triple@),
    {
        let ghost at = section_key(target_triple@, "linker"@);
        proof {
            assert(at + Seq::<Seq<char>>::empty() =~= at);
        }
        match self.target_value(target_triple, "linker") {
            Some(l) => match toml_as_str(l) {
                Some(t) => Some(t.to_owned()),
                None => None,
            },
            None => None,
        }
    }

    fn next_to_linker(&self, target_triple: &str, name: &str, files: &FileTree) -> (r: Option<
        String,
    >)
        ensures
            opt_view(r) == beside_linker(self.document(), target_triple@, name@, files),
    {
        match self.linker_command(target_triple) {
            Some(linker) => {
                let l = chars_of(linker.as_str());
                if contains_char(&l, '/') {
                    let comps = components_of(&l);
                    let n = if comps.len() > 0 && normal(&comps[comps.len() - 1]) {
                        assert(views(comps@).last() == comps@[comps.len() - 1]@);
                        comps.len() - 1
                    } else {
                        if comps.len() > 0 {
                            assert(views(comps@).last() == comps@[comps.len() - 1]@);
                        }
                        comps.len()
                    };
                    let dir = Self::ancestor_of(&l, &comps, n);
                    proof {
                        let c = components(l@);
                        if file_name(l@) is Some {
                            assert(c.take(n as int) =~= c.drop_last());
                        } else {
                            assert(c.take(n as int) =~= c);
                        }
                    }
                    let tool_path = join_path(dir.as_str(), name);
                    if files.has_path(tool_path.as_str()) {
                        return Some(tool_path);
                    }
                }
                None
            },
            None => None,
        }
    }

    /// The program that strips binaries for a target.
    pub fn strip_command(&self, target_triple: &str, files: &FileTree) -> (r: Option<String>)
        ensures
            opt_view(r) == strip_tool(self.document(), target_triple@, files),
    {
        match self.tool(target_triple, "strip") {
            Some(strip) => {
                return Some(strip);
            },
            None => {},
        }
        match self.next_to_linker(target_triple, "strip", files) {
            Some(strip) => {
                return Some(strip);
            },
            None => {},
        }
        let mut p = chars_of("/usr/bin/");
        append_str(&mut p, debian_triple(target_triple).as_str());
        append_str(&mut p, "-strip");
        let path = string_of(&p);
        if files.has_path(path.as_str()) {
            return Some(path);
        }
        None
    }

    pub fn path(&self) -> (r: &str)
        ensures
            r@ == self.file(),
    {
        self.path.as_str()
    }

    /// The program that copies parts of binaries for a target.
    pub fn objcopy_command(&self, target_triple: &str, files: &FileTree) -> (r: Option<String>)
        ensures
            opt_view(r) == objcopy_tool(self.document(), target_triple@, files),
    {
        match self.tool(target_triple, "objcopy") {
            Some(objcopy) => {
                return Some(objcopy);
            },
            None => {},
        }
        self.next_to_linker(target_triple, "objcopy", files)
    }
}

} // verus!
