//! The files that go into a package, and where they go.

use crate::error::{CDResult, CargoDebError};
use crate::fstree::FileTree;
use crate::paths::{
    components, components_of, file_name, is_rooted, join_path, joined, last_component, path_below,
    path_join, rooted, strip_prefix,
};
use crate::text::{
    append_copy, append_str, chars_of, contains, contains_char, contains_text, copy_of, ends_with,
    has_prefix, has_suffix, join, split, split_on, starts_with, string_of, text_is, views,
};
use vstd::prelude::*;

verus! {

/// Where the bytes of an asset come from.
#[derive(Debug)]
pub enum AssetSource {
    /// Copy file from the path (and strip binary if needed).
    Path(String),
    /// Write data to destination as-is.
    Data(Vec<u8>),
}

/// `path` with `.debug` behind it.
pub open spec fn debug_name(path: Seq<char>) -> Seq<char> {
    path + ".debug"@
}

/// Adds `.debug` to the end of a path to a filename.
pub fn debug_filename(path: &str) -> (r: String)
    ensures
        r@ == debug_name(path@),
{
    let mut v = chars_of(path);
    append_str(&mut v, ".debug");
    string_of(&v)
}

impl AssetSource {
    /// What a read of the source gives in `files`: the bytes of a source that
    /// is data, the file's content for a path, nothing where the path is no
    /// file there.
    pub open spec fn bytes(&self, files: &FileTree) -> Option<Seq<u8>> {
        match self {
            AssetSource::Path(p) => files.content(p@),
            AssetSource::Data(d) => Some(d@),
        }
    }

    pub fn path(&self) -> (r: Option<&str>)
        ensures
            match (r, self) {
                (Some(p), AssetSource::Path(q)) => p@ == q@,
                (None, AssetSource::Data(_)) => true,
                _ => false,
            },
    {
        match self {
            AssetSource::Path(p) => Some(p.as_str()),
            _ => None,
        }
    }

    /// How many bytes the source holds, where that is known.
    pub fn len(&self, files: &FileTree) -> (r: Option<u64>)
        ensures
            match self {
                AssetSource::Path(p) => match files.lookup(p@) {
                    Some(e) => r matches Some(n) && n as nat == e.data@.len(),
                    None => r is None,
                },
                AssetSource::Data(d) => r matches Some(n) && n as nat == d@.len(),
            },
    {
        match self {
            AssetSource::Path(p) => match files.find(p.as_str()) {
                Some(i) => Some(files.entries[i].data.len() as u64),
                None => None,
            },
            AssetSource::Data(d) => Some(d.len() as u64),
        }
    }

    /// The bytes of the source.
    pub fn data(&self, files: &FileTree) -> (r: CDResult<Vec<u8>>)
        ensures
            match self.bytes(files) {
                Some(b) => r matches Ok(d) && d@ == b,
                None => r matches Err(CargoDebError::IoFile(_, _, p)) && self matches AssetSource::Path(
                    q,
                ) && p@ == q@,
            },
    {
        match self {
            AssetSource::Path(p) => match files.read(p.as_str()) {
                Some(d) => Ok(copy_of(d)),
                None => Err(
                    CargoDebError::IoFile(
                        "unable to read asset to add to archive",
                        "no such file".to_owned(),
                        p.clone(),
                    ),
                ),
            },
            AssetSource::Data(d) => Ok(copy_of(d)),
        }
    }

    /// Return the file that will hold debug symbols for this asset.
    /// This is just `<file>.debug`
    pub fn debug_source(&self) -> (r: Option<String>)
        ensures
            match self {
                AssetSource::Path(p) => r matches Some(d) && d@ == debug_name(p@),
                AssetSource::Data(_) => r is None,
            },
    {
        match self {
            AssetSource::Path(p) => Some(debug_filename(p.as_str())),
            _ => None,
        }
    }
}

/// A declared asset whose source may be a pattern.
#[derive(Debug)]
pub struct UnresolvedAsset {
    pub source_path: String,
    pub target_path: String,
    pub chmod: u32,
    pub is_built: bool,
}

/// One file of the package.
#[derive(Debug)]
pub struct Asset {
    pub source: AssetSource,
    /// Where the file goes, below the root of the installed system.
    pub target_path: String,
    pub chmod: u32,
    /// The file comes out of the build.
    pub is_built: bool,
}

/// The name of the file of a source that is a path.
pub open spec fn source_file_name(source: AssetSource) -> Option<Seq<char>> {
    match source {
        AssetSource::Path(p) => file_name(p@),
        AssetSource::Data(_) => None,
    }
}

/// Where an asset goes that was declared for `target`: a target that ends in
/// a slash names a directory, and the file keeps its own name in it; a rooted
/// target is taken from the root.
pub open spec fn placed(name: Option<Seq<char>>, target: Seq<char>) -> Seq<char> {
    let full = if has_suffix(target, seq!['/']) {
        path_join(target, name->0)
    } else {
        target
    };
    if is_rooted(full) {
        joined(components(full))
    } else {
        full
    }
}

impl Asset {
    pub fn new(source: AssetSource, target_path: String, chmod: u32, is_built: bool) -> (r: Self)
        requires
            has_suffix(target_path@, seq!['/']) ==> source_file_name(source) is Some,
        ensures
            r.source == source,
            r.target_path@ == placed(source_file_name(source), target_path@),
            r.chmod == chmod,
            r.is_built == is_built,
    {
        let t = chars_of(target_path.as_str());
        let mut slash: Vec<char> = Vec::new();
        slash.push('/');
        assert(slash@ =~= seq!['/']);
        let mut full = target_path;
        if ends_with(&t, &slash) {
            let name = match &source {
                AssetSource::Path(p) => match last_component(p.as_str()) {
                    Some(n) => n,
                    None => String::new(),
                },
                AssetSource::Data(_) => String::new(),
            };
            full = join_path(full.as_str(), name.as_str());
        }
        let f = chars_of(full.as_str());
        if rooted(&f) {
            let comps = components_of(&f);
            full = string_of(&join(&comps, &slash));
        }
        Self { source, target_path: full, chmod, is_built }
    }

    /// Makes an asset as `new` does, or nothing where the target is a
    /// directory and the source has no file name to go by.
    pub fn checked(source: AssetSource, target_path: String, chmod: u32, is_built: bool) -> (r:
        Option<Self>)
        ensures
            match r {
                Some(a) => {
                    &&& !(has_suffix(target_path@, seq!['/']) && source_file_name(source) is None)
                    &&& a.source == source
                    &&& a.target_path@ == placed(source_file_name(source), target_path@)
                    &&& a.chmod == chmod
                    &&& a.is_built == is_built
                },
                None => has_suffix(target_path@, seq!['/']) && source_file_name(source) is None,
            },
    {
        let t = chars_of(target_path.as_str());
        let mut slash: Vec<char> = Vec::new();
        slash.push('/');
        assert(slash@ =~= seq!['/']);
        let named = match &source {
            AssetSource::Path(p) => last_component(p.as_str()).is_some(),
            AssetSource::Data(_) => false,
        };
        if ends_with(&t, &slash) && !named {
            None
        } else {
            Some(Self::new(source, target_path, chmod, is_built))
        }
    }

    /// Someone may run the file.
    pub open spec fn executable(&self) -> bool {
        self.chmod & 0o111 != 0
    }

    pub fn is_executable(&self) -> (b: bool)
        ensures
            b == self.executable(),
    {
        0 != (self.chmod & 0o111)
    }

    /// The file is a shared library by its name.
    pub open spec fn dynamic_library(&self) -> bool {
        file_name(self.target_path@) matches Some(f) && has_suffix(f, ".so"@)
    }

    pub fn is_dynamic_library(&self) -> (b: bool)
        ensures
            b == self.dynamic_library(),
    {
        match last_component(self.target_path.as_str()) {
            Some(f) => {
                let name = chars_of(f.as_str());
                let so = chars_of(".so");
                ends_with(&name, &so)
            },
            None => false,
        }
    }

    /// Where the debug symbols of the target go.
    pub open spec fn debug_place(target: Seq<char>) -> Seq<char> {
        let relative = if is_rooted(target) {
            joined(components(target))
        } else {
            target
        };
        debug_name(path_join("/usr/lib/debug"@, relative))
    }

    /// Returns the target path for the debug symbol file, which will be
    /// /usr/lib/debug/<path-to-executable>.debug
    pub fn debug_target(&self) -> (r: Option<String>)
        ensures
            match r {
                Some(d) => self.is_built && d@ == Self::debug_place(self.target_path@),
                None => !self.is_built,
            },
    {
        if self.is_built {
            let t = chars_of(self.target_path.as_str());
            let relative = if rooted(&t) {
                let mut slash: Vec<char> = Vec::new();
                slash.push('/');
                assert(slash@ =~= seq!['/']);
                let comps = components_of(&t);
                string_of(&join(&comps, &slash))
            } else {
                string_of(&t)
            };
            let debug_path = join_path("/usr/lib/debug", relative.as_str());
            Some(debug_filename(debug_path.as_str()))
        } else {
            None
        }
    }
}

// ---------------------------------------------------------------------------
// From declared assets to files
// ---------------------------------------------------------------------------

/// `s` holds a character that makes a pattern of a path: one of `*`, `?`,
/// `[`, `]` and `!`.
pub open spec fn has_glob(s: Seq<char>) -> bool {
    s.contains('*') || s.contains('?') || s.contains('[') || s.contains(']') || s.contains('!')
}

pub fn is_glob_pattern(s: &str) -> (b: bool)
    ensures
        b == has_glob(s@),
{
    let v = chars_of(s);
    glob_in(&v)
}

fn glob_in(v: &Vec<char>) -> (b: bool)
    ensures
        b == has_glob(v@),
{
    contains_char(v, '*') || contains_char(v, '?') || contains_char(v, '[') || contains_char(
        v,
        ']',
    ) || contains_char(v, '!')
}

/// The components in front of the first one that is a pattern.
pub open spec fn leading_plain(comps: Seq<Seq<char>>) -> Seq<Seq<char>>
    decreases comps.len(),
{
    if comps.len() == 0 || has_glob(comps[0]) {
        Seq::empty()
    } else {
        seq![comps[0]] + leading_plain(comps.skip(1))
    }
}

/// The part of a pattern in front of its first component that is a pattern:
/// the directory that every match lies in.
pub open spec fn glob_prefix(pattern: Seq<char>) -> Seq<char> {
    let plain = joined(leading_plain(components(pattern)));
    if is_rooted(pattern) {
        seq!['/'] + plain
    } else {
        plain
    }
}

pub fn glob_prefix_of(pattern: &str) -> (r: String)
    ensures
        r@ == glob_prefix(pattern@),
{
    let p = chars_of(pattern);
    let comps = components_of(&p);
    let ghost all = views(comps@);
    let mut plain: Vec<Vec<char>> = Vec::new();
    let mut i: usize = 0;
    assert(all.skip(0) == all);
    assert(views(plain@) + leading_plain(all.skip(0)) =~= leading_plain(all));
    while i < comps.len() && !glob_in(&comps[i])
        invariant
            i <= comps.len(),
            all == views(comps@),
            views(plain@) + leading_plain(all.skip(i as int)) == leading_plain(all),
        decreases comps.len() - i,
    {
        let ghost before = views(plain@);
        let ghost rest = all.skip(i as int);
        assert(rest[0] == comps@[i as int]@);
        assert(rest.skip(1) == all.skip(i + 1));
        plain.push(copy_of(&comps[i]));
        assert(views(plain@) =~= before.push(comps@[i as int]@));
        assert(before + (seq![rest[0]] + leading_plain(rest.skip(1))) =~= before.push(rest[0])
            + leading_plain(rest.skip(1)));
        i += 1;
    }
    proof {
        let rest = all.skip(i as int);
        if i < comps.len() {
            assert(rest[0] == comps@[i as int]@);
        }
        assert(leading_plain(rest) =~= Seq::<Seq<char>>::empty());
        assert(views(plain@) + Seq::<Seq<char>>::empty() =~= views(plain@));
    }
    let mut slash: Vec<char> = Vec::new();
    slash.push('/');
    assert(slash@ =~= seq!['/']);
    let body = join(&plain, &slash);
    let mut out: Vec<char> = Vec::new();
    if rooted(&p) {
        out.push('/');
    }
    append_copy(&mut out, &body);
    assert(out@ =~= glob_prefix(pattern@));
    string_of(&out)
}

/// A path that a pattern matched.
#[derive(Debug)]
pub struct GlobMatch {
    pub path: String,
    pub is_dir: bool,
}

/// The matches that are no directories, in their order.
pub open spec fn matched_files(ms: Seq<GlobMatch>) -> Seq<Seq<char>>
    decreases ms.len(),
{
    if ms.len() == 0 {
        Seq::empty()
    } else if ms.last().is_dir {
        matched_files(ms.drop_last())
    } else {
        matched_files(ms.drop_last()).push(ms.last().path@)
    }
}

/// Where the file that matched the declared asset goes. A file that a
/// pattern matched keeps the path that it has below the pattern's directory;
/// a file that was named itself goes to the declared target. Nothing where
/// the file does not lie in the pattern's directory, or where it has no name
/// to give to a target that is a directory.
pub open spec fn resolved_target(decl: UnresolvedAsset, file: Seq<char>) -> Option<Seq<char>> {
    let target = if has_glob(decl.source_path@) {
        match path_below(file, glob_prefix(decl.source_path@)) {
            Some(rest) => Some(path_join(decl.target_path@, rest)),
            None => None,
        }
    } else {
        Some(decl.target_path@)
    };
    match target {
        Some(t) => if has_suffix(t, seq!['/']) && file_name(file) is None {
            None
        } else {
            Some(placed(file_name(file), t))
        },
        None => None,
    }
}

/// `asset` is the file `file` as the declaration asks for it.
pub open spec fn resolves(decl: UnresolvedAsset, file: Seq<char>, asset: Asset) -> bool {
    &&& asset.source matches AssetSource::Path(p) && p@ == file
    &&& resolved_target(decl, file) == Some(asset.target_path@)
    &&& asset.chmod == decl.chmod
    &&& asset.is_built == decl.is_built
}

/// Every match that is a file can be placed.
pub open spec fn all_placeable(decl: UnresolvedAsset, files: Seq<Seq<char>>) -> bool {
    forall|i: int| 0 <= i < files.len() ==> resolved_target(decl, #[trigger] files[i]) is Some
}

/// Turns a declared asset and the paths that its source matched into the
/// files of the package: one for every match that is no directory, in the
/// order of the matches.
///
/// A declaration that matched no file fails with `AssetFileNotFound`.
pub fn resolve_asset(decl: &UnresolvedAsset, matches: &Vec<GlobMatch>) -> (r: CDResult<
    Vec<Asset>,
>)
    ensures
        match r {
            Ok(assets) => {
                &&& matched_files(matches@).len() > 0
                &&& assets@.len() == matched_files(matches@).len()
                &&& forall|i: int|
                    0 <= i < assets@.len() ==> resolves(
                        *decl,
                        matched_files(matches@)[i],
                        #[trigger] assets@[i],
                    )
            },
            Err(e) => if matched_files(matches@).len() == 0 {
                e matches CargoDebError::AssetFileNotFound(p) && p@ == decl.source_path@
            } else {
                !all_placeable(*decl, matched_files(matches@)) && e is Str
            },
        },
        all_placeable(*decl, matched_files(matches@)) && matched_files(matches@).len() > 0
            ==> r is Ok,
{
    let source_prefix = glob_prefix_of(decl.source_path.as_str());
    let source_is_glob = is_glob_pattern(decl.source_path.as_str());
    let mut out: Vec<Asset> = Vec::new();
    let ghost all = matched_files(matches@);
    let mut i: usize = 0;
    assert(matches@.take(0) =~= Seq::<GlobMatch>::empty());
    while i < matches.len()
        invariant
            i <= matches.len(),
            all == matched_files(matches@),
            source_prefix@ == glob_prefix(decl.source_path@),
            source_is_glob == has_glob(decl.source_path@),
            out@.len() == matched_files(matches@.take(i as int)).len(),
            forall|j: int|
                0 <= j < out@.len() ==> resolves(
                    *decl,
                    matched_files(matches@.take(i as int))[j],
                    #[trigger] out@[j],
                ),
            matched_files(matches@.take(i as int)).len() <= all.len(),
            all.take(matched_files(matches@.take(i as int)).len() as int) == matched_files(
                matches@.take(i as int),
            ),
        decreases matches.len() - i,
    {
        let ghost seen = matched_files(matches@.take(i as int));
        proof {
            let next = matches@.take(i + 1);
            assert(next.drop_last() == matches@.take(i as int));
            assert(next.last() == matches@[i as int]);
            lemma_matched_files_prefix(matches@, i + 1);
        }
        if !matches[i].is_dir {
            let file = &matches[i].path;
            let ghost now = matched_files(matches@.take(i + 1));
            assert(now == seen.push(file@));
            assert(all[seen.len() as int] == file@) by {
                assert(all.take(now.len() as int)[seen.len() as int] == now[seen.len() as int]);
            }
            let target_file = if source_is_glob {
                match strip_prefix(file.as_str(), source_prefix.as_str()) {
                    Some(rest) => join_path(decl.target_path.as_str(), rest.as_str()),
                    None => {
                        return Err(CargoDebError::Str("asset lies outside of its pattern"));
                    },
                }
            } else {
                decl.target_path.clone()
            };
            let t = chars_of(target_file.as_str());
            let mut slash: Vec<char> = Vec::new();
            slash.push('/');
            assert(slash@ =~= seq!['/']);
            if ends_with(&t, &slash) && last_component(file.as_str()).is_none() {
                return Err(CargoDebError::Str("source must be a file"));
            }
            let asset = Asset::new(
                AssetSource::Path(file.clone()),
                target_file,
                decl.chmod,
                decl.is_built,
            );
            let ghost before = out@;
            out.push(asset);
            assert forall|j: int| 0 <= j < out@.len() implies resolves(
                *decl,
                now[j],
                #[trigger] out@[j],
            ) by {
                if j < before.len() {
                    assert(out@[j] == before[j]);
                    assert(now[j] == seen[j]);
                }
            }
        }
        i += 1;
    }
    assert(matches@.take(matches.len() as int) == matches@);
    // If the pattern matched nothing, it is likely an error, as all files
    // should exist when the assets are resolved.
    if out.len() == 0 {
        return Err(CargoDebError::AssetFileNotFound(decl.source_path.clone()));
    }
    Ok(out)
}

proof fn lemma_matched_files_prefix(ms: Seq<GlobMatch>, n: int)
    requires
        0 <= n <= ms.len(),
    ensures
        matched_files(ms.take(n)).len() <= matched_files(ms).len(),
        matched_files(ms).take(matched_files(ms.take(n)).len() as int) == matched_files(
            ms.take(n),
        ),
    decreases ms.len(),
{
    if n == ms.len() {
        assert(ms.take(n) == ms);
        assert(matched_files(ms).take(matched_files(ms).len() as int) == matched_files(ms));
    } else {
        assert(ms.drop_last().take(n) == ms.take(n));
        lemma_matched_files_prefix(ms.drop_last(), n);
        let a = matched_files(ms.take(n));
        assert(matched_files(ms).take(a.len() as int) =~= matched_files(ms.drop_last()).take(
            a.len() as int,
        ));
    }
}

/// Resolving gives one asset for every match that is a file, and the targets
/// depend on nothing but the declaration and the matches: what two runs over
/// the same matches return has the same targets in the same order.
pub proof fn lemma_resolve_is_determined(
    decl: UnresolvedAsset,
    matches: Seq<GlobMatch>,
    first: Seq<Asset>,
    second: Seq<Asset>,
)
    requires
        first.len() == matched_files(matches).len(),
        second.len() == matched_files(matches).len(),
        forall|i: int|
            0 <= i < first.len() ==> resolves(decl, matched_files(matches)[i], #[trigger] first[i]),
        forall|i: int|
            0 <= i < second.len() ==> resolves(
                decl,
                matched_files(matches)[i],
                #[trigger] second[i],
            ),
    ensures
        first.len() == second.len(),
        forall|i: int|
            0 <= i < first.len() ==> (#[trigger] first[i]).target_path@ == second[i].target_path@,
{
    assert forall|i: int| 0 <= i < first.len() implies (#[trigger] first[i]).target_path@
        == second[i].target_path@ by {
        assert(resolves(decl, matched_files(matches)[i], first[i]));
        assert(resolves(decl, matched_files(matches)[i], second[i]));
    }
}

// ---------------------------------------------------------------------------
// The configuration of a package
// ---------------------------------------------------------------------------

/// The assets of a package: those that are declared and wait for the build,
/// and those that are files already.
#[derive(Debug)]
pub struct Assets {
    pub unresolved: Vec<UnresolvedAsset>,
    pub resolved: Vec<Asset>,
}

impl Assets {
    pub fn new() -> (r: Assets)
        ensures
            r.unresolved@.len() == 0,
            r.resolved@.len() == 0,
    {
        Assets { unresolved: Vec::new(), resolved: Vec::new() }
    }

    pub fn with_resolved_assets(assets: Vec<Asset>) -> (r: Assets)
        ensures
            r.unresolved@.len() == 0,
            r.resolved == assets,
    {
        Assets { unresolved: Vec::new(), resolved: assets }
    }

    pub fn with_unresolved_assets(assets: Vec<UnresolvedAsset>) -> (r: Assets)
        ensures
            r.unresolved == assets,
            r.resolved@.len() == 0,
    {
        Assets { unresolved: assets, resolved: Vec::new() }
    }

    pub fn is_empty(&self) -> (b: bool)
        ensures
            b == (self.unresolved@.len() == 0 && self.resolved@.len() == 0),
    {
        self.unresolved.len() == 0 && self.resolved.len() == 0
    }
}

/// How the units of the package are to be treated by the maintainer scripts.
#[derive(Debug, Default)]
pub struct SystemdUnitsConfig {
    pub unit_scripts: Option<String>,
    pub unit_name: Option<String>,
    pub enable: Option<bool>,
    pub start: Option<bool>,
    pub restart_after_upgrade: Option<bool>,
    pub stop_on_upgrade: Option<bool>,
}

/// All that is known of a package before it is assembled.
#[derive(Debug)]
pub struct Config {
    /// Root directory where `Cargo.toml` is located. It's a subdirectory in workspaces.
    pub manifest_dir: String,
    /// User-configured output path for *.deb
    pub deb_output_path: Option<String>,
    /// Triple. `None` means current machine architecture.
    pub target: Option<String>,
    /// `CARGO_TARGET_DIR`
    pub target_dir: String,
    /// The name of the project to build
    pub name: String,
    /// The name to give the Debian package; usually the same as the Cargo project name
    pub deb_name: String,
    /// The version to give the Debian package; usually the same as the Cargo version
    pub deb_version: String,
    /// The software license of the project (SPDX format).
    pub license: Option<String>,
    /// The location of the license file
    pub license_file: Option<String>,
    /// number of lines to skip when reading `license_file`
    pub license_file_skip_lines: usize,
    /// The copyright of the project
    /// (Debian's `copyright` file contents).
    pub copyright: String,
    pub changelog: Option<String>,
    /// The homepage URL of the project.
    pub homepage: Option<String>,
    /// Documentation URL from `Cargo.toml`. Fallback if `homepage` is missing.
    pub documentation: Option<String>,
    /// The URL of the software repository.
    pub repository: Option<String>,
    /// A short description of the project.
    pub description: String,
    /// An extended description of the project.
    pub extended_description: Option<String>,
    /// The maintainer of the Debian package.
    /// In Debian `control` file `Maintainer` field format.
    pub maintainer: String,
    /// The Debian dependencies required to run the project.
    pub depends: String,
    /// The Debian packages needed to build the project.
    pub build_depends: Option<String>,
    /// The Debian software category to which the package belongs.
    pub section: Option<String>,
    /// The Debian priority of the project. Typically 'optional'.
    pub priority: String,
    /// `Conflicts` Debian control field.
    pub conflicts: Option<String>,
    /// `Breaks` Debian control field.
    pub breaks: Option<String>,
    /// `Replaces` Debian control field.
    pub replaces: Option<String>,
    /// `Provides` Debian control field.
    pub provides: Option<String>,
    /// The Debian architecture of the target system.
    pub architecture: String,
    /// A list of configuration files installed by the package.
    pub conf_files: Option<String>,
    /// All of the files that are to be packaged.
    pub assets: Assets,
    /// The location of the triggers file
    pub triggers_file: Option<String>,
    /// The path were possible maintainer scripts live
    pub maintainer_scripts: Option<String>,
    /// List of Cargo features to use during build
    pub features: Vec<String>,
    pub default_features: bool,
    /// Should the binary be stripped from debug symbols?
    pub strip: bool,
    /// Should the debug symbols be moved to a separate file included in the package? (implies `strip:true`)
    pub separate_debug_symbols: bool,
    /// Should symlinks be preserved in the assets
    pub preserve_symlinks: bool,
    /// Details of how to install any systemd units
    pub systemd_units: Option<SystemdUnitsConfig>,
    /// The character between the parts of the name of the package file.
    pub deb_name_separator: Option<char>,
}

/// The kind of source control that a repository URL points to.
pub open spec fn repository_kind(repo: Seq<char>) -> Option<Seq<char>> {
    if has_prefix(repo, "git+"@) || has_suffix(repo, ".git"@) || contains_text(repo, "git@"@)
        || contains_text(repo, "github.com"@) || contains_text(repo, "gitlab.com"@) {
        Some("Git"@)
    } else if has_prefix(repo, "cvs+"@) || contains_text(repo, "pserver:"@) || contains_text(
        repo,
        "@cvs."@,
    ) {
        Some("Cvs"@)
    } else if has_prefix(repo, "hg+"@) || contains_text(repo, "hg@"@) || contains_text(
        repo,
        "/hg."@,
    ) {
        Some("Hg"@)
    } else if has_prefix(repo, "svn+"@) || contains_text(repo, "/svn."@) {
        Some("Svn"@)
    } else {
        None
    }
}

fn begins(s: &Vec<char>, lit: &str) -> (b: bool)
    ensures
        b == has_prefix(s@, lit@),
{
    starts_with(s, &chars_of(lit))
}

fn ends(s: &Vec<char>, lit: &str) -> (b: bool)
    ensures
        b == has_suffix(s@, lit@),
{
    ends_with(s, &chars_of(lit))
}

fn holds(s: &Vec<char>, lit: &str) -> (b: bool)
    ensures
        b == contains_text(s@, lit@),
{
    contains(s, &chars_of(lit))
}

/// Whether an asset counts as a binary: it is executable or a shared
/// library, and comes out of the build where only such are asked for.
pub open spec fn is_binary(asset: Asset, built_only: bool) -> bool {
    (!built_only || asset.is_built) && (asset.dynamic_library() || asset.executable())
}

/// The places of the binaries among `assets`, in rising order.
pub open spec fn binary_places(assets: Seq<Asset>, built_only: bool) -> Seq<int>
    decreases assets.len(),
{
    if assets.len() == 0 {
        Seq::empty()
    } else if is_binary(assets.last(), built_only) {
        binary_places(assets.drop_last(), built_only).push(assets.len() - 1)
    } else {
        binary_places(assets.drop_last(), built_only)
    }
}

impl Config {
    /// The resolved assets that are binaries, by their places.
    pub fn binaries(&self, built_only: bool) -> (r: Vec<usize>)
        ensures
            r@.len() == binary_places(self.assets.resolved@, built_only).len(),
            forall|i: int|
                0 <= i < r@.len() ==> (#[trigger] r@[i]) as int == binary_places(
                    self.assets.resolved@,
                    built_only,
                )[i] && r@[i] < self.assets.resolved@.len(),
    {
        let assets = &self.assets.resolved;
        let mut out: Vec<usize> = Vec::new();
        let mut i: usize = 0;
        assert(assets@.take(0) =~= Seq::<Asset>::empty());
        while i < assets.len()
            invariant
                i <= assets.len(),
                out@.len() == binary_places(assets@.take(i as int), built_only).len(),
                forall|j: int|
                    0 <= j < out@.len() ==> (#[trigger] out@[j]) as int == binary_places(
                        assets@.take(i as int),
                        built_only,
                    )[j] && out@[j] < i,
            decreases assets.len() - i,
        {
            proof {
                let next = assets@.take(i + 1);
                assert(next.drop_last() == assets@.take(i as int));
                assert(next.last() == assets@[i as int]);
            }
            let asset = &assets[i];
            // Assumes files in build dir which have executable flag set are binaries
            if (!built_only || asset.is_built) && (asset.is_dynamic_library()
                || asset.is_executable()) {
                out.push(i);
            }
            i += 1;
        }
        assert(assets@.take(assets.len() as int) == assets@);
        out
    }

    /// Executables AND dynamic libraries, but only in `target/release`
    pub fn built_binaries(&self) -> (r: Vec<usize>)
        ensures
            r@.len() == binary_places(self.assets.resolved@, true).len(),
            forall|i: int|
                0 <= i < r@.len() ==> (#[trigger] r@[i]) as int == binary_places(
                    self.assets.resolved@,
                    true,
                )[i] && r@[i] < self.assets.resolved@.len(),
    {
        self.binaries(true)
    }

    /// Executables AND dynamic libraries
    pub fn all_binaries(&self) -> (r: Vec<usize>)
        ensures
            r@.len() == binary_places(self.assets.resolved@, false).len(),
            forall|i: int|
                0 <= i < r@.len() ==> (#[trigger] r@[i]) as int == binary_places(
                    self.assets.resolved@,
                    false,
                )[i] && r@[i] < self.assets.resolved@.len(),
    {
        self.binaries(false)
    }

    /// Tries to guess type of source control used for the repo URL.
    /// It's a guess, and it won't be 100% accurate, because Cargo suggests using
    /// user-friendly URLs or webpages instead of tool-specific URL schemes.
    pub fn repository_type(&self) -> (r: Option<&'static str>)
        ensures
            match self.repository {
                Some(repo) => match repository_kind(repo@) {
                    Some(k) => r matches Some(s) && s@ == k,
                    None => r is None,
                },
                None => r is None,
            },
    {
        match &self.repository {
            Some(repo) => {
                let r = chars_of(repo.as_str());
                if begins(&r, "git+") || ends(&r, ".git") || holds(&r, "git@") || holds(
                    &r,
                    "github.com",
                ) || holds(&r, "gitlab.com") {
                    return Some("Git");
                }
                if begins(&r, "cvs+") || holds(&r, "pserver:") || holds(&r, "@cvs.") {
                    return Some("Cvs");
                }
                if begins(&r, "hg+") || holds(&r, "hg@") || holds(&r, "/hg.") {
                    return Some("Hg");
                }
                if begins(&r, "svn+") || holds(&r, "/svn.") {
                    return Some("Svn");
                }
                None
            },
            None => None,
        }
    }

    /// The path of `rel_path` in the directory of the release build.
    pub fn path_in_build(&self, rel_path: &str) -> (r: String)
        ensures
            r@ == path_join(path_join(self.target_dir@, "release"@), rel_path@),
    {
        join_path(join_path(self.target_dir.as_str(), "release").as_str(), rel_path)
    }

    /// The path of `rel_path` in the directory of the manifest.
    pub fn path_in_workspace(&self, rel_path: &str) -> (r: String)
        ensures
            r@ == path_join(self.manifest_dir@, rel_path@),
    {
        join_path(self.manifest_dir.as_str(), rel_path)
    }

    /// Store intermediate files here
    pub fn deb_temp_dir(&self) -> (r: String)
        ensures
            r@ == path_join(self.target_dir@, "debian"@),
    {
        join_path(self.target_dir.as_str(), "debian")
    }

    /// Takes every declared asset with the paths that its source matched and
    /// puts the files it stands for behind the resolved assets. `matches`
    /// holds the matches of each declared asset, in the order of the
    /// declarations. Afterwards no declared asset is left.
    ///
    /// Fails on the first declared asset that matched no file, or whose
    /// matches cannot be placed, with the error of that declaration; the
    /// files of the declarations before it are resolved then. On success
    /// there is one more resolved asset for every file matched.
    pub fn resolve_assets(&mut self, matches: &Vec<Vec<GlobMatch>>) -> (r: CDResult<()>)
        requires
            matches@.len() == old(self).assets.unresolved@.len(),
        ensures
            final(self).assets.unresolved@.len() == 0,
            r is Ok <==> all_resolvable(old(self).assets.unresolved@, matches@),
            r is Ok ==> final(self).assets.resolved@.take(old(self).assets.resolved@.len() as int)
                == old(self).assets.resolved@ && resolved_upto(
                old(self).assets.unresolved@,
                matches@,
                matches@.len() as int,
                final(self).assets.resolved@.skip(old(self).assets.resolved@.len() as int),
            ),
            r is Ok ==> final(self).assets.resolved@.len() == old(self).assets.resolved@.len()
                + files_upto(matches@, matches@.len() as int),
            r matches Err(e) ==> exists|i: int| #[trigger]
                fails_first_at(old(self).assets.unresolved@, matches@, i, e) && resolved_upto(
                    old(self).assets.unresolved@,
                    matches@,
                    i,
                    final(self).assets.resolved@.skip(old(self).assets.resolved@.len() as int),
                ),
            final(self).assets.resolved@.len() >= old(self).assets.resolved@.len(),
            final(self).assets.resolved@.take(old(self).assets.resolved@.len() as int) == old(
                self,
            ).assets.resolved@,
    {
        let mut unresolved: Vec<UnresolvedAsset> = Vec::new();
        std::mem::swap(&mut unresolved, &mut self.assets.unresolved);
        let ghost decls = unresolved@;
        let ghost before = self.assets.resolved@;
        let mut i: usize = 0;
        assert(self.assets.resolved@.skip(before.len() as int) =~= Seq::<Asset>::empty());
        assert(self.assets.resolved@.take(before.len() as int) =~= before);
        while i < unresolved.len()
            invariant
                i <= unresolved.len(),
                unresolved@ == decls,
                decls == old(self).assets.unresolved@,
                before == old(self).assets.resolved@,
                decls.len() == matches@.len(),
                self.assets.unresolved@.len() == 0,
                before.len() <= self.assets.resolved@.len(),
                self.assets.resolved@.take(before.len() as int) == before,
                resolved_upto(
                    decls,
                    matches@,
                    i as int,
                    self.assets.resolved@.skip(before.len() as int),
                ),
                forall|j: int|
                    0 <= j < i ==> matched_files(#[trigger] matches@[j]@).len() > 0
                        && all_placeable(decls[j], matched_files(matches@[j]@)),
            decreases unresolved.len() - i,
        {
            let ghost added = self.assets.resolved@.skip(before.len() as int);
            let ghost sofar = self.assets.resolved@;
            match resolve_asset(&unresolved[i], &matches[i]) {
                Ok(mut found) => {
                    let ghost new = found@;
                    self.assets.resolved.append(&mut found);
                    proof {
                        let files = matched_files(matches@[i as int]@);
                        let now = self.assets.resolved@.skip(before.len() as int);
                        assert(self.assets.resolved@ == sofar + new);
                        assert(now =~= added + new);
                        assert(now.take(now.len() - files.len()) =~= added);
                        assert(self.assets.resolved@.take(before.len() as int) =~= before);
                        assert forall|j: int| 0 <= j < files.len() implies resolves(
                            decls[i as int],
                            files[j],
                            #[trigger] now[now.len() - files.len() + j],
                        ) by {
                            assert(now[now.len() - files.len() + j] == new[j]);
                        }
                        assert forall|j: int| 0 <= j < new.len() implies resolved_target(
                            decls[i as int],
                            #[trigger] files[j],
                        ) is Some by {
                            assert(resolves(decls[i as int], files[j], new[j]));
                        }
                    }
                },
                Err(e) => {
                    assert(resolve_failure(decls[i as int], matches@[i as int]@, e));
                    assert(fails_first_at(decls, matches@, i as int, e));
                    assert(!(matched_files(matches@[i as int]@).len() > 0 && all_placeable(
                        decls[i as int],
                        matched_files(matches@[i as int]@),
                    )));
                    return Err(e);
                },
            }
            i += 1;
        }
        proof {
            lemma_one_asset_per_match(
                decls,
                matches@,
                matches@.len() as int,
                self.assets.resolved@.skip(before.len() as int),
            );
        }
        Ok(())
    }
}

/// Why a declared asset cannot be resolved, said by the error `e`: it
/// matched no file, or a match cannot be placed.
pub open spec fn resolve_failure(decl: UnresolvedAsset, matches: Seq<GlobMatch>, e: CargoDebError) -> bool {
    if matched_files(matches).len() == 0 {
        e matches CargoDebError::AssetFileNotFound(p) && p@ == decl.source_path@
    } else {
        !all_placeable(decl, matched_files(matches)) && e is Str
    }
}

/// Every declared asset matched a file, and every match can be placed.
pub open spec fn all_resolvable(decls: Seq<UnresolvedAsset>, matches: Seq<Vec<GlobMatch>>) -> bool {
    forall|i: int|
        0 <= i < matches.len() ==> matched_files(#[trigger] matches[i]@).len() > 0
            && all_placeable(decls[i], matched_files(matches[i]@))
}

/// The declaration at `i` is the first that cannot be resolved, and `e`
/// says why.
pub open spec fn fails_first_at(
    decls: Seq<UnresolvedAsset>,
    matches: Seq<Vec<GlobMatch>>,
    i: int,
    e: CargoDebError,
) -> bool {
    &&& 0 <= i < matches.len()
    &&& forall|j: int|
        0 <= j < i ==> matched_files(#[trigger] matches[j]@).len() > 0 && all_placeable(
            decls[j],
            matched_files(matches[j]@),
        )
    &&& resolve_failure(decls[i], matches[i]@, e)
}

/// The number of files that the first `n` declarations matched.
pub open spec fn files_upto(matches: Seq<Vec<GlobMatch>>, n: int) -> int
    decreases n,
{
    if n <= 0 {
        0
    } else {
        files_upto(matches, n - 1) + matched_files(matches[n - 1]@).len()
    }
}

/// The matched files are what listing a pattern gives: each has a name, and
/// each match of a pattern lies below the pattern's directory.
pub open spec fn listed_for(decl: UnresolvedAsset, files: Seq<Seq<char>>) -> bool {
    forall|i: int|
        0 <= i < files.len() ==> file_name(#[trigger] files[i]) is Some && (has_glob(
            decl.source_path@,
        ) ==> path_below(files[i], glob_prefix(decl.source_path@)) is Some)
}

/// Every file of a listing can be placed.
pub proof fn lemma_listing_is_placeable(decl: UnresolvedAsset, files: Seq<Seq<char>>)
    requires
        listed_for(decl, files),
    ensures
        all_placeable(decl, files),
{
    assert forall|i: int| 0 <= i < files.len() implies resolved_target(
        decl,
        #[trigger] files[i],
    ) is Some by {
        assert(file_name(files[i]) is Some);
    }
}

/// Resolving gives one asset for each file that a declaration matched:
/// where `added` holds the assets of the first `n` declarations, it has as
/// many assets as those declarations matched files, and the asset for match
/// `j` of declaration `i` stands behind those of the declarations before
/// it, with the matched file as its source and the mode and the origin of
/// the declaration.
pub proof fn lemma_one_asset_per_match(
    decls: Seq<UnresolvedAsset>,
    matches: Seq<Vec<GlobMatch>>,
    n: int,
    added: Seq<Asset>,
)
    requires
        0 <= n <= matches.len(),
        decls.len() == matches.len(),
        resolved_upto(decls, matches, n, added),
    ensures
        added.len() == files_upto(matches, n),
        forall|i: int, j: int|
            0 <= i < n && 0 <= j < matched_files(matches[i]@).len() ==> 0 <= #[trigger] (
            files_upto(matches, i) + j) < added.len() && resolves(
                decls[i],
                matched_files(matches[i]@)[j],
                added[files_upto(matches, i) + j],
            ),
    decreases n,
{
    if n > 0 {
        let files = matched_files(matches[n - 1]@);
        let rest = added.take(added.len() - files.len());
        lemma_one_asset_per_match(decls, matches, n - 1, rest);
        lemma_files_upto_rises(matches, n);
        assert forall|i: int, j: int|
            0 <= i < n && 0 <= j < matched_files(matches[i]@).len() implies 0 <= #[trigger] (
        files_upto(matches, i) + j) < added.len() && resolves(
            decls[i],
            matched_files(matches[i]@)[j],
            added[files_upto(matches, i) + j],
        ) by {
            if i < n - 1 {
                assert(0 <= files_upto(matches, i) + j < rest.len());
                assert(rest[files_upto(matches, i) + j] == added[files_upto(matches, i) + j]);
            } else {
                assert(resolves(decls[n - 1], files[j], added[added.len() - files.len() + j]));
            }
        }
    }
}

proof fn lemma_files_upto_rises(matches: Seq<Vec<GlobMatch>>, n: int)
    ensures
        files_upto(matches, n) >= 0,
        forall|i: int| 0 <= i <= n ==> #[trigger] files_upto(matches, i) <= files_upto(matches, n),
    decreases n,
{
    if n > 0 {
        lemma_files_upto_rises(matches, n - 1);
    }
}

/// Both assets are the file at the same path.
pub open spec fn same_source(a: Asset, b: Asset) -> bool {
    a.source matches AssetSource::Path(p) && (b.source matches AssetSource::Path(q) && p@ == q@)
}

/// Two runs over the same declarations and the same matches give the same
/// assets in the same order: as many, and each with the same source, the
/// same place, the same mode and the same origin.
pub proof fn lemma_resolving_is_determined(
    decls: Seq<UnresolvedAsset>,
    matches: Seq<Vec<GlobMatch>>,
    n: int,
    first: Seq<Asset>,
    second: Seq<Asset>,
)
    requires
        0 <= n <= matches.len(),
        decls.len() == matches.len(),
        resolved_upto(decls, matches, n, first),
        resolved_upto(decls, matches, n, second),
    ensures
        first.len() == second.len(),
        forall|k: int|
            0 <= k < first.len() ==> (#[trigger] first[k]).target_path@ == second[k].target_path@
                && same_source(first[k], second[k]) && first[k].chmod == second[k].chmod
                && first[k].is_built == second[k].is_built,
    decreases n,
{
    if n > 0 {
        let files = matched_files(matches[n - 1]@);
        let a = first.take(first.len() - files.len());
        let b = second.take(second.len() - files.len());
        lemma_resolving_is_determined(decls, matches, n - 1, a, b);
        assert forall|k: int| 0 <= k < first.len() implies (#[trigger] first[k]).target_path@
            == second[k].target_path@ && same_source(first[k], second[k]) && first[k].chmod
            == second[k].chmod && first[k].is_built == second[k].is_built by {
            if k < a.len() {
                assert(a[k] == first[k]);
                assert(b[k] == second[k]);
            } else {
                let j = k - a.len();
                assert(resolves(decls[n - 1], files[j], first[first.len() - files.len() + j]));
                assert(resolves(decls[n - 1], files[j], second[second.len() - files.len() + j]));
            }
        }
    }
}

/// `added` holds the assets for the matches of the first `n` declared
/// assets: those of the first declaration, then those of the second, and so
/// on, each in the order of its matches.
pub open spec fn resolved_upto(
    decls: Seq<UnresolvedAsset>,
    matches: Seq<Vec<GlobMatch>>,
    n: int,
    added: Seq<Asset>,
) -> bool
    decreases n,
{
    if n <= 0 {
        added.len() == 0
    } else {
        let files = matched_files(matches[n - 1]@);
        &&& files.len() <= added.len()
        &&& resolved_upto(decls, matches, n - 1, added.take(added.len() - files.len()))
        &&& forall|j: int|
            0 <= j < files.len() ==> resolves(
                decls[n - 1],
                files[j],
                #[trigger] added[added.len() - files.len() + j],
            )
    }
}

// ---------------------------------------------------------------------------
// Debug symbols
// ---------------------------------------------------------------------------

/// The asset has debug symbols to ship: it is a binary out of the build whose
/// source is a path, and the file with its symbols exists.
pub open spec fn has_debug_file(asset: Asset, files: &FileTree) -> bool {
    is_binary(asset, true) && (asset.source matches AssetSource::Path(p) && files.lookup(
        debug_name(p@),
    ) is Some)
}

/// The assets that have debug symbols to ship, in their order.
pub open spec fn with_debug_file(assets: Seq<Asset>, files: &FileTree) -> Seq<Asset>
    decreases assets.len(),
{
    if assets.len() == 0 {
        Seq::empty()
    } else if has_debug_file(assets.last(), files) {
        with_debug_file(assets.drop_last(), files).push(assets.last())
    } else {
        with_debug_file(assets.drop_last(), files)
    }
}

/// `symbols` is the asset for the debug symbols of `asset`.
pub open spec fn debug_asset_of(asset: Asset, symbols: Asset) -> bool {
    &&& asset.source matches AssetSource::Path(p) && (symbols.source matches AssetSource::Path(d)
        && d@ == debug_name(p@))
    &&& symbols.target_path@ == placed(None, Asset::debug_place(asset.target_path@))
    &&& symbols.chmod == 0o644
    &&& !symbols.is_built
}

proof fn lemma_debug_name_is_a_file(path: Seq<char>)
    ensures
        !has_suffix(debug_name(path), seq!['/']),
{
    reveal_strlit(".debug");
    let t = debug_name(path);
    assert(t.last() == 'g');
    if has_suffix(t, seq!['/']) {
        assert(t.subrange(t.len() - 1, t.len() as int)[0] == t[t.len() - 1]);
    }
}

impl Config {
    /// Puts an asset for the debug symbols of each built binary behind the
    /// resolved assets, where the file with the symbols exists in `files`.
    pub fn add_debug_assets(&mut self, files: &FileTree)
        ensures
            final(self).assets.resolved@.len() == old(self).assets.resolved@.len()
                + with_debug_file(old(self).assets.resolved@, files).len(),
            final(self).assets.resolved@.take(old(self).assets.resolved@.len() as int) == old(
                self,
            ).assets.resolved@,
            forall|j: int|
                0 <= j < with_debug_file(old(self).assets.resolved@, files).len()
                    ==> debug_asset_of(
                    with_debug_file(old(self).assets.resolved@, files)[j],
                    #[trigger] final(self).assets.resolved@[old(self).assets.resolved@.len() + j],
                ),
    {
        let ghost before = self.assets.resolved@;
        let mut assets_to_add: Vec<Asset> = Vec::new();
        let mut i: usize = 0;
        assert(before.take(0) =~= Seq::<Asset>::empty());
        while i < self.assets.resolved.len()
            invariant
                i <= self.assets.resolved.len(),
                *self == *old(self),
                before == self.assets.resolved@,
                assets_to_add@.len() == with_debug_file(before.take(i as int), files).len(),
                forall|j: int|
                    0 <= j < assets_to_add@.len() ==> debug_asset_of(
                        with_debug_file(before.take(i as int), files)[j],
                        #[trigger] assets_to_add@[j],
                    ),
            decreases self.assets.resolved.len() - i,
        {
            let asset = &self.assets.resolved[i];
            let ghost found = with_debug_file(before.take(i as int), files);
            proof {
                let next = before.take(i + 1);
                assert(next.drop_last() == before.take(i as int));
                assert(next.last() == before[i as int]);
            }
            if asset.is_built && (asset.is_dynamic_library() || asset.is_executable()) {
                match asset.source.debug_source() {
                    Some(debug_source) => {
                        if files.has_path(debug_source.as_str()) {
                            match asset.debug_target() {
                                Some(debug_target) => {
                                    proof {
                                        let rel = if is_rooted(asset.target_path@) {
                                            joined(components(asset.target_path@))
                                        } else {
                                            asset.target_path@
                                        };
                                        lemma_debug_name_is_a_file(
                                            path_join("/usr/lib/debug"@, rel),
                                        );
                                    }
                                    let symbols = Asset::new(
                                        AssetSource::Path(debug_source),
                                        debug_target,
                                        0o644,
                                        false,
                                    );
                                    let ghost done = assets_to_add@;
                                    assets_to_add.push(symbols);
                                    assert forall|j: int|
                                        0 <= j < assets_to_add@.len() implies debug_asset_of(
                                        with_debug_file(before.take(i + 1), files)[j],
                                        #[trigger] assets_to_add@[j],
                                    ) by {
                                        if j < done.len() {
                                            assert(assets_to_add@[j] == done[j]);
                                            assert(with_debug_file(before.take(i + 1), files)[j]
                                                == found[j]);
                                        }
                                    }
                                },
                                None => {},
                            }
                        }
                    },
                    None => {},
                }
            }
            i += 1;
        }
        assert(before.take(self.assets.resolved.len() as int) == before);
        let ghost added = assets_to_add@;
        self.assets.resolved.append(&mut assets_to_add);
        proof {
            let after = self.assets.resolved@;
            assert(after == before + added);
            assert(after.take(before.len() as int) =~= before);
            assert forall|j: int| 0 <= j < added.len() implies debug_asset_of(
                with_debug_file(before, files)[j],
                #[trigger] after[before.len() + j],
            ) by {
                assert(after[before.len() + j] == added[j]);
            }
        }
    }
}

// ---------------------------------------------------------------------------
// Targets
// ---------------------------------------------------------------------------

/// The first part of a target triple.
pub open spec fn triple_arch(target: Seq<char>) -> Seq<char> {
    split_on(target, '-')[0]
}

/// The last part of a target triple that has more than one part, else
/// nothing.
pub open spec fn triple_abi(target: Seq<char>) -> Seq<char> {
    let parts = split_on(target, '-');
    if parts.len() > 1 {
        parts.last()
    } else {
        Seq::empty()
    }
}

/// The name that Debian gives to the architecture of a target.
pub open spec fn debian_arch(target: Seq<char>) -> Seq<char> {
    let arch = triple_arch(target);
    let abi = triple_abi(target);
    if arch == "aarch64"@ {
        "arm64"@
    } else if arch == "mips64"@ && abi == "gnuabin32"@ {
        "mipsn32"@
    } else if arch == "mips64el"@ && abi == "gnuabin32"@ {
        "mipsn32el"@
    } else if arch == "mipsisa32r6"@ {
        "mipsr6"@
    } else if arch == "mipsisa32r6el"@ {
        "mipsr6el"@
    } else if arch == "mipsisa64r6"@ && abi == "gnuabi64"@ {
        "mips64r6"@
    } else if arch == "mipsisa64r6"@ && abi == "gnuabin32"@ {
        "mipsn32r6"@
    } else if arch == "mipsisa64r6el"@ && abi == "gnuabi64"@ {
        "mips64r6el"@
    } else if arch == "mipsisa64r6el"@ && abi == "gnuabin32"@ {
        "mipsn32r6el"@
    } else if arch == "powerpc"@ && abi == "gnuspe"@ {
        "powerpcspe"@
    } else if arch == "powerpc64"@ {
        "ppc64"@
    } else if arch == "powerpc64le"@ {
        "ppc64el"@
    } else if arch == "i586"@ || arch == "i686"@ || arch == "x86"@ {
        "i386"@
    } else if arch == "x86_64"@ && abi == "gnux32"@ {
        "x32"@
    } else if arch == "x86_64"@ {
        "amd64"@
    } else if has_prefix(arch, "arm"@) && has_suffix(abi, "hf"@) {
        "armhf"@
    } else if has_prefix(arch, "arm"@) {
        "armel"@
    } else {
        arch
    }
}

fn triple_parts(target: &str) -> (r: (Vec<char>, Vec<char>))
    ensures
        r.0@ == triple_arch(target@),
        r.1@ == triple_abi(target@),
{
    let parts = split(&chars_of(target), '-');
    proof {
        crate::text::lemma_split_on_has_a_piece(target@, '-');
        assert(views(parts@)[0] == parts@[0]@);
    }
    let arch = copy_of(&parts[0]);
    let abi = if parts.len() > 1 {
        assert(views(parts@).last() == parts@[parts.len() - 1]@);
        copy_of(&parts[parts.len() - 1])
    } else {
        Vec::new()
    };
    (arch, abi)
}

/// Debianizes the architecture name
pub fn get_arch(target: &str) -> (r: String)
    ensures
        r@ == debian_arch(target@),
{
    let (arch, abi) = triple_parts(target);
    let name: &str = if text_is(&arch, "aarch64") {
        "arm64"
    } else if text_is(&arch, "mips64") && text_is(&abi, "gnuabin32") {
        "mipsn32"
    } else if text_is(&arch, "mips64el") && text_is(&abi, "gnuabin32") {
        "mipsn32el"
    } else if text_is(&arch, "mipsisa32r6") {
        "mipsr6"
    } else if text_is(&arch, "mipsisa32r6el") {
        "mipsr6el"
    } else if text_is(&arch, "mipsisa64r6") && text_is(&abi, "gnuabi64") {
        "mips64r6"
    } else if text_is(&arch, "mipsisa64r6") && text_is(&abi, "gnuabin32") {
        "mipsn32r6"
    } else if text_is(&arch, "mipsisa64r6el") && text_is(&abi, "gnuabi64") {
        "mips64r6el"
    } else if text_is(&arch, "mipsisa64r6el") && text_is(&abi, "gnuabin32") {
        "mipsn32r6el"
    } else if text_is(&arch, "powerpc") && text_is(&abi, "gnuspe") {
        "powerpcspe"
    } else if text_is(&arch, "powerpc64") {
        "ppc64"
    } else if text_is(&arch, "powerpc64le") {
        "ppc64el"
    } else if text_is(&arch, "i586") || text_is(&arch, "i686") || text_is(&arch, "x86") {
        "i386"
    } else if text_is(&arch, "x86_64") && text_is(&abi, "gnux32") {
        "x32"
    } else if text_is(&arch, "x86_64") {
        "amd64"
    } else if begins(&arch, "arm") && ends(&abi, "hf") {
        "armhf"
    } else if begins(&arch, "arm") {
        "armel"
    } else {
        return string_of(&arch);
    };
    name.to_owned()
}

/// The triple that Debian uses for a target of Rust: architecture, `linux`
/// and ABI.
pub open spec fn debian_triple_of(target: Seq<char>) -> Seq<char> {
    let arch = triple_arch(target);
    let abi = triple_abi(target);
    let pair = if arch == "i586"@ || arch == "i686"@ {
        ("i386"@, "gnu"@)
    } else if arch == "x86_64"@ {
        ("x86_64"@, "gnu"@)
    } else if arch == "aarch64"@ {
        ("aarch64"@, "gnu"@)
    } else if has_prefix(arch, "arm"@) || has_prefix(arch, "thumb"@) {
        (
            "arm"@,
            if has_suffix(abi, "hf"@) {
                "gnueabihf"@
            } else {
                "gnueabi"@
            },
        )
    } else if arch == "mipsel"@ {
        ("mipsel"@, "gnu"@)
    } else if has_prefix(arch, "riscv64"@) {
        ("riscv64"@, "gnu"@)
    } else {
        (arch, abi)
    };
    pair.0 + "-linux-"@ + pair.1
}

/// Maps Rust's blah-unknown-linux-blah to Debian's blah-linux-blah
pub fn debian_triple(rust_target_triple: &str) -> (r: String)
    ensures
        r@ == debian_triple_of(rust_target_triple@),
{
    let (arch, abi) = triple_parts(rust_target_triple);
    let mut out: Vec<char> = Vec::new();
    if text_is(&arch, "i586") || text_is(&arch, "i686") {
        append_str(&mut out, "i386");
        append_str(&mut out, "-linux-");
        append_str(&mut out, "gnu");
    } else if text_is(&arch, "x86_64") {
        append_str(&mut out, "x86_64");
        append_str(&mut out, "-linux-");
        append_str(&mut out, "gnu");
    } else if text_is(&arch, "aarch64") {
        append_str(&mut out, "aarch64");
        append_str(&mut out, "-linux-");
        append_str(&mut out, "gnu");
    } else if begins(&arch, "arm") || begins(&arch, "thumb") {
        append_str(&mut out, "arm");
        append_str(&mut out, "-linux-");
        if ends(&abi, "hf") {
            append_str(&mut out, "gnueabihf");
        } else {
            append_str(&mut out, "gnueabi");
        }
    } else if text_is(&arch, "mipsel") {
        append_str(&mut out, "mipsel");
        append_str(&mut out, "-linux-");
        append_str(&mut out, "gnu");
    } else if begins(&arch, "riscv64") {
        append_str(&mut out, "riscv64");
        append_str(&mut out, "-linux-");
        append_str(&mut out, "gnu");
    } else {
        append_copy(&mut out, &arch);
        append_str(&mut out, "-linux-");
        append_copy(&mut out, &abi);
    }
    assert(out@ =~= debian_triple_of(rust_target_triple@));
    string_of(&out)
}

} // verus!
