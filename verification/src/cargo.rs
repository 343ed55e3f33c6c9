//! What the manifest of a project says of its package.

use crate::text::strs;
use crate::error::{CDResult, CargoDebError};
use crate::fstree::FileTree;
use crate::listener::Listener;
use crate::data::{doc_path, generate_copyright_asset_result};
use crate::compress::gzip_of;
use crate::manifest::{
    debian_arch, get_arch, placed, Asset, AssetSource, Assets, Config, SystemdUnitsConfig,
    UnresolvedAsset,
};
use crate::paths::{file_name, path_below, path_join, strip_prefix, join_path};
use crate::text::{
    append_copy, append_str, chars_of, has_suffix, join_all, opt_ref_view, opt_view, string_of,
    text_is, views,
};
use crate::utf8::{decode, text_of};
use vstd::prelude::*;

verus! {

/// The settings of a package in the manifest, each of them optional. A
/// variant is a set of settings that takes precedence over the others.
#[derive(Debug)]
pub struct CargoDeb {
    pub name: Option<String>,
    pub maintainer: Option<String>,
    pub copyright: Option<String>,
    pub changelog: Option<String>,
    pub depends: Option<String>,
    pub build_depends: Option<String>,
    pub conflicts: Option<String>,
    pub breaks: Option<String>,
    pub replaces: Option<String>,
    pub provides: Option<String>,
    pub extended_description: Option<String>,
    pub section: Option<String>,
    pub priority: Option<String>,
    pub revision: Option<String>,
    pub maintainer_scripts: Option<String>,
    pub triggers_file: Option<String>,
    pub license_file: Option<Vec<String>>,
    pub conf_files: Option<Vec<String>>,
    pub assets: Option<Vec<Vec<String>>>,
    pub features: Option<Vec<String>>,
    pub default_features: Option<bool>,
    pub separate_debug_symbols: Option<bool>,
    pub preserve_symlinks: Option<bool>,
    pub systemd_units: Option<SystemdUnitsConfig>,
    pub variants: Option<Vec<(String, CargoDeb)>>,
}

/// The first of two values that is there.
pub open spec fn first_of<T>(a: Option<T>, b: Option<T>) -> Option<T> {
    if a is Some {
        a
    } else {
        b
    }
}

fn or<T>(a: Option<T>, b: Option<T>) -> (r: Option<T>)
    ensures
        r == first_of(a, b),
{
    match a {
        Some(v) => Some(v),
        None => b,
    }
}

impl CargoDeb {
    /// No setting.
    pub fn empty() -> (r: CargoDeb)
        ensures
            r.name is None,
            r.maintainer is None,
            r.copyright is None,
            r.changelog is None,
            r.depends is None,
            r.build_depends is None,
            r.conflicts is None,
            r.breaks is None,
            r.replaces is None,
            r.provides is None,
            r.extended_description is None,
            r.section is None,
            r.priority is None,
            r.revision is None,
            r.maintainer_scripts is None,
            r.triggers_file is None,
            r.license_file is None,
            r.conf_files is None,
            r.assets is None,
            r.features is None,
            r.default_features is None,
            r.separate_debug_symbols is None,
            r.preserve_symlinks is None,
            r.systemd_units is None,
            r.variants is None,
    {
        CargoDeb {
            name: None,
            maintainer: None,
            copyright: None,
            changelog: None,
            depends: None,
            build_depends: None,
            conflicts: None,
            breaks: None,
            replaces: None,
            provides: None,
            extended_description: None,
            section: None,
            priority: None,
            revision: None,
            maintainer_scripts: None,
            triggers_file: None,
            license_file: None,
            conf_files: None,
            assets: None,
            features: None,
            default_features: None,
            separate_debug_symbols: None,
            preserve_symlinks: None,
            systemd_units: None,
            variants: None,
        }
    }

    /// The settings of a variant over those of its parent: each setting of
    /// the variant where it has one, else that of the parent.
    pub fn inherit_from(self, parent: CargoDeb) -> (r: CargoDeb)
        ensures
            r == inherited(self, parent),
    {
        CargoDeb {
            name: or(self.name, parent.name),
            maintainer: or(self.maintainer, parent.maintainer),
            copyright: or(self.copyright, parent.copyright),
            changelog: or(self.changelog, parent.changelog),
            depends: or(self.depends, parent.depends),
            build_depends: or(self.build_depends, parent.build_depends),
            conflicts: or(self.conflicts, parent.conflicts),
            breaks: or(self.breaks, parent.breaks),
            replaces: or(self.replaces, parent.replaces),
            provides: or(self.provides, parent.provides),
            extended_description: or(self.extended_description, parent.extended_description),
            section: or(self.section, parent.section),
            priority: or(self.priority, parent.priority),
            revision: or(self.revision, parent.revision),
            maintainer_scripts: or(self.maintainer_scripts, parent.maintainer_scripts),
            triggers_file: or(self.triggers_file, parent.triggers_file),
            license_file: or(self.license_file, parent.license_file),
            conf_files: or(self.conf_files, parent.conf_files),
            assets: or(self.assets, parent.assets),
            features: or(self.features, parent.features),
            default_features: or(self.default_features, parent.default_features),
            separate_debug_symbols: or(self.separate_debug_symbols, parent.separate_debug_symbols),
            preserve_symlinks: or(self.preserve_symlinks, parent.preserve_symlinks),
            systemd_units: or(self.systemd_units, parent.systemd_units),
            variants: or(self.variants, parent.variants),
        }
    }
}

/// The settings of the variant `v` over those of its parent `p`.
pub open spec fn inherited(v: CargoDeb, p: CargoDeb) -> CargoDeb {
    CargoDeb {
        name: first_of(v.name, p.name),
        maintainer: first_of(v.maintainer, p.maintainer),
        copyright: first_of(v.copyright, p.copyright),
        changelog: first_of(v.changelog, p.changelog),
        depends: first_of(v.depends, p.depends),
        build_depends: first_of(v.build_depends, p.build_depends),
        conflicts: first_of(v.conflicts, p.conflicts),
        breaks: first_of(v.breaks, p.breaks),
        replaces: first_of(v.replaces, p.replaces),
        provides: first_of(v.provides, p.provides),
        extended_description: first_of(v.extended_description, p.extended_description),
        section: first_of(v.section, p.section),
        priority: first_of(v.priority, p.priority),
        revision: first_of(v.revision, p.revision),
        maintainer_scripts: first_of(v.maintainer_scripts, p.maintainer_scripts),
        triggers_file: first_of(v.triggers_file, p.triggers_file),
        license_file: first_of(v.license_file, p.license_file),
        conf_files: first_of(v.conf_files, p.conf_files),
        assets: first_of(v.assets, p.assets),
        features: first_of(v.features, p.features),
        default_features: first_of(v.default_features, p.default_features),
        separate_debug_symbols: first_of(v.separate_debug_symbols, p.separate_debug_symbols),
        preserve_symlinks: first_of(v.preserve_symlinks, p.preserve_symlinks),
        systemd_units: first_of(v.systemd_units, p.systemd_units),
        variants: first_of(v.variants, p.variants),
    }
}

// ---------------------------------------------------------------------------
// Numbers in the manifest
// ---------------------------------------------------------------------------

/// The value of the digits `s` in the base `radix`, or nothing where one of
/// the characters is no digit of that base.
pub open spec fn digits_value(s: Seq<char>, radix: nat) -> Option<nat>
    decreases s.len(),
{
    if s.len() == 0 {
        Some(0)
    } else {
        match digits_value(s.drop_last(), radix) {
            Some(v) => if 48 <= s.last() as u32 && (s.last() as u32) < 48 + radix {
                Some(v * radix + (s.last() as u32 - 48) as nat)
            } else {
                None
            },
            None => None,
        }
    }
}

/// The number that `s` stands for in the base `radix`: digits, with a plus
/// sign in front of them or without, no more than `max`.
pub open spec fn number(s: Seq<char>, radix: nat, max: nat) -> Option<nat> {
    let digits = if s.len() > 0 && s[0] == '+' {
        s.skip(1)
    } else {
        s
    };
    if digits.len() == 0 {
        None
    } else {
        match digits_value(digits, radix) {
            Some(v) => if v <= max {
                Some(v)
            } else {
                None
            },
            None => None,
        }
    }
}

/// Reads a number in the base `radix`.
#[verifier::loop_isolation(false)]
pub fn parse_number(s: &str, radix: u32, max: u64) -> (r: Option<u64>)
    requires
        2 <= radix <= 10,
    ensures
        match r {
            Some(v) => number(s@, radix as nat, max as nat) == Some(v as nat),
            None => number(s@, radix as nat, max as nat) is None,
        },
{
    let all = chars_of(s);
    let start: usize = if all.len() > 0 && all[0] == '+' {
        1
    } else {
        0
    };
    if start == all.len() {
        return None;
    }
    let ghost digits = all@.skip(start as int);
    assert(all@.skip(0) == all@);
    // what is more than `max` is held as one more than `max`
    let mut acc: u128 = 0;
    let mut i: usize = start;
    assert(digits.take(0) =~= Seq::<char>::empty());
    while i < all.len()
        invariant
            start <= i <= all.len(),
            2 <= radix <= 10,
            digits == all@.skip(start as int),
            digits_value(digits.take(i - start), radix as nat) is Some,
            acc <= max + 1,
            acc == (if digits_value(digits.take(i - start), radix as nat)->0 > max {
                (max + 1) as nat
            } else {
                digits_value(digits.take(i - start), radix as nat)->0
            }),
        decreases all.len() - i,
    {
        let ghost before = digits_value(digits.take(i - start), radix as nat)->0;
        proof {
            let next = digits.take(i - start + 1);
            assert(next.drop_last() == digits.take(i - start));
            assert(next.last() == all@[i as int]);
        }
        let c: u32 = all[i] as u32;
        if c < 48 || c >= 48 + radix {
            proof {
                lemma_digits_value_fails(digits, radix as nat, i - start + 1);
            }
            return None;
        }
        let d: u128 = (c - 48) as u128;
        proof {
            assert(before * radix + d >= before) by (nonlinear_arith)
                requires
                    radix >= 2,
                    d >= 0,
                    before >= 0,
            ;
            if before > max {
                assert(before * radix + d > max);
                assert(acc * (radix as u128) + d > max) by (nonlinear_arith)
                    requires
                        acc == max + 1,
                        radix >= 2,
                        d >= 0,
                ;
            }
            assert(acc * (radix as u128) <= (max + 1) * 10) by (nonlinear_arith)
                requires
                    acc <= max + 1,
                    radix <= 10,
            ;
        }
        let next: u128 = acc * (radix as u128) + d;
        acc = if next > max as u128 {
            max as u128 + 1
        } else {
            next
        };
        i += 1;
    }
    assert(digits.take(all.len() - start) == digits);
    if acc > max as u128 {
        None
    } else {
        Some(acc as u64)
    }
}

proof fn lemma_digits_value_fails(s: Seq<char>, radix: nat, n: int)
    requires
        0 <= n <= s.len(),
        digits_value(s.take(n), radix) is None,
    ensures
        digits_value(s, radix) is None,
    decreases s.len(),
{
    if n == s.len() {
        assert(s.take(n) == s);
    } else {
        assert(s.drop_last().take(n) == s.take(n));
        lemma_digits_value_fails(s.drop_last(), radix, n);
    }
}

// ---------------------------------------------------------------------------
// Declared and implied assets
// ---------------------------------------------------------------------------

/// One thing that the project builds.
#[derive(Debug)]
pub struct CargoMetadataTarget {
    pub name: String,
    pub kind: Vec<String>,
    pub crate_types: Vec<String>,
}

/// What is wrong with the line of a declared asset, if anything: the first
/// of source, target and mode that is missing, or a mode that is no octal
/// number.
pub open spec fn line_problem(line: Seq<Seq<char>>) -> Option<Seq<char>> {
    if line.len() < 1 {
        Some("missing path (first array entry) for asset in Cargo.toml"@)
    } else if line.len() < 2 {
        Some("missing target (second array entry) for asset in Cargo.toml"@)
    } else if line.len() < 3 {
        Some("missing chmod (third array entry) for asset in Cargo.toml"@)
    } else if number(line[2], 8, u32::MAX as nat) is None {
        Some("unable to parse chmod argument"@)
    } else {
        None
    }
}

/// `asset` is what the line declares: a source below `target/release` comes
/// out of the build and is looked for in the build directory, every other
/// source in the directory of the manifest.
pub open spec fn declares(options: Config, line: Seq<Seq<char>>, asset: UnresolvedAsset) -> bool {
    &&& line_problem(line) is None
    &&& match path_below(line[0], "target/release"@) {
        Some(rel) => asset.is_built && asset.source_path@ == path_join(
            path_join(options.target_dir@, "release"@),
            rel,
        ),
        None => !asset.is_built && asset.source_path@ == path_join(options.manifest_dir@, line[0]),
    }
    &&& asset.target_path@ == line[1]
    &&& number(line[2], 8, u32::MAX as nat) == Some(asset.chmod as nat)
}

/// `e` says what is wrong with the line.
pub open spec fn line_error(line: Seq<Seq<char>>, e: CargoDebError) -> bool {
    match line_problem(line) {
        Some(m) => if line.len() < 3 {
            e matches CargoDebError::Str(x) && x@ == m
        } else {
            e matches CargoDebError::NumParse(x, t) && x@ == m && t@ == line[2]
        },
        None => false,
    }
}

/// Reads the line of a declared asset: source, target and mode.
pub fn declared_asset(options: &Config, asset_line: &Vec<String>) -> (r: CDResult<UnresolvedAsset>)
    ensures
        match r {
            Ok(a) => declares(*options, strs(asset_line@), a),
            Err(e) => line_error(strs(asset_line@), e),
        },
{
    let ghost line = strs(asset_line@);
    if asset_line.len() < 1 {
        return Err(CargoDebError::Str("missing path (first array entry) for asset in Cargo.toml"));
    }
    assert(line[0] == asset_line@[0]@);
    let source = asset_line[0].as_str();
    let (is_built, source_path) = match strip_prefix(source, "target/release") {
        Some(rel_path) => (true, options.path_in_build(rel_path.as_str())),
        None => (false, options.path_in_workspace(source)),
    };
    if asset_line.len() < 2 {
        return Err(
            CargoDebError::Str("missing target (second array entry) for asset in Cargo.toml"),
        );
    }
    assert(line[1] == asset_line@[1]@);
    let target_path = asset_line[1].clone();
    if asset_line.len() < 3 {
        return Err(
            CargoDebError::Str("missing chmod (third array entry) for asset in Cargo.toml"),
        );
    }
    assert(line[2] == asset_line@[2]@);
    let chmod = match parse_number(asset_line[2].as_str(), 8, 0xffff_ffff) {
        Some(n) => n as u32,
        None => {
            return Err(
                CargoDebError::NumParse("unable to parse chmod argument", asset_line[2].clone()),
            );
        },
    };
    Ok(UnresolvedAsset { source_path, target_path, chmod, is_built })
}

/// Whether one of the texts is `what`.
fn has_text(list: &Vec<String>, what: &str) -> (b: bool)
    ensures
        b == strs(list@).contains(what@),
{
    let w = chars_of(what);
    let mut i: usize = 0;
    while i < list.len()
        invariant
            i <= list.len(),
            w@ == what@,
            forall|j: int| 0 <= j < i ==> strs(list@)[j] != what@,
        decreases list.len() - i,
    {
        if text_is(&w, list[i].as_str()) {
            assert(strs(list@)[i as int] == what@);
            return true;
        }
        i += 1;
    }
    false
}

/// What a target of the build brings into the package without being
/// declared: a program goes to `usr/bin` with mode 0755, a shared library
/// to `usr/lib` with mode 0644 under the name `lib<name>.so`. The source,
/// where to put it, and the mode.
pub open spec fn implied_by(options: Config, t: CargoMetadataTarget) -> Option<
    (Seq<char>, Seq<char>, u32),
> {
    implied_in(options.target_dir@, t)
}

/// The target is a program.
pub open spec fn is_program(t: CargoMetadataTarget) -> bool {
    strs(t.crate_types@).contains("bin"@) && strs(t.kind@).contains("bin"@)
}

/// The target is a shared library for other languages.
pub open spec fn is_shared_library(t: CargoMetadataTarget) -> bool {
    strs(t.crate_types@).contains("cdylib"@) && strs(t.kind@).contains("cdylib"@)
}

/// The target brings something into the package.
pub open spec fn brings(t: CargoMetadataTarget) -> bool {
    is_program(t) || is_shared_library(t)
}

/// What a target brings into the package where the build writes below
/// `target_dir`.
pub open spec fn implied_in(target_dir: Seq<char>, t: CargoMetadataTarget) -> Option<
    (Seq<char>, Seq<char>, u32),
> {
    let build = path_join(target_dir, "release"@);
    if is_program(t) {
        Some((path_join(build, t.name@), path_join("usr/bin"@, t.name@), 0o755u32))
    } else if is_shared_library(t) {
        let lib_name = "lib"@ + t.name@ + ".so"@;
        Some((path_join(build, lib_name), path_join("usr/lib"@, lib_name), 0o644u32))
    } else {
        None
    }
}

/// `asset` is what the triple of source, place and mode describes, and
/// comes out of the build or not as `built` says.
pub open spec fn made_from(what: (Seq<char>, Seq<char>, u32), built: bool, asset: Asset) -> bool {
    &&& asset.source matches AssetSource::Path(p) && p@ == what.0
    &&& asset.target_path@ == placed(file_name(what.0), what.1)
    &&& asset.chmod == what.2
    &&& asset.is_built == built
    &&& placeable(what)
}

/// The triple of source, place and mode can stand as an asset: a place that
/// is a directory needs a source with a file name.
pub open spec fn placeable(what: (Seq<char>, Seq<char>, u32)) -> bool {
    !(has_suffix(what.1, seq!['/']) && file_name(what.0) is None)
}

/// What a target brings into the package, as an asset.
pub fn implied_asset(options: &Config, t: &CargoMetadataTarget) -> (r: CDResult<Option<Asset>>)
    ensures
        match implied_by(*options, *t) {
            Some(what) => match r {
                Ok(a) => a matches Some(asset) && made_from(what, true, asset),
                Err(e) => !placeable(what) && e is Str,
            },
            None => r matches Ok(a) && a is None,
        },
{
    if has_text(&t.crate_types, "bin") && has_text(&t.kind, "bin") {
        let source = options.path_in_build(t.name.as_str());
        let target = join_path("usr/bin", t.name.as_str());
        match Asset::checked(AssetSource::Path(source), target, 0o755, true) {
            Some(a) => Ok(Some(a)),
            None => Err(CargoDebError::Str("source must be a file")),
        }
    } else if has_text(&t.crate_types, "cdylib") && has_text(&t.kind, "cdylib") {
        let mut lib_name = chars_of("lib");
        append_str(&mut lib_name, t.name.as_str());
        append_str(&mut lib_name, ".so");
        let lib_name = string_of(&lib_name);
        let source = options.path_in_build(lib_name.as_str());
        let target = join_path("usr/lib", lib_name.as_str());
        match Asset::checked(AssetSource::Path(source), target, 0o644, true) {
            Some(a) => Ok(Some(a)),
            None => Err(CargoDebError::Str("source must be a file")),
        }
    } else {
        Ok(None)
    }
}

/// The targets that bring something into the package, in their order.
pub open spec fn implying(options: Config, targets: Seq<CargoMetadataTarget>) -> Seq<
    (Seq<char>, Seq<char>, u32),
>
    decreases targets.len(),
{
    if targets.len() == 0 {
        Seq::empty()
    } else {
        match implied_by(options, targets.last()) {
            Some(what) => implying(options, targets.drop_last()).push(what),
            None => implying(options, targets.drop_last()),
        }
    }
}

/// The readme as an asset: it goes below `usr/share/doc/<package>`.
pub open spec fn readme_asset(package: Seq<char>, readme: Seq<char>) -> (
    Seq<char>,
    Seq<char>,
    u32,
) {
    (readme, path_join(path_join("usr/share/doc"@, package), readme), 0o644u32)
}

/// The assets of a package can be taken: each declared line is in order;
/// or, where none is declared, what the targets and the readme imply can
/// stand as assets.
pub open spec fn assets_takeable(
    target_dir: Seq<char>,
    package: Seq<char>,
    assets: Option<Vec<Vec<String>>>,
    targets: Seq<CargoMetadataTarget>,
    readme: Option<Seq<char>>,
) -> bool {
    match assets {
        Some(lines) => forall|i: int|
            0 <= i < lines@.len() ==> line_problem(strs((#[trigger] lines@[i])@)) is None,
        None => {
            &&& forall|i: int|
                0 <= i < targets.len() ==> (implied_in(target_dir, #[trigger] targets[i]) matches Some(
                    what,
                ) ==> placeable(what))
            &&& readme matches Some(f) ==> placeable(readme_asset(package, f))
        },
    }
}

/// The package gets an asset at all: a declared line, or else a target
/// that brings something, or a readme.
pub open spec fn any_asset(
    assets: Option<Vec<Vec<String>>>,
    targets: Seq<CargoMetadataTarget>,
    readme: bool,
) -> bool {
    match assets {
        Some(lines) => lines@.len() > 0,
        None => readme || exists|i: int|
            0 <= i < targets.len() && brings(#[trigger] targets[i]),
    }
}

/// Something is implied exactly where one of the targets brings something.
pub proof fn lemma_implying_some(options: Config, targets: Seq<CargoMetadataTarget>)
    ensures
        implying(options, targets).len() > 0 <==> exists|i: int|
            0 <= i < targets.len() && brings(#[trigger] targets[i]),
    decreases targets.len(),
{
    if targets.len() > 0 {
        let rest = targets.drop_last();
        lemma_implying_some(options, rest);
        if implying(options, targets).len() > 0 {
            if implied_by(options, targets.last()) is Some {
                assert(brings(targets[targets.len() - 1]));
            } else {
                let i = choose|i: int|
                    0 <= i < rest.len() && brings(#[trigger] rest[i]);
                assert(brings(targets[i]));
            }
        }
        if exists|i: int|
            0 <= i < targets.len() && brings(#[trigger] targets[i]) {
            let i = choose|i: int|
                0 <= i < targets.len() && brings(#[trigger] targets[i]);
            if i < rest.len() {
                assert(brings(rest[i]));
            }
        }
    }
}

/// The assets of a package: those that the manifest declares, which wait
/// for the build, or else those that the targets of the build and the
/// readme imply.
#[verifier::loop_isolation(false)]
pub fn take_assets(
    options: &Config,
    package: &str,
    assets: Option<Vec<Vec<String>>>,
    targets: &Vec<CargoMetadataTarget>,
    readme: Option<&String>,
) -> (r: CDResult<Assets>)
    ensures
        r is Ok <==> assets_takeable(
            options.target_dir@,
            package@,
            assets,
            targets@,
            opt_ref_view(readme),
        ),
        match assets {
            Some(lines) => match r {
                Ok(a) => {
                    &&& a.resolved@.len() == 0
                    &&& a.unresolved@.len() == lines@.len()
                    &&& forall|i: int|
                        0 <= i < lines@.len() ==> declares(
                            *options,
                            strs(lines@[i]@),
                            #[trigger] a.unresolved@[i],
                        )
                },
                Err(e) => exists|i: int|
                    0 <= i < lines@.len() && #[trigger] line_error(strs(lines@[i]@), e),
            },
            None => match r {
                Ok(a) => {
                    let implied = implying(*options, targets@);
                    &&& a.unresolved@.len() == 0
                    &&& a.resolved@.len() == implied.len() + (if readme is Some {
                        1int
                    } else {
                        0int
                    })
                    &&& forall|i: int|
                        0 <= i < implied.len() ==> made_from(
                            implied[i],
                            true,
                            #[trigger] a.resolved@[i],
                        )
                    &&& readme matches Some(f) ==> made_from(
                        readme_asset(package@, f@),
                        false,
                        a.resolved@.last(),
                    )
                },
                Err(e) => e is Str,
            },
        },
{
    match assets {
        Some(lines) => {
            // Treat all explicit assets as unresolved until after the build step
            let mut unresolved_assets: Vec<UnresolvedAsset> = Vec::new();
            let mut i: usize = 0;
            while i < lines.len()
                invariant
                    i <= lines.len(),
                    unresolved_assets@.len() == i,
                    forall|j: int|
                        0 <= j < i ==> declares(
                            *options,
                            strs(lines@[j]@),
                            #[trigger] unresolved_assets@[j],
                        ),
                decreases lines.len() - i,
            {
                match declared_asset(options, &lines[i]) {
                    Ok(a) => unresolved_assets.push(a),
                    Err(e) => {
                        assert(line_error(strs(lines@[i as int]@), e));
                        return Err(e);
                    },
                }
                i += 1;
            }
            assert forall|j: int| 0 <= j < lines@.len() implies line_problem(
                strs((#[trigger] lines@[j])@),
            ) is None by {
                assert(declares(*options, strs(lines@[j]@), unresolved_assets@[j]));
            }
            Ok(Assets::with_unresolved_assets(unresolved_assets))
        },
        None => {
            let mut implied_assets: Vec<Asset> = Vec::new();
            let mut i: usize = 0;
            assert(targets@.take(0) =~= Seq::<CargoMetadataTarget>::empty());
            while i < targets.len()
                invariant
                    i <= targets.len(),
                    forall|j: int|
                        0 <= j < i ==> (implied_in(options.target_dir@, #[trigger] targets@[j]) matches Some(
                            what,
                        ) ==> placeable(what)),
                    implied_assets@.len() == implying(*options, targets@.take(i as int)).len(),
                    forall|j: int|
                        0 <= j < implied_assets@.len() ==> made_from(
                            implying(*options, targets@.take(i as int))[j],
                            true,
                            #[trigger] implied_assets@[j],
                        ),
                decreases targets.len() - i,
            {
                let ghost done = implied_assets@;
                let ghost sofar = implying(*options, targets@.take(i as int));
                proof {
                    let next = targets@.take(i + 1);
                    assert(next.drop_last() == targets@.take(i as int));
                    assert(next.last() == targets@[i as int]);
                }
                match implied_asset(options, &targets[i]) {
                    Ok(Some(a)) => {
                        implied_assets.push(a);
                        assert forall|j: int| 0 <= j < implied_assets@.len() implies made_from(
                            implying(*options, targets@.take(i + 1))[j],
                            true,
                            #[trigger] implied_assets@[j],
                        ) by {
                            if j < done.len() {
                                assert(implied_assets@[j] == done[j]);
                                assert(implying(*options, targets@.take(i + 1))[j] == sofar[j]);
                            }
                        }
                    },
                    Ok(None) => {},
                    Err(e) => {
                        return Err(e);
                    },
                }
                i += 1;
            }
            assert(targets@.take(targets.len() as int) == targets@);
            match readme {
                Some(readme) => {
                    let target_path = join_path(
                        join_path("usr/share/doc", package).as_str(),
                        readme.as_str(),
                    );
                    let ghost before = implied_assets@;
                    match Asset::checked(
                        AssetSource::Path(readme.clone()),
                        target_path,
                        0o644,
                        false,
                    ) {
                        Some(a) => {
                            implied_assets.push(a);
                            assert forall|j: int| 0 <= j < before.len() implies made_from(
                                implying(*options, targets@)[j],
                                true,
                                #[trigger] implied_assets@[j],
                            ) by {
                                assert(implied_assets@[j] == before[j]);
                            }
                        },
                        None => {
                            return Err(CargoDebError::Str("source must be a file"));
                        },
                    }
                },
                None => {},
            }
            Ok(Assets::with_resolved_assets(implied_assets))
        },
    }
}

// ---------------------------------------------------------------------------
// From the manifest to the configuration
// ---------------------------------------------------------------------------

/// What the manifest says of the package itself.
#[derive(Debug)]
pub struct Cargo {
    pub name: String,
    pub version: String,
    pub authors: Vec<String>,
    pub description: Option<String>,
    pub license: Option<String>,
    pub license_file: Option<String>,
    pub homepage: Option<String>,
    pub documentation: Option<String>,
    pub repository: Option<String>,
    pub readme: Option<String>,
    /// Whether the release profile asks for binaries without debug symbols.
    pub strip: bool,
    /// The settings for the package.
    pub deb: Option<CargoDeb>,
}

/// No setting at all.
pub open spec fn no_settings() -> CargoDeb {
    CargoDeb {
        name: None,
        maintainer: None,
        copyright: None,
        changelog: None,
        depends: None,
        build_depends: None,
        conflicts: None,
        breaks: None,
        replaces: None,
        provides: None,
        extended_description: None,
        section: None,
        priority: None,
        revision: None,
        maintainer_scripts: None,
        triggers_file: None,
        license_file: None,
        conf_files: None,
        assets: None,
        features: None,
        default_features: None,
        separate_debug_symbols: None,
        preserve_symlinks: None,
        systemd_units: None,
        variants: None,
    }
}

/// The version of the package: that of the project, with a dash and the
/// revision behind it where there is one.
pub open spec fn version_text(version: Seq<char>, revision: Option<Seq<char>>) -> Seq<char> {
    match revision {
        Some(r) => version + seq!['-'] + r,
        None => version,
    }
}

/// The license file and the number of its lines to skip: what the settings
/// say, a file and a number, else the license file of the project and 0.
/// Nothing where the number cannot be read.
pub open spec fn license_setting(project: Option<Seq<char>>, setting: Option<Seq<Seq<char>>>) -> Option<
    (Option<Seq<char>>, nat),
> {
    match setting {
        Some(args) => {
            let file = if args.len() > 0 {
                Some(args[0])
            } else {
                None
            };
            if args.len() > 1 {
                match number(args[1], 10, usize::MAX as nat) {
                    Some(n) => Some((file, n)),
                    None => None,
                }
            } else {
                Some((file, 0nat))
            }
        },
        None => Some((project, 0nat)),
    }
}

/// The long description: that of the settings, else the text of the readme,
/// else none. Nothing where the readme cannot be read as text.
pub open spec fn long_description(
    desc: Option<Seq<char>>,
    readme: Option<Seq<char>>,
    files: &FileTree,
) -> Option<Option<Seq<char>>> {
    match desc {
        Some(d) => Some(Some(d)),
        None => match readme {
            Some(r) => match files.content(r) {
                Some(b) => match text_of(b) {
                    Some(t) => Some(Some(t)),
                    None => None,
                },
                None => None,
            },
            None => Some(None),
        },
    }
}

/// The index of the first variant called `name`, or the number of variants
/// where none is called so.
pub open spec fn variant_index(variants: Seq<(String, CargoDeb)>, name: Seq<char>) -> int
    decreases variants.len(),
{
    if variants.len() == 0 {
        0
    } else if variants[0].0@ == name {
        0
    } else {
        1 + variant_index(variants.skip(1), name)
    }
}

proof fn lemma_variant_index(variants: Seq<(String, CargoDeb)>, name: Seq<char>, i: int)
    requires
        0 <= i <= variants.len(),
        forall|j: int| 0 <= j < i ==> (#[trigger] variants[j]).0@ != name,
        i < variants.len() ==> variants[i].0@ == name,
    ensures
        variant_index(variants, name) == i,
    decreases variants.len(),
{
    if variants.len() > 0 && i > 0 {
        assert(variants[0].0@ != name);
        assert forall|j: int| 0 <= j < i - 1 implies (#[trigger] variants.skip(1)[j]).0@ != name by {
            assert(variants.skip(1)[j] == variants[j + 1]);
        }
        lemma_variant_index(variants.skip(1), name, i - 1);
    }
}

/// The settings of the manifest without its variants.
pub open spec fn without_variants(deb: Option<CargoDeb>) -> CargoDeb {
    match deb {
        Some(d) => CargoDeb { variants: None, ..d },
        None => no_settings(),
    }
}

/// The variants of the settings.
pub open spec fn variants_of(deb: Option<CargoDeb>) -> Seq<(String, CargoDeb)> {
    match deb {
        Some(d) => match d.variants {
            Some(v) => v@,
            None => Seq::empty(),
        },
        None => Seq::empty(),
    }
}

/// The settings that hold for a build: those of the manifest, under those of
/// the variant where one is asked for. Nothing where the manifest has no
/// variant of that name.
pub open spec fn chosen_settings(deb: Option<CargoDeb>, variant: Option<Seq<char>>) -> Option<
    CargoDeb,
> {
    match variant {
        Some(v) => {
            let i = variant_index(variants_of(deb), v);
            if 0 <= i < variants_of(deb).len() {
                Some(inherited(variants_of(deb)[i].1, without_variants(deb)))
            } else {
                None
            }
        },
        None => Some(without_variants(deb)),
    }
}

/// The settings that hold for a build.
pub fn settings_for(deb: Option<CargoDeb>, variant: Option<&str>) -> (r: CDResult<CargoDeb>)
    ensures
        match chosen_settings(deb, crate::text::opt_text(variant)) {
            Some(c) => r matches Ok(x) && x == c,
            None => r matches Err(CargoDebError::VariantNotFound(v)) && Some(v@)
                == crate::text::opt_text(variant),
        },
{
    let mut base = match deb {
        Some(d) => d,
        None => CargoDeb::empty(),
    };
    let variants = base.variants.take();
    assert(base == without_variants(deb));
    match variant {
        Some(name) => {
            let mut list: Vec<(String, CargoDeb)> = match variants {
                Some(v) => v,
                None => Vec::new(),
            };
            assert(list@ == variants_of(deb));
            let wanted = chars_of(name);
            let mut i: usize = 0;
            while i < list.len() && !text_is(&wanted, list[i].0.as_str())
                invariant
                    i <= list.len(),
                    wanted@ == name@,
                    forall|j: int| 0 <= j < i ==> (#[trigger] list@[j]).0@ != name@,
                decreases list.len() - i,
            {
                i += 1;
            }
            proof {
                lemma_variant_index(list@, name@, i as int);
            }
            if i < list.len() {
                let picked = list.remove(i);
                Ok(picked.1.inherit_from(base))
            } else {
                Err(CargoDebError::VariantNotFound(name.to_owned()))
            }
        },
        None => Ok(base),
    }
}

/// The first of the usual names of a readme that exists in the directory of
/// the manifest.
pub open spec fn stray_readme(manifest_dir: Seq<char>, files: &FileTree) -> Option<Seq<char>> {
    if files.lookup(path_join(manifest_dir, "README.md"@)) is Some {
        Some("README.md"@)
    } else if files.lookup(path_join(manifest_dir, "README.markdown"@)) is Some {
        Some("README.markdown"@)
    } else if files.lookup(path_join(manifest_dir, "README.txt"@)) is Some {
        Some("README.txt"@)
    } else if files.lookup(path_join(manifest_dir, "README"@)) is Some {
        Some("README"@)
    } else {
        None
    }
}

/// What is to be said of a manifest before it is used: that it lacks a
/// description or a license, that its readme is Markdown and stands in for a
/// long description, or that a readme exists that the manifest does not name.
pub open spec fn config_warnings(
    cargo: Cargo,
    manifest_dir: Seq<char>,
    deb: CargoDeb,
    files: &FileTree,
) -> Seq<Seq<char>> {
    (if cargo.description is None {
        seq!["description field is missing in Cargo.toml"@]
    } else {
        Seq::empty()
    }) + (if cargo.license is None {
        seq!["license field is missing in Cargo.toml"@]
    } else {
        Seq::empty()
    }) + (match cargo.readme {
        Some(readme) => if deb.extended_description is None && (has_suffix(readme@, ".md"@)
            || has_suffix(readme@, ".markdown"@)) {
            seq![
                "extended-description field missing. Using "@ + readme@
                    + ", but markdown may not render well."@,
            ]
        } else {
            Seq::empty()
        },
        None => match stray_readme(manifest_dir, files) {
            Some(p) => seq![p + " file exists, but is not specified in `readme` Cargo.toml field"@],
            None => Seq::empty(),
        },
    })
}

impl Cargo {
    pub fn version_string(&self, revision: Option<String>) -> (r: String)
        ensures
            r@ == version_text(self.version@, opt_view(revision)),
    {
        match revision {
            Some(revision) => {
                let mut v = chars_of(self.version.as_str());
                v.push('-');
                append_str(&mut v, revision.as_str());
                assert(v@ =~= self.version@ + seq!['-'] + revision@);
                string_of(&v)
            },
            None => self.version.clone(),
        }
    }

    /// The license file and the number of its lines to skip.
    pub fn license_file(&self, license_file: Option<&Vec<String>>) -> (r: CDResult<
        (Option<String>, usize),
    >)
        ensures
            match license_setting(
                opt_view(self.license_file),
                match license_file {
                    Some(args) => Some(strs(args@)),
                    None => None,
                },
            ) {
                Some(s) => r matches Ok(x) && opt_view(x.0) == s.0 && x.1 as nat == s.1,
                None => r matches Err(e) && e is NumParse,
            },
    {
        match license_file {
            Some(args) => {
                let file = if args.len() > 0 {
                    assert(strs(args@)[0] == args@[0]@);
                    Some(args[0].clone())
                } else {
                    None
                };
                let lines: usize = if args.len() > 1 {
                    assert(strs(args@)[1] == args@[1]@);
                    match parse_number(args[1].as_str(), 10, usize::MAX as u64) {
                        Some(n) => n as usize,
                        None => {
                            return Err(
                                CargoDebError::NumParse(
                                    "invalid number of lines",
                                    args[1].clone(),
                                ),
                            );
                        },
                    }
                } else {
                    0
                };
                Ok((file, lines))
            },
            None => Ok((self.license_file.clone(), 0)),
        }
    }

    /// The long description of the package.
    pub fn extended_description(
        &self,
        desc: Option<String>,
        readme: Option<&String>,
        files: &FileTree,
    ) -> (r: CDResult<Option<String>>)
        ensures
            match long_description(opt_view(desc), opt_ref_view(readme), files) {
                Some(d) => r matches Ok(x) && opt_view(x) == d,
                None => r matches Err(e) && e is IoFile,
            },
    {
        match desc {
            Some(d) => Ok(Some(d)),
            None => match readme {
                Some(readme) => match files.read(readme.as_str()) {
                    Some(bytes) => match decode(bytes) {
                        Some(t) => Ok(Some(string_of(&t))),
                        None => Err(
                            CargoDebError::IoFile(
                                "unable to read README",
                                "stream did not contain valid UTF-8".to_owned(),
                                readme.clone(),
                            ),
                        ),
                    },
                    None => Err(
                        CargoDebError::IoFile(
                            "unable to read README",
                            "no such file".to_owned(),
                            readme.clone(),
                        ),
                    ),
                },
                None => Ok(None),
            },
        }
    }

    /// What is to be said of the manifest before it is used.
    pub fn check_config(&self, manifest_dir: &str, deb: &CargoDeb, files: &FileTree) -> (r: Vec<
        String,
    >)
        ensures
            strs(r@) == config_warnings(*self, manifest_dir@, *deb, files),
    {
        let mut out: Vec<String> = Vec::new();
        assert(strs(out@) =~= Seq::<Seq<char>>::empty());
        if self.description.is_none() {
            out.push("description field is missing in Cargo.toml".to_owned());
            assert(strs(out@) =~= seq!["description field is missing in Cargo.toml"@]);
        }
        let ghost s1 = strs(out@);
        if self.license.is_none() {
            out.push("license field is missing in Cargo.toml".to_owned());
            assert(strs(out@) =~= s1 + seq!["license field is missing in Cargo.toml"@]);
        } else {
            assert(strs(out@) =~= s1 + Seq::<Seq<char>>::empty());
        }
        let ghost s2 = strs(out@);
        match &self.readme {
            Some(readme) => {
                let r = chars_of(readme.as_str());
                if deb.extended_description.is_none() && (crate::text::ends_with(
                    &r,
                    &chars_of(".md"),
                ) || crate::text::ends_with(&r, &chars_of(".markdown"))) {
                    let mut msg = chars_of("extended-description field missing. Using ");
                    append_copy(&mut msg, &r);
                    append_str(&mut msg, ", but markdown may not render well.");
                    out.push(string_of(&msg));
                    assert(strs(out@) =~= s2 + seq![msg@]);
                } else {
                    assert(strs(out@) =~= s2 + Seq::<Seq<char>>::empty());
                }
            },
            None => {
                let found: Option<&'static str> = if files.has_path(
                    join_path(manifest_dir, "README.md").as_str(),
                ) {
                    Some("README.md")
                } else if files.has_path(join_path(manifest_dir, "README.markdown").as_str()) {
                    Some("README.markdown")
                } else if files.has_path(join_path(manifest_dir, "README.txt").as_str()) {
                    Some("README.txt")
                } else if files.has_path(join_path(manifest_dir, "README").as_str()) {
                    Some("README")
                } else {
                    None
                };
                match found {
                    Some(p) => {
                        let mut msg = chars_of(p);
                        append_str(
                            &mut msg,
                            " file exists, but is not specified in `readme` Cargo.toml field",
                        );
                        out.push(string_of(&msg));
                        assert(strs(out@) =~= s2 + seq![msg@]);
                    },
                    None => {
                        assert(strs(out@) =~= s2 + Seq::<Seq<char>>::empty());
                    },
                }
            },
        }
        out
    }
}

/// The name of the package: that of the project, with a dash and the name of
/// the variant behind it where one is asked for.
pub open spec fn package_name(name: Seq<char>, variant: Option<Seq<char>>) -> Seq<char> {
    match variant {
        Some(v) => name + seq!['-'] + v,
        None => name,
    }
}

/// The configuration files as one text, a line each.
pub open spec fn conf_lines(files: Seq<Seq<char>>) -> Seq<char>
    decreases files.len(),
{
    if files.len() == 0 {
        Seq::empty()
    } else {
        conf_lines(files.drop_last()) + files.last() + seq!['\n']
    }
}

pub open spec fn opt_strs(o: Option<Vec<String>>) -> Option<Seq<Seq<char>>> {
    match o {
        Some(v) => Some(strs(v@)),
        None => None,
    }
}

fn conf_files_text(files: &Vec<String>) -> (r: String)
    ensures
        r@ == conf_lines(strs(files@)),
{
    let mut out: Vec<char> = Vec::new();
    let ghost all = strs(files@);
    let mut i: usize = 0;
    assert(all.take(0) =~= Seq::<Seq<char>>::empty());
    while i < files.len()
        invariant
            i <= files.len(),
            all == strs(files@),
            out@ == conf_lines(all.take(i as int)),
        decreases files.len() - i,
    {
        proof {
            let next = all.take(i + 1);
            assert(next.drop_last() == all.take(i as int));
            assert(next.last() == files@[i as int]@);
        }
        append_str(&mut out, files[i].as_str());
        out.push('\n');
        assert(out@ =~= conf_lines(all.take(i + 1)));
        i += 1;
    }
    assert(all.take(files.len() as int) == all);
    string_of(&out)
}

fn joined_authors(authors: &Vec<String>) -> (r: String)
    ensures
        r@ == join_all(strs(authors@), ", "@),
{
    let mut parts: Vec<Vec<char>> = Vec::new();
    let mut i: usize = 0;
    while i < authors.len()
        invariant
            i <= authors.len(),
            views(parts@) =~= strs(authors@).take(i as int),
        decreases authors.len() - i,
    {
        let ghost before = views(parts@);
        parts.push(chars_of(authors[i].as_str()));
        assert(views(parts@) =~= before.push(authors@[i as int]@));
        i += 1;
    }
    assert(strs(authors@).take(authors.len() as int) == strs(authors@));
    string_of(&crate::text::join(&parts, &chars_of(", ")))
}

/// The fields of the configuration that are taken from the manifest and the
/// settings as they are, or with a default.
pub open spec fn configured(
    cargo: Cargo,
    deb: CargoDeb,
    manifest_dir: Seq<char>,
    deb_output_path: Option<String>,
    target_dir: Seq<char>,
    target: Option<Seq<char>>,
    variant: Option<Seq<char>>,
    deb_version: Option<Seq<char>>,
    default_target: Seq<char>,
    files: &FileTree,
    c: Config,
) -> bool {
    &&& c.manifest_dir@ == manifest_dir
    &&& c.deb_output_path == deb_output_path
    &&& opt_view(c.target) == target
    &&& c.target_dir@ == (match target {
        Some(t) => path_join(target_dir, t),
        None => target_dir,
    })
    &&& c.name@ == package_name(cargo.name@, variant)
    &&& c.deb_name@ == (match deb.name {
        Some(n) => n@,
        None => package_name(cargo.name@, variant),
    })
    &&& c.deb_version@ == (match deb_version {
        Some(v) => v,
        None => version_text(cargo.version@, opt_view(deb.revision)),
    })
    &&& c.license == cargo.license
    &&& license_setting(opt_view(cargo.license_file), opt_strs(deb.license_file)) == Some(
        (opt_view(c.license_file), c.license_file_skip_lines as nat),
    )
    &&& c.copyright@ == (match deb.copyright {
        Some(x) => x@,
        None => join_all(strs(cargo.authors@), ", "@),
    })
    &&& c.changelog == deb.changelog
    &&& c.homepage == cargo.homepage
    &&& c.documentation == cargo.documentation
    &&& c.repository == cargo.repository
    &&& c.description@ == (match cargo.description {
        Some(d) => d@,
        None => "[generated from Rust crate "@ + package_name(cargo.name@, variant) + seq![']'],
    })
    &&& long_description(opt_view(deb.extended_description), opt_view(cargo.readme), files)
        == Some(opt_view(c.extended_description))
    &&& c.maintainer@ == (match deb.maintainer {
        Some(m) => m@,
        None => cargo.authors@[0]@,
    })
    &&& c.depends@ == (match deb.depends {
        Some(d) => d@,
        None => "$auto"@,
    })
    &&& c.build_depends == deb.build_depends
    &&& c.section == deb.section
    &&& c.priority@ == (match deb.priority {
        Some(p) => p@,
        None => "optional"@,
    })
    &&& c.conflicts == deb.conflicts
    &&& c.breaks == deb.breaks
    &&& c.replaces == deb.replaces
    &&& c.provides == deb.provides
    &&& c.architecture@ == debian_arch(
        match target {
            Some(t) => t,
            None => default_target,
        },
    )
    &&& opt_view(c.conf_files) == (match deb.conf_files {
        Some(f) => Some(conf_lines(strs(f@))),
        None => None,
    })
    &&& c.triggers_file == deb.triggers_file
    &&& c.maintainer_scripts == deb.maintainer_scripts
    &&& strs(c.features@) == (match deb.features {
        Some(f) => strs(f@),
        None => Seq::empty(),
    })
    &&& c.default_features == (deb.default_features != Some(false))
    &&& c.strip == cargo.strip
    &&& c.separate_debug_symbols == (deb.separate_debug_symbols == Some(true))
    &&& c.preserve_symlinks == (deb.preserve_symlinks == Some(true))
    &&& c.systemd_units == deb.systemd_units
    &&& c.deb_name_separator is None
}

/// What makes the configuration impossible: no variant of the name asked
/// for, a number of license lines that is none, no copyright and no author,
/// a readme that cannot be read, no maintainer and no author.
pub open spec fn must_fail(cargo: Cargo, variant: Option<Seq<char>>, files: &FileTree) -> bool {
    match chosen_settings(cargo.deb, variant) {
        None => true,
        Some(deb) => {
            ||| license_setting(opt_view(cargo.license_file), opt_strs(deb.license_file)) is None
            ||| (deb.copyright is None && cargo.authors@.len() == 0)
            ||| long_description(
                opt_view(deb.extended_description),
                opt_view(cargo.readme),
                files,
            ) is None
            ||| (deb.maintainer is None && cargo.authors@.len() == 0)
        },
    }
}

/// The license file, where the package has one, can be read as text.
pub open spec fn license_readable(
    manifest_dir: Seq<char>,
    license_file: Option<Seq<char>>,
    files: &FileTree,
) -> bool {
    license_file matches Some(path) ==> (files.content(path_join(manifest_dir, path)) matches Some(
        b,
    ) && text_of(b) is Some)
}

/// The files that the copyright file and the changelog are made from can
/// be read.
pub open spec fn made_assets_readable(config: Config, files: &FileTree) -> bool {
    &&& license_readable(config.manifest_dir@, opt_view(config.license_file), files)
    &&& config.changelog matches Some(path) ==> files.content(
        path_join(config.manifest_dir@, path@),
    ) is Some
}

/// A configuration can be made of the manifest: nothing makes it
/// impossible, the assets can be taken and there is one at least, and the
/// license file and the changelog can be read.
pub open spec fn can_be_configured(
    cargo: Cargo,
    targets: Seq<CargoMetadataTarget>,
    manifest_dir: Seq<char>,
    target_dir: Seq<char>,
    target: Option<Seq<char>>,
    variant: Option<Seq<char>>,
    files: &FileTree,
) -> bool {
    &&& !must_fail(cargo, variant, files)
    &&& {
        let deb = chosen_settings(cargo.deb, variant)->0;
        let build_dir = match target {
            Some(t) => path_join(target_dir, t),
            None => target_dir,
        };
        &&& assets_takeable(
            build_dir,
            package_name(cargo.name@, variant),
            deb.assets,
            targets,
            opt_view(cargo.readme),
        )
        &&& any_asset(deb.assets, targets, cargo.readme is Some)
        &&& match license_setting(opt_view(cargo.license_file), opt_strs(deb.license_file)) {
            Some(license) => license_readable(manifest_dir, license.0, files),
            None => false,
        }
        &&& deb.changelog matches Some(path) ==> files.content(path_join(manifest_dir, path@))
            is Some
    }
}

proof fn lemma_implying_same(a: Config, b: Config, targets: Seq<CargoMetadataTarget>)
    requires
        a.target_dir@ == b.target_dir@,
    ensures
        implying(a, targets) == implying(b, targets),
    decreases targets.len(),
{
    if targets.len() > 0 {
        lemma_implying_same(a, b, targets.drop_last());
    }
}

/// The assets of the configuration `c`: those that the settings declare,
/// waiting for the build, or else those that the targets and the readme
/// imply; behind them the copyright file, and behind that the compressed
/// changelog where the package has one.
pub open spec fn assets_configured(
    cargo: Cargo,
    deb: CargoDeb,
    targets: Seq<CargoMetadataTarget>,
    files: &FileTree,
    c: Config,
) -> bool {
    let made: int = if c.changelog is Some {
        2
    } else {
        1
    };
    let n = c.assets.resolved@.len() as int;
    &&& n >= made
    &&& match deb.assets {
        Some(lines) => {
            &&& n == made
            &&& c.assets.unresolved@.len() == lines@.len()
            &&& forall|i: int|
                0 <= i < lines@.len() ==> declares(
                    c,
                    strs(lines@[i]@),
                    #[trigger] c.assets.unresolved@[i],
                )
        },
        None => {
            let implied = implying(c, targets);
            &&& c.assets.unresolved@.len() == 0
            &&& n == implied.len() + (if cargo.readme is Some {
                1int
            } else {
                0int
            }) + made
            &&& forall|i: int|
                0 <= i < implied.len() ==> made_from(
                    implied[i],
                    true,
                    #[trigger] c.assets.resolved@[i],
                )
            &&& cargo.readme matches Some(f) ==> made_from(
                readme_asset(c.name@, f@),
                false,
                c.assets.resolved@[implied.len() as int],
            )
        },
    }
    &&& c.assets.resolved@[n - made].source matches AssetSource::Data(d)
        && generate_copyright_asset_result(c, files) == Some(d@)
    &&& c.assets.resolved@[n - made].target_path@ == placed(None, doc_path(c.deb_name@, "copyright"@))
    &&& c.assets.resolved@[n - made].chmod == 0o644
    &&& c.changelog matches Some(path) ==> {
        &&& c.assets.resolved@[n - 1].source matches AssetSource::Data(d) && (files.content(
            path_join(c.manifest_dir@, path@),
        ) matches Some(text) && d@ == gzip_of(text))
        &&& c.assets.resolved@[n - 1].target_path@ == placed(
            None,
            doc_path(c.deb_name@, "changelog.gz"@),
        )
        &&& c.assets.resolved@[n - 1].chmod == 0o644
    }
}

impl Cargo {
    /// Convert Cargo.toml/metadata information into internal configu structure
    ///
    /// The assets of the configuration are those that the settings declare,
    /// or else those that the targets and the readme imply; behind them
    /// stand the copyright file and, where the package has a changelog, the
    /// compressed changelog. A package without any asset is refused.
    ///
    /// This succeeds exactly where a configuration can be made.
    #[verifier::loop_isolation(false)]
    #[verifier::rlimit(40)]
    pub fn into_config<L: Listener + ?Sized>(
        self,
        targets: &Vec<CargoMetadataTarget>,
        manifest_dir: &str,
        deb_output_path: Option<String>,
        target_dir: &str,
        target: Option<&str>,
        variant: Option<&str>,
        deb_version: Option<String>,
        default_target: &str,
        files: &FileTree,
        listener: &mut L,
    ) -> (r: CDResult<Config>)
        ensures
            r is Ok <==> can_be_configured(
                self,
                targets@,
                manifest_dir@,
                target_dir@,
                crate::text::opt_text(target),
                crate::text::opt_text(variant),
                files,
            ),
            r matches Ok(c) ==> chosen_settings(self.deb, crate::text::opt_text(variant))
                is Some && configured(
                self,
                chosen_settings(self.deb, crate::text::opt_text(variant))->0,
                manifest_dir@,
                deb_output_path,
                target_dir@,
                crate::text::opt_text(target),
                crate::text::opt_text(variant),
                opt_view(deb_version),
                default_target@,
                files,
                c,
            ) && assets_configured(
                self,
                chosen_settings(self.deb, crate::text::opt_text(variant))->0,
                targets@,
                files,
                c,
            ),
    {
        let ghost settings = chosen_settings(self.deb, crate::text::opt_text(variant));
        // Cargo cross-compiles to a dir
        let target_dir = match target {
            Some(t) => join_path(target_dir, t),
            None => target_dir.to_owned(),
        };
        let Cargo {
            name,
            version,
            authors,
            description,
            license,
            license_file,
            homepage,
            documentation,
            repository,
            readme,
            strip,
            deb,
        } = self;
        // If we build against a variant use that config and change the package name
        let name = match variant {
            Some(v) => {
                // Use dash as underscore is not allowed in package names
                let mut n = chars_of(name.as_str());
                n.push('-');
                append_str(&mut n, v);
                assert(n@ =~= package_name(name@, Some(v@)));
                string_of(&n)
            },
            None => name,
        };
        let this = Cargo {
            name,
            version,
            authors,
            description,
            license,
            license_file,
            homepage,
            documentation,
            repository,
            readme,
            strip,
            deb: None,
        };
        let deb = match settings_for(deb, variant) {
            Ok(d) => d,
            Err(e) => {
                return Err(e);
            },
        };
        let (license_file, license_file_skip_lines) = match this.license_file(
            match &deb.license_file {
                Some(v) => Some(v),
                None => None,
            },
        ) {
            Ok(x) => x,
            Err(e) => {
                return Err(e);
            },
        };
        let warnings = this.check_config(manifest_dir, &deb, files);
        let mut w: usize = 0;
        while w < warnings.len()
            invariant
                w <= warnings.len(),
            decreases warnings.len() - w,
        {
            listener.warning(warnings[w].clone());
            w += 1;
        }
        let CargoDeb {
            name: deb_name,
            maintainer,
            copyright,
            changelog,
            depends,
            build_depends,
            conflicts,
            breaks,
            replaces,
            provides,
            extended_description,
            section,
            priority,
            revision,
            maintainer_scripts,
            triggers_file,
            license_file: _,
            conf_files,
            assets,
            features,
            default_features,
            separate_debug_symbols,
            preserve_symlinks,
            systemd_units,
            variants: _,
        } = deb;
        let copyright = match copyright {
            Some(c) => c,
            None => {
                if this.authors.len() == 0 {
                    return Err(
                        CargoDebError::Str("The package must have a copyright or authors property"),
                    );
                }
                joined_authors(&this.authors)
            },
        };
        let description_text = match &this.description {
            Some(d) => d.clone(),
            None => {
                let mut d = chars_of("[generated from Rust crate ");
                append_str(&mut d, this.name.as_str());
                d.push(']');
                assert(d@ =~= "[generated from Rust crate "@ + this.name@ + seq![']']);
                string_of(&d)
            },
        };
        let extended = match this.extended_description(
            extended_description,
            match &this.readme {
                Some(r) => Some(r),
                None => None,
            },
            files,
        ) {
            Ok(x) => x,
            Err(e) => {
                return Err(e);
            },
        };
        let maintainer = match maintainer {
            Some(m) => m,
            None => {
                if this.authors.len() == 0 {
                    return Err(
                        CargoDebError::Str(
                            "The package must have a maintainer or authors property",
                        ),
                    );
                }
                this.authors[0].clone()
            },
        };
        let deb_version = match deb_version {
            Some(v) => v,
            None => this.version_string(revision),
        };
        let architecture = get_arch(
            match target {
                Some(t) => t,
                None => default_target,
            },
        );
        let mut config = Config {
            manifest_dir: manifest_dir.to_owned(),
            deb_output_path,
            target: match target {
                Some(t) => Some(t.to_owned()),
                None => None,
            },
            target_dir,
            name: this.name.clone(),
            deb_name: match deb_name {
                Some(n) => n,
                None => this.name.clone(),
            },
            deb_version,
            license: this.license,
            license_file,
            license_file_skip_lines,
            copyright,
            changelog,
            homepage: this.homepage,
            documentation: this.documentation,
            repository: this.repository,
            description: description_text,
            extended_description: extended,
            maintainer,
            depends: match depends {
                Some(d) => d,
                None => "$auto".to_owned(),
            },
            build_depends,
            section,
            priority: match priority {
                Some(p) => p,
                None => "optional".to_owned(),
            },
            conflicts,
            breaks,
            replaces,
            provides,
            architecture,
            conf_files: match &conf_files {
                Some(f) => Some(conf_files_text(f)),
                None => None,
            },
            assets: Assets::new(),
            triggers_file,
            maintainer_scripts,
            features: match features {
                Some(f) => f,
                None => {
                    let none: Vec<String> = Vec::new();
                    assert(strs(none@) =~= Seq::<Seq<char>>::empty());
                    none
                },
            },
            default_features: match default_features {
                Some(b) => b,
                None => true,
            },
            strip: this.strip,
            separate_debug_symbols: match separate_debug_symbols {
                Some(b) => b,
                None => false,
            },
            preserve_symlinks: match preserve_symlinks {
                Some(b) => b,
                None => false,
            },
            systemd_units,
            deb_name_separator: None,
        };
        let ghost at_take = config;
        let ghost assets_given = assets;
        let found = match take_assets(
            &config,
            this.name.as_str(),
            assets,
            targets,
            match &this.readme {
                Some(r) => Some(r),
                None => None,
            },
        ) {
            Ok(a) => a,
            Err(e) => {
                return Err(e);
            },
        };
        proof {
            lemma_implying_some(config, targets@);
        }
        if found.is_empty() {
            return Err(
                CargoDebError::Str(
                    "No binaries or cdylibs found. The package is empty. Please specify some assets to package in Cargo.toml",
                ),
            );
        }
        let ghost taken = found.resolved@;
        match with_made_assets(config, found, files) {
            Ok(c) => {
                proof {
                    lemma_implying_same(at_take, c, targets@);
                    assert forall|i: int| 0 <= i < taken.len() implies c.assets.resolved@[i]
                        == taken[i] by {
                        assert(c.assets.resolved@.take(taken.len() as int)[i]
                            == c.assets.resolved@[i]);
                    }
                    if assets_given is None {
                        let implied = implying(c, targets@);
                        assert forall|i: int| 0 <= i < implied.len() implies made_from(
                            implied[i],
                            true,
                            #[trigger] c.assets.resolved@[i],
                        ) by {
                            assert(made_from(implied[i], true, taken[i]));
                        }
                        if this.readme is Some {
                            assert(taken.last() == taken[implied.len() as int]);
                        }
                    }
                }
                Ok(c)
            },
            Err(e) => Err(e),
        }
    }
}

/// Gives the configuration its assets, and behind them the copyright file
/// and, where the package has a changelog, the compressed changelog.
fn with_made_assets(config: Config, found: Assets, files: &FileTree) -> (r: CDResult<Config>)
    ensures
        r is Ok <==> made_assets_readable(config, files),
        r matches Err(e) ==> e is IoFile,
        r matches Ok(c) ==> {
            let made: int = if c.changelog is Some {
                2
            } else {
                1
            };
            let n = c.assets.resolved@.len() as int;
            &&& c == (Config { assets: c.assets, ..config })
            &&& c.assets.unresolved == found.unresolved
            &&& n == found.resolved@.len() + made
            &&& c.assets.resolved@.take(found.resolved@.len() as int) == found.resolved@
            &&& c.assets.resolved@[n - made].source matches AssetSource::Data(d)
                && generate_copyright_asset_result(c, files) == Some(d@)
            &&& c.assets.resolved@[n - made].target_path@ == placed(
                None,
                doc_path(c.deb_name@, "copyright"@),
            )
            &&& c.assets.resolved@[n - made].chmod == 0o644
            &&& c.changelog matches Some(path) ==> {
                &&& c.assets.resolved@[n - 1].source matches AssetSource::Data(d) && (
                files.content(path_join(c.manifest_dir@, path@)) matches Some(text) && d@
                    == gzip_of(text))
                &&& c.assets.resolved@[n - 1].target_path@ == placed(
                    None,
                    doc_path(c.deb_name@, "changelog.gz"@),
                )
                &&& c.assets.resolved@[n - 1].chmod == 0o644
            }
        },
{
    let mut config = config;
    let ghost taken = found.resolved@;
    config.assets = found;
    match config.add_copyright_asset(files) {
        Ok(_) => {},
        Err(e) => {
            return Err(e);
        },
    }
    let ghost with_copyright = config.assets.resolved@;
    match config.add_changelog_asset(files) {
        Ok(_) => {},
        Err(e) => {
            return Err(e);
        },
    }
    proof {
        let all = config.assets.resolved@;
        assert(with_copyright.drop_last() == taken);
        if config.changelog is Some {
            assert(all.drop_last() == with_copyright);
            assert(all[all.len() - 2] == with_copyright[with_copyright.len() - 1]);
            assert(all.take(taken.len() as int) =~= taken) by {
                assert forall|i: int| 0 <= i < taken.len() implies all[i] == taken[i] by {
                    assert(all.drop_last()[i] == with_copyright[i]);
                    assert(with_copyright.drop_last()[i] == taken[i]);
                }
            }
        } else {
            assert(all.take(taken.len() as int) =~= taken);
        }
    }
    Ok(config)
}


} // verus!
