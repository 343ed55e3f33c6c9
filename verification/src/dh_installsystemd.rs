//! The systemd support of a package: which unit files it installs, what they
//! ask for, and the script fragments that follow from it.

use crate::autoscripts::autoscript_template;
use crate::classify::{
    asks_install, classify, is_installed_unit, lemma_closed_holds_reached, lemma_reached_step,
    reached, refers, unit_failure, unit_text,
};
use crate::dh_lib::{
    autoscript, autoscript_step, embedded_autoscript, first_file, fragment_key, gathered,
    is_teardown, marked_block, merged, pairs, pkgfile, pkgfile_candidates, substituted,
};
use crate::text::opt_text;
use crate::error::CDResult;
use crate::fragments::ScriptFragments;
use crate::fstree::FileTree;
use crate::listener::Listener;
use crate::manifest::{source_file_name, Asset, AssetSource, SystemdUnitsConfig};
use crate::paths::{join_path, last_component, path_join, path_starts_with, starts_with_path};
use crate::text::{append_str, chars_of, join_all, string_of, text_is, views};
use crate::utf8::{lemma_text_of_encoded, text_of};
use crate::util::{lemma_sorted_unique, strictly_sorted};
use vstd::prelude::*;
use vstd::string::StrSliceExecFns;

verus! {

pub const LIB_SYSTEMD_SYSTEM_DIR: &'static str = "lib/systemd/system/";

pub const USR_LIB_TMPFILES_D_DIR: &'static str = "usr/lib/tmpfiles.d/";

/// Where a unit file goes and with which permission.
#[derive(Debug)]
pub struct InstallRecipe {
    pub path: String,
    pub mode: u32,
}

/// What the generated scripts may do.
#[derive(Default, Debug)]
pub struct Options {
    /// Disable the units on purge, but do not enable them on install.
    pub no_enable: bool,
    /// Do not start the units after an installation or an upgrade.
    pub no_start: bool,
    /// Do not stop a unit until the upgrade is done.
    pub restart_after_upgrade: bool,
    /// Do not stop the units on upgrade.
    pub no_stop_on_upgrade: bool,
}

/// What the configuration of a package says of its units, as options: what
/// is not said counts as allowed, and a restart after the upgrade as wanted.
pub open spec fn options_of(config: SystemdUnitsConfig) -> Options {
    Options {
        no_enable: config.enable == Some(false),
        no_start: config.start == Some(false),
        restart_after_upgrade: config.restart_after_upgrade != Some(false),
        no_stop_on_upgrade: config.stop_on_upgrade == Some(false),
    }
}

impl Options {
    pub fn from_config(config: &SystemdUnitsConfig) -> (r: Options)
        ensures
            r == options_of(*config),
    {
        Options {
            no_enable: match config.enable {
                Some(b) => !b,
                None => false,
            },
            no_start: match config.start {
                Some(b) => !b,
                None => false,
            },
            restart_after_upgrade: match config.restart_after_upgrade {
                Some(b) => b,
                None => true,
            },
            no_stop_on_upgrade: match config.stop_on_upgrade {
                Some(b) => !b,
                None => false,
            },
        }
    }
}

// ---------------------------------------------------------------------------
// Lines of a unit file
// ---------------------------------------------------------------------------

/// A line that starts with `#` or `;` is a comment.
pub open spec fn comment_line(s: Seq<char>) -> bool {
    s.len() > 0 && (s[0] == '#' || s[0] == ';')
}

/// Determine if the given string is a systemd unit file comment line.
pub fn is_comment(s: &str) -> (b: bool)
    ensures
        b == comment_line(s@),
{
    if s.unicode_len() == 0 {
        return false;
    }
    let c = s.get_char(0);
    c == '#' || c == ';'
}

/// `s` without the pair of quotes around it, where it stands between two
/// double quotes or between two single quotes.
pub open spec fn unquoted(s: Seq<char>) -> Seq<char> {
    if s.len() > 1 && ((s[0] == '"' && s.last() == '"') || (s[0] == '\'' && s.last() == '\'')) {
        s.subrange(1, s.len() - 1)
    } else {
        s
    }
}

/// Strip off any first layer of outer quotes according to systemd quoting
/// rules.
pub fn unquote(s: &str) -> (r: &str)
    ensures
        r@ == unquoted(s@),
{
    let n = s.unicode_len();
    if n > 1 {
        let first = s.get_char(0);
        let last = s.get_char(n - 1);
        if (first == '"' && last == '"') || (first == '\'' && last == '\'') {
            return s.substring_char(1, n - 1);
        }
    }
    s
}

// ---------------------------------------------------------------------------
// Unit files among the packaging files
// ---------------------------------------------------------------------------

/// One kind of unit file: what follows the package's name in the file's
/// name, the type, and the directory the file is installed in.
pub open spec fn unit_kinds() -> Seq<(Seq<char>, Seq<char>, Seq<char>)> {
    seq![
        (""@, "mount"@, LIB_SYSTEMD_SYSTEM_DIR@),
        ("@"@, "mount"@, LIB_SYSTEMD_SYSTEM_DIR@),
        (""@, "path"@, LIB_SYSTEMD_SYSTEM_DIR@),
        ("@"@, "path"@, LIB_SYSTEMD_SYSTEM_DIR@),
        (""@, "service"@, LIB_SYSTEMD_SYSTEM_DIR@),
        ("@"@, "service"@, LIB_SYSTEMD_SYSTEM_DIR@),
        (""@, "socket"@, LIB_SYSTEMD_SYSTEM_DIR@),
        ("@"@, "socket"@, LIB_SYSTEMD_SYSTEM_DIR@),
        (""@, "target"@, LIB_SYSTEMD_SYSTEM_DIR@),
        ("@"@, "target"@, LIB_SYSTEMD_SYSTEM_DIR@),
        (""@, "timer"@, LIB_SYSTEMD_SYSTEM_DIR@),
        ("@"@, "timer"@, LIB_SYSTEMD_SYSTEM_DIR@),
        (""@, "tmpfile"@, USR_LIB_TMPFILES_D_DIR@),
    ]
}

fn unit_kind_table() -> (r: Vec<(&'static str, &'static str, &'static str)>)
    ensures
        r@.len() == unit_kinds().len(),
        forall|i: int|
            0 <= i < r@.len() ==> (#[trigger] r@[i]).0@ == unit_kinds()[i].0 && r@[i].1@
                == unit_kinds()[i].1 && r@[i].2@ == unit_kinds()[i].2,
{
    let mut v: Vec<(&'static str, &'static str, &'static str)> = Vec::new();
    v.push(("", "mount", LIB_SYSTEMD_SYSTEM_DIR));
    v.push(("@", "mount", LIB_SYSTEMD_SYSTEM_DIR));
    v.push(("", "path", LIB_SYSTEMD_SYSTEM_DIR));
    v.push(("@", "path", LIB_SYSTEMD_SYSTEM_DIR));
    v.push(("", "service", LIB_SYSTEMD_SYSTEM_DIR));
    v.push(("@", "service", LIB_SYSTEMD_SYSTEM_DIR));
    v.push(("", "socket", LIB_SYSTEMD_SYSTEM_DIR));
    v.push(("@", "socket", LIB_SYSTEMD_SYSTEM_DIR));
    v.push(("", "target", LIB_SYSTEMD_SYSTEM_DIR));
    v.push(("@", "target", LIB_SYSTEMD_SYSTEM_DIR));
    v.push(("", "timer", LIB_SYSTEMD_SYSTEM_DIR));
    v.push(("@", "timer", LIB_SYSTEMD_SYSTEM_DIR));
    v.push(("", "tmpfile", USR_LIB_TMPFILES_D_DIR));
    v
}

/// The extension under which a file of type `unit_type` is installed: a
/// `tmpfile` becomes a `conf`, every other type stays.
pub open spec fn installed_suffix(unit_type: Seq<char>) -> Seq<char> {
    if unit_type == "tmpfile"@ {
        "conf"@
    } else {
        unit_type
    }
}

/// The path at which the unit file of one kind is installed. It is named
/// after the unit where one is named, else after the package.
pub open spec fn install_path(
    kind: (Seq<char>, Seq<char>, Seq<char>),
    main_package: Seq<char>,
    unit_name: Option<Seq<char>>,
) -> Seq<char> {
    let stem = match unit_name {
        Some(name) => name + kind.0,
        None => main_package + kind.0,
    };
    path_join(kind.2, stem + seq!['.'] + installed_suffix(kind.1))
}

/// The unit files that a package brings: the source of each with the path
/// and the mode it is installed with. A source stands once.
pub struct PackageUnitFiles {
    sources: Vec<String>,
    recipes: Vec<InstallRecipe>,
}

/// The index of the first pair whose source is `source`.
pub open spec fn source_index(found: Seq<(Seq<char>, Seq<char>, u32)>, source: Seq<char>) -> int
    decreases found.len(),
{
    if found.len() == 0 {
        0
    } else if found[0].0 == source {
        0
    } else {
        1 + source_index(found.skip(1), source)
    }
}

/// `found` with the recipe for `source` set: in place of an earlier one for
/// the same source, else at the end.
pub open spec fn with_recipe(
    found: Seq<(Seq<char>, Seq<char>, u32)>,
    source: Seq<char>,
    path: Seq<char>,
    mode: u32,
) -> Seq<(Seq<char>, Seq<char>, u32)> {
    let i = source_index(found, source);
    if 0 <= i < found.len() {
        found.update(i, (source, path, mode))
    } else {
        found.push((source, path, mode))
    }
}

/// What the first `n` kinds of unit file bring.
pub open spec fn found_units(
    tree: &FileTree,
    dir: Seq<char>,
    main_package: Seq<char>,
    unit_name: Option<Seq<char>>,
    n: nat,
) -> Seq<(Seq<char>, Seq<char>, u32)>
    decreases n,
{
    if n == 0 || n > unit_kinds().len() {
        Seq::empty()
    } else {
        let before = found_units(tree, dir, main_package, unit_name, (n - 1) as nat);
        let kind = unit_kinds()[n - 1];
        match first_file(
            tree,
            pkgfile_candidates(dir, main_package, main_package + kind.0, kind.1, unit_name),
        ) {
            Some(source) => with_recipe(
                before,
                source,
                install_path(kind, main_package, unit_name),
                0o644,
            ),
            None => before,
        }
    }
}

proof fn lemma_source_index(found: Seq<(Seq<char>, Seq<char>, u32)>, source: Seq<char>, i: int)
    requires
        0 <= i <= found.len(),
        forall|j: int| 0 <= j < i ==> (#[trigger] found[j]).0 != source,
        i < found.len() ==> found[i].0 == source,
    ensures
        source_index(found, source) == i,
    decreases found.len(),
{
    if found.len() > 0 && i > 0 {
        assert(found[0].0 != source);
        assert forall|j: int| 0 <= j < i - 1 implies (#[trigger] found.skip(1)[j]).0 != source by {
            assert(found.skip(1)[j] == found[j + 1]);
        }
        lemma_source_index(found.skip(1), source, i - 1);
    }
}

impl View for PackageUnitFiles {
    type V = Seq<(Seq<char>, Seq<char>, u32)>;

    closed spec fn view(&self) -> Seq<(Seq<char>, Seq<char>, u32)> {
        Seq::new(
            self.sources@.len(),
            |i: int| (self.sources@[i]@, self.recipes@[i].path@, self.recipes@[i].mode),
        )
    }
}

impl PackageUnitFiles {
    pub closed spec fn wf(&self) -> bool {
        self.sources@.len() == self.recipes@.len()
    }

    pub fn new() -> (r: PackageUnitFiles)
        ensures
            r.wf(),
            r@ == Seq::<(Seq<char>, Seq<char>, u32)>::empty(),
    {
        let r = PackageUnitFiles { sources: Vec::new(), recipes: Vec::new() };
        assert(r@ =~= Seq::<(Seq<char>, Seq<char>, u32)>::empty());
        r
    }

    pub fn len(&self) -> (n: usize)
        requires
            self.wf(),
        ensures
            n == self@.len(),
    {
        self.sources.len()
    }

    pub fn is_empty(&self) -> (b: bool)
        requires
            self.wf(),
        ensures
            b == (self@.len() == 0),
    {
        self.sources.len() == 0
    }

    fn position(&self, source: &str) -> (i: usize)
        requires
            self.wf(),
        ensures
            i == source_index(self@, source@),
            i <= self@.len(),
            i < self@.len() ==> self@[i as int].0 == source@,
    {
        let key = chars_of(source);
        let mut i: usize = 0;
        while i < self.sources.len()
            invariant
                self.wf(),
                i <= self.sources.len(),
                key@ == source@,
                forall|j: int| 0 <= j < i ==> (#[trigger] self@[j]).0 != source@,
            decreases self.sources.len() - i,
        {
            if text_is(&key, self.sources[i].as_str()) {
                proof {
                    assert(self@[i as int].0 == source@);
                    lemma_source_index(self@, source@, i as int);
                }
                return i;
            }
            i += 1;
        }
        proof {
            lemma_source_index(self@, source@, i as int);
        }
        i
    }

    /// The recipe for `source`.
    pub fn get(&self, source: &str) -> (r: Option<&InstallRecipe>)
        requires
            self.wf(),
        ensures
            match r {
                Some(recipe) => {
                    let i = source_index(self@, source@);
                    0 <= i < self@.len() && self@[i] == (source@, recipe.path@, recipe.mode)
                },
                None => source_index(self@, source@) == self@.len(),
            },
    {
        let i = self.position(source);
        if i < self.sources.len() {
            Some(&self.recipes[i])
        } else {
            None
        }
    }

    /// The source at place `i`.
    pub fn source_at(&self, i: usize) -> (r: &str)
        requires
            self.wf(),
            i < self@.len(),
        ensures
            r@ == self@[i as int].0,
    {
        self.sources[i].as_str()
    }

    /// The recipe at place `i`.
    pub fn recipe_at(&self, i: usize) -> (r: &InstallRecipe)
        requires
            self.wf(),
            i < self@.len(),
        ensures
            r.path@ == self@[i as int].1,
            r.mode == self@[i as int].2,
    {
        &self.recipes[i]
    }

    /// Sets the recipe for `source`.
    pub fn insert(&mut self, source: String, recipe: InstallRecipe)
        requires
            old(self).wf(),
        ensures
            final(self).wf(),
            final(self)@ == with_recipe(old(self)@, source@, recipe.path@, recipe.mode),
    {
        let i = self.position(source.as_str());
        if i < self.sources.len() {
            self.recipes[i] = recipe;
            assert(self@ =~= with_recipe(old(self)@, source@, recipe.path@, recipe.mode));
        } else {
            self.sources.push(source);
            self.recipes.push(recipe);
            assert(self@ =~= with_recipe(old(self)@, source@, recipe.path@, recipe.mode));
        }
    }
}

/// Find installable systemd unit files for the specified debian package (and
/// optional systemd unit name) in the given directory and return an install
/// recipe for each file detailing the path at which the file should be
/// installed and the mode (chmod) that the file should be given.
pub fn find_units(files: &FileTree, dir: &str, main_package: &str, unit_name: Option<&str>) -> (r:
    PackageUnitFiles)
    ensures
        r.wf(),
        r@ == found_units(
            files,
            dir@,
            main_package@,
            opt_text(unit_name),
            unit_kinds().len(),
        ),
{
    let table = unit_kind_table();
    let mut installables = PackageUnitFiles::new();
    let mut i: usize = 0;
    while i < table.len()
        invariant
            i <= table.len(),
            table@.len() == unit_kinds().len(),
            forall|k: int|
                0 <= k < table@.len() ==> (#[trigger] table@[k]).0@ == unit_kinds()[k].0
                    && table@[k].1@ == unit_kinds()[k].1 && table@[k].2@ == unit_kinds()[k].2,
            installables.wf(),
            installables@ == found_units(
                files,
                dir@,
                main_package@,
                opt_text(unit_name),
                i as nat,
            ),
        decreases table.len() - i,
    {
        let (package_suffix, unit_type, install_dir) = table[i];
        let ghost kind = unit_kinds()[i as int];
        assert(table@[i as int].0@ == kind.0);
        let mut package = chars_of(main_package);
        append_str(&mut package, package_suffix);
        let package = string_of(&package);
        match pkgfile(files, dir, main_package, package.as_str(), unit_type, unit_name) {
            Some(src_path) => {
                let t = chars_of(unit_type);
                let actual_suffix = if text_is(&t, "tmpfile") {
                    "conf"
                } else {
                    unit_type
                };
                let mut install_filename = match unit_name {
                    Some(name) => {
                        let mut v = chars_of(name);
                        append_str(&mut v, package_suffix);
                        v
                    },
                    None => chars_of(package.as_str()),
                };
                install_filename.push('.');
                append_str(&mut install_filename, actual_suffix);
                let install_filename = string_of(&install_filename);
                assert(install_filename@ =~= (match opt_text(unit_name) {
                    Some(name) => name + kind.0,
                    None => main_package@ + kind.0,
                }) + seq!['.'] + installed_suffix(kind.1));
                let path = join_path(install_dir, install_filename.as_str());
                installables.insert(src_path, InstallRecipe { path, mode: 0o644 });
            },
            None => {},
        }
        i += 1;
    }
    installables
}

// ---------------------------------------------------------------------------
// The fragments for the units of a package
// ---------------------------------------------------------------------------

/// The name under which `asset` is handed to `systemd-tmpfiles`: the name of
/// the source file of an asset that goes below the directory for such files.
pub open spec fn tmpfile_name(asset: Asset) -> Option<Seq<char>> {
    if path_starts_with(asset.target_path@, USR_LIB_TMPFILES_D_DIR@) {
        source_file_name(asset.source)
    } else {
        None
    }
}

/// The names of the tmpfiles among `assets`, in their order.
pub open spec fn tmpfile_names(assets: Seq<Asset>) -> Seq<Seq<char>>
    decreases assets.len(),
{
    if assets.len() == 0 {
        Seq::empty()
    } else {
        match tmpfile_name(assets.last()) {
            Some(n) => tmpfile_names(assets.drop_last()).push(n),
            None => tmpfile_names(assets.drop_last()),
        }
    }
}

/// The fragments with one more gathered: the fragment called `snippet`,
/// filled in, for `script`.
pub open spec fn with_snippet(
    m: Map<Seq<char>, Seq<u8>>,
    package: Seq<char>,
    tool: Seq<char>,
    script: Seq<char>,
    snippet: Seq<char>,
    reps: Seq<(Seq<char>, Seq<char>)>,
) -> Map<Seq<char>, Seq<u8>> {
    match autoscript_step(
        m,
        package,
        script,
        marked_block(tool, substituted(embedded_autoscript(snippet), reps)),
    ) {
        Some(next) => next,
        None => m,
    }
}

/// The fragments after `snippet` was gathered for `postinst` once for each
/// of `units`, in their order.
pub open spec fn with_each_unit(
    m: Map<Seq<char>, Seq<u8>>,
    package: Seq<char>,
    tool: Seq<char>,
    snippet: Seq<char>,
    units: Seq<Seq<char>>,
) -> Map<Seq<char>, Seq<u8>>
    decreases units.len(),
{
    if units.len() == 0 {
        m
    } else {
        with_snippet(
            with_each_unit(m, package, tool, snippet, units.drop_last()),
            package,
            tool,
            "postinst"@,
            snippet,
            seq![("UNITFILE"@, units.last())],
        )
    }
}

/// The fragments for a package whose tmpfiles are `tmp`, whose units to
/// enable are `enable` and whose units to start are `start`.
///
/// The tmpfiles are created in `postinst`. Each unit to enable is enabled in
/// `postinst`, or only noted where `no_enable` is set, and all of them are
/// masked and purged in `postrm`. The units to start are started or
/// restarted in `postinst` and stopped in `prerm` as the options say, and
/// `postrm` reloads the daemon.
pub open spec fn generated(
    package: Seq<char>,
    tool: Seq<char>,
    options: Options,
    tmp: Seq<Seq<char>>,
    enable: Seq<Seq<char>>,
    start: Seq<Seq<char>>,
) -> Map<Seq<char>, Seq<u8>> {
    let m0 = Map::<Seq<char>, Seq<u8>>::empty();
    let tmp_names = join_all(tmp, " "@);
    let m1 = if tmp_names.len() > 0 {
        with_snippet(
            m0,
            package,
            tool,
            "postinst"@,
            "postinst-init-tmpfiles"@,
            seq![("TMPFILES"@, tmp_names)],
        )
    } else {
        m0
    };
    let m2 = if enable.len() > 0 {
        let snippet = if options.no_enable {
            "postinst-systemd-dont-enable"@
        } else {
            "postinst-systemd-enable"@
        };
        with_snippet(
            with_each_unit(m1, package, tool, snippet, enable),
            package,
            tool,
            "postrm"@,
            "postrm-systemd"@,
            seq![("UNITFILES"@, join_all(enable, " "@))],
        )
    } else {
        m1
    };
    if start.len() > 0 {
        let units = ("UNITFILES"@, join_all(start, " "@));
        let reps = if options.no_stop_on_upgrade {
            if options.no_start {
                seq![units, ("RESTART_ACTION"@, "try-restart"@)]
            } else {
                seq![units, ("RESTART_ACTION"@, "restart"@)]
            }
        } else {
            seq![units]
        };
        let a = if options.no_stop_on_upgrade {
            if options.no_start {
                with_snippet(
                    m2,
                    package,
                    tool,
                    "postinst"@,
                    "postinst-systemd-restartnostart"@,
                    reps,
                )
            } else {
                with_snippet(m2, package, tool, "postinst"@, "postinst-systemd-restart"@, reps)
            }
        } else if !options.no_start {
            with_snippet(m2, package, tool, "postinst"@, "postinst-systemd-start"@, reps)
        } else {
            m2
        };
        let b = if options.no_stop_on_upgrade || options.restart_after_upgrade {
            with_snippet(a, package, tool, "prerm"@, "prerm-systemd-restart"@, reps)
        } else if !options.no_start {
            with_snippet(a, package, tool, "prerm"@, "prerm-systemd"@, reps)
        } else {
            a
        };
        with_snippet(b, package, tool, "postrm"@, "postrm-systemd-reload-only"@, reps)
    } else {
        m2
    }
}

/// Everything gathered is UTF-8.
pub open spec fn all_text(m: Map<Seq<char>, Seq<u8>>) -> bool {
    forall|k: Seq<char>| m.contains_key(k) ==> text_of(#[trigger] m[k]) is Some
}

proof fn lemma_step_keeps_text(
    m: Map<Seq<char>, Seq<u8>>,
    package: Seq<char>,
    script: Seq<char>,
    block: Seq<char>,
)
    requires
        all_text(m),
    ensures
        autoscript_step(m, package, script, block) is Some,
        all_text(autoscript_step(m, package, script, block)->0),
{
    let key = crate::dh_lib::fragment_key(package, script);
    if !m.contains_key(key) {
        lemma_text_of_encoded(Seq::<char>::empty());
        assert(vstd::utf8::encode_utf8(Seq::<char>::empty()) =~= Seq::<u8>::empty());
    }
    let t = text_of(crate::dh_lib::gathered(m, key))->0;
    lemma_text_of_encoded(crate::dh_lib::merged(t, script, block));
}

fn gather<L: Listener + ?Sized>(
    scripts: &mut ScriptFragments,
    package: &str,
    script: &str,
    snippet: &str,
    replacements: &Vec<(String, String)>,
    tool: &str,
    listener: &mut L,
)
    requires
        old(scripts).wf(),
        all_text(old(scripts)@),
        autoscript_template(snippet@) is Some,
        replacements@.len() > 0,
    ensures
        final(scripts).wf(),
        all_text(final(scripts)@),
        final(scripts)@ == with_snippet(
            old(scripts)@,
            package@,
            tool@,
            script@,
            snippet@,
            pairs(replacements@),
        ),
{
    proof {
        lemma_step_keeps_text(
            scripts@,
            package@,
            script@,
            marked_block(
                tool@,
                substituted(embedded_autoscript(snippet@), pairs(replacements@)),
            ),
        );
    }
    match autoscript(scripts, package, script, snippet, replacements, tool, listener) {
        Ok(_) => {},
        Err(_) => {},
    }
}

fn one_pair(key: &str, value: &str) -> (r: Vec<(String, String)>)
    ensures
        pairs(r@) == seq![(key@, value@)],
        r@.len() == 1,
{
    let mut v: Vec<(String, String)> = Vec::new();
    v.push((key.to_owned(), value.to_owned()));
    assert(pairs(v@) =~= seq![(key@, value@)]);
    v
}

/// The rising sequence that holds exactly the texts of `s`.
pub open spec fn in_order(s: Set<Seq<char>>) -> Seq<Seq<char>> {
    choose|q: Seq<Seq<char>>| strictly_sorted(q) && q.to_set() == s
}

/// The units to start, in rising order.
pub open spec fn start_units(assets: Seq<Asset>, files: &FileTree) -> Seq<Seq<char>> {
    in_order(Set::new(|u: Seq<char>| reached(assets, files, u)))
}

/// The units to enable, in rising order.
pub open spec fn enable_units(assets: Seq<Asset>, files: &FileTree) -> Seq<Seq<char>> {
    in_order(Set::new(|u: Seq<char>| reached(assets, files, u) && asks_install(assets, files, u)))
}

proof fn lemma_in_order(q: Seq<Seq<char>>, s: Set<Seq<char>>)
    requires
        strictly_sorted(q),
        q.to_set() == s,
    ensures
        in_order(s) == q,
{
    lemma_sorted_unique(in_order(s), q);
}

fn tmpfile_names_of(assets: &Vec<Asset>) -> (r: Vec<Vec<char>>)
    ensures
        views(r@) == tmpfile_names(assets@),
{
    let mut names: Vec<Vec<char>> = Vec::new();
    let mut i: usize = 0;
    assert(views(names@) =~= tmpfile_names(assets@.take(0)));
    while i < assets.len()
        invariant
            i <= assets.len(),
            views(names@) == tmpfile_names(assets@.take(i as int)),
        decreases assets.len() - i,
    {
        let ghost before = views(names@);
        proof {
            let next = assets@.take(i + 1);
            assert(next.drop_last() == assets@.take(i as int));
            assert(next.last() == assets@[i as int]);
        }
        if starts_with_path(assets[i].target_path.as_str(), USR_LIB_TMPFILES_D_DIR) {
            match &assets[i].source {
                AssetSource::Path(p) => match last_component(p.as_str()) {
                    Some(n) => {
                        names.push(chars_of(n.as_str()));
                        assert(views(names@) =~= before.push(n@));
                    },
                    None => {},
                },
                AssetSource::Data(_) => {},
            }
        }
        i += 1;
    }
    assert(assets@.take(assets.len() as int) == assets@);
    names
}

/// Finds the units that the package installs and gathers the fragments that
/// enable, start, stop and restart them as `options` say. `tool` is the name
/// that the fragments give as their origin, and the contents of an asset that
/// is a path are taken from `files`.
///
/// Pass the result to `apply()`.
#[verifier::loop_isolation(false)]
pub fn generate<L: Listener + ?Sized>(
    package: &str,
    assets: &Vec<Asset>,
    options: &Options,
    files: &FileTree,
    tool: &str,
    listener: &mut L,
) -> (r: CDResult<ScriptFragments>)
    ensures
        match r {
            Ok(scripts) => scripts.wf() && all_text(scripts@) && scripts@ == generated(
                package@,
                tool@,
                *options,
                tmpfile_names(assets@),
                enable_units(assets@, files),
                start_units(assets@, files),
            ) && forall|u: Seq<char>|
                reached(assets@, files, u) ==> #[trigger] unit_text(assets@, files, u) is Some,
            Err(e) => exists|u: Seq<char>|
                reached(assets@, files, u) && unit_text(assets@, files, u) is None
                    && #[trigger] unit_failure(assets@, files, u, e),
        },
{
    let mut scripts = ScriptFragments::new();

    // add postinst code blocks to handle tmpfiles
    let names = tmpfile_names_of(assets);
    let mut space: Vec<char> = Vec::new();
    space.push(' ');
    proof {
        reveal_strlit(" ");
        assert(space@ =~= " "@);
    }
    let tmp_file_names = crate::text::join(&names, &space);
    if tmp_file_names.len() > 0 {
        let reps = one_pair("TMPFILES", string_of(&tmp_file_names).as_str());
        gather(&mut scripts, package, "postinst", "postinst-init-tmpfiles", &reps, tool, listener);
    }
    let ghost m1 = scripts@;

    // find the units and what they ask for
    let classes = match classify(assets, files, listener) {
        Ok(c) => c,
        Err(e) => {
            return Err(e);
        },
    };
    let enable_list = classes.enable_units;
    let start_list = classes.start_units;
    proof {
        assert(enable_list.set() =~= Set::new(
            |u: Seq<char>| reached(assets@, files, u) && asks_install(assets@, files, u),
        ));
        assert(start_list.set() =~= Set::new(|u: Seq<char>| reached(assets@, files, u)));
        lemma_in_order(
            enable_list@,
            Set::new(|u: Seq<char>| reached(assets@, files, u) && asks_install(assets@, files, u)),
        );
        lemma_in_order(start_list@, Set::new(|u: Seq<char>| reached(assets@, files, u)));
    }

    // enable the units unless the options forbid it
    if !enable_list.is_empty() {
        let snippet = if options.no_enable {
            "postinst-systemd-dont-enable"
        } else {
            "postinst-systemd-enable"
        };
        let mut k: usize = 0;
        while k < enable_list.len()
            invariant
                k <= enable_list@.len(),
                scripts.wf(),
                all_text(scripts@),
                scripts@ == with_each_unit(m1, package@, tool@, snippet@, enable_list@.take(k as int)),
            decreases enable_list@.len() - k,
        {
            proof {
                let next = enable_list@.take(k + 1);
                assert(next.drop_last() == enable_list@.take(k as int));
                assert(next.last() == enable_list@[k as int]);
            }
            let unit = enable_list.get(k);
            let reps = one_pair("UNITFILE", unit.as_str());
            gather(&mut scripts, package, "postinst", snippet, &reps, tool, listener);
            k += 1;
        }
        assert(enable_list@.take(enable_list@.len() as int) == enable_list@);
        let reps = one_pair("UNITFILES", enable_list.join(" ").as_str());
        gather(&mut scripts, package, "postrm", "postrm-systemd", &reps, tool, listener);
    }

    // start the units as the options say
    if !start_list.is_empty() {
        let mut replace = one_pair("UNITFILES", start_list.join(" ").as_str());
        let ghost units = ("UNITFILES"@, join_all(start_list@, " "@));
        if options.no_stop_on_upgrade {
            if options.no_start {
                replace.push(("RESTART_ACTION".to_owned(), "try-restart".to_owned()));
                assert(pairs(replace@) =~= seq![units, ("RESTART_ACTION"@, "try-restart"@)]);
                gather(
                    &mut scripts,
                    package,
                    "postinst",
                    "postinst-systemd-restartnostart",
                    &replace,
                    tool,
                    listener,
                );
            } else {
                replace.push(("RESTART_ACTION".to_owned(), "restart".to_owned()));
                assert(pairs(replace@) =~= seq![units, ("RESTART_ACTION"@, "restart"@)]);
                gather(
                    &mut scripts,
                    package,
                    "postinst",
                    "postinst-systemd-restart",
                    &replace,
                    tool,
                    listener,
                );
            }
        } else if !options.no_start {
            // (stop|start) service (before|after) upgrade
            gather(
                &mut scripts,
                package,
                "postinst",
                "postinst-systemd-start",
                &replace,
                tool,
                listener,
            );
        }
        if options.no_stop_on_upgrade || options.restart_after_upgrade {
            // stop service only on remove
            gather(
                &mut scripts,
                package,
                "prerm",
                "prerm-systemd-restart",
                &replace,
                tool,
                listener,
            );
        } else if !options.no_start {
            // always stop service
            gather(&mut scripts, package, "prerm", "prerm-systemd", &replace, tool, listener);
        }
        // Last, so that it always comes after the other fragments for units.
        gather(
            &mut scripts,
            package,
            "postrm",
            "postrm-systemd-reload-only",
            &replace,
            tool,
            listener,
        );
    }
    Ok(scripts)
}

// ---------------------------------------------------------------------------
// What is generated, script by script
// ---------------------------------------------------------------------------

/// The fragment called `snippet`, filled in and marked as added by `tool`.
pub open spec fn snippet_block(
    tool: Seq<char>,
    snippet: Seq<char>,
    reps: Seq<(Seq<char>, Seq<char>)>,
) -> Seq<char> {
    marked_block(tool, substituted(embedded_autoscript(snippet), reps))
}

/// What is gathered for `script` of `package`, as text.
pub open spec fn script_text(m: Map<Seq<char>, Seq<u8>>, package: Seq<char>, script: Seq<char>) -> Option<
    Seq<char>,
> {
    text_of(gathered(m, fragment_key(package, script)))
}

/// The fragment called `snippet` once for each of `units`, in their order,
/// each time filled in with the unit as `UNITFILE`.
pub open spec fn unit_blocks(tool: Seq<char>, snippet: Seq<char>, units: Seq<Seq<char>>) -> Seq<
    char,
>
    decreases units.len(),
{
    if units.len() == 0 {
        Seq::empty()
    } else {
        unit_blocks(tool, snippet, units.drop_last()) + snippet_block(
            tool,
            snippet,
            seq![("UNITFILE"@, units.last())],
        )
    }
}

/// The fragment called `snippet` filled in with the units, joined by
/// blanks, as `UNITFILES`; nothing where there is no unit.
pub open spec fn units_block(tool: Seq<char>, snippet: Seq<char>, units: Seq<Seq<char>>) -> Seq<
    char,
> {
    if units.len() > 0 {
        snippet_block(tool, snippet, seq![("UNITFILES"@, join_all(units, " "@))])
    } else {
        Seq::empty()
    }
}

/// The fragment that creates the tmpfiles; nothing where there is none.
pub open spec fn tmpfiles_block(tool: Seq<char>, tmp: Seq<Seq<char>>) -> Seq<char> {
    if join_all(tmp, " "@).len() > 0 {
        snippet_block(tool, "postinst-init-tmpfiles"@, seq![("TMPFILES"@, join_all(tmp, " "@))])
    } else {
        Seq::empty()
    }
}

proof fn lemma_fragment_keys_differ(package: Seq<char>, a: Seq<char>, b: Seq<char>)
    requires
        a != b,
    ensures
        fragment_key(package, a) != fragment_key(package, b),
{
    let ka = fragment_key(package, a);
    let kb = fragment_key(package, b);
    if ka == kb {
        assert(ka.len() == package.len() + 1 + a.len() + ".debhelper"@.len());
        assert(kb.len() == package.len() + 1 + b.len() + ".debhelper"@.len());
        assert forall|i: int| 0 <= i < a.len() implies a[i] == b[i] by {
            assert(ka[package.len() + 1 + i] == a[i]);
            assert(kb[package.len() + 1 + i] == b[i]);
        }
        assert(a =~= b);
    }
}

proof fn lemma_nothing_gathered_is_text(m: Map<Seq<char>, Seq<u8>>, package: Seq<char>, script: Seq<char>)
    requires
        all_text(m),
    ensures
        script_text(m, package, script) is Some,
        !m.contains_key(fragment_key(package, script)) ==> script_text(m, package, script) == Some(
            Seq::<char>::empty(),
        ),
{
    if !m.contains_key(fragment_key(package, script)) {
        lemma_text_of_encoded(Seq::<char>::empty());
        assert(vstd::utf8::encode_utf8(Seq::<char>::empty()) =~= Seq::<u8>::empty());
    }
}

/// Gathering a fragment for a script joins its block to the text of that
/// script and leaves the other scripts as they are.
proof fn lemma_with_snippet(
    m: Map<Seq<char>, Seq<u8>>,
    package: Seq<char>,
    tool: Seq<char>,
    script: Seq<char>,
    snippet: Seq<char>,
    reps: Seq<(Seq<char>, Seq<char>)>,
)
    requires
        all_text(m),
    ensures
        all_text(with_snippet(m, package, tool, script, snippet, reps)),
        script_text(m, package, script) is Some,
        script_text(with_snippet(m, package, tool, script, snippet, reps), package, script) == Some(
            merged(
                script_text(m, package, script)->0,
                script,
                snippet_block(tool, snippet, reps),
            ),
        ),
        forall|other: Seq<char>|
            other != script ==> #[trigger] script_text(
                with_snippet(m, package, tool, script, snippet, reps),
                package,
                other,
            ) == script_text(m, package, other),
{
    let block = snippet_block(tool, snippet, reps);
    lemma_step_keeps_text(m, package, script, block);
    lemma_nothing_gathered_is_text(m, package, script);
    let t = script_text(m, package, script)->0;
    lemma_text_of_encoded(merged(t, script, block));
    let r = with_snippet(m, package, tool, script, snippet, reps);
    assert forall|other: Seq<char>| other != script implies #[trigger] script_text(
        r,
        package,
        other,
    ) == script_text(m, package, other) by {
        lemma_fragment_keys_differ(package, other, script);
    }
}

proof fn lemma_with_each_unit(
    m: Map<Seq<char>, Seq<u8>>,
    package: Seq<char>,
    tool: Seq<char>,
    snippet: Seq<char>,
    units: Seq<Seq<char>>,
)
    requires
        all_text(m),
    ensures
        all_text(with_each_unit(m, package, tool, snippet, units)),
        script_text(m, package, "postinst"@) is Some,
        script_text(with_each_unit(m, package, tool, snippet, units), package, "postinst"@) == Some(
            script_text(m, package, "postinst"@)->0 + unit_blocks(tool, snippet, units),
        ),
        forall|other: Seq<char>|
            other != "postinst"@ ==> #[trigger] script_text(
                with_each_unit(m, package, tool, snippet, units),
                package,
                other,
            ) == script_text(m, package, other),
    decreases units.len(),
{
    lemma_nothing_gathered_is_text(m, package, "postinst"@);
    lemma_script_names();
    let before = script_text(m, package, "postinst"@)->0;
    if units.len() == 0 {
        assert(before + unit_blocks(tool, snippet, units) =~= before);
    } else {
        let rest = with_each_unit(m, package, tool, snippet, units.drop_last());
        lemma_with_each_unit(m, package, tool, snippet, units.drop_last());
        let reps = seq![("UNITFILE"@, units.last())];
        lemma_with_snippet(rest, package, tool, "postinst"@, snippet, reps);
        let r = with_snippet(rest, package, tool, "postinst"@, snippet, reps);
        assert((before + unit_blocks(tool, snippet, units.drop_last())) + snippet_block(
            tool,
            snippet,
            reps,
        ) =~= before + unit_blocks(tool, snippet, units));
        assert forall|other: Seq<char>| other != "postinst"@ implies #[trigger] script_text(
            r,
            package,
            other,
        ) == script_text(m, package, other) by {
            assert(script_text(rest, package, other) == script_text(m, package, other));
        }
    }
}

/// The names of the three scripts differ, and `postinst` is the one that
/// does not undo an installation.
proof fn lemma_script_names()
    ensures
        "postinst"@ != "postrm"@,
        "postinst"@ != "prerm"@,
        "postrm"@ != "prerm"@,
        !is_teardown("postinst"@),
        is_teardown("postrm"@),
        is_teardown("prerm"@),
{
    reveal_strlit("postinst");
    reveal_strlit("postrm");
    reveal_strlit("prerm");
    assert("postinst"@.len() == 8);
    assert("postrm"@.len() == 6);
    assert("prerm"@.len() == 5);
}

/// What is generated where units may be enabled, started and stopped on
/// upgrade, script by script.
///
/// `postinst` creates the tmpfiles, enables each unit to enable in turn and
/// then starts the units to start, all in one block. `postrm` reloads the
/// daemon where there is a unit to start, and behind that block masks and
/// purges the units to enable, all in one block. `prerm` stops the units to
/// start.
pub proof fn lemma_generated_scripts(
    package: Seq<char>,
    tool: Seq<char>,
    options: Options,
    tmp: Seq<Seq<char>>,
    enable: Seq<Seq<char>>,
    start: Seq<Seq<char>>,
)
    requires
        !options.no_enable,
        !options.no_start,
        !options.no_stop_on_upgrade,
    ensures
        script_text(generated(package, tool, options, tmp, enable, start), package, "postinst"@)
            == Some(
            tmpfiles_block(tool, tmp) + unit_blocks(tool, "postinst-systemd-enable"@, enable)
                + units_block(tool, "postinst-systemd-start"@, start),
        ),
        script_text(generated(package, tool, options, tmp, enable, start), package, "postrm"@)
            == Some(
            units_block(tool, "postrm-systemd-reload-only"@, start) + units_block(
                tool,
                "postrm-systemd"@,
                enable,
            ),
        ),
        script_text(generated(package, tool, options, tmp, enable, start), package, "prerm"@)
            == Some(
            units_block(
                tool,
                if options.restart_after_upgrade {
                    "prerm-systemd-restart"@
                } else {
                    "prerm-systemd"@
                },
                start,
            ),
        ),
{
    lemma_script_names();
    let none = Seq::<char>::empty();
    let m0 = Map::<Seq<char>, Seq<u8>>::empty();
    assert(all_text(m0));
    lemma_nothing_gathered_is_text(m0, package, "postinst"@);
    lemma_nothing_gathered_is_text(m0, package, "postrm"@);
    lemma_nothing_gathered_is_text(m0, package, "prerm"@);
    let tmp_names = join_all(tmp, " "@);
    let tmp_reps = seq![("TMPFILES"@, tmp_names)];
    let m1 = if tmp_names.len() > 0 {
        with_snippet(m0, package, tool, "postinst"@, "postinst-init-tmpfiles"@, tmp_reps)
    } else {
        m0
    };
    if tmp_names.len() > 0 {
        lemma_with_snippet(m0, package, tool, "postinst"@, "postinst-init-tmpfiles"@, tmp_reps);
        assert(none + tmpfiles_block(tool, tmp) =~= tmpfiles_block(tool, tmp));
    }
    assert(all_text(m1));
    assert(script_text(m1, package, "postinst"@) == Some(tmpfiles_block(tool, tmp)));
    assert(script_text(m1, package, "postrm"@) == Some(none));
    assert(script_text(m1, package, "prerm"@) == Some(none));

    let enable_reps = seq![("UNITFILES"@, join_all(enable, " "@))];
    let each = with_each_unit(m1, package, tool, "postinst-systemd-enable"@, enable);
    let m2 = if enable.len() > 0 {
        with_snippet(each, package, tool, "postrm"@, "postrm-systemd"@, enable_reps)
    } else {
        m1
    };
    let p2 = tmpfiles_block(tool, tmp) + unit_blocks(tool, "postinst-systemd-enable"@, enable);
    let r2 = units_block(tool, "postrm-systemd"@, enable);
    if enable.len() > 0 {
        lemma_with_each_unit(m1, package, tool, "postinst-systemd-enable"@, enable);
        lemma_with_snippet(each, package, tool, "postrm"@, "postrm-systemd"@, enable_reps);
        assert(script_text(each, package, "postrm"@) == Some(none));
        assert(r2 + none =~= r2);
        assert(script_text(m2, package, "postinst"@) == script_text(each, package, "postinst"@));
        assert(script_text(m2, package, "prerm"@) == script_text(each, package, "prerm"@));
    } else {
        assert(p2 =~= tmpfiles_block(tool, tmp));
    }
    assert(all_text(m2));
    assert(script_text(m2, package, "postinst"@) == Some(p2));
    assert(script_text(m2, package, "postrm"@) == Some(r2));
    assert(script_text(m2, package, "prerm"@) == Some(none));

    let g = generated(package, tool, options, tmp, enable, start);
    if start.len() > 0 {
        let reps = seq![("UNITFILES"@, join_all(start, " "@))];
        let a = with_snippet(m2, package, tool, "postinst"@, "postinst-systemd-start"@, reps);
        lemma_with_snippet(m2, package, tool, "postinst"@, "postinst-systemd-start"@, reps);
        let stop = if options.restart_after_upgrade {
            "prerm-systemd-restart"@
        } else {
            "prerm-systemd"@
        };
        let b = with_snippet(a, package, tool, "prerm"@, stop, reps);
        lemma_with_snippet(a, package, tool, "prerm"@, stop, reps);
        lemma_with_snippet(b, package, tool, "postrm"@, "postrm-systemd-reload-only"@, reps);
        assert(g == with_snippet(b, package, tool, "postrm"@, "postrm-systemd-reload-only"@, reps));
        assert(script_text(a, package, "prerm"@) == Some(none));
        assert(script_text(b, package, "postinst"@) == script_text(a, package, "postinst"@));
        assert(script_text(g, package, "postinst"@) == script_text(b, package, "postinst"@));
        assert(script_text(b, package, "postrm"@) == script_text(a, package, "postrm"@));
        assert(script_text(a, package, "postrm"@) == Some(r2));
        assert(script_text(g, package, "prerm"@) == script_text(b, package, "prerm"@));
        assert(units_block(tool, stop, start) + none =~= units_block(tool, stop, start));
    } else {
        assert(g == m2);
        assert(p2 + none =~= p2);
        assert(none + r2 =~= r2);
    }
}

/// The units to start and to enable are what a walk over the unit files
/// finds: where `start` holds every installed unit and every unit that one
/// of its units names, and only reached units, it is the list of the units
/// to start; those of them with an `[Install]` section are the units to
/// enable. Each unit stands in a list once.
pub proof fn lemma_units_found(
    assets: Seq<Asset>,
    files: &FileTree,
    start: Seq<Seq<char>>,
    enable: Seq<Seq<char>>,
)
    requires
        strictly_sorted(start),
        strictly_sorted(enable),
        forall|u: Seq<char>| is_installed_unit(assets, u) ==> start.contains(u),
        forall|u: Seq<char>| start.contains(u) ==> reached(assets, files, u),
        forall|w: Seq<char>, x: Seq<char>|
            start.contains(w) && #[trigger] refers(assets, files, w, x) ==> start.contains(x),
        forall|u: Seq<char>|
            enable.contains(u) <==> start.contains(u) && asks_install(assets, files, u),
    ensures
        start_units(assets, files) == start,
        enable_units(assets, files) == enable,
        start.no_duplicates(),
        enable.no_duplicates(),
{
    let all = Set::new(|u: Seq<char>| reached(assets, files, u));
    let some = Set::new(|u: Seq<char>| reached(assets, files, u) && asks_install(assets, files, u));
    assert forall|u: Seq<char>| reached(assets, files, u) implies start.contains(u) by {
        let n = choose|n: nat| crate::classify::reached_in(assets, files, u, n);
        lemma_closed_holds_reached(assets, files, start.to_set(), u, n);
    }
    assert(start.to_set() =~= all);
    assert(enable.to_set() =~= some);
    lemma_in_order(start, all);
    lemma_in_order(enable, some);
    crate::util::lemma_sorted_holds_each_once(start);
    crate::util::lemma_sorted_holds_each_once(enable);
}

/// A package with one unit, whose file has an `[Install]` section and
/// names no other unit: the unit is enabled and started in `postinst`, and
/// `postrm` masks and purges the same unit.
pub proof fn lemma_unit_with_install_section(
    package: Seq<char>,
    tool: Seq<char>,
    options: Options,
    assets: Seq<Asset>,
    files: &FileTree,
    u: Seq<char>,
)
    requires
        !options.no_enable,
        !options.no_start,
        !options.no_stop_on_upgrade,
        is_installed_unit(assets, u),
        forall|v: Seq<char>| is_installed_unit(assets, v) ==> v == u,
        asks_install(assets, files, u),
        forall|v: Seq<char>| refers(assets, files, u, v) ==> v == u,
    ensures
        enable_units(assets, files) == seq![u],
        start_units(assets, files) == seq![u],
        script_text(
            generated(
                package,
                tool,
                options,
                tmpfile_names(assets),
                enable_units(assets, files),
                start_units(assets, files),
            ),
            package,
            "postinst"@,
        ) == Some(
            tmpfiles_block(tool, tmpfile_names(assets)) + snippet_block(
                tool,
                "postinst-systemd-enable"@,
                seq![("UNITFILE"@, u)],
            ) + snippet_block(tool, "postinst-systemd-start"@, seq![("UNITFILES"@, u)]),
        ),
        script_text(
            generated(
                package,
                tool,
                options,
                tmpfile_names(assets),
                enable_units(assets, files),
                start_units(assets, files),
            ),
            package,
            "postrm"@,
        ) == Some(
            snippet_block(tool, "postrm-systemd-reload-only"@, seq![("UNITFILES"@, u)])
                + snippet_block(tool, "postrm-systemd"@, seq![("UNITFILES"@, u)]),
        ),
{
    let one = seq![u];
    assert(one.contains(u)) by {
        assert(one[0] == u);
    }
    assert(crate::classify::reached_in(assets, files, u, 0));
    lemma_units_found(assets, files, one, one);
    lemma_generated_scripts(package, tool, options, tmpfile_names(assets), one, one);
    assert(one.drop_last() =~= Seq::<Seq<char>>::empty());
    assert(one.last() == u);
    assert(unit_blocks(tool, "postinst-systemd-enable"@, one.drop_last()) =~= Seq::<char>::empty());
    assert(join_all(one, " "@) == u);
    assert(unit_blocks(tool, "postinst-systemd-enable"@, one) =~= snippet_block(
        tool,
        "postinst-systemd-enable"@,
        seq![("UNITFILE"@, u)],
    ));
}

/// A package with two units that name each other: both are started, each
/// once, and `postinst` ends with the one block that starts both.
pub proof fn lemma_two_units_in_a_circle(
    package: Seq<char>,
    tool: Seq<char>,
    options: Options,
    assets: Seq<Asset>,
    files: &FileTree,
    a: Seq<char>,
    b: Seq<char>,
)
    requires
        !options.no_enable,
        !options.no_start,
        !options.no_stop_on_upgrade,
        crate::text::text_before(a, b),
        is_installed_unit(assets, a),
        forall|v: Seq<char>| is_installed_unit(assets, v) ==> v == a || v == b,
        refers(assets, files, a, b),
        refers(assets, files, b, a),
        forall|v: Seq<char>| refers(assets, files, a, v) ==> v == a || v == b,
        forall|v: Seq<char>| refers(assets, files, b, v) ==> v == a || v == b,
    ensures
        start_units(assets, files) == seq![a, b],
        script_text(
            generated(
                package,
                tool,
                options,
                tmpfile_names(assets),
                enable_units(assets, files),
                start_units(assets, files),
            ),
            package,
            "postinst"@,
        ) == Some(
            tmpfiles_block(tool, tmpfile_names(assets)) + unit_blocks(
                tool,
                "postinst-systemd-enable"@,
                enable_units(assets, files),
            ) + snippet_block(
                tool,
                "postinst-systemd-start"@,
                seq![("UNITFILES"@, a + " "@ + b)],
            ),
        ),
{
    let both = seq![a, b];
    assert(both[0] == a && both[1] == b);
    assert(crate::classify::reached_in(assets, files, a, 0));
    lemma_reached_step(assets, files, a, b);
    let wanted = both.filter(|u: Seq<char>| asks_install(assets, files, u));
    lemma_filter_keeps_order(both, |u: Seq<char>| asks_install(assets, files, u));
    lemma_units_found(assets, files, both, wanted);
    lemma_generated_scripts(
        package,
        tool,
        options,
        tmpfile_names(assets),
        enable_units(assets, files),
        both,
    );
    assert(both.drop_last() =~= seq![a]);
    assert(both.last() == b);
    assert(join_all(seq![a], " "@) == a) by {
        assert(seq![a][0] == a);
    }
    assert(join_all(both, " "@) =~= a + " "@ + b);
}

/// What is left of a rising list after some of its texts are taken out
/// rises, and holds the texts that were not taken out.
proof fn lemma_filter_keeps_order(s: Seq<Seq<char>>, keep: spec_fn(Seq<char>) -> bool)
    requires
        strictly_sorted(s),
    ensures
        strictly_sorted(s.filter(keep)),
        forall|u: Seq<char>| s.filter(keep).contains(u) <==> s.contains(u) && keep(u),
    decreases s.len(),
{
    reveal(Seq::filter);
    if s.len() > 0 {
        let rest = s.drop_last();
        lemma_filter_keeps_order(rest, keep);
        let f = s.filter(keep);
        let fr = rest.filter(keep);
        assert forall|u: Seq<char>| f.contains(u) <==> s.contains(u) && keep(u) by {
            if f.contains(u) {
                let i = choose|i: int| 0 <= i < f.len() && f[i] == u;
                if i < fr.len() {
                    assert(fr.contains(u));
                    assert(rest.contains(u));
                    let k = choose|k: int| 0 <= k < rest.len() && rest[k] == u;
                    assert(s[k] == u);
                } else {
                    assert(u == s.last());
                    assert(s[s.len() - 1] == u);
                }
            }
            if s.contains(u) && keep(u) {
                let k = choose|k: int| 0 <= k < s.len() && s[k] == u;
                if k < rest.len() {
                    assert(rest[k] == u);
                    assert(rest.contains(u));
                    assert(fr.contains(u));
                    let i = choose|i: int| 0 <= i < fr.len() && fr[i] == u;
                    assert(f[i] == u);
                } else {
                    assert(f[f.len() - 1] == u);
                }
            }
        }
        assert forall|i: int, j: int| 0 <= i < j < f.len() implies crate::text::text_before(
            #[trigger] f[i],
            #[trigger] f[j],
        ) by {
            if j < fr.len() {
                assert(fr[i] == f[i] && fr[j] == f[j]);
            } else {
                assert(f[j] == s.last());
                assert(fr[i] == f[i]);
                assert(fr.contains(f[i]));
                assert(rest.contains(f[i]));
                let k = choose|k: int| 0 <= k < rest.len() && rest[k] == f[i];
                assert(crate::text::text_before(s[k], s[s.len() - 1]));
            }
        }
    }
}


} // verus!
