//! What the unit files of a package ask for.
//!
//! The units that a package installs, and every unit that one of them names
//! in an `Also=` line, are to be started. Those whose file has an `[Install]`
//! section are to be enabled as well.

use crate::dh_installsystemd::{comment_line, unquoted, LIB_SYSTEMD_SYSTEM_DIR};
use crate::error::{CDResult, CargoDebError};
use crate::fstree::FileTree;
use crate::listener::Listener;
use crate::manifest::Asset;
use crate::paths::{
    file_name, join_path, last_component, path_join, path_starts_with, paths_equal, same_path,
    starts_with_path,
};
use crate::text::{
    append_copy, chars_of, contains_char, copy_range, first_index_of, has_prefix, index_of, lines,
    lines_of, starts_with, string_of, strs, text_is, trim, trimmed, views,
};
use crate::utf8::{decode, text_of};
use crate::util::StringSet;
use vstd::prelude::*;

verus! {

// ---------------------------------------------------------------------------
// One unit file
// ---------------------------------------------------------------------------

/// What a line of a unit file says, as far as it matters here.
pub enum UnitLine {
    /// `Also=` names another unit.
    Also(Seq<char>),
    /// `Alias=` gives the unit another name.
    Alias(Seq<char>),
    /// The line opens the `[Install]` section.
    Install,
    Other,
}

/// Reads one line. A comment says nothing. A line with `=` is a key and a
/// value, both without the white space around them, the value without the
/// quotes around it. A line without `=` that begins with `[Install]` opens
/// that section.
pub open spec fn unit_line(line: Seq<char>) -> UnitLine {
    let i = first_index_of(line, '=');
    if comment_line(line) {
        UnitLine::Other
    } else if 0 <= i < line.len() {
        let key = trimmed(line.take(i));
        let value = unquoted(trimmed(line.skip(i + 1)));
        if key == "Also"@ {
            UnitLine::Also(value)
        } else if key == "Alias"@ {
            UnitLine::Alias(value)
        } else {
            UnitLine::Other
        }
    } else if has_prefix(line, "[Install]"@) {
        UnitLine::Install
    } else {
        UnitLine::Other
    }
}

/// The units that `text` names in `Also=` lines.
pub open spec fn also_of(text: Seq<char>) -> Set<Seq<char>> {
    Set::new(
        |v: Seq<char>|
            exists|k: int|
                0 <= k < lines_of(text).len() && unit_line(#[trigger] lines_of(text)[k])
                    == UnitLine::Also(v),
    )
}

/// The names that `text` gives in `Alias=` lines.
pub open spec fn aliases_of(text: Seq<char>) -> Set<Seq<char>> {
    Set::new(
        |v: Seq<char>|
            exists|k: int|
                0 <= k < lines_of(text).len() && unit_line(#[trigger] lines_of(text)[k])
                    == UnitLine::Alias(v),
    )
}

/// `text` has an `[Install]` section.
pub open spec fn wants_install(text: Seq<char>) -> bool {
    exists|k: int|
        0 <= k < lines_of(text).len() && unit_line(#[trigger] lines_of(text)[k])
            == UnitLine::Install
}

enum LineFact {
    Also(Vec<char>),
    Alias(Vec<char>),
    Install,
    Other,
}

impl LineFact {
    spec fn as_line(&self) -> UnitLine {
        match self {
            LineFact::Also(v) => UnitLine::Also(v@),
            LineFact::Alias(v) => UnitLine::Alias(v@),
            LineFact::Install => UnitLine::Install,
            LineFact::Other => UnitLine::Other,
        }
    }
}

fn unquote_chars(s: &Vec<char>) -> (r: Vec<char>)
    ensures
        r@ == unquoted(s@),
{
    let n = s.len();
    if n > 1 && ((s[0] == '"' && s[n - 1] == '"') || (s[0] == '\'' && s[n - 1] == '\'')) {
        copy_range(s, 1, n - 1)
    } else {
        let r = copy_range(s, 0, n);
        assert(s@.subrange(0, n as int) == s@);
        r
    }
}

fn parse_line(line: &Vec<char>) -> (r: LineFact)
    ensures
        r.as_line() == unit_line(line@),
{
    if line.len() > 0 && (line[0] == '#' || line[0] == ';') {
        return LineFact::Other;
    }
    assert(line@.skip(0) == line@);
    let i = index_of(line, '=', 0);
    if i < line.len() {
        let key = trim(&copy_range(line, 0, i));
        let value = unquote_chars(&trim(&copy_range(line, i + 1, line.len())));
        assert(line@.subrange(0, i as int) == line@.take(i as int));
        assert(line@.subrange(i + 1, line.len() as int) == line@.skip(i + 1));
        if text_is(&key, "Also") {
            LineFact::Also(value)
        } else if text_is(&key, "Alias") {
            LineFact::Alias(value)
        } else {
            LineFact::Other
        }
    } else if starts_with(line, &chars_of("[Install]")) {
        LineFact::Install
    } else {
        LineFact::Other
    }
}

/// What a unit file says: the units it names in `Also=` lines, the names it
/// gives in `Alias=` lines, each in the order of the lines, and whether it
/// has an `[Install]` section.
pub struct UnitFacts {
    pub also: Vec<String>,
    pub aliases: Vec<String>,
    pub install: bool,
}

/// Reads a unit file.
pub fn unit_facts(text: &str) -> (r: UnitFacts)
    ensures
        strs(r.also@).to_set() == also_of(text@),
        strs(r.aliases@).to_set() == aliases_of(text@),
        r.install == wants_install(text@),
{
    let t = chars_of(text);
    let all = lines(&t);
    let ghost ls = lines_of(text@);
    let mut also: Vec<String> = Vec::new();
    let mut aliases: Vec<String> = Vec::new();
    let mut install = false;
    let mut k: usize = 0;
    while k < all.len()
        invariant
            k <= all.len(),
            views(all@) == ls,
            ls == lines_of(text@),
            forall|v: Seq<char>|
                strs(also@).contains(v) <==> exists|j: int|
                    0 <= j < k && unit_line(#[trigger] ls[j]) == UnitLine::Also(v),
            forall|v: Seq<char>|
                strs(aliases@).contains(v) <==> exists|j: int|
                    0 <= j < k && unit_line(#[trigger] ls[j]) == UnitLine::Alias(v),
            install <==> exists|j: int|
                0 <= j < k && unit_line(#[trigger] ls[j]) == UnitLine::Install,
        decreases all.len() - k,
    {
        assert(ls[k as int] == all@[k as int]@);
        let ghost also0 = strs(also@);
        let ghost aliases0 = strs(aliases@);
        let ghost install0 = install;
        match parse_line(&all[k]) {
            LineFact::Also(v) => {
                also.push(string_of(&v));
                assert(strs(also@) =~= also0.push(v@));
            },
            LineFact::Alias(v) => {
                aliases.push(string_of(&v));
                assert(strs(aliases@) =~= aliases0.push(v@));
            },
            LineFact::Install => {
                install = true;
            },
            LineFact::Other => {},
        }
        proof {
            let here = unit_line(ls[k as int]);
            assert forall|v: Seq<char>| strs(also@).contains(v) <==> exists|j: int|
                0 <= j < k + 1 && unit_line(#[trigger] ls[j]) == UnitLine::Also(v) by {
                if strs(also@).contains(v) {
                    let m = choose|m: int| 0 <= m < strs(also@).len() && strs(also@)[m] == v;
                    if m < also0.len() {
                        assert(also0[m] == v);
                        assert(also0.contains(v));
                        let j = choose|j: int|
                            0 <= j < k && unit_line(#[trigger] ls[j]) == UnitLine::Also(v);
                        assert(0 <= j < k + 1 && unit_line(ls[j]) == UnitLine::Also(v));
                    } else {
                        assert(here == UnitLine::Also(v));
                    }
                }
                if exists|j: int| 0 <= j < k + 1 && unit_line(#[trigger] ls[j]) == UnitLine::Also(v) {
                    let j = choose|j: int|
                        0 <= j < k + 1 && unit_line(#[trigger] ls[j]) == UnitLine::Also(v);
                    if j < k {
                        assert(also0.contains(v));
                        let m = choose|m: int| 0 <= m < also0.len() && also0[m] == v;
                        assert(strs(also@)[m] == v);
                    } else {
                        assert(strs(also@)[also0.len() as int] == v);
                    }
                }
            }
            assert forall|v: Seq<char>| strs(aliases@).contains(v) <==> exists|j: int|
                0 <= j < k + 1 && unit_line(#[trigger] ls[j]) == UnitLine::Alias(v) by {
                if strs(aliases@).contains(v) {
                    let m = choose|m: int| 0 <= m < strs(aliases@).len() && strs(aliases@)[m] == v;
                    if m < aliases0.len() {
                        assert(aliases0[m] == v);
                        assert(aliases0.contains(v));
                        let j = choose|j: int|
                            0 <= j < k && unit_line(#[trigger] ls[j]) == UnitLine::Alias(v);
                        assert(0 <= j < k + 1 && unit_line(ls[j]) == UnitLine::Alias(v));
                    } else {
                        assert(here == UnitLine::Alias(v));
                    }
                }
                if exists|j: int|
                    0 <= j < k + 1 && unit_line(#[trigger] ls[j]) == UnitLine::Alias(v) {
                    let j = choose|j: int|
                        0 <= j < k + 1 && unit_line(#[trigger] ls[j]) == UnitLine::Alias(v);
                    if j < k {
                        assert(aliases0.contains(v));
                        let m = choose|m: int| 0 <= m < aliases0.len() && aliases0[m] == v;
                        assert(strs(aliases@)[m] == v);
                    } else {
                        assert(strs(aliases@)[aliases0.len() as int] == v);
                    }
                }
            }
            if install {
                if install0 {
                    let j = choose|j: int|
                        0 <= j < k && unit_line(#[trigger] ls[j]) == UnitLine::Install;
                    assert(0 <= j < k + 1 && unit_line(ls[j]) == UnitLine::Install);
                } else {
                    assert(unit_line(ls[k as int]) == UnitLine::Install);
                }
            }
            if exists|j: int| 0 <= j < k + 1 && unit_line(#[trigger] ls[j]) == UnitLine::Install {
                let j = choose|j: int|
                    0 <= j < k + 1 && unit_line(#[trigger] ls[j]) == UnitLine::Install;
                if j < k {
                    assert(install0);
                }
            }
        }
        k += 1;
    }
    proof {
        assert(strs(also@).to_set() =~= also_of(text@));
        assert(strs(aliases@).to_set() =~= aliases_of(text@));
    }
    UnitFacts { also, aliases, install }
}

// ---------------------------------------------------------------------------
// The units of a package
// ---------------------------------------------------------------------------

/// The directory that unit files are installed in.
pub open spec fn unit_dir() -> Seq<char> {
    LIB_SYSTEMD_SYSTEM_DIR@
}

/// The unit that `asset` installs: the name of a file that goes into the unit
/// directory. A name with `@` in it is a template and counts for nothing.
pub open spec fn installed_unit(asset: Asset) -> Option<Seq<char>> {
    if path_starts_with(asset.target_path@, unit_dir()) {
        match file_name(asset.target_path@) {
            Some(n) => if n.contains('@') {
                None
            } else {
                Some(n)
            },
            None => None,
        }
    } else {
        None
    }
}

/// Some asset installs the unit `u`.
pub open spec fn is_installed_unit(assets: Seq<Asset>, u: Seq<char>) -> bool {
    exists|i: int| 0 <= i < assets.len() && installed_unit(#[trigger] assets[i]) == Some(u)
}

/// The path of the file of unit `u`.
pub open spec fn unit_path(u: Seq<char>) -> Seq<char> {
    path_join(unit_dir(), u)
}

/// `i` is the first asset that goes to the path of unit `u`.
pub open spec fn installs_at(assets: Seq<Asset>, u: Seq<char>, i: int) -> bool {
    &&& 0 <= i < assets.len()
    &&& same_path(assets[i].target_path@, unit_path(u))
    &&& forall|j: int| 0 <= j < i ==> !same_path(#[trigger] assets[j].target_path@, unit_path(u))
}

/// The asset that is the file of unit `u`.
pub open spec fn unit_asset(assets: Seq<Asset>, u: Seq<char>) -> Option<int> {
    if exists|i: int| installs_at(assets, u, i) {
        Some(choose|i: int| installs_at(assets, u, i))
    } else {
        None
    }
}

/// The text of an asset, where it can be read and is UTF-8.
pub open spec fn asset_text(asset: Asset, files: &FileTree) -> Option<Seq<char>> {
    match asset.source.bytes(files) {
        Some(b) => text_of(b),
        None => None,
    }
}

/// The text of the file of unit `u`.
pub open spec fn unit_text(assets: Seq<Asset>, files: &FileTree, u: Seq<char>) -> Option<
    Seq<char>,
> {
    match unit_asset(assets, u) {
        Some(i) => asset_text(assets[i], files),
        None => None,
    }
}

/// The file of unit `w` names `u` in an `Also=` line.
pub open spec fn refers(assets: Seq<Asset>, files: &FileTree, w: Seq<char>, u: Seq<char>) -> bool {
    unit_text(assets, files, w) matches Some(t) && also_of(t).contains(u)
}

/// `u` is an installed unit, or is named by one, and so on, at most `n`
/// times.
pub open spec fn reached_in(assets: Seq<Asset>, files: &FileTree, u: Seq<char>, n: nat) -> bool
    decreases n,
{
    if n == 0 {
        is_installed_unit(assets, u)
    } else {
        reached_in(assets, files, u, (n - 1) as nat) || exists|w: Seq<char>|
            reached_in(assets, files, w, (n - 1) as nat) && #[trigger] refers(assets, files, w, u)
    }
}

/// `u` is an installed unit or one that the installed units lead to through
/// `Also=` lines.
pub open spec fn reached(assets: Seq<Asset>, files: &FileTree, u: Seq<char>) -> bool {
    exists|n: nat| reached_in(assets, files, u, n)
}

/// Why the file of unit `u` gives no text, said by the error `e`: no asset
/// is its file, or the asset cannot be read, or it is no UTF-8.
pub open spec fn unit_failure(
    assets: Seq<Asset>,
    files: &FileTree,
    u: Seq<char>,
    e: CargoDebError,
) -> bool {
    match unit_asset(assets, u) {
        None => e matches CargoDebError::UnitNotFound(x) && x@ == u,
        Some(i) => match assets[i].source.bytes(files) {
            None => e is IoFile,
            Some(b) => text_of(b) is None && (e matches CargoDebError::InvalidUtf8(x) && x@
                == assets[i].target_path@),
        },
    }
}

/// What the units of a package ask for.
pub struct UnitClasses {
    /// The units to enable.
    pub enable_units: StringSet,
    /// The units to start.
    pub start_units: StringSet,
    /// The other names that the units go by.
    pub aliases: StringSet,
}

/// `r` is what the units of the package ask for: every unit that is reached
/// is started, those among them with an `[Install]` section are enabled, and
/// the aliases are those that the files of the reached units give.
pub open spec fn classified(assets: Seq<Asset>, files: &FileTree, r: UnitClasses) -> bool {
    &&& r.start_units.wf()
    &&& r.enable_units.wf()
    &&& r.aliases.wf()
    &&& forall|u: Seq<char>| #[trigger] r.start_units.set().contains(u) <==> reached(assets, files, u)
    &&& forall|u: Seq<char>| #[trigger]
        r.enable_units.set().contains(u) <==> (reached(assets, files, u) && (unit_text(
            assets,
            files,
            u,
        ) matches Some(t) && wants_install(t)))
    &&& forall|a: Seq<char>| #[trigger]
        r.aliases.set().contains(a) <==> exists|u: Seq<char>|
            reached(assets, files, u) && #[trigger] gives_alias(assets, files, u, a)
}

/// The file of unit `u` gives the alias `a`.
pub open spec fn gives_alias(assets: Seq<Asset>, files: &FileTree, u: Seq<char>, a: Seq<char>) -> bool {
    unit_text(assets, files, u) matches Some(t) && aliases_of(t).contains(a)
}

fn installed_unit_name(asset: &Asset) -> (r: Option<Vec<char>>)
    ensures
        match r {
            Some(n) => installed_unit(*asset) == Some(n@),
            None => installed_unit(*asset) is None,
        },
{
    if starts_with_path(asset.target_path.as_str(), LIB_SYSTEMD_SYSTEM_DIR) {
        match last_component(asset.target_path.as_str()) {
            Some(name) => {
                let n = chars_of(name.as_str());
                if contains_char(&n, '@') {
                    None
                } else {
                    Some(n)
                }
            },
            None => None,
        }
    } else {
        None
    }
}

proof fn lemma_unit_asset_is(assets: Seq<Asset>, u: Seq<char>, i: int)
    requires
        installs_at(assets, u, i),
    ensures
        unit_asset(assets, u) == Some(i),
{
    let k = choose|k: int| installs_at(assets, u, k);
    if k < i {
        assert(!same_path(assets[k].target_path@, unit_path(u)));
    } else if i < k {
        assert(!same_path(assets[i].target_path@, unit_path(u)));
    }
}

fn find_unit_asset(assets: &Vec<Asset>, unit: &str) -> (r: Option<usize>)
    ensures
        match r {
            Some(i) => i < assets@.len() && unit_asset(assets@, unit@) == Some(i as int),
            None => unit_asset(assets@, unit@) is None,
        },
{
    let needle = join_path(LIB_SYSTEMD_SYSTEM_DIR, unit);
    let mut i: usize = 0;
    while i < assets.len()
        invariant
            i <= assets.len(),
            needle@ == unit_path(unit@),
            forall|j: int| 0 <= j < i ==> !same_path(#[trigger] assets@[j].target_path@, needle@),
        decreases assets.len() - i,
    {
        if paths_equal(assets[i].target_path.as_str(), needle.as_str()) {
            proof {
                lemma_unit_asset_is(assets@, unit@, i as int);
            }
            return Some(i);
        }
        i += 1;
    }
    proof {
        if exists|k: int| installs_at(assets@, unit@, k) {
            let k = choose|k: int| installs_at(assets@, unit@, k);
            assert(!same_path(assets@[k].target_path@, needle@));
        }
    }
    None
}

/// How many of the flags are not set.
spec fn unset_count(c: Seq<bool>) -> nat
    decreases c.len(),
{
    if c.len() == 0 {
        0
    } else {
        unset_count(c.drop_last()) + if c.last() {
            0nat
        } else {
            1nat
        }
    }
}

proof fn lemma_unset_count_drops(c: Seq<bool>, i: int)
    requires
        0 <= i < c.len(),
        !c[i],
    ensures
        unset_count(c.update(i, true)) + 1 == unset_count(c),
    decreases c.len(),
{
    let d = c.update(i, true);
    if i == c.len() - 1 {
        assert(d.drop_last() == c.drop_last());
    } else {
        assert(d.drop_last() == c.drop_last().update(i, true));
        lemma_unset_count_drops(c.drop_last(), i);
    }
}

/// The asset `i` was read: its text is known, every unit it names has been
/// seen, its aliases are collected, and `install` says whether it has an
/// `[Install]` section.
spec fn scanned(
    assets: Seq<Asset>,
    files: &FileTree,
    i: int,
    seen: Set<Seq<char>>,
    aliases: Set<Seq<char>>,
    install: bool,
) -> bool {
    asset_text(assets[i], files) matches Some(t) && also_of(t).subset_of(seen)
        && aliases_of(t).subset_of(aliases) && install == wants_install(t)
}

/// What holds while the units are worked off. `seen` are the units met so
/// far, `pending` those still to be looked at, `done` those looked at, `cur`
/// the one being looked at.
spec fn working(
    assets: Seq<Asset>,
    files: &FileTree,
    seen: Set<Seq<char>>,
    pending: Seq<Seq<char>>,
    done: Set<Seq<char>>,
    cur: Option<Seq<char>>,
    read: Seq<bool>,
    installs: Seq<bool>,
    aliases: Set<Seq<char>>,
) -> bool {
    &&& read.len() == assets.len()
    &&& installs.len() == assets.len()
    &&& forall|u: Seq<char>| is_installed_unit(assets, u) ==> seen.contains(u)
    &&& forall|u: Seq<char>| seen.contains(u) ==> reached(assets, files, u)
    &&& forall|u: Seq<char>|
        seen.contains(u) ==> done.contains(u) || cur == Some(u) || pending.contains(u)
    &&& forall|u: Seq<char>| #[trigger]
        done.contains(u) ==> seen.contains(u) && looked_at(assets, u, read)
    &&& forall|i: int|
        0 <= i < assets.len() && #[trigger] read[i] ==> scanned(
            assets,
            files,
            i,
            seen,
            aliases,
            installs[i],
        )
    &&& forall|a: Seq<char>| #[trigger]
        aliases.contains(a) ==> exists|u: Seq<char>|
            reached(assets, files, u) && #[trigger] gives_alias(assets, files, u, a)
    &&& forall|u: Seq<char>| pending.contains(u) ==> seen.contains(u)
    &&& cur matches Some(u) ==> seen.contains(u)
}

/// The file of unit `u` is an asset that was read.
spec fn looked_at(assets: Seq<Asset>, u: Seq<char>, read: Seq<bool>) -> bool {
    unit_asset(assets, u) matches Some(i) && 0 <= i < read.len() && read[i]
}

/// A unit that is named by a reached unit is reached.
pub proof fn lemma_reached_step(assets: Seq<Asset>, files: &FileTree, w: Seq<char>, u: Seq<char>)
    requires
        reached(assets, files, w),
        refers(assets, files, w, u),
    ensures
        reached(assets, files, u),
{
    let n = choose|n: nat| reached_in(assets, files, w, n);
    assert(reached_in(assets, files, u, n + 1));
}

/// A set that holds the installed units, and with a unit every one it names,
/// holds every reached unit.
pub proof fn lemma_closed_holds_reached(
    assets: Seq<Asset>,
    files: &FileTree,
    seen: Set<Seq<char>>,
    u: Seq<char>,
    n: nat,
)
    requires
        forall|x: Seq<char>| is_installed_unit(assets, x) ==> seen.contains(x),
        forall|w: Seq<char>, x: Seq<char>|
            seen.contains(w) && #[trigger] refers(assets, files, w, x) ==> seen.contains(x),
        reached_in(assets, files, u, n),
    ensures
        seen.contains(u),
    decreases n,
{
    if n > 0 {
        if reached_in(assets, files, u, (n - 1) as nat) {
            lemma_closed_holds_reached(assets, files, seen, u, (n - 1) as nat);
        } else {
            let w = choose|w: Seq<char>|
                reached_in(assets, files, w, (n - 1) as nat) && #[trigger] refers(
                    assets,
                    files,
                    w,
                    u,
                );
            lemma_closed_holds_reached(assets, files, seen, w, (n - 1) as nat);
        }
    }
}

proof fn lemma_take_next(
    assets: Seq<Asset>,
    files: &FileTree,
    seen: Set<Seq<char>>,
    pending: Seq<Seq<char>>,
    done: Set<Seq<char>>,
    read: Seq<bool>,
    installs: Seq<bool>,
    aliases: Set<Seq<char>>,
)
    requires
        working(assets, files, seen, pending, done, None, read, installs, aliases),
        pending.len() > 0,
    ensures
        working(
            assets,
            files,
            seen,
            pending.drop_last(),
            done,
            Some(pending.last()),
            read,
            installs,
            aliases,
        ),
{
    let rest = pending.drop_last();
    let u0 = pending.last();
    assert(pending.contains(u0)) by {
        assert(pending[pending.len() - 1] == u0);
    }
    assert forall|u: Seq<char>| seen.contains(u) implies done.contains(u) || Some(u0) == Some(u)
        || rest.contains(u) by {
        if pending.contains(u) && u != u0 {
            let k = choose|k: int| 0 <= k < pending.len() && pending[k] == u;
            assert(rest[k] == u);
        }
    }
    assert forall|u: Seq<char>| rest.contains(u) implies seen.contains(u) by {
        let k = choose|k: int| 0 <= k < rest.len() && rest[k] == u;
        assert(pending[k] == u);
    }
}

proof fn lemma_meet(
    assets: Seq<Asset>,
    files: &FileTree,
    seen: Set<Seq<char>>,
    pending: Seq<Seq<char>>,
    done: Set<Seq<char>>,
    cur: Option<Seq<char>>,
    read: Seq<bool>,
    installs: Seq<bool>,
    aliases: Set<Seq<char>>,
    v: Seq<char>,
)
    requires
        working(assets, files, seen, pending, done, cur, read, installs, aliases),
        reached(assets, files, v),
    ensures
        working(
            assets,
            files,
            seen.insert(v),
            pending.push(v),
            done,
            cur,
            read,
            installs,
            aliases,
        ),
{
    let seen2 = seen.insert(v);
    let pend2 = pending.push(v);
    assert(pend2[pending.len() as int] == v);
    assert forall|u: Seq<char>| seen2.contains(u) implies done.contains(u) || cur == Some(u)
        || pend2.contains(u) by {
        if u != v && pending.contains(u) {
            let k = choose|k: int| 0 <= k < pending.len() && pending[k] == u;
            assert(pend2[k] == u);
        }
    }
    assert forall|u: Seq<char>| pend2.contains(u) implies seen2.contains(u) by {
        let k = choose|k: int| 0 <= k < pend2.len() && pend2[k] == u;
        if k < pending.len() {
            assert(pending[k] == u);
        }
    }
    assert forall|i: int| 0 <= i < assets.len() && #[trigger] read[i] implies scanned(
        assets,
        files,
        i,
        seen2,
        aliases,
        installs[i],
    ) by {
        assert(scanned(assets, files, i, seen, aliases, installs[i]));
    }
}

proof fn lemma_collect_alias(
    assets: Seq<Asset>,
    files: &FileTree,
    seen: Set<Seq<char>>,
    pending: Seq<Seq<char>>,
    done: Set<Seq<char>>,
    cur: Option<Seq<char>>,
    read: Seq<bool>,
    installs: Seq<bool>,
    aliases: Set<Seq<char>>,
    u: Seq<char>,
    a: Seq<char>,
)
    requires
        working(assets, files, seen, pending, done, cur, read, installs, aliases),
        reached(assets, files, u),
        gives_alias(assets, files, u, a),
    ensures
        working(assets, files, seen, pending, done, cur, read, installs, aliases.insert(a)),
{
    let al2 = aliases.insert(a);
    assert forall|i: int| 0 <= i < assets.len() && #[trigger] read[i] implies scanned(
        assets,
        files,
        i,
        seen,
        al2,
        installs[i],
    ) by {
        assert(scanned(assets, files, i, seen, aliases, installs[i]));
    }
    assert forall|b: Seq<char>| #[trigger] al2.contains(b) implies exists|w: Seq<char>|
        reached(assets, files, w) && #[trigger] gives_alias(assets, files, w, b) by {
        if b == a {
            assert(reached(assets, files, u) && gives_alias(assets, files, u, a));
        } else {
            assert(aliases.contains(b));
        }
    }
}

proof fn lemma_mark_read(
    assets: Seq<Asset>,
    files: &FileTree,
    seen: Set<Seq<char>>,
    pending: Seq<Seq<char>>,
    done: Set<Seq<char>>,
    cur: Option<Seq<char>>,
    read: Seq<bool>,
    installs: Seq<bool>,
    aliases: Set<Seq<char>>,
    i: int,
    install: bool,
)
    requires
        working(assets, files, seen, pending, done, cur, read, installs, aliases),
        0 <= i < assets.len(),
        scanned(assets, files, i, seen, aliases, install),
    ensures
        working(
            assets,
            files,
            seen,
            pending,
            done,
            cur,
            read.update(i, true),
            installs.update(i, install),
            aliases,
        ),
{
    let read2 = read.update(i, true);
    let inst2 = installs.update(i, install);
    assert forall|u: Seq<char>| #[trigger] done.contains(u) implies seen.contains(u) && looked_at(
        assets,
        u,
        read2,
    ) by {
        assert(looked_at(assets, u, read));
    }
    assert forall|j: int| 0 <= j < assets.len() && #[trigger] read2[j] implies scanned(
        assets,
        files,
        j,
        seen,
        aliases,
        inst2[j],
    ) by {
        if j != i {
            assert(read[j]);
        }
    }
}

proof fn lemma_finish_unit(
    assets: Seq<Asset>,
    files: &FileTree,
    seen: Set<Seq<char>>,
    pending: Seq<Seq<char>>,
    done: Set<Seq<char>>,
    u: Seq<char>,
    read: Seq<bool>,
    installs: Seq<bool>,
    aliases: Set<Seq<char>>,
)
    requires
        working(assets, files, seen, pending, done, Some(u), read, installs, aliases),
        looked_at(assets, u, read),
    ensures
        working(assets, files, seen, pending, done.insert(u), None, read, installs, aliases),
{
    let done2 = done.insert(u);
    assert forall|x: Seq<char>| #[trigger] done2.contains(x) implies seen.contains(x) && looked_at(
        assets,
        x,
        read,
    ) by {
        if x != u {
            assert(done.contains(x));
        }
    }
}

/// The file of unit `u` has an `[Install]` section.
pub open spec fn asks_install(assets: Seq<Asset>, files: &FileTree, u: Seq<char>) -> bool {
    unit_text(assets, files, u) matches Some(t) && wants_install(t)
}

proof fn lemma_all_done(
    assets: Seq<Asset>,
    files: &FileTree,
    seen: Set<Seq<char>>,
    done: Set<Seq<char>>,
    read: Seq<bool>,
    installs: Seq<bool>,
    aliases: Set<Seq<char>>,
)
    requires
        working(
            assets,
            files,
            seen,
            Seq::<Seq<char>>::empty(),
            done,
            None,
            read,
            installs,
            aliases,
        ),
    ensures
        forall|u: Seq<char>| #[trigger] seen.contains(u) <==> reached(assets, files, u),
        forall|u: Seq<char>| #[trigger] done.contains(u) <==> reached(assets, files, u),
        forall|u: Seq<char>|
            reached(assets, files, u) ==> #[trigger] unit_text(assets, files, u) is Some,
        forall|a: Seq<char>| #[trigger]
            aliases.contains(a) <==> exists|u: Seq<char>|
                reached(assets, files, u) && #[trigger] gives_alias(assets, files, u, a),
{
    let none = Seq::<Seq<char>>::empty();
    assert forall|u: Seq<char>| seen.contains(u) implies done.contains(u) by {
        assert(!none.contains(u));
    }
    assert forall|w: Seq<char>, x: Seq<char>|
        seen.contains(w) && #[trigger] refers(assets, files, w, x) implies seen.contains(x) by {
        assert(done.contains(w));
        assert(looked_at(assets, w, read));
        let i = unit_asset(assets, w)->0;
        assert(scanned(assets, files, i, seen, aliases, installs[i]));
    }
    assert forall|u: Seq<char>| reached(assets, files, u) implies seen.contains(u) by {
        let n = choose|n: nat| reached_in(assets, files, u, n);
        lemma_closed_holds_reached(assets, files, seen, u, n);
    }
    assert forall|u: Seq<char>| reached(assets, files, u) implies #[trigger] unit_text(
        assets,
        files,
        u,
    ) is Some by {
        assert(done.contains(u));
        assert(looked_at(assets, u, read));
        let i = unit_asset(assets, u)->0;
        assert(scanned(assets, files, i, seen, aliases, installs[i]));
    }
    assert forall|a: Seq<char>|
        (exists|u: Seq<char>|
            reached(assets, files, u) && #[trigger] gives_alias(
                assets,
                files,
                u,
                a,
            )) implies aliases.contains(a) by {
        let u = choose|u: Seq<char>|
            reached(assets, files, u) && #[trigger] gives_alias(assets, files, u, a);
        assert(done.contains(u));
        assert(looked_at(assets, u, read));
        let i = unit_asset(assets, u)->0;
        assert(scanned(assets, files, i, seen, aliases, installs[i]));
    }
}

/// Units that name each other in `Also=` lines are all reached, and what is
/// found for a package holds every unit to start once.
pub proof fn lemma_units_in_a_circle(
    assets: Seq<Asset>,
    files: &FileTree,
    a: Seq<char>,
    b: Seq<char>,
    found: UnitClasses,
)
    requires
        is_installed_unit(assets, a),
        refers(assets, files, a, b),
        refers(assets, files, b, a),
        classified(assets, files, found),
    ensures
        reached(assets, files, a),
        reached(assets, files, b),
        found.start_units.set().contains(a),
        found.start_units.set().contains(b),
        found.start_units@.no_duplicates(),
{
    assert(reached_in(assets, files, a, 0));
    lemma_reached_step(assets, files, a, b);
    crate::util::lemma_sorted_holds_each_once(found.start_units@);
}

fn all_unset(n: usize) -> (r: Vec<bool>)
    ensures
        r@.len() == n,
        forall|i: int| 0 <= i < n ==> !r@[i],
{
    let mut r: Vec<bool> = Vec::new();
    while r.len() < n
        invariant
            r@.len() <= n,
            forall|i: int| 0 <= i < r@.len() ==> !r@[i],
        decreases n - r@.len(),
    {
        r.push(false);
    }
    r
}

/// Finds out what the unit files among `assets` ask for. The contents of an
/// asset that is a path are taken from `files`.
///
/// Every unit that is reached must have a file among the assets that can be
/// read as text; the call fails on the first one met that has none.
#[verifier::loop_isolation(false)]
pub fn classify<L: Listener + ?Sized>(assets: &Vec<Asset>, files: &FileTree, listener: &mut L) -> (r:
    CDResult<UnitClasses>)
    ensures
        match r {
            Ok(c) => classified(assets@, files, c) && forall|u: Seq<char>|
                reached(assets@, files, u) ==> #[trigger] unit_text(assets@, files, u) is Some,
            Err(e) => exists|u: Seq<char>|
                reached(assets@, files, u) && unit_text(assets@, files, u) is None
                    && #[trigger] unit_failure(assets@, files, u, e),
        },
{
    let mut seen = StringSet::new();
    let mut pending: Vec<Vec<char>> = Vec::new();
    let mut i: usize = 0;
    assert(views(pending@) =~= Seq::<Seq<char>>::empty());
    while i < assets.len()
        invariant
            i <= assets.len(),
            seen.wf(),
            forall|j: int|
                0 <= j < i ==> (installed_unit(#[trigger] assets@[j]) matches Some(u)
                    ==> seen.set().contains(u)),
            forall|u: Seq<char>| seen.set().contains(u) ==> is_installed_unit(assets@, u),
            forall|u: Seq<char>| seen.set().contains(u) <==> views(pending@).contains(u),
        decreases assets.len() - i,
    {
        match installed_unit_name(&assets[i]) {
            Some(n) => {
                let copy = crate::text::copy_of(&n);
                let ghost pend0 = views(pending@);
                let ghost seen0 = seen.set();
                if seen.insert_text(n) {
                    pending.push(copy);
                    proof {
                        let pend1 = views(pending@);
                        assert(pend1 =~= pend0.push(copy@));
                        assert(pend1[pend0.len() as int] == copy@);
                        assert forall|u: Seq<char>| seen.set().contains(u) <==> pend1.contains(
                            u,
                        ) by {
                            if pend1.contains(u) {
                                let k = choose|k: int| 0 <= k < pend1.len() && pend1[k] == u;
                                if k < pend0.len() {
                                    assert(pend0[k] == u);
                                }
                            }
                            if seen0.contains(u) {
                                let k = choose|k: int| 0 <= k < pend0.len() && pend0[k] == u;
                                assert(pend1[k] == u);
                            }
                        }
                    }
                }
            },
            None => {},
        }
        i += 1;
    }
    let mut read = all_unset(assets.len());
    let mut installs = all_unset(assets.len());
    let mut enable = StringSet::new();
    let mut aliases = StringSet::new();
    let ghost mut done: Set<Seq<char>> = Set::empty();
    proof {
        assert forall|u: Seq<char>| seen.set().contains(u) implies reached(assets@, files, u) by {
            assert(reached_in(assets@, files, u, 0));
        }
        assert(working(
            assets@,
            files,
            seen.set(),
            views(pending@),
            done,
            None,
            read@,
            installs@,
            aliases.set(),
        ));
    }
    while pending.len() > 0
        invariant
            seen.wf(),
            enable.wf(),
            aliases.wf(),
            working(
                assets@,
                files,
                seen.set(),
                views(pending@),
                done,
                None,
                read@,
                installs@,
                aliases.set(),
            ),
            forall|x: Seq<char>| #[trigger]
                enable.set().contains(x) <==> done.contains(x) && asks_install(assets@, files, x),
        decreases unset_count(read@), pending.len(),
    {
        let ghost pend0 = views(pending@);
        let ghost read0 = read@;
        let unit = pending.pop().unwrap();
        let ghost u = unit@;
        proof {
            assert(views(pending@) =~= pend0.drop_last());
            assert(pend0.last() == u);
            lemma_take_next(
                assets@,
                files,
                seen.set(),
                pend0,
                done,
                read@,
                installs@,
                aliases.set(),
            );
        }
        let unit_name = string_of(&unit);
        let mut msg = chars_of("Determining augmentations needed for systemd unit ");
        append_copy(&mut msg, &unit);
        listener.info(string_of(&msg));

        let i = match find_unit_asset(assets, unit_name.as_str()) {
            Some(i) => i,
            None => {
                let e = CargoDebError::UnitNotFound(unit_name);
                assert(reached(assets@, files, u) && unit_text(assets@, files, u) is None
                    && unit_failure(assets@, files, u, e));
                return Err(e);
            },
        };
        if !read[i] {
            let data = match assets[i].source.data(files) {
                Ok(d) => d,
                Err(e) => {
                    assert(reached(assets@, files, u) && unit_text(assets@, files, u) is None
                        && unit_failure(assets@, files, u, e));
                    return Err(e);
                },
            };
            let text = match decode(&data) {
                Some(t) => t,
                None => {
                    let e = CargoDebError::InvalidUtf8(assets[i].target_path.clone());
                    assert(reached(assets@, files, u) && unit_text(assets@, files, u) is None
                        && unit_failure(assets@, files, u, e));
                    return Err(e);
                },
            };
            let facts = unit_facts(string_of(&text).as_str());
            assert(unit_text(assets@, files, u) == Some(text@));
            let mut k: usize = 0;
            while k < facts.also.len()
                invariant
                    k <= facts.also.len(),
                    seen.wf(),
                    working(
                        assets@,
                        files,
                        seen.set(),
                        views(pending@),
                        done,
                        Some(u),
                        read@,
                        installs@,
                        aliases.set(),
                    ),
                    forall|j: int| 0 <= j < k ==> seen.set().contains(#[trigger] facts.also@[j]@),
                decreases facts.also.len() - k,
            {
                let v = chars_of(facts.also[k].as_str());
                let copy = crate::text::copy_of(&v);
                let ghost pend1 = views(pending@);
                let ghost seen1 = seen.set();
                proof {
                    assert(strs(facts.also@)[k as int] == v@);
                    assert(strs(facts.also@).to_set().contains(v@));
                    assert(refers(assets@, files, u, v@));
                    lemma_reached_step(assets@, files, u, v@);
                }
                if seen.insert_text(v) {
                    pending.push(copy);
                    proof {
                        assert(views(pending@) =~= pend1.push(copy@));
                        lemma_meet(
                            assets@,
                            files,
                            seen1,
                            pend1,
                            done,
                            Some(u),
                            read@,
                            installs@,
                            aliases.set(),
                            copy@,
                        );
                    }
                } else {
                    assert(seen.set() =~= seen1);
                }
                k += 1;
            }
            let mut m: usize = 0;
            while m < facts.aliases.len()
                invariant
                    m <= facts.aliases.len(),
                    aliases.wf(),
                    working(
                        assets@,
                        files,
                        seen.set(),
                        views(pending@),
                        done,
                        Some(u),
                        read@,
                        installs@,
                        aliases.set(),
                    ),
                    forall|j: int|
                        0 <= j < m ==> aliases.set().contains(#[trigger] facts.aliases@[j]@),
                decreases facts.aliases.len() - m,
            {
                let ghost al0 = aliases.set();
                let ghost a = facts.aliases@[m as int]@;
                proof {
                    assert(strs(facts.aliases@)[m as int] == a);
                    assert(strs(facts.aliases@).to_set().contains(a));
                    assert(gives_alias(assets@, files, u, a));
                    lemma_collect_alias(
                        assets@,
                        files,
                        seen.set(),
                        views(pending@),
                        done,
                        Some(u),
                        read@,
                        installs@,
                        al0,
                        u,
                        a,
                    );
                }
                aliases.insert(facts.aliases[m].as_str());
                m += 1;
            }
            proof {
                assert forall|v: Seq<char>| also_of(text@).contains(v) implies seen.set().contains(
                    v,
                ) by {
                    assert(strs(facts.also@).contains(v));
                    let j = choose|j: int|
                        0 <= j < strs(facts.also@).len() && strs(facts.also@)[j] == v;
                    assert(facts.also@[j]@ == v);
                }
                assert forall|v: Seq<char>| aliases_of(text@).contains(
                    v,
                ) implies aliases.set().contains(v) by {
                    assert(strs(facts.aliases@).contains(v));
                    let j = choose|j: int|
                        0 <= j < strs(facts.aliases@).len() && strs(facts.aliases@)[j] == v;
                    assert(facts.aliases@[j]@ == v);
                }
                assert(scanned(assets@, files, i as int, seen.set(), aliases.set(), facts.install));
                lemma_mark_read(
                    assets@,
                    files,
                    seen.set(),
                    views(pending@),
                    done,
                    Some(u),
                    read@,
                    installs@,
                    aliases.set(),
                    i as int,
                    facts.install,
                );
                lemma_unset_count_drops(read@, i as int);
            }
            read[i] = true;
            installs[i] = facts.install;
        }
        proof {
            assert(looked_at(assets@, u, read@));
            assert(scanned(assets@, files, i as int, seen.set(), aliases.set(), installs@[i as int]));
            assert(installs@[i as int] == asks_install(assets@, files, u));
            lemma_finish_unit(
                assets@,
                files,
                seen.set(),
                views(pending@),
                done,
                u,
                read@,
                installs@,
                aliases.set(),
            );
        }
        if installs[i] {
            enable.insert(unit_name.as_str());
        }
        proof {
            done = done.insert(u);
        }
    }
    proof {
        assert(views(pending@) =~= Seq::<Seq<char>>::empty());
        lemma_all_done(assets@, files, seen.set(), done, read@, installs@, aliases.set());
    }
    Ok(UnitClasses { enable_units: enable, start_units: seen, aliases })
}

} // verus!
