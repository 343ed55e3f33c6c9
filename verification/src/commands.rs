//! The programs that a build runs, as values: what to run is decided here,
//! running it is left to the caller.

use crate::cargo::CargoMetadataTarget;
use crate::text::strs;
use crate::error::{CDResult, CargoDebError};
use crate::fstree::FileTree;
use crate::manifest::{debian_triple, debian_triple_of, Config};
use crate::paths::{
    components, components_of, file_name, is_rooted, joined, last_component, rooted,
};
use crate::text::{append_copy, append_str, chars_of, join, join_all, string_of, text_is, views};
use vstd::prelude::*;

verus! {

/// One program to run: its name, its arguments, and the directory to run it
/// in where that matters.
#[derive(Debug)]
pub struct Invocation {
    pub program: String,
    pub args: Vec<String>,
    pub current_dir: Option<String>,
}

/// The arguments for `cargo` that build the project for a package: a
/// release build of everything, with the flags of the caller, for the
/// target and with the features of the configuration.
pub open spec fn build_args(
    options: Config,
    target: Option<Seq<char>>,
    other_flags: Seq<Seq<char>>,
    verbose: bool,
) -> Seq<Seq<char>> {
    seq!["build"@, "--release"@, "--all"@] + other_flags + (if verbose {
        seq!["--verbose"@]
    } else {
        Seq::empty()
    }) + (match target {
        Some(t) => seq!["--target="@ + t],
        None => Seq::empty(),
    }) + (if !options.default_features {
        seq!["--no-default-features"@]
    } else {
        Seq::empty()
    }) + (if options.features@.len() > 0 {
        seq!["--features="@ + join_all(strs(options.features@), ","@)]
    } else {
        Seq::empty()
    })
}

fn push_text(out: &mut Vec<String>, text: &Vec<char>)
    ensures
        strs(final(out)@) == strs(old(out)@).push(text@),
{
    out.push(string_of(text));
    assert(strs(out@) =~= strs(old(out)@).push(text@));
}

pub fn cargo_build_args(
    options: &Config,
    target: Option<&str>,
    other_flags: &Vec<String>,
    verbose: bool,
) -> (r: Vec<String>)
    ensures
        strs(r@) == build_args(
            *options,
            crate::text::opt_text(target),
            strs(other_flags@),
            verbose,
        ),
{
    let mut args: Vec<String> = Vec::new();
    push_text(&mut args, &chars_of("build"));
    push_text(&mut args, &chars_of("--release"));
    push_text(&mut args, &chars_of("--all"));
    assert(strs(args@) =~= seq!["build"@, "--release"@, "--all"@]);
    let ghost head = strs(args@);
    let mut i: usize = 0;
    assert(strs(other_flags@).take(0) =~= Seq::<Seq<char>>::empty());
    assert(strs(args@) =~= head + strs(other_flags@).take(0));
    while i < other_flags.len()
        invariant
            i <= other_flags.len(),
            strs(args@) == head + strs(other_flags@).take(i as int),
        decreases other_flags.len() - i,
    {
        push_text(&mut args, &chars_of(other_flags[i].as_str()));
        assert(strs(args@) =~= head + strs(other_flags@).take(i + 1));
        i += 1;
    }
    assert(strs(other_flags@).take(other_flags.len() as int) == strs(other_flags@));
    let ghost a1 = strs(args@);
    if verbose {
        push_text(&mut args, &chars_of("--verbose"));
    }
    let ghost a2 = strs(args@);
    match target {
        Some(t) => {
            let mut arg = chars_of("--target=");
            append_str(&mut arg, t);
            push_text(&mut args, &arg);
        },
        None => {},
    }
    let ghost a3 = strs(args@);
    if !options.default_features {
        push_text(&mut args, &chars_of("--no-default-features"));
    }
    let ghost a4 = strs(args@);
    if options.features.len() > 0 {
        let mut parts: Vec<Vec<char>> = Vec::new();
        let mut k: usize = 0;
        while k < options.features.len()
            invariant
                k <= options.features.len(),
                views(parts@) =~= strs(options.features@).take(k as int),
            decreases options.features.len() - k,
        {
            let ghost before = views(parts@);
            parts.push(chars_of(options.features[k].as_str()));
            assert(views(parts@) =~= before.push(options.features@[k as int]@));
            k += 1;
        }
        assert(strs(options.features@).take(options.features.len() as int) == strs(
            options.features@,
        ));
        let mut arg = chars_of("--features=");
        append_copy(&mut arg, &join(&parts, &chars_of(",")));
        push_text(&mut args, &arg);
    }
    assert(strs(args@) =~= build_args(
        *options,
        crate::text::opt_text(target),
        strs(other_flags@),
        verbose,
    ));
    args
}

/// Where `pkg-config` finds the libraries of a target on Debian.
pub open spec fn pkg_config_dir(target: Seq<char>) -> Seq<char> {
    "/usr/lib/"@ + debian_triple_of(target) + "/pkgconfig"@
}

/// The directory to hand to `pkg-config` for a build for another target:
/// that of the target, where the caller has set up nothing of his own and
/// the directory exists.
pub fn cross_pkg_config(
    target: Option<&str>,
    allow_cross_is_set: bool,
    path_is_set: bool,
    files: &FileTree,
) -> (r: Option<String>)
    ensures
        match r {
            Some(p) => target matches Some(t) && p@ == pkg_config_dir(t@) && !allow_cross_is_set
                && !path_is_set && files.lookup(p@) is Some,
            None => target is None || allow_cross_is_set || path_is_set || files.lookup(
                pkg_config_dir(target->0@),
            ) is None,
        },
{
    match target {
        Some(t) => {
            // Set helpful defaults for cross-compiling
            if !allow_cross_is_set && !path_is_set {
                let mut p = chars_of("/usr/lib/");
                append_str(&mut p, debian_triple(t).as_str());
                append_str(&mut p, "/pkgconfig");
                let pkg_config_path = string_of(&p);
                if files.has_path(pkg_config_path.as_str()) {
                    return Some(pkg_config_path);
                }
            }
            None
        },
        None => None,
    }
}

/// The directory that holds `path`: its components without the last.
pub open spec fn parent_dir(path: Seq<char>) -> Seq<char> {
    let c = components(path);
    let above = joined(
        if c.len() > 0 {
            c.drop_last()
        } else {
            c
        },
    );
    if is_rooted(path) {
        seq!['/'] + above
    } else {
        above
    }
}

fn parent_of(path: &str) -> (r: String)
    ensures
        r@ == parent_dir(path@),
{
    let p = chars_of(path);
    let comps = components_of(&p);
    let n = if comps.len() > 0 {
        comps.len() - 1
    } else {
        0
    };
    let above = crate::paths::copy_texts(&comps, 0, n);
    if comps.len() > 0 {
        assert(views(comps@).subrange(0, n as int) =~= views(comps@).drop_last());
    } else {
        assert(views(comps@).subrange(0, n as int) =~= views(comps@));
    }
    let mut out: Vec<char> = Vec::new();
    if rooted(&p) {
        out.push('/');
    }
    let mut slash: Vec<char> = Vec::new();
    slash.push('/');
    assert(slash@ =~= seq!['/']);
    append_copy(&mut out, &join(&above, &slash));
    assert(out@ =~= parent_dir(path@));
    string_of(&out)
}

/// The programs that strip the binary at `path`. Where the debug symbols go
/// to a file of their own, they are copied to `debug_path` first, and a
/// link to that file is put into the binary last.
pub open spec fn strip_plan(
    path: Seq<char>,
    debug_path: Seq<char>,
    separate_file: bool,
    objcopy_cmd: Seq<char>,
    strip_cmd: Seq<char>,
) -> Seq<(Seq<char>, Seq<Seq<char>>, Option<Seq<char>>)> {
    (if separate_file {
        seq![(objcopy_cmd, seq!["--only-keep-debug"@, path, debug_path], None::<Seq<char>>)]
    } else {
        Seq::empty()
    }) + seq![(strip_cmd, seq!["--strip-unneeded"@, path], None::<Seq<char>>)] + (
    if separate_file && file_name(debug_path) is Some {
        seq![
            (
                objcopy_cmd,
                seq!["--add-gnu-debuglink="@ + file_name(debug_path)->0, path],
                Some(parent_dir(debug_path)),
            ),
        ]
    } else {
        Seq::empty()
    })
}

pub open spec fn invocation_view(i: Invocation) -> (Seq<char>, Seq<Seq<char>>, Option<Seq<char>>) {
    (
        i.program@,
        strs(i.args@),
        match i.current_dir {
            Some(d) => Some(d@),
            None => None,
        },
    )
}

pub open spec fn invocations(v: Seq<Invocation>) -> Seq<
    (Seq<char>, Seq<Seq<char>>, Option<Seq<char>>),
> {
    v.map_values(|i: Invocation| invocation_view(i))
}

fn two_args(a: &str, b: &str) -> (r: Vec<String>)
    ensures
        strs(r@) == seq![a@, b@],
{
    let mut v: Vec<String> = Vec::new();
    v.push(a.to_owned());
    v.push(b.to_owned());
    assert(strs(v@) =~= seq![a@, b@]);
    v
}

/// The programs that strip the binary at `path`, in the order to run them.
pub fn strip_commands(
    path: &str,
    debug_path: &str,
    separate_file: bool,
    objcopy_cmd: &str,
    strip_cmd: &str,
) -> (r: Vec<Invocation>)
    ensures
        invocations(r@) == strip_plan(
            path@,
            debug_path@,
            separate_file,
            objcopy_cmd@,
            strip_cmd@,
        ),
{
    let mut out: Vec<Invocation> = Vec::new();
    if separate_file {
        let mut args = two_args("--only-keep-debug", path);
        let ghost a0 = strs(args@);
        args.push(debug_path.to_owned());
        assert(strs(args@) =~= a0.push(debug_path@));
        assert(strs(args@) =~= seq!["--only-keep-debug"@, path@, debug_path@]);
        out.push(Invocation { program: objcopy_cmd.to_owned(), args, current_dir: None });
    }
    let ghost s1 = invocations(out@);
    out.push(
        Invocation {
            program: strip_cmd.to_owned(),
            args: two_args("--strip-unneeded", path),
            current_dir: None,
        },
    );
    let ghost s2 = invocations(out@);
    assert(s2 =~= s1.push((strip_cmd@, seq!["--strip-unneeded"@, path@], None::<Seq<char>>)));
    if separate_file {
        match last_component(debug_path) {
            Some(debug_filename) => {
                let mut link = chars_of("--add-gnu-debuglink=");
                append_str(&mut link, debug_filename.as_str());
                out.push(
                    Invocation {
                        program: objcopy_cmd.to_owned(),
                        args: two_args(string_of(&link).as_str(), path),
                        current_dir: Some(parent_of(debug_path)),
                    },
                );
                assert(invocations(out@) =~= s2.push(
                    (
                        objcopy_cmd@,
                        seq!["--add-gnu-debuglink="@ + debug_filename@, path@],
                        Some(parent_dir(debug_path@)),
                    ),
                ));
            },
            None => {},
        }
    }
    assert(invocations(out@) =~= strip_plan(
        path@,
        debug_path@,
        separate_file,
        objcopy_cmd@,
        strip_cmd@,
    ));
    out
}

/// A package of the workspace as `cargo metadata` reports it.
#[derive(Debug)]
pub struct CargoMetadataPackage {
    pub id: String,
    pub name: String,
    pub targets: Vec<CargoMetadataTarget>,
    pub manifest_path: String,
}

/// The index of the first package that `wanted` holds of, by name or by
/// identifier, or the number of packages where it holds of none.
pub open spec fn package_index(
    packages: Seq<CargoMetadataPackage>,
    by_name: bool,
    wanted: Seq<char>,
) -> int
    decreases packages.len(),
{
    if packages.len() == 0 {
        0
    } else if (by_name && packages[0].name@ == wanted) || (!by_name && packages[0].id@ == wanted) {
        0
    } else {
        1 + package_index(packages.skip(1), by_name, wanted)
    }
}

proof fn lemma_package_index(
    packages: Seq<CargoMetadataPackage>,
    by_name: bool,
    wanted: Seq<char>,
    i: int,
)
    requires
        0 <= i <= packages.len(),
        forall|j: int|
            0 <= j < i ==> !((by_name && (#[trigger] packages[j]).name@ == wanted) || (!by_name
                && packages[j].id@ == wanted)),
        i < packages.len() ==> (by_name && packages[i].name@ == wanted) || (!by_name
            && packages[i].id@ == wanted),
    ensures
        package_index(packages, by_name, wanted) == i,
    decreases packages.len(),
{
    if packages.len() > 0 && i > 0 {
        assert(!((by_name && packages[0].name@ == wanted) || (!by_name && packages[0].id@
            == wanted)));
        assert forall|j: int| 0 <= j < i - 1 implies !((by_name && (#[trigger] packages.skip(
            1,
        )[j]).name@ == wanted) || (!by_name && packages.skip(1)[j].id@ == wanted)) by {
            assert(packages.skip(1)[j] == packages[j + 1]);
        }
        lemma_package_index(packages.skip(1), by_name, wanted, i - 1);
    }
}

fn find_package(packages: &Vec<CargoMetadataPackage>, by_name: bool, wanted: &str) -> (i: usize)
    ensures
        i == package_index(packages@, by_name, wanted@),
        i <= packages@.len(),
{
    let w = chars_of(wanted);
    let mut i: usize = 0;
    while i < packages.len() && !((by_name && text_is(&w, packages[i].name.as_str())) || (!by_name
        && text_is(&w, packages[i].id.as_str())))
        invariant
            i <= packages.len(),
            w@ == wanted@,
            forall|j: int|
                0 <= j < i ==> !((by_name && (#[trigger] packages@[j]).name@ == wanted@) || (
                !by_name && packages@[j].id@ == wanted@)),
        decreases packages.len() - i,
    {
        i += 1;
    }
    proof {
        lemma_package_index(packages@, by_name, wanted@, i as int);
    }
    i
}

/// The names of the packages that are members of the workspace, in their
/// order.
pub open spec fn member_names(packages: Seq<CargoMetadataPackage>, members: Seq<Seq<char>>) -> Seq<
    Seq<char>,
>
    decreases packages.len(),
{
    if packages.len() == 0 {
        Seq::empty()
    } else if members.contains(packages.last().id@) {
        member_names(packages.drop_last(), members).push(packages.last().name@)
    } else {
        member_names(packages.drop_last(), members)
    }
}

fn available_package_names(packages: &Vec<CargoMetadataPackage>, members: &Vec<String>) -> (r:
    String)
    ensures
        r@ == join_all(member_names(packages@, strs(members@)), ", "@),
{
    let mut names: Vec<Vec<char>> = Vec::new();
    let mut i: usize = 0;
    assert(packages@.take(0) =~= Seq::<CargoMetadataPackage>::empty());
    assert(views(names@) =~= member_names(packages@.take(0), strs(members@)));
    while i < packages.len()
        invariant
            i <= packages.len(),
            views(names@) == member_names(packages@.take(i as int), strs(members@)),
        decreases packages.len() - i,
    {
        let ghost before = views(names@);
        proof {
            let next = packages@.take(i + 1);
            assert(next.drop_last() == packages@.take(i as int));
            assert(next.last() == packages@[i as int]);
        }
        let id = chars_of(packages[i].id.as_str());
        let mut k: usize = 0;
        while k < members.len() && !text_is(&id, members[k].as_str())
            invariant
                k <= members.len(),
                id@ == packages@[i as int].id@,
                forall|j: int| 0 <= j < k ==> strs(members@)[j] != id@,
            decreases members.len() - k,
        {
            k += 1;
        }
        if k < members.len() {
            assert(strs(members@)[k as int] == id@);
            names.push(chars_of(packages[i].name.as_str()));
            assert(views(names@) =~= before.push(packages@[i as int].name@));
        }
        i += 1;
    }
    assert(packages@.take(packages.len() as int) == packages@);
    string_of(&join(&names, &chars_of(", ")))
}

/// Picks the package to make a Debian package of: the one with the name
/// asked for, or else the root of the workspace. Returns its place among
/// the packages.
pub fn select_package(
    packages: &Vec<CargoMetadataPackage>,
    workspace_members: &Vec<String>,
    root: Option<&str>,
    package_name: Option<&str>,
) -> (r: CDResult<usize>)
    ensures
        match package_name {
            Some(name) => if package_index(packages@, true, name@) < packages@.len() {
                r matches Ok(i) && i == package_index(packages@, true, name@)
            } else {
                r matches Err(CargoDebError::PackageNotFoundInWorkspace(n, a)) && n@ == name@
                    && a@ == join_all(member_names(packages@, strs(workspace_members@)), ", "@)
            },
            None => if root is Some && package_index(packages@, false, root->0@) < packages@.len() {
                r matches Ok(i) && i == package_index(packages@, false, root->0@)
            } else {
                r matches Err(CargoDebError::NoRootFoundInWorkspace(a)) && a@ == join_all(
                    member_names(packages@, strs(workspace_members@)),
                    ", "@,
                )
            },
        },
{
    match package_name {
        Some(name) => {
            let i = find_package(packages, true, name);
            if i < packages.len() {
                Ok(i)
            } else {
                Err(
                    CargoDebError::PackageNotFoundInWorkspace(
                        name.to_owned(),
                        available_package_names(packages, workspace_members),
                    ),
                )
            }
        },
        None => {
            match root {
                Some(root_id) => {
                    let i = find_package(packages, false, root_id);
                    if i < packages.len() {
                        return Ok(i);
                    }
                },
                None => {},
            }
            Err(
                CargoDebError::NoRootFoundInWorkspace(
                    available_package_names(packages, workspace_members),
                ),
            )
        },
    }
}

/// The call of `cargo` that builds the project for a package, in the
/// directory of the manifest.
pub fn cargo_build(
    options: &Config,
    target: Option<&str>,
    other_flags: &Vec<String>,
    verbose: bool,
) -> (r: Invocation)
    ensures
        invocation_view(r) == (
            "cargo"@,
            build_args(*options, crate::text::opt_text(target), strs(other_flags@), verbose),
            Some(options.manifest_dir@),
        ),
{
    Invocation {
        program: "cargo".to_owned(),
        args: cargo_build_args(options, target, other_flags, verbose),
        current_dir: Some(options.manifest_dir.clone()),
    }
}

/// The call of `dpkg` that installs the package file at `path`.
pub fn install_deb(path: &str) -> (r: Invocation)
    ensures
        invocation_view(r) == ("sudo"@, seq!["dpkg"@, "-i"@, path@], None::<Seq<char>>),
{
    let mut args = two_args("dpkg", "-i");
    let ghost a0 = strs(args@);
    args.push(path.to_owned());
    assert(strs(args@) =~= a0.push(path@));
    assert(strs(args@) =~= seq!["dpkg"@, "-i"@, path@]);
    Invocation { program: "sudo".to_owned(), args, current_dir: None }
}

/// The built binary at place `i` that has a file of its own to strip.
pub open spec fn to_strip(options: Config, i: int) -> Option<Seq<char>> {
    if 0 <= i < options.assets.resolved@.len() && crate::manifest::is_binary(
        options.assets.resolved@[i],
        true,
    ) {
        match options.assets.resolved@[i].source {
            crate::manifest::AssetSource::Path(p) => Some(p@),
            crate::manifest::AssetSource::Data(_) => None,
        }
    } else {
        None
    }
}

/// The programs that strip the first `n` assets, as far as they are built
/// binaries with a file of their own.
pub open spec fn strip_plan_upto(
    options: Config,
    n: int,
    separate_file: bool,
    objcopy_cmd: Seq<char>,
    strip_cmd: Seq<char>,
) -> Seq<(Seq<char>, Seq<Seq<char>>, Option<Seq<char>>)>
    decreases n,
{
    if n <= 0 {
        Seq::empty()
    } else {
        strip_plan_upto(options, n - 1, separate_file, objcopy_cmd, strip_cmd) + (match to_strip(
            options,
            n - 1,
        ) {
            Some(path) => strip_plan(
                path,
                crate::manifest::debug_name(path),
                separate_file,
                objcopy_cmd,
                strip_cmd,
            ),
            None => Seq::empty(),
        })
    }
}

/// The programs that strip the binaries that were created with cargo, in
/// the order of the assets.
pub fn strip_binaries(
    options: &Config,
    separate_file: bool,
    objcopy_cmd: &str,
    strip_cmd: &str,
) -> (r: Vec<Invocation>)
    ensures
        invocations(r@) == strip_plan_upto(
            *options,
            options.assets.resolved@.len() as int,
            separate_file,
            objcopy_cmd@,
            strip_cmd@,
        ),
{
    let mut out: Vec<Invocation> = Vec::new();
    let assets = &options.assets.resolved;
    let mut i: usize = 0;
    assert(invocations(out@) =~= strip_plan_upto(
        *options,
        0,
        separate_file,
        objcopy_cmd@,
        strip_cmd@,
    ));
    while i < assets.len()
        invariant
            i <= assets.len(),
            assets == &options.assets.resolved,
            invocations(out@) == strip_plan_upto(
                *options,
                i as int,
                separate_file,
                objcopy_cmd@,
                strip_cmd@,
            ),
        decreases assets.len() - i,
    {
        let asset = &assets[i];
        let ghost before = invocations(out@);
        if asset.is_built && (asset.is_dynamic_library() || asset.is_executable()) {
            match asset.source.path() {
                Some(path) => {
                    let debug_path = crate::manifest::debug_filename(path);
                    let mut plan = strip_commands(
                        path,
                        debug_path.as_str(),
                        separate_file,
                        objcopy_cmd,
                        strip_cmd,
                    );
                    let ghost added = invocations(plan@);
                    out.append(&mut plan);
                    assert(invocations(out@) =~= before + added);
                },
                None => {
                    assert(invocations(out@) =~= before + Seq::empty());
                },
            }
        } else {
            assert(invocations(out@) =~= before + Seq::empty());
        }
        i += 1;
    }
    out
}

} // verus!
