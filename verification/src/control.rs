//! The control archive: what the package manager reads about the package.

use crate::classify::{reached, unit_text};
use crate::text::strs;
use crate::data::{digest_view, field, field_if, put_field, put_field_if};
use crate::dh_installsystemd::{
    enable_units, generate, generated, options_of, start_units, tmpfile_names, Options,
};
use crate::dh_lib::{apply, apply_outcome};
use crate::error::CDResult;
use crate::fragments::ScriptFragments;
use crate::fstree::FileTree;
use crate::listener::Listener;
use crate::manifest::{repository_kind, Asset, AssetSource, Config};
use crate::paths::{join_path, path_join};
use crate::tararchive::{appended, encoded, file_entry, zeros, Archive, Entry};
use crate::text::{
    append_copy, append_str, chars_of, decimal, decimal_of, has_prefix, hex_of, hex_text, join_all,
    lines_of, opt_view, split, split_on, starts_with, string_of, text_is, trim, trimmed, views,
};
use crate::utf8::encode;
use crate::util::StringSet;
use crate::wordsplit::{wrapped_all, WordSplit};
use vstd::prelude::*;
use vstd::utf8::encode_utf8;

verus! {

/// The entries with one more file, unless something failed before.
pub open spec fn then_file(
    state: Option<Seq<Entry>>,
    time: u64,
    path: Seq<char>,
    data: Seq<u8>,
    mode: u32,
) -> Option<Seq<Entry>> {
    match state {
        Some(es) => appended(time, es, file_entry(path, data, mode)),
        None => None,
    }
}

// ---------------------------------------------------------------------------
// md5sums
// ---------------------------------------------------------------------------

/// The line of `md5sums` for an asset: the digest in hexadecimal, two spaces
/// and the path; nothing for an asset without a digest.
pub open spec fn md5_line(asset: Asset, digest: Option<Seq<u8>>) -> Seq<char> {
    match digest {
        Some(d) => hex_text(d) + "  "@ + asset.target_path@ + seq!['\n'],
        None => Seq::empty(),
    }
}

/// The text of `md5sums`: the lines of the assets in their order.
pub open spec fn md5sums_text(assets: Seq<Asset>, digests: Seq<Option<Seq<u8>>>) -> Seq<char>
    decreases assets.len(),
{
    if assets.len() == 0 || digests.len() != assets.len() {
        Seq::empty()
    } else {
        md5sums_text(assets.drop_last(), digests.drop_last()) + md5_line(
            assets.last(),
            digests.last(),
        )
    }
}

/// The digests as they are held, each as a sequence of bytes.
pub open spec fn digest_views(digests: Seq<Option<Vec<u8>>>) -> Seq<Option<Seq<u8>>> {
    digests.map_values(|d: Option<Vec<u8>>| digest_view(d))
}

/// Makes the text of the md5sums file, which lists the files of the package
/// with the digest of each.
pub fn md5sums_of(assets: &Vec<Asset>, asset_hashes: &Vec<Option<Vec<u8>>>) -> (r: Vec<char>)
    requires
        asset_hashes@.len() == assets@.len(),
    ensures
        r@ == md5sums_text(assets@, digest_views(asset_hashes@)),
{
    let mut md5sums: Vec<char> = Vec::new();
    let mut i: usize = 0;
    let ghost ds = digest_views(asset_hashes@);
    assert(assets@.take(0) =~= Seq::<Asset>::empty());
    while i < assets.len()
        invariant
            i <= assets.len(),
            asset_hashes@.len() == assets@.len(),
            ds == digest_views(asset_hashes@),
            md5sums@ == md5sums_text(assets@.take(i as int), ds.take(i as int)),
        decreases assets.len() - i,
    {
        let ghost before = md5sums@;
        proof {
            let next = assets@.take(i + 1);
            assert(next.drop_last() == assets@.take(i as int));
            assert(next.last() == assets@[i as int]);
            let nd = ds.take(i + 1);
            assert(nd.drop_last() == ds.take(i as int));
            assert(nd.last() == digest_view(asset_hashes@[i as int]));
        }
        match &asset_hashes[i] {
            Some(value) => {
                append_copy(&mut md5sums, &hex_of(value));
                append_str(&mut md5sums, "  ");
                append_str(&mut md5sums, assets[i].target_path.as_str());
                md5sums.push('\n');
                assert(md5sums@ =~= before + md5_line(assets@[i as int], Some(value@)));
            },
            None => {
                assert(md5sums@ =~= before + Seq::<char>::empty());
            },
        }
        i += 1;
    }
    assert(assets@.take(assets.len() as int) == assets@);
    assert(ds.take(assets.len() as int) == ds);
    md5sums
}

/// Creates the md5sums file which contains a list of all contained files and the md5sums of each.
pub fn generate_md5sums(
    archive: &mut Archive,
    options: &Config,
    asset_hashes: &Vec<Option<Vec<u8>>>,
) -> (r: CDResult<()>)
    requires
        old(archive).wf(),
        asset_hashes@.len() == options.assets.resolved@.len(),
    ensures
        final(archive).wf(),
        final(archive).mtime() == old(archive).mtime(),
        match then_file(
            Some(old(archive).entries()),
            old(archive).mtime(),
            "./md5sums"@,
            encode_utf8(md5sums_text(options.assets.resolved@, digest_views(asset_hashes@))),
            0o644,
        ) {
            Some(es) => r is Ok && final(archive).entries() == es,
            None => r is Err && final(archive).entries() == old(archive).entries(),
        },
{
    let md5sums = md5sums_of(&options.assets.resolved, asset_hashes);
    // Write the data to the archive
    archive.file("./md5sums", encode(&md5sums).as_slice(), 0o644)
}

// ---------------------------------------------------------------------------
// control
// ---------------------------------------------------------------------------

/// The sizes of the sources that have one, added up.
pub open spec fn total_size(assets: Seq<Asset>, files: &FileTree) -> nat
    decreases assets.len(),
{
    if assets.len() == 0 {
        0
    } else {
        total_size(assets.drop_last(), files) + source_size(assets.last(), files)
    }
}

/// The number of bytes of the source of an asset, 0 where it is not known.
pub open spec fn source_size(asset: Asset, files: &FileTree) -> nat {
    match asset.source {
        AssetSource::Path(p) => match files.lookup(p@) {
            Some(e) => e.data@.len(),
            None => 0,
        },
        AssetSource::Data(d) => d@.len(),
    }
}

/// The size of the installed package in units of 1024 bytes, rounded down.
pub open spec fn installed_size(assets: Seq<Asset>, files: &FileTree) -> nat {
    total_size(assets, files) / 1024
}

/// The size as it is written: no more than fits into 64 bits.
pub open spec fn installed_kib(assets: Seq<Asset>, files: &FileTree) -> u64 {
    if installed_size(assets, files) > u64::MAX {
        u64::MAX
    } else {
        installed_size(assets, files) as u64
    }
}

pub fn installed_size_of(assets: &Vec<Asset>, files: &FileTree) -> (r: u128)
    ensures
        r == installed_size(assets@, files),
{
    let mut sum: u128 = 0;
    let mut i: usize = 0;
    assert(assets@.take(0) =~= Seq::<Asset>::empty());
    while i < assets.len()
        invariant
            i <= assets.len(),
            sum == total_size(assets@.take(i as int), files),
            sum <= i * u64::MAX,
        decreases assets.len() - i,
    {
        proof {
            let next = assets@.take(i + 1);
            assert(next.drop_last() == assets@.take(i as int));
            assert(next.last() == assets@[i as int]);
            assert((i + 1) * u64::MAX == i * u64::MAX + u64::MAX) by (nonlinear_arith);
            assert(i * u64::MAX <= usize::MAX * u64::MAX) by (nonlinear_arith)
                requires
                    i <= usize::MAX,
            ;
            assert(usize::MAX * u64::MAX <= u64::MAX * u64::MAX) by (nonlinear_arith)
                requires
                    usize::MAX <= u64::MAX,
            ;
        }
        match assets[i].source.len(files) {
            Some(n) => {
                sum = sum + n as u128;
            },
            None => {},
        }
        i += 1;
    }
    assert(assets@.take(assets.len() as int) == assets@);
    sum / 1024
}

/// The fields that tell where the sources are kept.
pub open spec fn vcs_fields(options: Config) -> Seq<char> {
    match options.repository {
        Some(repo) => (if has_prefix(repo@, "http"@) {
            field("Vcs-Browser"@, repo@)
        } else {
            Seq::empty()
        }) + (match repository_kind(repo@) {
            Some(kind) => field("Vcs-"@ + kind, repo@),
            None => Seq::empty(),
        }),
        None => Seq::empty(),
    }
}

/// The lines of a description: each behind a space, with a line feed.
pub open spec fn indented(ls: Seq<Seq<char>>) -> Seq<char>
    decreases ls.len(),
{
    if ls.len() == 0 {
        Seq::empty()
    } else {
        indented(ls.drop_last()) + seq![' '] + ls.last() + seq!['\n']
    }
}

/// A description broken into lines of less than 79 bytes, each indented.
pub open spec fn description_lines(text: Seq<char>) -> Seq<char> {
    indented(wrapped_all(lines_of(text), 79))
}

/// The text of the control file.
pub open spec fn control_text(options: Config, size: nat, deps: Seq<char>) -> Seq<char> {
    field("Package"@, options.deb_name@) + field("Version"@, options.deb_version@) + field(
        "Architecture"@,
        options.architecture@,
    ) + vcs_fields(options) + field_if(
        "Homepage"@,
        if options.homepage is Some {
            options.homepage
        } else {
            options.documentation
        },
    ) + field_if("Section"@, options.section) + field("Priority"@, options.priority@)
        + "Standards-Version: 3.9.4\n"@ + field("Maintainer"@, options.maintainer@) + field(
        "Installed-Size"@,
        decimal(size),
    ) + (if deps.len() > 0 {
        field("Depends"@, deps)
    } else {
        Seq::empty()
    }) + field_if("Build-Depends"@, options.build_depends) + field_if(
        "Conflicts"@,
        options.conflicts,
    ) + field_if("Breaks"@, options.breaks) + field_if("Replaces"@, options.replaces) + field_if(
        "Provides"@,
        options.provides,
    ) + "Description:"@ + description_lines(options.description@) + (match options.extended_description {
        Some(d) => description_lines(d@),
        None => Seq::empty(),
    }) + seq!['\n']
}

fn put_description(text: &mut Vec<char>, description: &str)
    ensures
        final(text)@ == old(text)@ + description_lines(description@),
{
    let ls = description.split_by_chars(79);
    let ghost all = strs(ls@);
    let ghost start = text@;
    let mut i: usize = 0;
    assert(all.take(0) =~= Seq::<Seq<char>>::empty());
    assert(text@ =~= start + indented(all.take(0)));
    while i < ls.len()
        invariant
            i <= ls.len(),
            all == strs(ls@),
            text@ == start + indented(all.take(i as int)),
        decreases ls.len() - i,
    {
        proof {
            let next = all.take(i + 1);
            assert(next.drop_last() == all.take(i as int));
            assert(next.last() == ls@[i as int]@);
        }
        text.push(' ');
        append_str(text, ls[i].as_str());
        text.push('\n');
        assert(text@ =~= start + indented(all.take(i + 1)));
        i += 1;
    }
    assert(all.take(ls.len() as int) == all);
}

/// Makes the text of the control file. `deps` is the value of the `Depends`
/// field, and the size is that of the sources in `files`.
pub fn control_of(options: &Config, deps: &str, files: &FileTree) -> (r: Vec<char>)
    ensures
        r@ == control_text(*options, installed_kib(options.assets.resolved@, files) as nat, deps@),
{
    let mut control: Vec<char> = Vec::new();
    // Write all of the lines required by the control file.
    put_field(&mut control, "Package", options.deb_name.as_str());
    put_field(&mut control, "Version", options.deb_version.as_str());
    put_field(&mut control, "Architecture", options.architecture.as_str());
    let ghost t0 = control@;
    match &options.repository {
        Some(repo) => {
            let r = chars_of(repo.as_str());
            if starts_with(&r, &chars_of("http")) {
                put_field(&mut control, "Vcs-Browser", repo.as_str());
            }
            let ghost t1 = control@;
            match options.repository_type() {
                Some(kind) => {
                    let mut name = chars_of("Vcs-");
                    append_str(&mut name, kind);
                    put_field(&mut control, string_of(&name).as_str(), repo.as_str());
                },
                None => {
                    assert(control@ =~= t1 + Seq::<char>::empty());
                },
            }
        },
        None => {},
    }
    assert(control@ =~= t0 + vcs_fields(*options));
    if options.homepage.is_some() {
        put_field_if(&mut control, "Homepage", &options.homepage);
    } else {
        put_field_if(&mut control, "Homepage", &options.documentation);
    }
    put_field_if(&mut control, "Section", &options.section);
    put_field(&mut control, "Priority", options.priority.as_str());
    append_str(&mut control, "Standards-Version: 3.9.4\n");
    put_field(&mut control, "Maintainer", options.maintainer.as_str());

    let size = installed_size_of(&options.assets.resolved, files);
    let size: u64 = if size > u64::MAX as u128 {
        u64::MAX
    } else {
        size as u64
    };
    put_field(&mut control, "Installed-Size", string_of(&decimal_of(size)).as_str());
    let ghost t2 = control@;
    let d = chars_of(deps);
    if d.len() > 0 {
        put_field(&mut control, "Depends", deps);
    } else {
        assert(control@ =~= t2 + Seq::<char>::empty());
    }
    put_field_if(&mut control, "Build-Depends", &options.build_depends);
    put_field_if(&mut control, "Conflicts", &options.conflicts);
    put_field_if(&mut control, "Breaks", &options.breaks);
    put_field_if(&mut control, "Replaces", &options.replaces);
    put_field_if(&mut control, "Provides", &options.provides);

    append_str(&mut control, "Description:");
    put_description(&mut control, options.description.as_str());
    let ghost t3 = control@;
    match &options.extended_description {
        Some(desc) => put_description(&mut control, desc.as_str()),
        None => {
            assert(control@ =~= t3 + Seq::<char>::empty());
        },
    }
    control.push('\n');
    assert(control@ =~= control_text(
        *options,
        installed_kib(options.assets.resolved@, files) as nat,
        deps@,
    ));
    control
}

// ---------------------------------------------------------------------------
// Depends
// ---------------------------------------------------------------------------

/// The words of a list with commas, each without the white space around it.
pub open spec fn listed(text: Seq<char>) -> Seq<Seq<char>> {
    split_on(text, ',').map_values(|w: Seq<char>| trimmed(w))
}

/// A package is depended on: it is listed, or the list asks for the
/// dependencies that were found and it is among them.
pub open spec fn depends_on(depends: Seq<char>, found: Seq<Seq<char>>, dep: Seq<char>) -> bool {
    (listed(depends).contains(dep) && dep != "$auto"@) || (listed(depends).contains("$auto"@)
        && found.contains(dep))
}

/// The value of the `Depends` field: the packages that are depended on, each
/// once, in rising order, with a comma and a space between them.
pub open spec fn depends_text(depends: Seq<char>, found: Seq<Seq<char>>) -> Seq<char> {
    join_all(
        crate::dh_installsystemd::in_order(Set::new(|d: Seq<char>| depends_on(depends, found, d))),
        ", "@,
    )
}

impl Config {
    /// The value of the `Depends` field. `found` are the dependencies that
    /// were found for the binaries of the package; they take the place of
    /// `$auto` in the list of the configuration.
    pub fn get_dependencies(&self, found: &Vec<String>) -> (r: String)
        ensures
            r@ == depends_text(self.depends@, strs(found@)),
    {
        let words = split(&chars_of(self.depends.as_str()), ',');
        let ghost raw = split_on(self.depends@, ',');
        let ghost all = listed(self.depends@);
        let ghost fs = strs(found@);
        let mut deps = StringSet::new();
        let mut i: usize = 0;
        while i < words.len()
            invariant
                i <= words.len(),
                views(words@) == raw,
                raw == split_on(self.depends@, ','),
                all == listed(self.depends@),
                fs == strs(found@),
                deps.wf(),
                forall|d: Seq<char>| #[trigger]
                    deps.set().contains(d) <==> ((exists|j: int|
                        0 <= j < i && #[trigger] all[j] == d && d != "$auto"@) || ((exists|j: int|
                        0 <= j < i && #[trigger] all[j] == "$auto"@) && fs.contains(d))),
            decreases words.len() - i,
        {
            let word = trim(&words[i]);
            assert(all[i as int] == word@);
            let ghost before = deps.set();
            if text_is(&word, "$auto") {
                let mut k: usize = 0;
                while k < found.len()
                    invariant
                        k <= found.len(),
                        fs == strs(found@),
                        deps.wf(),
                        forall|d: Seq<char>| #[trigger]
                            deps.set().contains(d) <==> (before.contains(d) || exists|m: int|
                                0 <= m < k && #[trigger] fs[m] == d),
                    decreases found.len() - k,
                {
                    let ghost mid = deps.set();
                    deps.insert(found[k].as_str());
                    proof {
                        assert(fs[k as int] == found@[k as int]@);
                        assert forall|d: Seq<char>| #[trigger]
                            deps.set().contains(d) <==> (before.contains(d) || exists|m: int|
                                0 <= m < k + 1 && #[trigger] fs[m] == d) by {
                            if mid.contains(d) && !before.contains(d) {
                                let m = choose|m: int| 0 <= m < k && #[trigger] fs[m] == d;
                                assert(0 <= m < k + 1 && fs[m] == d);
                            }
                            if exists|m: int| 0 <= m < k + 1 && #[trigger] fs[m] == d {
                                let m = choose|m: int| 0 <= m < k + 1 && #[trigger] fs[m] == d;
                                if m < k {
                                    assert(mid.contains(d));
                                }
                            }
                        }
                    }
                    k += 1;
                }
                proof {
                    assert forall|d: Seq<char>| #[trigger]
                        deps.set().contains(d) <==> ((exists|j: int|
                            0 <= j < i + 1 && #[trigger] all[j] == d && d != "$auto"@) || ((exists|
                            j: int,
                        |
                            0 <= j < i + 1 && #[trigger] all[j] == "$auto"@) && fs.contains(
                            d,
                        ))) by {
                        if fs.contains(d) {
                            let m = choose|m: int| 0 <= m < fs.len() && fs[m] == d;
                            assert(fs[m] == d);
                        }
                        if before.contains(d) {
                            if exists|j: int| 0 <= j < i && #[trigger] all[j] == d && d != "$auto"@ {
                                let j = choose|j: int|
                                    0 <= j < i && #[trigger] all[j] == d && d != "$auto"@;
                                assert(0 <= j < i + 1 && all[j] == d);
                            }
                        }
                        if exists|j: int| 0 <= j < i + 1 && #[trigger] all[j] == d && d != "$auto"@ {
                            let j = choose|j: int|
                                0 <= j < i + 1 && #[trigger] all[j] == d && d != "$auto"@;
                            assert(j < i);
                        }
                    }
                }
            } else {
                deps.insert_text(word);
                proof {
                    let w = all[i as int];
                    assert forall|d: Seq<char>| #[trigger]
                        deps.set().contains(d) <==> ((exists|j: int|
                            0 <= j < i + 1 && #[trigger] all[j] == d && d != "$auto"@) || ((exists|
                            j: int,
                        |
                            0 <= j < i + 1 && #[trigger] all[j] == "$auto"@) && fs.contains(
                            d,
                        ))) by {
                        if before.contains(d) {
                            if exists|j: int| 0 <= j < i && #[trigger] all[j] == d && d != "$auto"@ {
                                let j = choose|j: int|
                                    0 <= j < i && #[trigger] all[j] == d && d != "$auto"@;
                                assert(0 <= j < i + 1 && all[j] == d);
                            } else {
                                let j = choose|j: int| 0 <= j < i && #[trigger] all[j] == "$auto"@;
                                assert(0 <= j < i + 1 && all[j] == "$auto"@);
                            }
                        }
                        if exists|j: int| 0 <= j < i + 1 && #[trigger] all[j] == d && d != "$auto"@ {
                            let j = choose|j: int|
                                0 <= j < i + 1 && #[trigger] all[j] == d && d != "$auto"@;
                            if j < i {
                                assert(before.contains(d));
                            }
                        }
                        if (exists|j: int| 0 <= j < i + 1 && #[trigger] all[j] == "$auto"@)
                            && fs.contains(d) {
                            let j = choose|j: int| 0 <= j < i + 1 && #[trigger] all[j] == "$auto"@;
                            assert(j < i);
                            assert(before.contains(d));
                        }
                    }
                }
            }
            i += 1;
        }
        proof {
            let wanted = Set::new(|d: Seq<char>| depends_on(self.depends@, fs, d));
            assert forall|d: Seq<char>| deps.set().contains(d) <==> wanted.contains(d) by {
                if all.contains(d) {
                    let j = choose|j: int| 0 <= j < all.len() && all[j] == d;
                    assert(all[j] == d);
                }
                if all.contains("$auto"@) {
                    let j = choose|j: int| 0 <= j < all.len() && all[j] == "$auto"@;
                    assert(all[j] == "$auto"@);
                }
            }
            assert(deps.set() =~= wanted);
            crate::util::lemma_sorted_unique(crate::dh_installsystemd::in_order(wanted), deps@);
        }
        deps.join(", ")
    }
}

/// Generates the control file that obtains all the important information about the package.
pub fn generate_control(
    archive: &mut Archive,
    options: &Config,
    found: &Vec<String>,
    files: &FileTree,
) -> (r: CDResult<()>)
    requires
        old(archive).wf(),
    ensures
        final(archive).wf(),
        final(archive).mtime() == old(archive).mtime(),
        match then_file(
            Some(old(archive).entries()),
            old(archive).mtime(),
            "./control"@,
            encode_utf8(
                control_text(
                    *options,
                    installed_kib(options.assets.resolved@, files) as nat,
                    depends_text(options.depends@, strs(found@)),
                ),
            ),
            0o644,
        ) {
            Some(es) => r is Ok && final(archive).entries() == es,
            None => r is Err && final(archive).entries() == old(archive).entries(),
        },
{
    let deps = options.get_dependencies(found);
    let control = control_of(options, deps.as_str(), files);
    // Add the control file to the tar archive.
    archive.file("./control", encode(&control).as_slice(), 0o644)
}

/// If configuration files are required, the conffiles file will be created.
pub fn generate_conf_files(archive: &mut Archive, files: &str) -> (r: CDResult<()>)
    requires
        old(archive).wf(),
    ensures
        final(archive).wf(),
        final(archive).mtime() == old(archive).mtime(),
        match then_file(
            Some(old(archive).entries()),
            old(archive).mtime(),
            "./conffiles"@,
            encode_utf8(files@ + seq!['\n']),
            0o644,
        ) {
            Some(es) => r is Ok && final(archive).entries() == es,
            None => r is Err && final(archive).entries() == old(archive).entries(),
        },
{
    let mut data = chars_of(files);
    data.push('\n');
    assert(data@ =~= files@ + seq!['\n']);
    archive.file("./conffiles", encode(&data).as_slice(), 0o644)
}

/// Adds the triggers file, where the tree holds it.
pub fn generate_triggers_file(archive: &mut Archive, path: &str, files: &FileTree) -> (r:
    CDResult<()>)
    requires
        old(archive).wf(),
    ensures
        final(archive).wf(),
        final(archive).mtime() == old(archive).mtime(),
        match files.content(path@) {
            Some(content) => match then_file(
                Some(old(archive).entries()),
                old(archive).mtime(),
                "./triggers"@,
                content,
                0o644,
            ) {
                Some(es) => r is Ok && final(archive).entries() == es,
                None => r is Err && final(archive).entries() == old(archive).entries(),
            },
            None => r is Ok && final(archive).entries() == old(archive).entries(),
        },
{
    match files.read(path) {
        Some(content) => archive.file("./triggers", content.as_slice(), 0o644),
        None => Ok(()),
    }
}

// ---------------------------------------------------------------------------
// Maintainer scripts
// ---------------------------------------------------------------------------

/// Every unit that is to be started has a file that can be read.
pub open spec fn units_readable(assets: Seq<Asset>, files: &FileTree) -> bool {
    forall|u: Seq<char>| reached(assets, files, u) ==> #[trigger] unit_text(assets, files, u) is Some
}

/// The scripts that are made for the units of the package and merged with
/// those of the user in `dir`; none where the package says nothing of units.
/// Nothing where a unit cannot be read or a merge fails.
pub open spec fn unit_scripts(options: Config, dir: Seq<char>, files: &FileTree, tool: Seq<char>) -> Option<
    Map<Seq<char>, Seq<u8>>,
> {
    match options.systemd_units {
        Some(units) => if units_readable(options.assets.resolved@, files) {
            let made = generated(
                options.name@,
                tool,
                options_of(units),
                tmpfile_names(options.assets.resolved@),
                enable_units(options.assets.resolved@, files),
                start_units(options.assets.resolved@, files),
            );
            let merged = apply_outcome(files, dir, made, options.name@, opt_view(units.unit_name));
            if merged.1 is None {
                Some(merged.0)
            } else {
                None
            }
        } else {
            None
        },
        None => Some(Map::empty()),
    }
}

/// The bytes of the script called `name`: what was made for it, else what
/// the user keeps under this name in `dir`.
pub open spec fn script_bytes(
    scripts: Map<Seq<char>, Seq<u8>>,
    files: &FileTree,
    dir: Seq<char>,
    name: Seq<char>,
) -> Option<Seq<u8>> {
    if scripts.contains_key(name) {
        Some(scripts[name])
    } else {
        files.content(path_join(dir, name))
    }
}

/// The entries with the script called `name`, where there is one.
pub open spec fn then_script(
    state: Option<Seq<Entry>>,
    time: u64,
    scripts: Map<Seq<char>, Seq<u8>>,
    files: &FileTree,
    dir: Seq<char>,
    name: Seq<char>,
) -> Option<Seq<Entry>> {
    match state {
        Some(es) => match script_bytes(scripts, files, dir, name) {
            Some(b) => appended(time, es, file_entry(name, b, 0o755)),
            None => Some(es),
        },
        None => None,
    }
}

/// The entries with the maintainer scripts of the package: `config`,
/// `preinst`, `postinst`, `prerm`, `postrm` and `templates`, as far as they
/// exist, in this order.
pub open spec fn then_scripts(
    state: Option<Seq<Entry>>,
    time: u64,
    options: Config,
    files: &FileTree,
    tool: Seq<char>,
) -> Option<Seq<Entry>> {
    match options.maintainer_scripts {
        Some(dir) => match unit_scripts(options, dir@, files, tool) {
            Some(m) => {
                let s1 = then_script(state, time, m, files, dir@, "config"@);
                let s2 = then_script(s1, time, m, files, dir@, "preinst"@);
                let s3 = then_script(s2, time, m, files, dir@, "postinst"@);
                let s4 = then_script(s3, time, m, files, dir@, "prerm"@);
                let s5 = then_script(s4, time, m, files, dir@, "postrm"@);
                then_script(s5, time, m, files, dir@, "templates"@)
            },
            None => None,
        },
        None => state,
    }
}

fn add_script(
    archive: &mut Archive,
    scripts: &ScriptFragments,
    files: &FileTree,
    dir: &str,
    name: &str,
) -> (r: CDResult<()>)
    requires
        old(archive).wf(),
        scripts.wf(),
    ensures
        final(archive).wf(),
        final(archive).mtime() == old(archive).mtime(),
        match then_script(
            Some(old(archive).entries()),
            old(archive).mtime(),
            scripts@,
            files,
            dir@,
            name@,
        ) {
            Some(es) => r is Ok && final(archive).entries() == es,
            None => r is Err && final(archive).entries() == old(archive).entries(),
        },
{
    match scripts.get(name) {
        Some(contents) => archive.file(name, contents.as_slice(), 0o755),
        None => {
            let script_path = join_path(dir, name);
            match files.read(script_path.as_str()) {
                Some(contents) => archive.file(name, contents.as_slice(), 0o755),
                None => Ok(()),
            }
        },
    }
}

/// Append Debian maintainer script files (control, preinst, postinst, prerm,
/// postrm and templates) present in the `maintainer_scripts` path to the
/// archive, if `maintainer_scripts` is configured.
///
/// Additionally, when `systemd_units` is configured, shell script fragments
/// "for enabling, disabling, starting, stopping and restarting systemd unit
/// files" (quoting man 1 dh_installsystemd) will replace the `#DEBHELPER#`
/// token in the provided maintainer scripts.
///
/// If a shell fragment cannot be inserted because the target script is missing
/// then the entire script will be generated and appended to the archive.
pub fn generate_scripts<L: Listener + ?Sized>(
    archive: &mut Archive,
    option: &Config,
    files: &FileTree,
    tool: &str,
    listener: &mut L,
) -> (r: CDResult<()>)
    requires
        old(archive).wf(),
    ensures
        final(archive).wf(),
        final(archive).mtime() == old(archive).mtime(),
        match then_scripts(
            Some(old(archive).entries()),
            old(archive).mtime(),
            *option,
            files,
            tool@,
        ) {
            Some(es) => r is Ok && final(archive).entries() == es,
            None => r is Err,
        },
{
    match &option.maintainer_scripts {
        Some(maintainer_scripts_dir) => {
            let dir = maintainer_scripts_dir.as_str();
            let scripts = match &option.systemd_units {
                Some(systemd_units_config) => {
                    // Select and populate autoscript templates relevant to the unit
                    // file(s) in this package and the configuration settings chosen.
                    let mut scripts = match generate(
                        option.name.as_str(),
                        &option.assets.resolved,
                        &Options::from_config(systemd_units_config),
                        files,
                        tool,
                        listener,
                    ) {
                        Ok(s) => s,
                        Err(e) => {
                            return Err(e);
                        },
                    };
                    let unit_name: Option<&str> = match &systemd_units_config.unit_name {
                        Some(n) => Some(n.as_str()),
                        None => None,
                    };
                    // Replace the #DEBHELPER# token in the users maintainer scripts
                    // and/or generate maintainer scripts from scratch as needed.
                    match apply(
                        files,
                        dir,
                        &mut scripts,
                        option.name.as_str(),
                        unit_name,
                        listener,
                    ) {
                        Ok(_) => {},
                        Err(e) => {
                            return Err(e);
                        },
                    }
                    scripts
                },
                None => ScriptFragments::new(),
            };
            // Add maintainer scripts to the archive, either those supplied by the
            // user or if available prefer modified versions generated above.
            match add_script(archive, &scripts, files, dir, "config") {
                Ok(_) => {},
                Err(e) => {
                    return Err(e);
                },
            }
            match add_script(archive, &scripts, files, dir, "preinst") {
                Ok(_) => {},
                Err(e) => {
                    return Err(e);
                },
            }
            match add_script(archive, &scripts, files, dir, "postinst") {
                Ok(_) => {},
                Err(e) => {
                    return Err(e);
                },
            }
            match add_script(archive, &scripts, files, dir, "prerm") {
                Ok(_) => {},
                Err(e) => {
                    return Err(e);
                },
            }
            match add_script(archive, &scripts, files, dir, "postrm") {
                Ok(_) => {},
                Err(e) => {
                    return Err(e);
                },
            }
            add_script(archive, &scripts, files, dir, "templates")
        },
        None => Ok(()),
    }
}

/// The entries of the control archive: `md5sums`, `control`, `conffiles`
/// where the package has configuration files, the maintainer scripts, and
/// `triggers` where the package names a file for it that exists.
pub open spec fn control_entries(
    options: Config,
    time: u64,
    digests: Seq<Option<Seq<u8>>>,
    found: Seq<Seq<char>>,
    files: &FileTree,
    tool: Seq<char>,
) -> Option<Seq<Entry>> {
    let s1 = then_file(
        Some(Seq::empty()),
        time,
        "./md5sums"@,
        encode_utf8(md5sums_text(options.assets.resolved@, digests)),
        0o644,
    );
    let s2 = then_file(
        s1,
        time,
        "./control"@,
        encode_utf8(
            control_text(
                options,
                installed_kib(options.assets.resolved@, files) as nat,
                depends_text(options.depends@, found),
            ),
        ),
        0o644,
    );
    let s3 = match options.conf_files {
        Some(c) => then_file(s2, time, "./conffiles"@, encode_utf8(c@ + seq!['\n']), 0o644),
        None => s2,
    };
    let s4 = then_scripts(s3, time, options, files, tool);
    match options.triggers_file {
        Some(path) => match files.content(path@) {
            Some(content) => then_file(s4, time, "./triggers"@, content, 0o644),
            None => s4,
        },
        None => s4,
    }
}

/// Generates an uncompressed tar archive with `control`, `md5sums`, and others
pub fn generate_archive<L: Listener + ?Sized>(
    options: &Config,
    time: u64,
    asset_hashes: &Vec<Option<Vec<u8>>>,
    found: &Vec<String>,
    files: &FileTree,
    tool: &str,
    listener: &mut L,
) -> (r: CDResult<Vec<u8>>)
    requires
        asset_hashes@.len() == options.assets.resolved@.len(),
    ensures
        match control_entries(
            *options,
            time,
            digest_views(asset_hashes@),
            strs(found@),
            files,
            tool@,
        ) {
            Some(es) => r is Ok && r->Ok_0@ == encoded(time, es) + zeros(1024),
            None => r is Err,
        },
{
    let mut archive = Archive::new(time);
    match generate_md5sums(&mut archive, options, asset_hashes) {
        Ok(_) => {},
        Err(e) => {
            return Err(e);
        },
    }
    match generate_control(&mut archive, options, found, files) {
        Ok(_) => {},
        Err(e) => {
            return Err(e);
        },
    }
    match &options.conf_files {
        Some(conf) => match generate_conf_files(&mut archive, conf.as_str()) {
            Ok(_) => {},
            Err(e) => {
                return Err(e);
            },
        },
        None => {},
    }
    match generate_scripts(&mut archive, options, files, tool, listener) {
        Ok(_) => {},
        Err(e) => {
            return Err(e);
        },
    }
    match &options.triggers_file {
        Some(file) => match generate_triggers_file(&mut archive, file.as_str(), files) {
            Ok(_) => {},
            Err(e) => {
                return Err(e);
            },
        },
        None => {},
    }
    archive.into_inner()
}

} // verus!
