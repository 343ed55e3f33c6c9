//! The data archive: the files of the package.

use crate::compress::{gz, gzip_of};
use crate::error::{CDResult, CargoDebError};
use crate::fstree::FileTree;
use crate::listener::Listener;
use crate::manifest::{Asset, AssetSource, Config};
use crate::paths::path_join;
use crate::tararchive::{
    appended, encoded, file_entry, symlink_entry, zeros, Archive, Entry,
};
use crate::text::{
    append_copy, append_str, chars_of, decimal, decimal_of, ends_with, has_prefix, has_suffix, lines,
    lines_of, starts_with, string_of, views,
};
use crate::utf8::{decode, encode, text_of};
use vstd::prelude::*;
use vstd::utf8::encode_utf8;

verus! {

/// The MD5 digest of `data`: 16 bytes.
pub uninterp spec fn md5_of(data: Seq<u8>) -> Seq<u8>;

/// `md5::compute` returns the digest of the data, 16 bytes that depend on
/// the data alone.
#[verifier::external_body]
fn md5_digest(data: &[u8]) -> (r: Vec<u8>)
    ensures
        r@ == md5_of(data@),
        r@.len() == 16,
{
    md5::compute(data).0.to_vec()
}

/// A size for people to read: bytes below a thousand, else thousands of
/// bytes, else millions, rounded up.
pub open spec fn human(len: u64) -> (u64, Seq<char>) {
    if len < 1000 {
        (len, "B"@)
    } else if len < 1000_000 {
        (((len + 999) / 1000) as u64, "KB"@)
    } else {
        (((len + 999_999) / 1000_000) as u64, "MB"@)
    }
}

pub fn human_size(len: u64) -> (r: (u64, &'static str))
    ensures
        r.0 == human(len).0,
        r.1@ == human(len).1,
{
    if len < 1000 {
        return (len, "B");
    }
    if len < 1000_000 {
        return ((len + 999) / 1000, "KB");
    }
    let whole = len / 1000_000;
    let more: u64 = if len % 1000_000 != 0 {
        1
    } else {
        0
    };
    (whole + more, "MB")
}

/// The link that stands in the archive for an asset: where links are kept
/// and the source is itself a symbolic link, the place that it points to.
pub open spec fn asset_link(asset: Asset, files: &FileTree, preserve_symlinks: bool) -> Option<
    Seq<char>,
> {
    match asset.source {
        AssetSource::Path(p) => match files.lookup(p@) {
            Some(e) => match e.link {
                Some(l) => if preserve_symlinks {
                    Some(l@)
                } else {
                    None
                },
                None => None,
            },
            None => None,
        },
        AssetSource::Data(_) => None,
    }
}

/// The entry that stands in the archive for an asset, or nothing where the
/// asset cannot be read.
pub open spec fn asset_entry(asset: Asset, files: &FileTree, preserve_symlinks: bool) -> Option<
    Entry,
> {
    match asset.source.bytes(files) {
        None => None,
        Some(data) => match asset_link(asset, files, preserve_symlinks) {
            Some(link) => Some(symlink_entry(asset.target_path@, link)),
            None => Some(file_entry(asset.target_path@, data, asset.chmod)),
        },
    }
}

/// The digest that is noted for an asset: that of its bytes, unless a link
/// stands for it.
pub open spec fn asset_digest(asset: Asset, files: &FileTree, preserve_symlinks: bool) -> Option<
    Seq<u8>,
> {
    match asset.source.bytes(files) {
        None => None,
        Some(data) => match asset_link(asset, files, preserve_symlinks) {
            Some(link) => None,
            None => Some(md5_of(data)),
        },
    }
}

/// The entries after every asset was added in turn, or nothing where one
/// of them cannot be read or added.
pub open spec fn archived(
    time: u64,
    es: Seq<Entry>,
    assets: Seq<Asset>,
    files: &FileTree,
    preserve_symlinks: bool,
) -> Option<Seq<Entry>>
    decreases assets.len(),
{
    if assets.len() == 0 {
        Some(es)
    } else {
        match archived(time, es, assets.drop_last(), files, preserve_symlinks) {
            None => None,
            Some(before) => match asset_entry(assets.last(), files, preserve_symlinks) {
                None => None,
                Some(e) => appended(time, before, e),
            },
        }
    }
}

proof fn lemma_archived_fails_on(
    time: u64,
    es: Seq<Entry>,
    assets: Seq<Asset>,
    files: &FileTree,
    preserve_symlinks: bool,
    n: int,
)
    requires
        0 <= n <= assets.len(),
        archived(time, es, assets.take(n), files, preserve_symlinks) is None,
    ensures
        archived(time, es, assets, files, preserve_symlinks) is None,
    decreases assets.len(),
{
    if n == assets.len() {
        assert(assets.take(n) == assets);
    } else {
        assert(assets.drop_last().take(n) == assets.take(n));
        lemma_archived_fails_on(time, es, assets.drop_last(), files, preserve_symlinks, n);
    }
}

/// The digest of an asset as it is held: a vector for a digest.
pub open spec fn digest_view(d: Option<Vec<u8>>) -> Option<Seq<u8>> {
    match d {
        Some(v) => Some(v@),
        None => None,
    }
}

/// The size of an asset as a progress line shows it: a blank, and in
/// brackets the size for people to read; nothing where the size is unknown.
pub open spec fn size_text(len: Option<u64>) -> Seq<char> {
    match len {
        Some(n) => " ("@ + decimal(human(n).0 as nat) + human(n).1 + seq![')'],
        None => Seq::empty(),
    }
}

fn size_note(len: Option<u64>) -> (r: Vec<char>)
    ensures
        r@ == size_text(len),
{
    let mut out: Vec<char> = Vec::new();
    match len {
        Some(n) => {
            let (size, unit) = human_size(n);
            append_str(&mut out, " (");
            append_copy(&mut out, &decimal_of(size));
            append_str(&mut out, unit);
            out.push(')');
            assert(out@ =~= size_text(len));
        },
        None => {},
    }
    out
}

/// Copies all the files to be packaged into the tar archive.
/// Returns the MD5 digest of each file copied, in the order of the assets;
/// an asset for which a link was added has none.
#[verifier::loop_isolation(false)]
pub fn archive_files<L: Listener + ?Sized>(
    archive: &mut Archive,
    options: &Config,
    files: &FileTree,
    listener: &mut L,
) -> (r: CDResult<Vec<Option<Vec<u8>>>>)
    requires
        old(archive).wf(),
    ensures
        final(archive).wf(),
        final(archive).mtime() == old(archive).mtime(),
        match archived(
            old(archive).mtime(),
            old(archive).entries(),
            options.assets.resolved@,
            files,
            options.preserve_symlinks,
        ) {
            Some(es) => {
                &&& r is Ok
                &&& final(archive).entries() == es
                &&& r->Ok_0@.len() == options.assets.resolved@.len()
                &&& forall|i: int|
                    0 <= i < r->Ok_0@.len() ==> digest_view(#[trigger] r->Ok_0@[i]) == asset_digest(
                        options.assets.resolved@[i],
                        files,
                        options.preserve_symlinks,
                    )
            },
            None => r is Err,
        },
{
    let assets = &options.assets.resolved;
    let ghost time = archive.mtime();
    let ghost es0 = archive.entries();
    let ghost keep = options.preserve_symlinks;
    let mut hashes: Vec<Option<Vec<u8>>> = Vec::new();
    let mut i: usize = 0;
    assert(assets@.take(0) =~= Seq::<Asset>::empty());
    while i < assets.len()
        invariant
            i <= assets.len(),
            assets == &options.assets.resolved,
            keep == options.preserve_symlinks,
            archive.wf(),
            archive.mtime() == time,
            archived(time, es0, assets@.take(i as int), files, keep) == Some(archive.entries()),
            hashes@.len() == i,
            forall|j: int|
                0 <= j < i ==> digest_view(#[trigger] hashes@[j]) == asset_digest(
                    assets@[j],
                    files,
                    keep,
                ),
        decreases assets.len() - i,
    {
        let asset = &assets[i];
        proof {
            let next = assets@.take(i + 1);
            assert(next.drop_last() == assets@.take(i as int));
            assert(next.last() == assets@[i as int]);
        }
        let out_data = match asset.source.data(files) {
            Ok(d) => d,
            Err(e) => {
                proof {
                    lemma_archived_fails_on(time, es0, assets@, files, keep, i + 1);
                }
                return Err(e);
            },
        };

        let mut log_line: Vec<char> = Vec::new();
        match asset.source.path() {
            Some(p) => append_str(&mut log_line, p),
            None => log_line.push('-'),
        }
        append_str(&mut log_line, " -> ");
        append_str(&mut log_line, asset.target_path.as_str());
        append_copy(&mut log_line, &size_note(asset.source.len(files)));
        listener.info(string_of(&log_line));

        let mut link: Option<String> = None;
        if options.preserve_symlinks {
            match &asset.source {
                AssetSource::Path(p) => match files.find(p.as_str()) {
                    Some(k) => match &files.entries[k].link {
                        Some(l) => {
                            link = Some(l.clone());
                        },
                        None => {},
                    },
                    None => {},
                },
                AssetSource::Data(_) => {},
            }
        }
        assert(match link {
            Some(l) => asset_link(*asset, files, keep) == Some(l@),
            None => asset_link(*asset, files, keep) is None,
        });
        let added = match link {
            Some(link_name) => {
                hashes.push(None);
                archive.symlink(asset.target_path.as_str(), link_name.as_str())
            },
            None => {
                hashes.push(Some(md5_digest(out_data.as_slice())));
                archive.file(asset.target_path.as_str(), out_data.as_slice(), asset.chmod)
            },
        };
        match added {
            Ok(_) => {},
            Err(e) => {
                proof {
                    lemma_archived_fails_on(time, es0, assets@, files, keep, i + 1);
                }
                return Err(e);
            },
        }
        i += 1;
    }
    assert(assets@.take(assets.len() as int) == assets@);
    Ok(hashes)
}

/// Generates an uncompressed tar archive and hashes of its files
pub fn generate_archive<L: Listener + ?Sized>(
    options: &Config,
    time: u64,
    files: &FileTree,
    listener: &mut L,
) -> (r: CDResult<(Vec<u8>, Vec<Option<Vec<u8>>>)>)
    ensures
        match archived(
            time,
            Seq::empty(),
            options.assets.resolved@,
            files,
            options.preserve_symlinks,
        ) {
            Some(es) => {
                &&& r is Ok
                &&& r->Ok_0.0@ == encoded(time, es) + zeros(1024)
                &&& r->Ok_0.1@.len() == options.assets.resolved@.len()
                &&& forall|i: int|
                    0 <= i < r->Ok_0.1@.len() ==> digest_view(#[trigger] r->Ok_0.1@[i])
                        == asset_digest(
                        options.assets.resolved@[i],
                        files,
                        options.preserve_symlinks,
                    )
            },
            None => r is Err,
        },
{
    let mut archive = Archive::new(time);
    let copy_hashes = match archive_files(&mut archive, options, files, listener) {
        Ok(h) => h,
        Err(e) => {
            return Err(e);
        },
    };
    match archive.into_inner() {
        Ok(bytes) => Ok((bytes, copy_hashes)),
        Err(e) => Err(e),
    }
}

// ---------------------------------------------------------------------------
// The copyright file
// ---------------------------------------------------------------------------

/// A field of a control or copyright file: the name, a colon and a space,
/// the value, a line feed.
pub open spec fn field(name: Seq<char>, value: Seq<char>) -> Seq<char> {
    name + ": "@ + value + seq!['\n']
}

/// The field, where there is a value for it.
pub open spec fn field_if(name: Seq<char>, value: Option<String>) -> Seq<char> {
    match value {
        Some(v) => field(name, v@),
        None => Seq::empty(),
    }
}

pub fn put_field(text: &mut Vec<char>, name: &str, value: &str)
    ensures
        final(text)@ == old(text)@ + field(name@, value@),
{
    append_str(text, name);
    append_str(text, ": ");
    append_str(text, value);
    text.push('\n');
    assert(text@ =~= old(text)@ + field(name@, value@));
}

pub fn put_field_if(text: &mut Vec<char>, name: &str, value: &Option<String>)
    ensures
        final(text)@ == old(text)@ + field_if(name@, *value),
{
    match value {
        Some(v) => put_field(text, name, v.as_str()),
        None => {
            assert(text@ =~= old(text)@ + Seq::<char>::empty());
        },
    }
}

/// The head of a copyright file: the format, the name, the source (the
/// repository, else the homepage), the copyright and the license.
pub open spec fn copyright_head(options: Config) -> Seq<char> {
    "Format: https://www.debian.org/doc/packaging-manuals/copyright-format/1.0/\n"@ + field(
        "Upstream-Name"@,
        options.name@,
    ) + field_if(
        "Source"@,
        if options.repository is Some {
            options.repository
        } else {
            options.homepage
        },
    ) + field("Copyright"@, options.copyright@) + field_if("License"@, options.license)
}

pub fn append_copyright_metadata(copyright: &mut Vec<char>, options: &Config)
    ensures
        final(copyright)@ == old(copyright)@ + copyright_head(*options),
{
    let ghost start = copyright@;
    append_str(
        copyright,
        "Format: https://www.debian.org/doc/packaging-manuals/copyright-format/1.0/\n",
    );
    put_field(copyright, "Upstream-Name", options.name.as_str());
    if options.repository.is_some() {
        put_field_if(copyright, "Source", &options.repository);
    } else {
        put_field_if(copyright, "Source", &options.homepage);
    }
    put_field(copyright, "Copyright", options.copyright.as_str());
    put_field_if(copyright, "License", &options.license);
    assert(copyright@ =~= start + copyright_head(*options));
}

/// One of the first ten lines begins a field of a copyright head.
pub open spec fn has_metadata(file: Seq<char>) -> bool {
    exists|i: int|
        0 <= i < lines_of(file).len() && i < 10 && metadata_line(#[trigger] lines_of(file)[i])
}

pub open spec fn metadata_line(l: Seq<char>) -> bool {
    has_prefix(l, "License: "@) || has_prefix(l, "Source: "@) || has_prefix(
        l,
        "Upstream-Name: "@,
    ) || has_prefix(l, "Format: "@)
}

fn has_metadata_in(all: &Vec<Vec<char>>) -> (b: bool)
    ensures
        b == exists|i: int|
            0 <= i < views(all@).len() && i < 10 && metadata_line(#[trigger] views(all@)[i]),
{
    let mut i: usize = 0;
    while i < all.len() && i < 10
        invariant
            i <= all.len(),
            i <= 10,
            forall|j: int| 0 <= j < i ==> !metadata_line(#[trigger] views(all@)[j]),
        decreases all.len() - i,
    {
        let l = &all[i];
        assert(views(all@)[i as int] == l@);
        if starts_with(l, &chars_of("License: ")) || starts_with(l, &chars_of("Source: "))
            || starts_with(l, &chars_of("Upstream-Name: ")) || starts_with(
            l,
            &chars_of("Format: "),
        ) {
            return true;
        }
        i += 1;
    }
    false
}

pub fn has_copyright_metadata(file: &str) -> (b: bool)
    ensures
        b == has_metadata(file@),
{
    let all = lines(&chars_of(file));
    has_metadata_in(&all)
}

/// The lines of a license from line `from` on, each with a line feed; a line
/// that is a single space stands as ` .`.
pub open spec fn license_body(ls: Seq<Seq<char>>, from: int) -> Seq<char>
    decreases ls.len(),
{
    if ls.len() <= from || ls.len() == 0 {
        Seq::empty()
    } else {
        license_body(ls.drop_last(), from) + (if ls.last() == seq![' '] {
            " .\n"@
        } else {
            ls.last() + seq!['\n']
        })
    }
}

/// The copyright file: the text of the license file from the line to start
/// at, under a head unless the license has one; the head alone where there
/// is no license file.
pub open spec fn copyright_text(options: Config, license: Option<Seq<char>>) -> Seq<char> {
    match license {
        Some(l) => (if has_metadata(l) {
            Seq::empty()
        } else {
            copyright_head(options)
        }) + license_body(lines_of(l), options.license_file_skip_lines as int),
        None => copyright_head(options),
    }
}

/// The text of the license file of the package, where it names one and the
/// file can be read as text.
pub open spec fn license_of(options: Config, files: &FileTree) -> Option<Seq<char>> {
    match options.license_file {
        Some(path) => match files.content(path_join(options.manifest_dir@, path@)) {
            Some(b) => text_of(b),
            None => None,
        },
        None => None,
    }
}

/// Generates the copyright file from the license file.
pub fn generate_copyright_asset(options: &Config, files: &FileTree) -> (r: CDResult<Vec<u8>>)
    ensures
        match options.license_file {
            Some(_) => match license_of(*options, files) {
                Some(l) => r is Ok && r->Ok_0@ == encode_utf8(copyright_text(*options, Some(l))),
                None => r matches Err(e) && e is IoFile,
            },
            None => r is Ok && r->Ok_0@ == encode_utf8(copyright_text(*options, None)),
        },
{
    let mut copyright: Vec<char> = Vec::new();
    match &options.license_file {
        Some(path) => {
            let full = options.path_in_workspace(path.as_str());
            let license = match files.read(full.as_str()) {
                Some(bytes) => match decode(bytes) {
                    Some(t) => t,
                    None => {
                        return Err(
                            CargoDebError::IoFile(
                                "unable to read license file",
                                "stream did not contain valid UTF-8".to_owned(),
                                path.clone(),
                            ),
                        );
                    },
                },
                None => {
                    return Err(
                        CargoDebError::IoFile(
                            "unable to read license file",
                            "no such file".to_owned(),
                            path.clone(),
                        ),
                    );
                },
            };
            let all = lines(&license);
            if !has_metadata_in(&all) {
                append_copyright_metadata(&mut copyright, options);
            }
            let ghost head = copyright@;
            let ghost ls = views(all@);
            let skip = options.license_file_skip_lines;
            // Skip the first lines and then take each line after that.
            let mut i: usize = 0;
            assert(ls.take(0) =~= Seq::<Seq<char>>::empty());
            assert(copyright@ =~= head + license_body(ls.take(0), skip as int));
            while i < all.len()
                invariant
                    i <= all.len(),
                    ls == views(all@),
                    copyright@ == head + license_body(ls.take(i as int), skip as int),
                decreases all.len() - i,
            {
                let ghost before = copyright@;
                proof {
                    let next = ls.take(i + 1);
                    assert(next.drop_last() == ls.take(i as int));
                    assert(next.last() == all@[i as int]@);
                    if i < skip {
                        assert(license_body(ls.take(i as int), skip as int) =~= Seq::<
                            char,
                        >::empty());
                    }
                }
                if i >= skip {
                    let line = &all[i];
                    // If the line is a space, add a dot, else write the line.
                    if line.len() == 1 && line[0] == ' ' {
                        assert(line@ =~= seq![' ']);
                        append_str(&mut copyright, " .\n");
                    } else {
                        append_copy(&mut copyright, line);
                        copyright.push('\n');
                    }
                    assert(copyright@ =~= head + license_body(ls.take(i + 1), skip as int));
                }
                i += 1;
            }
            assert(ls.take(all.len() as int) == ls);
        },
        None => {
            append_copyright_metadata(&mut copyright, options);
            assert(copyright@ =~= copyright_head(*options));
        },
    }
    Ok(encode(&copyright))
}

/// Generates compressed changelog file
pub fn generate_changelog_asset(options: &Config, files: &FileTree) -> (r: CDResult<
    Option<Vec<u8>>,
>)
    ensures
        match options.changelog {
            Some(path) => match files.content(path_join(options.manifest_dir@, path@)) {
                Some(content) => r matches Ok(Some(z)) && z@ == gzip_of(content),
                None => r matches Err(e) && e is IoFile,
            },
            None => r matches Ok(c) && c is None,
        },
{
    match &options.changelog {
        Some(path) => {
            let full = options.path_in_workspace(path.as_str());
            match files.read(full.as_str()) {
                // The input is plaintext, but the debian package should contain gzipped one.
                Some(content) => match gz(content.as_slice()) {
                    Ok(z) => Ok(Some(z)),
                    Err(_) => Err(
                        CargoDebError::IoFile(
                            "unable to read changelog file",
                            "compression failed".to_owned(),
                            path.clone(),
                        ),
                    ),
                },
                None => Err(
                    CargoDebError::IoFile(
                        "unable to read changelog file",
                        "no such file".to_owned(),
                        path.clone(),
                    ),
                ),
            }
        },
        None => Ok(None),
    }
}

// ---------------------------------------------------------------------------
// Assets that are made here
// ---------------------------------------------------------------------------

/// The path of the copyright file of the package.
pub open spec fn doc_path(deb_name: Seq<char>, file: Seq<char>) -> Seq<char> {
    path_join(path_join("usr/share/doc"@, deb_name), file)
}

proof fn lemma_doc_path_is_a_file(deb_name: Seq<char>)
    ensures
        !has_suffix(doc_path(deb_name, "copyright"@), seq!['/']),
        !has_suffix(doc_path(deb_name, "changelog.gz"@), seq!['/']),
{
    reveal_strlit("copyright");
    reveal_strlit("changelog.gz");
    let a = doc_path(deb_name, "copyright"@);
    let b = doc_path(deb_name, "changelog.gz"@);
    assert(a.last() == 't');
    assert(b.last() == 'z');
    if has_suffix(a, seq!['/']) {
        assert(a.subrange(a.len() - 1, a.len() as int)[0] == a[a.len() - 1]);
    }
    if has_suffix(b, seq!['/']) {
        assert(b.subrange(b.len() - 1, b.len() as int)[0] == b[b.len() - 1]);
    }
}

impl Config {
    /// Makes the copyright file and puts it behind the resolved assets.
    pub fn add_copyright_asset(&mut self, files: &FileTree) -> (r: CDResult<()>)
        ensures
            match r {
                Ok(_) => {
                    &&& *final(self) == (Config { assets: final(self).assets, ..*old(self) })
                    &&& final(self).assets.unresolved == old(self).assets.unresolved
                    &&& final(self).assets.resolved@.len() == old(self).assets.resolved@.len() + 1
                    &&& final(self).assets.resolved@.drop_last() == old(self).assets.resolved@
                    &&& final(self).assets.resolved@.last().source matches AssetSource::Data(d)
                        && generate_copyright_asset_result(*old(self), files) == Some(d@)
                    &&& final(self).assets.resolved@.last().target_path@
                        == crate::manifest::placed(None, doc_path(old(self).deb_name@, "copyright"@))
                    &&& final(self).assets.resolved@.last().chmod == 0o644
                    &&& !final(self).assets.resolved@.last().is_built
                },
                Err(e) => generate_copyright_asset_result(*old(self), files) is None && *final(self)
                    == *old(self) && e is IoFile,
            },
    {
        let copyright_file = match generate_copyright_asset(self, files) {
            Ok(c) => c,
            Err(e) => {
                return Err(e);
            },
        };
        let target = crate::paths::join_path(
            crate::paths::join_path("usr/share/doc", self.deb_name.as_str()).as_str(),
            "copyright",
        );
        proof {
            lemma_doc_path_is_a_file(self.deb_name@);
        }
        let asset = Asset::new(AssetSource::Data(copyright_file), target, 0o644, false);
        self.assets.resolved.push(asset);
        assert(self.assets.resolved@.drop_last() == old(self).assets.resolved@);
        Ok(())
    }

    /// Compresses the changelog, where the package has one, and puts it
    /// behind the resolved assets.
    pub fn add_changelog_asset(&mut self, files: &FileTree) -> (r: CDResult<()>)
        ensures
            old(self).changelog is None ==> r is Ok && *final(self) == *old(self),
            old(self).changelog matches Some(path) ==> (r is Ok <==> files.content(
                path_join(old(self).manifest_dir@, path@),
            ) is Some),
            r matches Err(e) ==> *final(self) == *old(self) && e is IoFile,
            old(self).changelog is Some && r is Ok ==> {
                &&& *final(self) == (Config { assets: final(self).assets, ..*old(self) })
                &&& final(self).assets.unresolved == old(self).assets.unresolved
                &&& final(self).assets.resolved@.len() == old(self).assets.resolved@.len() + 1
                &&& final(self).assets.resolved@.drop_last() == old(self).assets.resolved@
                &&& final(self).assets.resolved@.last().source matches AssetSource::Data(d)
                    && (files.content(
                    path_join(old(self).manifest_dir@, old(self).changelog->0@),
                ) matches Some(c) && d@ == gzip_of(c))
                &&& final(self).assets.resolved@.last().target_path@
                    == crate::manifest::placed(
                    None,
                    doc_path(old(self).deb_name@, "changelog.gz"@),
                )
                &&& final(self).assets.resolved@.last().chmod == 0o644
                &&& !final(self).assets.resolved@.last().is_built
            },
    {
        // The file is autogenerated later
        match generate_changelog_asset(self, files) {
            Ok(Some(changelog_file)) => {
                let target = crate::paths::join_path(
                    crate::paths::join_path("usr/share/doc", self.deb_name.as_str()).as_str(),
                    "changelog.gz",
                );
                proof {
                    lemma_doc_path_is_a_file(self.deb_name@);
                }
                let asset = Asset::new(AssetSource::Data(changelog_file), target, 0o644, false);
                self.assets.resolved.push(asset);
                assert(self.assets.resolved@.drop_last() == old(self).assets.resolved@);
                Ok(())
            },
            Ok(None) => Ok(()),
            Err(e) => Err(e),
        }
    }
}

/// The bytes of the copyright file, or nothing where the license file
/// cannot be read.
pub open spec fn generate_copyright_asset_result(options: Config, files: &FileTree) -> Option<
    Seq<u8>,
> {
    match options.license_file {
        Some(_) => match license_of(options, files) {
            Some(l) => Some(encode_utf8(copyright_text(options, Some(l)))),
            None => None,
        },
        None => Some(encode_utf8(copyright_text(options, None))),
    }
}

/// A manual page that is not compressed yet.
pub open spec fn plain_man_page(asset: Asset) -> bool {
    has_prefix(asset.target_path@, "usr/share/man/"@) && !has_suffix(asset.target_path@, ".gz"@)
}

/// The assets that are no plain manual pages, in their order.
pub open spec fn kept_assets(assets: Seq<Asset>) -> Seq<Asset>
    decreases assets.len(),
{
    if assets.len() == 0 {
        Seq::empty()
    } else if plain_man_page(assets.last()) {
        kept_assets(assets.drop_last())
    } else {
        kept_assets(assets.drop_last()).push(assets.last())
    }
}

/// The plain manual pages among the assets, in their order.
pub open spec fn man_pages(assets: Seq<Asset>) -> Seq<Asset>
    decreases assets.len(),
{
    if assets.len() == 0 {
        Seq::empty()
    } else if plain_man_page(assets.last()) {
        man_pages(assets.drop_last()).push(assets.last())
    } else {
        man_pages(assets.drop_last())
    }
}

/// `packed` is the manual page `page` compressed: the same place with `.gz`
/// behind it, the same mode, the bytes compressed.
pub open spec fn compressed_page(page: Asset, files: &FileTree, packed: Asset) -> bool {
    &&& packed.source matches AssetSource::Data(d) && (page.source.bytes(files) matches Some(c)
        && d@ == gzip_of(c))
    &&& packed.target_path@ == crate::manifest::placed(None, page.target_path@ + ".gz"@)
    &&& packed.chmod == page.chmod
    &&& !packed.is_built
}

/// Every one of the pages can be read.
pub open spec fn pages_readable(pages: Seq<Asset>, files: &FileTree) -> bool {
    forall|j: int| 0 <= j < pages.len() ==> (#[trigger] pages[j]).source.bytes(files) is Some
}

proof fn lemma_man_pages_hold(assets: Seq<Asset>, i: int)
    requires
        0 <= i < assets.len(),
        plain_man_page(assets[i]),
    ensures
        exists|j: int| 0 <= j < man_pages(assets).len() && #[trigger] man_pages(assets)[j] == assets[i],
    decreases assets.len(),
{
    if i == assets.len() - 1 {
        let j = man_pages(assets).len() - 1;
        assert(man_pages(assets)[j] == assets[i]);
    } else {
        lemma_man_pages_hold(assets.drop_last(), i);
        let j = choose|j: int|
            0 <= j < man_pages(assets.drop_last()).len() && #[trigger] man_pages(
                assets.drop_last(),
            )[j] == assets.drop_last()[i];
        assert(man_pages(assets)[j] == assets[i]);
    }
}

fn is_plain_man_page(asset: &Asset) -> (b: bool)
    ensures
        b == plain_man_page(*asset),
{
    let t = chars_of(asset.target_path.as_str());
    starts_with(&t, &chars_of("usr/share/man/")) && !ends_with(&t, &chars_of(".gz"))
}

/// Compress man page assets per Debian Policy.
///
/// Each manual page that is not compressed gives way to a compressed one
/// behind the other assets. This succeeds exactly where every such page can
/// be read; where one cannot, nothing changes.
pub fn compress_man_pages<L: Listener + ?Sized>(
    options: &mut Config,
    files: &FileTree,
    listener: &mut L,
) -> (r: CDResult<()>)
    ensures
        r is Ok <==> pages_readable(man_pages(old(options).assets.resolved@), files),
        r matches Err(e) ==> e is IoFile,
        match r {
            Ok(_) => {
                let before = old(options).assets.resolved@;
                let after = final(options).assets.resolved@;
                let kept = kept_assets(before);
                let pages = man_pages(before);
                &&& *final(options) == (Config { assets: final(options).assets, ..*old(options) })
                &&& final(options).assets.unresolved == old(options).assets.unresolved
                &&& after.len() == kept.len() + pages.len()
                &&& after.take(kept.len() as int) == kept
                &&& forall|j: int|
                    0 <= j < pages.len() ==> compressed_page(
                        pages[j],
                        files,
                        #[trigger] after[kept.len() + j],
                    )
            },
            Err(_) => *final(options) == *old(options),
        },
{
    let ghost before = options.assets.resolved@;
    // first make what is new, so that a failure changes nothing
    let mut new_assets: Vec<Asset> = Vec::new();
    let mut i: usize = 0;
    assert(before.take(0) =~= Seq::<Asset>::empty());
    while i < options.assets.resolved.len()
        invariant
            i <= options.assets.resolved.len(),
            *options == *old(options),
            before == options.assets.resolved@,
            new_assets@.len() == man_pages(before.take(i as int)).len(),
            forall|j: int|
                0 <= j < new_assets@.len() ==> compressed_page(
                    man_pages(before.take(i as int))[j],
                    files,
                    #[trigger] new_assets@[j],
                ),
        decreases options.assets.resolved.len() - i,
    {
        let asset = &options.assets.resolved[i];
        let ghost pages = man_pages(before.take(i as int));
        proof {
            let next = before.take(i + 1);
            assert(next.drop_last() == before.take(i as int));
            assert(next.last() == before[i as int]);
        }
        if is_plain_man_page(asset) {
            let mut msg = chars_of("Compressing '");
            match asset.source.path() {
                Some(p) => append_str(&mut msg, p),
                None => msg.push('-'),
            }
            msg.push('\'');
            listener.info(string_of(&msg));

            proof {
                lemma_man_pages_hold(before, i as int);
            }
            let content = match asset.source.data(files) {
                Ok(c) => c,
                Err(e) => {
                    return Err(e);
                },
            };
            let compressed = match gz(content.as_slice()) {
                Ok(z) => z,
                Err(e) => {
                    return Err(e);
                },
            };
            let mut target = chars_of(asset.target_path.as_str());
            append_str(&mut target, ".gz");
            proof {
                reveal_strlit(".gz");
                let t = asset.target_path@ + ".gz"@;
                assert(t.last() == 'z');
                if has_suffix(t, seq!['/']) {
                    assert(t.subrange(t.len() - 1, t.len() as int)[0] == t[t.len() - 1]);
                }
            }
            let packed = Asset::new(
                AssetSource::Data(compressed),
                string_of(&target),
                asset.chmod,
                false,
            );
            let ghost done = new_assets@;
            new_assets.push(packed);
            assert forall|j: int| 0 <= j < new_assets@.len() implies compressed_page(
                man_pages(before.take(i + 1))[j],
                files,
                #[trigger] new_assets@[j],
            ) by {
                if j < done.len() {
                    assert(new_assets@[j] == done[j]);
                    assert(man_pages(before.take(i + 1))[j] == pages[j]);
                }
            }
        }
        i += 1;
    }
    assert(before.take(options.assets.resolved.len() as int) == before);

    // then take the plain pages out
    let n = options.assets.resolved.len();
    let mut all: Vec<Asset> = Vec::new();
    std::mem::swap(&mut all, &mut options.assets.resolved);
    let mut kept: Vec<Asset> = Vec::new();
    let mut k: usize = 0;
    while all.len() > 0
        invariant
            k + all@.len() == n,
            n == before.len(),
            all@ == before.skip(k as int),
            kept@ == kept_assets(before.take(k as int)),
        decreases all.len(),
    {
        let asset = all.remove(0);
        proof {
            let next = before.take(k + 1);
            assert(next.drop_last() == before.take(k as int));
            assert(next.last() == before[k as int]);
            assert(asset == before[k as int]);
            assert(all@ =~= before.skip(k + 1));
        }
        if !is_plain_man_page(&asset) {
            kept.push(asset);
        }
        k += 1;
    }
    assert(before.take(n as int) == before);
    let ghost kept_view = kept@;
    let ghost new_view = new_assets@;
    kept.append(&mut new_assets);
    options.assets.resolved = kept;
    proof {
        let after = options.assets.resolved@;
        assert(after == kept_view + new_view);
        assert(after.take(kept_view.len() as int) =~= kept_view);
        assert forall|j: int| 0 <= j < new_view.len() implies compressed_page(
            man_pages(before)[j],
            files,
            #[trigger] after[kept_view.len() + j],
        ) by {
            assert(after[kept_view.len() + j] == new_view[j]);
        }
        assert forall|j: int| 0 <= j < man_pages(before).len() implies (#[trigger] man_pages(
            before,
        )[j]).source.bytes(files) is Some by {
            assert(compressed_page(man_pages(before)[j], files, after[kept_view.len() + j]));
        }
    }
    Ok(())
}

} // verus!
