//! From the assets of a package to the package file.

use crate::text::strs;
use crate::compress::{gzip_of, xz_or_gz, Compressed};
use crate::control::{control_entries, digest_views};
use crate::data::{archived, asset_digest};
use crate::debarchive::{ar_encoded, deb_filename, output_path, DebArchive, Member};
use crate::error::CDResult;
use crate::fstree::FileTree;
use crate::listener::Listener;
use crate::manifest::{Asset, Config};
use crate::tararchive::{encoded, zeros};
use crate::text::{append_copy, append_str, chars_of, decimal_of, string_of};
use vstd::prelude::*;
use vstd::utf8::encode_utf8;

verus! {

/// The digest that is noted for each asset, in the order of the assets.
pub open spec fn digests_of(assets: Seq<Asset>, files: &FileTree, preserve_symlinks: bool) -> Seq<
    Option<Seq<u8>>,
> {
    Seq::new(assets.len(), |i: int| asset_digest(assets[i], files, preserve_symlinks))
}

/// The marker of the format of the package: `2.0` and a line feed.
pub open spec fn format_marker() -> Seq<u8> {
    seq![50u8, 46u8, 48u8, 10u8]
}

/// The name of an archive as a member of the package file: `stem`, then
/// `.tar.` and the ending that says how it was compressed.
pub open spec fn tar_member_name(stem: Seq<char>, ending: Seq<char>) -> Seq<char> {
    stem + ".tar."@ + ending
}

/// The three members of a package file, in the order that Debian asks for:
/// the marker of the format, the control archive, the data archive. Of
/// each archive: the ending that says how it was compressed, and its
/// compressed bytes. All members carry `time`.
pub open spec fn package_members(
    time: u64,
    control: (Seq<char>, Seq<u8>),
    data: (Seq<char>, Seq<u8>),
) -> Seq<Member> {
    seq![
        (Member {
            name: encode_utf8("debian-binary"@),
            mtime: time,
            mode: 0o644,
            data: format_marker(),
        }),
        (Member {
            name: encode_utf8(tar_member_name("control"@, control.0)),
            mtime: time,
            mode: 0o644,
            data: control.1,
        }),
        (Member {
            name: encode_utf8(tar_member_name("data"@, data.0)),
            mtime: time,
            mode: 0o644,
            data: data.1,
        }),
    ]
}

/// The members of a package file whose archives are both gzip streams are
/// called `debian-binary`, `control.tar.gz` and `data.tar.gz`.
pub proof fn lemma_gzip_member_names()
    ensures
        tar_member_name("control"@, "gz"@) == "control.tar.gz"@,
        tar_member_name("data"@, "gz"@) == "data.tar.gz"@,
{
    reveal_strlit("control");
    reveal_strlit("data");
    reveal_strlit(".tar.");
    reveal_strlit("gz");
    reveal_strlit("control.tar.gz");
    reveal_strlit("data.tar.gz");
    assert("control"@ + ".tar."@ + "gz"@ =~= "control.tar.gz"@);
    assert("data"@ + ".tar."@ + "gz"@ =~= "data.tar.gz"@);
}

fn tar_name(stem: &str, compressed: &Compressed) -> (r: String)
    ensures
        r@ == tar_member_name(stem@, compressed.ending()),
{
    let mut name = chars_of(stem);
    append_str(&mut name, ".tar.");
    append_str(&mut name, compressed.extension());
    string_of(&name)
}

/// Puts the two compressed archives into a package file, behind the marker
/// of the format, in the order that Debian asks for.
///
/// Returns the path that the package file is to be written to, and its
/// bytes.
pub fn pack(
    options: &Config,
    time: u64,
    control: &Compressed,
    data: &Compressed,
    files: &FileTree,
) -> (r: CDResult<(String, Vec<u8>)>)
    ensures
        r matches Ok(out) && out.0@ == output_path(*options, files, deb_filename(*options))
            && out.1@ == ar_encoded(
            package_members(
                time,
                (control.ending(), control.bytes()),
                (data.ending(), data.bytes()),
            ),
        ),
{
    let mut deb_contents = DebArchive::new(options, files);
    let mut marker: Vec<u8> = Vec::new();
    marker.push(50u8);
    marker.push(46u8);
    marker.push(48u8);
    marker.push(10u8);
    assert(marker@ =~= format_marker());
    let _ = deb_contents.add_data("debian-binary", time, marker.as_slice());
    // Order is important for Debian
    let _ = deb_contents.add_data(tar_name("control", control).as_str(), time, control.data().as_slice());
    let _ = deb_contents.add_data(tar_name("data", data).as_str(), time, data.data().as_slice());
    proof {
        assert(deb_contents.members() =~= package_members(
            time,
            (control.ending(), control.bytes()),
            (data.ending(), data.bytes()),
        ));
    }
    deb_contents.finish()
}

/// Assembles the package file from the resolved assets of `options`: the
/// data archive with the files, the control archive with what is said of
/// them, and the file that holds both as gzip streams. Every entry and every member carries
/// `time`. `found` are the dependencies that were found for the binaries,
/// `files` holds what the assets and the scripts are read from, and `tool`
/// is the name that generated script fragments give as their origin.
///
/// Returns the path that the package file is to be written to, and its
/// bytes.
pub fn assemble<L: Listener + ?Sized>(
    options: &Config,
    time: u64,
    found: &Vec<String>,
    files: &FileTree,
    tool: &str,
    fast: bool,
    listener: &mut L,
) -> (r: CDResult<(String, Vec<u8>)>)
    ensures
        match archived(
            time,
            Seq::empty(),
            options.assets.resolved@,
            files,
            options.preserve_symlinks,
        ) {
            Some(data) => match control_entries(
                *options,
                time,
                digests_of(options.assets.resolved@, files, options.preserve_symlinks),
                strs(found@),
                files,
                tool@,
            ) {
                Some(control) => r matches Ok(out) && out.0@ == output_path(
                    *options,
                    files,
                    deb_filename(*options),
                ) && out.1@ == ar_encoded(
                    package_members(
                        time,
                        ("gz"@, gzip_of(encoded(time, control) + zeros(1024))),
                        ("gz"@, gzip_of(encoded(time, data) + zeros(1024))),
                    ),
                ),
                None => r is Err,
            },
            None => r is Err,
        },
{
    // The data archive holds the files that go into the filesystem.
    let (data_archive, asset_hashes) = match crate::data::generate_archive(
        options,
        time,
        files,
        listener,
    ) {
        Ok(d) => d,
        Err(e) => {
            return Err(e);
        },
    };
    assert(digest_views(asset_hashes@) =~= digests_of(
        options.assets.resolved@,
        files,
        options.preserve_symlinks,
    ));
    // The control archive is the metadata for the package manager
    let control_archive = match crate::control::generate_archive(
        options,
        time,
        &asset_hashes,
        found,
        files,
        tool,
        listener,
    ) {
        Ok(c) => c,
        Err(e) => {
            return Err(e);
        },
    };
    let control_compressed = match xz_or_gz(control_archive.as_slice(), fast) {
        Ok(c) => c,
        Err(e) => {
            return Err(e);
        },
    };
    let data_compressed = match xz_or_gz(data_archive.as_slice(), fast) {
        Ok(c) => c,
        Err(e) => {
            return Err(e);
        },
    };
    let mut msg = chars_of("compressed/original ratio ");
    append_copy(&mut msg, &decimal_of(data_compressed.data().len() as u64));
    msg.push('/');
    append_copy(&mut msg, &decimal_of(data_archive.len() as u64));
    listener.info(string_of(&msg));
    pack(options, time, &control_compressed, &data_compressed, files)
}

} // verus!
