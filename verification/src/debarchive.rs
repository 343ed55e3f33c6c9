//! The package file: an `ar` archive of three members.

use crate::error::{CDResult, CargoDebError};
use crate::fstree::FileTree;
use crate::manifest::Config;
use crate::paths::{join_path, path_below, path_join, strip_prefix};
use crate::pathbytes::AsUnixPathBytes;
use crate::tararchive::io_error_text;
use crate::text::{append_str, chars_of, ends_with, has_suffix, string_of};
use vstd::prelude::*;
use vstd::string::StrSliceExecFns;
use vstd::utf8::encode_utf8;

verus! {

pub const DEFAULT_SEPARATOR: char = '_';

/// An `ar::Builder` that writes into a vector of bytes.
#[verifier::external_body]
pub struct ArWriter {
    inner: ar::Builder<Vec<u8>>,
}

/// The bytes that a builder has written into its vector so far.
pub uninterp spec fn ar_written(b: ArWriter) -> Seq<u8>;

/// Whether a builder has written the magic that begins an archive.
pub uninterp spec fn ar_started(b: ArWriter) -> bool;

/// The bytes of one member: its header of 60 bytes (or more for a long
/// name), its data, and a line feed where the data has an odd length.
pub uninterp spec fn ar_member(
    name: Seq<u8>,
    mtime: u64,
    uid: u32,
    gid: u32,
    mode: u32,
    data: Seq<u8>,
) -> Seq<u8>;

/// The magic that begins an archive: `!<arch>` and a line feed.
pub open spec fn ar_magic() -> Seq<u8> {
    seq![33u8, 60u8, 97u8, 114u8, 99u8, 104u8, 62u8, 10u8]
}

/// `ar::Builder::new` on an empty vector: nothing is written yet.
#[verifier::external_body]
fn ar_new() -> (b: ArWriter)
    ensures
        !ar_started(b),
        ar_written(b) == Seq::<u8>::empty(),
{
    ArWriter { inner: ar::Builder::new(Vec::new()) }
}

/// `ar::Builder::append` with a header made by `ar::Header::new` for the name
/// and the given size, and with the mode, time, user and group set: it
/// writes the magic if this is the first member, then the member. The size
/// has to be the length of the data; writing into a vector does not fail.
#[verifier::external_body]
fn ar_append(
    b: &mut ArWriter,
    name: &[u8],
    size: u64,
    mtime: u64,
    uid: u32,
    gid: u32,
    mode: u32,
    data: &[u8],
) -> (r: Result<(), std::io::Error>)
    requires
        size == data@.len(),
    ensures
        r is Ok,
        ar_started(*final(b)),
        ar_written(*final(b)) == ar_written(*old(b)) + first_magic(ar_started(*old(b)))
            + ar_member(name@, mtime, uid, gid, mode, data@),
{
    let mut header = ar::Header::new(name.to_vec(), size);
    header.set_mode(mode);
    header.set_mtime(mtime);
    header.set_uid(uid);
    header.set_gid(gid);
    b.inner.append(&header, data)
}

/// `ar::Builder::into_inner` hands out the vector.
#[verifier::external_body]
fn ar_into_inner(b: ArWriter) -> (r: Result<Vec<u8>, std::io::Error>)
    ensures
        r is Ok,
        r->Ok_0@ == ar_written(b),
{
    b.inner.into_inner()
}

/// The magic, unless the archive has it already.
pub open spec fn first_magic(started: bool) -> Seq<u8> {
    if started {
        Seq::empty()
    } else {
        ar_magic()
    }
}

/// One member of a package file. User and group are 0.
pub struct Member {
    pub name: Seq<u8>,
    pub mtime: u64,
    pub mode: u32,
    pub data: Seq<u8>,
}

/// The bytes of an archive that holds `members`: nothing for none, else the
/// magic and the members in their order.
pub open spec fn ar_encoded(members: Seq<Member>) -> Seq<u8>
    decreases members.len(),
{
    if members.len() == 0 {
        Seq::empty()
    } else {
        let m = members.last();
        ar_encoded(members.drop_last()) + first_magic(members.len() > 1) + ar_member(
            m.name,
            m.mtime,
            0,
            0,
            m.mode,
            m.data,
        )
    }
}

/// The name of the package file.
pub open spec fn deb_filename(config: Config) -> Seq<char> {
    let sep = match config.deb_name_separator {
        Some(c) => c,
        None => DEFAULT_SEPARATOR,
    };
    config.deb_name@ + seq![sep] + config.deb_version@ + seq![sep] + config.architecture@
        + ".deb"@
}

/// The pattern that matches the package files of all versions.
pub open spec fn deb_filename_glob(config: Config) -> Seq<char> {
    let sep = match config.deb_name_separator {
        Some(c) => c,
        None => DEFAULT_SEPARATOR,
    };
    config.deb_name@ + seq![sep] + seq!['*'] + seq![sep] + config.architecture@ + ".deb"@
}

/// Where the package file goes: to the output path that the user gave, into
/// it where it names a directory, else below the target directory.
pub open spec fn output_path(config: Config, files: &FileTree, filename: Seq<char>) -> Seq<char> {
    match config.deb_output_path {
        Some(p) => if has_suffix(p@, seq!['/']) || (files.lookup(p@) matches Some(e) && e.is_dir) {
            path_join(p@, filename)
        } else {
            p@
        },
        None => path_join(path_join(config.target_dir@, "debian"@), filename),
    }
}

impl Config {
    /// Save final .deb here
    pub fn deb_output_path(&self, filename: &str, files: &FileTree) -> (r: String)
        ensures
            r@ == output_path(*self, files, filename@),
    {
        match &self.deb_output_path {
            Some(path_str) => {
                let p = chars_of(path_str.as_str());
                let mut slash: Vec<char> = Vec::new();
                slash.push('/');
                assert(slash@ =~= seq!['/']);
                let is_dir = match files.find(path_str.as_str()) {
                    Some(i) => files.entries[i].is_dir,
                    None => false,
                };
                if ends_with(&p, &slash) || is_dir {
                    join_path(path_str.as_str(), filename)
                } else {
                    path_str.clone()
                }
            },
            None => join_path(join_path(self.target_dir.as_str(), "debian").as_str(), filename),
        }
    }
}

/// A package file in the making.
pub struct DebArchive {
    out_abspath: String,
    prefix: String,
    ar_builder: ArWriter,
    log: Ghost<Seq<Member>>,
}

impl DebArchive {
    /// The members added so far.
    pub closed spec fn members(&self) -> Seq<Member> {
        self.log@
    }

    /// The path that the package file is written to.
    pub closed spec fn out_path(&self) -> Seq<char> {
        self.out_abspath@
    }

    /// The directory that the members added by path lie in.
    pub closed spec fn member_dir(&self) -> Seq<char> {
        self.prefix@
    }

    pub closed spec fn wf(&self) -> bool {
        &&& ar_written(self.ar_builder) == ar_encoded(self.log@)
        &&& ar_started(self.ar_builder) == (self.log@.len() > 0)
    }

    pub fn new(config: &Config, files: &FileTree) -> (r: Self)
        ensures
            r.wf(),
            r.members() == Seq::<Member>::empty(),
            r.out_path() == output_path(*config, files, deb_filename(*config)),
            r.member_dir() == path_join(config.target_dir@, "debian"@),
    {
        let sep = match config.deb_name_separator {
            Some(c) => c,
            None => DEFAULT_SEPARATOR,
        };
        let mut name = chars_of(config.deb_name.as_str());
        name.push(sep);
        append_str(&mut name, config.deb_version.as_str());
        name.push(sep);
        append_str(&mut name, config.architecture.as_str());
        append_str(&mut name, ".deb");
        assert(name@ =~= deb_filename(*config));
        let out_filename = string_of(&name);
        let prefix = config.deb_temp_dir();
        let out_abspath = config.deb_output_path(out_filename.as_str(), files);
        DebArchive { out_abspath, prefix, ar_builder: ar_new(), log: Ghost(Seq::empty()) }
    }

    pub fn filename_glob(config: &Config) -> (r: String)
        ensures
            r@ == deb_filename_glob(*config),
    {
        let sep = match config.deb_name_separator {
            Some(c) => c,
            None => DEFAULT_SEPARATOR,
        };
        let mut name = chars_of(config.deb_name.as_str());
        name.push(sep);
        name.push('*');
        name.push(sep);
        append_str(&mut name, config.architecture.as_str());
        append_str(&mut name, ".deb");
        assert(name@ =~= deb_filename_glob(*config));
        string_of(&name)
    }

    fn push_member(&mut self, name: &[u8], mtime: u64, mode: u32, data: &[u8])
        requires
            old(self).wf(),
        ensures
            final(self).wf(),
            final(self).out_path() == old(self).out_path(),
            final(self).member_dir() == old(self).member_dir(),
            final(self).members() == old(self).members().push(
                (Member { name: name@, mtime, mode, data: data@ }),
            ),
    {
        let ghost ms = self.log@;
        let ghost m = Member { name: name@, mtime, mode, data: data@ };
        let size = data.len() as u64;
        let _ = ar_append(&mut self.ar_builder, name, size, mtime, 0, 0, mode, data);
        proof {
            assert(ms.push(m).drop_last() == ms);
        }
        self.log = Ghost(ms.push(m));
    }

    /// Adds the file at `path` as a member named by what `path` holds below
    /// the directory of the members, with the given time and mode. The
    /// contents come from `files`.
    pub fn add_path(&mut self, path: &str, mtime: u64, mode: u32, files: &FileTree) -> (r:
        CDResult<()>)
        requires
            old(self).wf(),
        ensures
            final(self).wf(),
            final(self).out_path() == old(self).out_path(),
            final(self).member_dir() == old(self).member_dir(),
            match path_below(path@, old(self).member_dir()) {
                Some(name) => match files.content(path@) {
                    Some(data) => r is Ok && final(self).members() == old(self).members().push(
                        (Member { name: encode_utf8(name), mtime, mode, data }),
                    ),
                    None => (r matches Err(e) && e is Io) && final(self).members() == old(self).members(),
                },
                None => (r matches Err(CargoDebError::Str(m)) && m@ == "invalid path"@) && final(self).members() == old(self).members(),
            },
    {
        let dest_path = match strip_prefix(path, self.prefix.as_str()) {
            Some(d) => d,
            None => {
                return Err(CargoDebError::Str("invalid path"));
            },
        };
        let data = match files.read(path) {
            Some(d) => d,
            None => {
                return Err(CargoDebError::Io("no such file".to_owned()));
            },
        };
        let name = dest_path.as_str().as_unix_path();
        self.push_member(name.as_slice(), mtime, mode, data.as_slice());
        Ok(())
    }

    /// Adds `data` as a member named `dest_path`, with mode 0644 and the
    /// given time.
    pub fn add_data(&mut self, dest_path: &str, mtime_timestamp: u64, data: &[u8]) -> (r: CDResult<
        (),
    >)
        requires
            old(self).wf(),
        ensures
            r is Ok,
            final(self).wf(),
            final(self).out_path() == old(self).out_path(),
            final(self).member_dir() == old(self).member_dir(),
            final(self).members() == old(self).members().push(
                (Member {
                    name: encode_utf8(dest_path@),
                    mtime: mtime_timestamp,
                    mode: 0o644,
                    data: data@,
                }),
            ),
    {
        let name = dest_path.as_bytes_vec();
        self.push_member(name.as_slice(), mtime_timestamp, 0o644, data);
        Ok(())
    }

    /// Ends the package file: the path it is to be written to, and its bytes.
    pub fn finish(self) -> (r: CDResult<(String, Vec<u8>)>)
        requires
            self.wf(),
        ensures
            r is Ok,
            r->Ok_0.0@ == self.out_path(),
            r->Ok_0.1@ == ar_encoded(self.members()),
    {
        match ar_into_inner(self.ar_builder) {
            Ok(bytes) => Ok((self.out_abspath, bytes)),
            Err(e) => Err(CargoDebError::Io(io_error_text(&e))),
        }
    }
}

} // verus!
