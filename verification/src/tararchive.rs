//! The tar archives of a package.

use crate::error::{CDResult, CargoDebError};
use crate::paths::{components, components_of, is_normal, joined, normal};
use crate::text::{append_copy, chars_of, copy_of, same_text, string_of, views};
use vstd::prelude::*;

verus! {

// ---------------------------------------------------------------------------
// The tar crate
// ---------------------------------------------------------------------------

/// The header block of one archive entry.
#[verifier::external_type_specification]
#[verifier::external_body]
pub struct ExTarHeader(tar::Header);

/// A `tar::Builder` that writes into a vector of bytes.
#[verifier::external_body]
pub struct TarWriter {
    inner: tar::Builder<Vec<u8>>,
}

/// What a failed read or write returns.
#[verifier::external_type_specification]
#[verifier::external_body]
pub struct ExIoError(std::io::Error);

/// The 512 bytes of a header.
pub uninterp spec fn header_block(h: tar::Header) -> Seq<u8>;

/// The bytes that a builder has written into its vector so far.
pub uninterp spec fn tar_written(b: TarWriter) -> Seq<u8>;

/// A header block after `Header::set_mtime`.
pub uninterp spec fn tar_with_mtime(block: Seq<u8>, mtime: u64) -> Seq<u8>;

/// A header block after `Header::set_size`.
pub uninterp spec fn tar_with_size(block: Seq<u8>, size: u64) -> Seq<u8>;

/// A header block after `Header::set_mode`.
pub uninterp spec fn tar_with_mode(block: Seq<u8>, mode: u32) -> Seq<u8>;

/// A header block after `Header::set_cksum`.
pub uninterp spec fn tar_with_cksum(block: Seq<u8>) -> Seq<u8>;

/// A header block after `Header::set_path`, or nothing where the path is
/// refused. The path is read as a path of a Unix system, where `/` alone
/// parts the components.
pub uninterp spec fn tar_with_path(block: Seq<u8>, path: Seq<char>) -> Option<Seq<u8>>;

/// A header block after `Header::set_link_name`, or nothing where the name is
/// refused.
pub uninterp spec fn tar_with_link_name(block: Seq<u8>, link: Seq<char>) -> Option<Seq<u8>>;

/// A block of zeros with the GNU magic `ustar  ` and a zero byte behind it at
/// offset 257.
pub open spec fn gnu_blank() -> Seq<u8> {
    Seq::new(
        512,
        |i: int|
            if i == 257 {
                117u8
            } else if i == 258 {
                115u8
            } else if i == 259 {
                116u8
            } else if i == 260 {
                97u8
            } else if i == 261 {
                114u8
            } else if i == 262 || i == 263 {
                32u8
            } else {
                0u8
            },
    )
}

/// What an entry of an archive is.
pub enum EntryKind {
    Directory,
    File,
    Symlink,
}

/// The offset of the byte that tells the type of an entry.
pub const TYPE_FLAG_OFFSET: usize = 156;

pub const TYPE_SYMLINK: u8 = 50;

pub const TYPE_DIRECTORY: u8 = 53;

/// `tar::Header::new_gnu` makes an empty block, puts the GNU magic and
/// version into it, and sets the modification time to 0.
#[verifier::external_body]
fn header_new_gnu() -> (h: tar::Header)
    ensures
        header_block(h) == tar_with_mtime(gnu_blank(), 0),
{
    tar::Header::new_gnu()
}

/// `tar::Header::set_mtime` writes the time into its field; what it writes
/// depends on the block and the time alone.
#[verifier::external_body]
fn header_set_mtime(h: &mut tar::Header, mtime: u64)
    ensures
        header_block(*final(h)) == tar_with_mtime(header_block(*old(h)), mtime),
{
    h.set_mtime(mtime)
}

/// `tar::Header::set_size` writes the size into its field.
#[verifier::external_body]
fn header_set_size(h: &mut tar::Header, size: u64)
    ensures
        header_block(*final(h)) == tar_with_size(header_block(*old(h)), size),
{
    h.set_size(size)
}

/// `tar::Header::set_mode` writes the mode into its field.
#[verifier::external_body]
fn header_set_mode(h: &mut tar::Header, mode: u32)
    ensures
        header_block(*final(h)) == tar_with_mode(header_block(*old(h)), mode),
{
    h.set_mode(mode)
}

/// `tar::Header::set_cksum` computes the checksum of the block and writes it
/// into its field.
#[verifier::external_body]
fn header_set_cksum(h: &mut tar::Header)
    ensures
        header_block(*final(h)) == tar_with_cksum(header_block(*old(h))),
{
    h.set_cksum()
}

/// The byte that tells the type of an entry: `0` for a file, `2` for a
/// symbolic link, `5` for a directory.
pub open spec fn type_flag(kind: EntryKind) -> u8 {
    match kind {
        EntryKind::File => 48u8,
        EntryKind::Symlink => TYPE_SYMLINK,
        EntryKind::Directory => TYPE_DIRECTORY,
    }
}

/// `tar::Header::set_entry_type` stores the byte of the type at its place in
/// the block.
#[verifier::external_body]
fn header_set_entry_type(h: &mut tar::Header, kind: EntryKind)
    ensures
        header_block(*final(h)) == header_block(*old(h)).update(
            TYPE_FLAG_OFFSET as int,
            type_flag(kind),
        ),
{
    h.set_entry_type(
        match kind {
            EntryKind::File => tar::EntryType::Regular,
            EntryKind::Symlink => tar::EntryType::Symlink,
            EntryKind::Directory => tar::EntryType::Directory,
        },
    )
}

/// `tar::Header::set_path` writes the path into the name field, or fails and
/// says why; which of the two, and what is written, depends on the block and
/// the path alone.
#[verifier::external_body]
fn header_set_path(h: &mut tar::Header, path: &str) -> (r: Result<(), std::io::Error>)
    ensures
        match tar_with_path(header_block(*old(h)), path@) {
            Some(block) => r is Ok && header_block(*final(h)) == block,
            None => r is Err,
        },
{
    h.set_path(path)
}

/// `tar::Header::set_link_name` writes the target of a link into its field,
/// or fails and says why.
#[verifier::external_body]
fn header_set_link_name(h: &mut tar::Header, link: &str) -> (r: Result<(), std::io::Error>)
    ensures
        match tar_with_link_name(header_block(*old(h)), link@) {
            Some(block) => r is Ok && header_block(*final(h)) == block,
            None => r is Err,
        },
{
    h.set_link_name(link)
}

/// `tar::Builder::new` on an empty vector: nothing is written yet.
#[verifier::external_body]
fn builder_new() -> (b: TarWriter)
    ensures
        tar_written(b) == Seq::<u8>::empty(),
{
    TarWriter { inner: tar::Builder::new(Vec::new()) }
}

/// `n` zero bytes.
pub open spec fn zeros(n: nat) -> Seq<u8> {
    Seq::new(n, |i: int| 0u8)
}

/// As many zeros as fill `len` bytes up to whole blocks of 512.
pub open spec fn tar_padding(len: nat) -> Seq<u8> {
    zeros(((512 - len % 512) % 512) as nat)
}

/// `tar::Builder::append` writes the header block, then the data, then zeros
/// up to the next multiple of 512 bytes. Writing into a vector does not fail.
#[verifier::external_body]
fn builder_append(b: &mut TarWriter, header: &tar::Header, data: &[u8]) -> (r: Result<
    (),
    std::io::Error,
>)
    ensures
        r is Ok,
        tar_written(*final(b)) == tar_written(*old(b)) + header_block(*header) + data@
            + tar_padding(data@.len()),
{
    b.inner.append(header, data)
}

/// `tar::Builder::into_inner` ends the archive with 1024 zero bytes and hands
/// out the vector.
#[verifier::external_body]
fn builder_into_inner(b: TarWriter) -> (r: Result<Vec<u8>, std::io::Error>)
    ensures
        r is Ok,
        r->Ok_0@ == tar_written(b) + zeros(1024),
{
    b.inner.into_inner()
}

/// The message of a failed read or write, as `std::io::Error` prints it.
#[verifier::external_body]
pub(crate) fn io_error_text(e: &std::io::Error) -> String {
    e.to_string()
}

// ---------------------------------------------------------------------------
// What an archive holds
// ---------------------------------------------------------------------------

/// One entry of an archive. The path of a directory is written here without
/// the slash that ends it in the archive.
pub struct Entry {
    pub kind: EntryKind,
    pub path: Seq<char>,
    pub mode: u32,
    pub data: Seq<u8>,
    pub link: Seq<char>,
}

pub open spec fn file_entry(path: Seq<char>, data: Seq<u8>, mode: u32) -> Entry {
    Entry { kind: EntryKind::File, path, mode, data, link: Seq::empty() }
}

/// A directory entry: mode 0755, no data.
pub open spec fn dir_entry(path: Seq<char>) -> Entry {
    Entry { kind: EntryKind::Directory, path, mode: 0o755, data: Seq::empty(), link: Seq::empty() }
}

/// A symbolic link: mode 0777, no data.
pub open spec fn symlink_entry(path: Seq<char>, link: Seq<char>) -> Entry {
    Entry { kind: EntryKind::Symlink, path, mode: 0o777, data: Seq::empty(), link }
}

/// The header block of an entry in an archive whose entries carry `time`,
/// or nothing where the path or the link cannot be written into a header.
pub open spec fn entry_block(time: u64, e: Entry) -> Option<Seq<u8>> {
    let h = tar_with_mtime(tar_with_mtime(gnu_blank(), 0), time);
    match e.kind {
        EntryKind::File => match tar_with_path(h, e.path) {
            Some(p) => Some(
                tar_with_cksum(tar_with_size(tar_with_mode(p, e.mode), e.data.len() as u64)),
            ),
            None => None,
        },
        EntryKind::Directory => match tar_with_path(
            tar_with_mode(tar_with_size(h, 0), 0o755),
            e.path + seq!['/'],
        ) {
            Some(p) => Some(tar_with_cksum(p.update(TYPE_FLAG_OFFSET as int, TYPE_DIRECTORY))),
            None => None,
        },
        EntryKind::Symlink => match tar_with_path(
            h.update(TYPE_FLAG_OFFSET as int, TYPE_SYMLINK),
            e.path,
        ) {
            Some(p) => match tar_with_link_name(p, e.link) {
                Some(l) => Some(tar_with_cksum(tar_with_mode(tar_with_size(l, 0), 0o777))),
                None => None,
            },
            None => None,
        },
    }
}

/// The bytes of one entry: its header block, its data, and zeros up to a
/// whole block.
pub open spec fn entry_bytes(time: u64, e: Entry) -> Seq<u8> {
    entry_block(time, e)->0 + e.data + tar_padding(e.data.len())
}

/// The bytes of the entries, one after the other.
pub open spec fn encoded(time: u64, es: Seq<Entry>) -> Seq<u8>
    decreases es.len(),
{
    if es.len() == 0 {
        Seq::empty()
    } else {
        encoded(time, es.drop_last()) + entry_bytes(time, es.last())
    }
}

/// The paths of the directory entries, in their order.
pub open spec fn dirs_of(es: Seq<Entry>) -> Seq<Seq<char>>
    decreases es.len(),
{
    if es.len() == 0 {
        Seq::empty()
    } else if es.last().kind is Directory {
        dirs_of(es.drop_last()).push(es.last().path)
    } else {
        dirs_of(es.drop_last())
    }
}

/// The components that name something.
pub open spec fn normal_only(comps: Seq<Seq<char>>) -> Seq<Seq<char>>
    decreases comps.len(),
{
    if comps.len() == 0 {
        Seq::empty()
    } else if is_normal(comps.last()) {
        normal_only(comps.drop_last()).push(comps.last())
    } else {
        normal_only(comps.drop_last())
    }
}

/// The directories above `path`, the topmost first. The components `.` and
/// `..` count for nothing.
pub open spec fn dir_chain(path: Seq<char>) -> Seq<Seq<char>> {
    let comps = components(path);
    if comps.len() == 0 {
        Seq::empty()
    } else {
        let above = normal_only(comps.drop_last());
        Seq::new(above.len(), |k: int| joined(above.take(k + 1)))
    }
}

/// The directories of `chain` that are not in `seen`, each once, in the
/// order of `chain`.
pub open spec fn new_dirs(chain: Seq<Seq<char>>, seen: Seq<Seq<char>>) -> Seq<Seq<char>>
    decreases chain.len(),
{
    if chain.len() == 0 {
        Seq::empty()
    } else {
        let before = new_dirs(chain.drop_last(), seen);
        if seen.contains(chain.last()) || before.contains(chain.last()) {
            before
        } else {
            before.push(chain.last())
        }
    }
}

/// The directory entries for `dirs`.
pub open spec fn dir_entries(dirs: Seq<Seq<char>>) -> Seq<Entry> {
    Seq::new(dirs.len(), |k: int| dir_entry(dirs[k]))
}

/// The entries after `e` was added: the directories above it that the
/// archive lacks, then `e` itself. Nothing where the path of `e` has no
/// component or where a header cannot be made.
pub open spec fn appended(time: u64, es: Seq<Entry>, e: Entry) -> Option<Seq<Entry>> {
    let fresh = new_dirs(dir_chain(e.path), dirs_of(es));
    if components(e.path).len() == 0 {
        None
    } else if entry_block(time, e) is None {
        None
    } else if exists|k: int|
        0 <= k < fresh.len() && entry_block(time, dir_entry(#[trigger] fresh[k])) is None {
        None
    } else {
        Some(es + dir_entries(fresh) + seq![e])
    }
}

/// Every directory above a file or a link stands before it.
pub open spec fn parents_first(es: Seq<Entry>) -> bool {
    forall|i: int, k: int|
        0 <= i < es.len() && !(es[i].kind is Directory) && 0 <= k < dir_chain(es[i].path).len()
            ==> exists|j: int|
            0 <= j < i && es[j] == dir_entry(#[trigger] dir_chain(es[i].path)[k])
}

/// No directory stands twice.
pub open spec fn directories_once(es: Seq<Entry>) -> bool {
    forall|a: int, b: int|
        0 <= a < b < es.len() && es[a].kind is Directory && es[b].kind is Directory
            ==> #[trigger] es[a].path != #[trigger] es[b].path
}

/// What holds of the entries of every archive: each has a header, each
/// directory entry has mode 0755 and no data, no directory stands twice,
/// and the directories above a file or a link stand before it.
pub open spec fn sound(time: u64, es: Seq<Entry>) -> bool {
    &&& forall|i: int| 0 <= i < es.len() ==> entry_block(time, #[trigger] es[i]) is Some
    &&& forall|i: int|
        0 <= i < es.len() && (#[trigger] es[i]).kind is Directory ==> es[i] == dir_entry(es[i].path)
    &&& directories_once(es)
    &&& parents_first(es)
}

proof fn lemma_dirs_of_has(es: Seq<Entry>, j: int)
    requires
        0 <= j < es.len(),
        es[j].kind is Directory,
    ensures
        dirs_of(es).contains(es[j].path),
    decreases es.len(),
{
    let rest = dirs_of(es.drop_last());
    if j == es.len() - 1 {
        assert(dirs_of(es)[rest.len() as int] == es[j].path);
    } else {
        lemma_dirs_of_has(es.drop_last(), j);
        let k = choose|k: int| 0 <= k < rest.len() && rest[k] == es[j].path;
        assert(dirs_of(es)[k] == es[j].path);
    }
}

proof fn lemma_dirs_of_index(es: Seq<Entry>, d: Seq<char>)
    requires
        dirs_of(es).contains(d),
    ensures
        exists|j: int| 0 <= j < es.len() && (#[trigger] es[j]).kind is Directory && es[j].path == d,
    decreases es.len(),
{
    if es.len() > 0 {
        let rest = dirs_of(es.drop_last());
        let k = choose|k: int| 0 <= k < dirs_of(es).len() && dirs_of(es)[k] == d;
        if es.last().kind is Directory && k == rest.len() {
            assert(es[es.len() - 1].path == d);
        } else {
            assert(rest[k] == d);
            lemma_dirs_of_index(es.drop_last(), d);
            let j = choose|j: int|
                0 <= j < es.drop_last().len() && (#[trigger] es.drop_last()[j]).kind is Directory
                    && es.drop_last()[j].path == d;
            assert(es[j] == es.drop_last()[j]);
        }
    }
}

proof fn lemma_new_dirs(chain: Seq<Seq<char>>, seen: Seq<Seq<char>>)
    ensures
        new_dirs(chain, seen).no_duplicates(),
        forall|k: int|
            0 <= k < new_dirs(chain, seen).len() ==> !seen.contains(
                #[trigger] new_dirs(chain, seen)[k],
            ),
        forall|k: int|
            0 <= k < chain.len() ==> seen.contains(#[trigger] chain[k]) || new_dirs(
                chain,
                seen,
            ).contains(chain[k]),
    decreases chain.len(),
{
    if chain.len() > 0 {
        let before = new_dirs(chain.drop_last(), seen);
        let now = new_dirs(chain, seen);
        lemma_new_dirs(chain.drop_last(), seen);
        assert forall|k: int| 0 <= k < chain.len() implies seen.contains(#[trigger] chain[k])
            || now.contains(chain[k]) by {
            if k < chain.len() - 1 {
                assert(chain.drop_last()[k] == chain[k]);
                if before.contains(chain[k]) {
                    let m = choose|m: int| 0 <= m < before.len() && before[m] == chain[k];
                    assert(now[m] == chain[k]);
                }
            } else if !seen.contains(chain[k]) && !before.contains(chain[k]) {
                assert(now[before.len() as int] == chain[k]);
            }
        }
    }
}

proof fn lemma_encoded_push(time: u64, es: Seq<Entry>, e: Entry)
    ensures
        encoded(time, es.push(e)) == encoded(time, es) + entry_bytes(time, e),
{
    assert(es.push(e).drop_last() == es);
}

/// Entries stay sound when a directory is added that was not there.
proof fn lemma_sound_with_directory(time: u64, es: Seq<Entry>, d: Seq<char>)
    requires
        sound(time, es),
        !dirs_of(es).contains(d),
        entry_block(time, dir_entry(d)) is Some,
    ensures
        sound(time, es.push(dir_entry(d))),
        dirs_of(es.push(dir_entry(d))) == dirs_of(es).push(d),
{
    let es2 = es.push(dir_entry(d));
    assert(es2.drop_last() == es);
    assert forall|a: int, b: int|
        0 <= a < b < es2.len() && es2[a].kind is Directory && es2[b].kind is Directory implies #[trigger] es2[a].path
        != #[trigger] es2[b].path by {
        if b == es.len() {
            lemma_dirs_of_has(es, a);
        } else {
            assert(es2[a] == es[a] && es2[b] == es[b]);
        }
    }
    assert forall|i: int, k: int|
        0 <= i < es2.len() && !(es2[i].kind is Directory) && 0 <= k < dir_chain(
            es2[i].path,
        ).len() implies exists|j: int|
        0 <= j < i && es2[j] == dir_entry(#[trigger] dir_chain(es2[i].path)[k]) by {
        assert(es2[i] == es[i]);
        let j = choose|j: int| 0 <= j < i && es[j] == dir_entry(dir_chain(es[i].path)[k]);
        assert(es2[j] == es[j]);
    }
}

/// Entries stay sound when a file or a link is added whose directories are
/// all there.
proof fn lemma_sound_with_leaf(time: u64, es: Seq<Entry>, e: Entry)
    requires
        sound(time, es),
        !(e.kind is Directory),
        entry_block(time, e) is Some,
        forall|k: int|
            0 <= k < dir_chain(e.path).len() ==> dirs_of(es).contains(
                #[trigger] dir_chain(e.path)[k],
            ),
    ensures
        sound(time, es.push(e)),
        dirs_of(es.push(e)) == dirs_of(es),
{
    let es2 = es.push(e);
    assert(es2.drop_last() == es);
    assert forall|a: int, b: int|
        0 <= a < b < es2.len() && es2[a].kind is Directory && es2[b].kind is Directory implies #[trigger] es2[a].path
        != #[trigger] es2[b].path by {
        assert(es2[a] == es[a] && es2[b] == es[b]);
    }
    assert forall|i: int, k: int|
        0 <= i < es2.len() && !(es2[i].kind is Directory) && 0 <= k < dir_chain(
            es2[i].path,
        ).len() implies exists|j: int|
        0 <= j < i && es2[j] == dir_entry(#[trigger] dir_chain(es2[i].path)[k]) by {
        if i < es.len() {
            assert(es2[i] == es[i]);
            let j = choose|j: int| 0 <= j < i && es[j] == dir_entry(dir_chain(es[i].path)[k]);
            assert(es2[j] == es[j]);
        } else {
            let d = dir_chain(e.path)[k];
            lemma_dirs_of_index(es, d);
            let j = choose|j: int|
                0 <= j < es.len() && (#[trigger] es[j]).kind is Directory && es[j].path == d;
            assert(es2[j] == es[j]);
        }
    }
}

proof fn lemma_new_dirs_prefix(chain: Seq<Seq<char>>, seen: Seq<Seq<char>>, m: int)
    requires
        0 <= m <= chain.len(),
    ensures
        new_dirs(chain.take(m), seen).len() <= new_dirs(chain, seen).len(),
        new_dirs(chain, seen).take(new_dirs(chain.take(m), seen).len() as int) == new_dirs(
            chain.take(m),
            seen,
        ),
    decreases chain.len(),
{
    if m == chain.len() {
        assert(chain.take(m) == chain);
        assert(new_dirs(chain, seen).take(new_dirs(chain, seen).len() as int) == new_dirs(
            chain,
            seen,
        ));
    } else {
        assert(chain.drop_last().take(m) == chain.take(m));
        lemma_new_dirs_prefix(chain.drop_last(), seen, m);
        let a = new_dirs(chain.take(m), seen);
        let b = new_dirs(chain.drop_last(), seen);
        let c = new_dirs(chain, seen);
        assert(c.take(a.len() as int) =~= b.take(a.len() as int));
    }
}

fn holds_text(list: &Vec<Vec<char>>, d: &Vec<char>) -> (b: bool)
    ensures
        b == views(list@).contains(d@),
{
    let mut i: usize = 0;
    while i < list.len()
        invariant
            i <= list.len(),
            forall|j: int| 0 <= j < i ==> views(list@)[j] != d@,
        decreases list.len() - i,
    {
        if same_text(&list[i], d) {
            assert(views(list@)[i as int] == d@);
            return true;
        }
        i += 1;
    }
    false
}

/// The directories above `path`, the topmost first, or nothing where the
/// path has no component.
fn parent_directories(path: &Vec<char>) -> (r: Option<Vec<Vec<char>>>)
    ensures
        match r {
            Some(c) => components(path@).len() > 0 && views(c@) == dir_chain(path@),
            None => components(path@).len() == 0,
        },
{
    let comps = components_of(path);
    if comps.len() == 0 {
        return None;
    }
    let n = comps.len() - 1;
    let ghost above = views(comps@).drop_last();
    let mut out: Vec<Vec<char>> = Vec::new();
    let mut directory: Vec<char> = Vec::new();
    let ghost mut kept: Seq<Seq<char>> = Seq::empty();
    let mut k: usize = 0;
    assert(above.take(0) =~= Seq::<Seq<char>>::empty());
    assert(views(out@) =~= Seq::new(0nat, |m: int| joined(kept.take(m + 1))));
    while k < n
        invariant
            k <= n,
            n == comps.len() - 1,
            above == views(comps@).drop_last(),
            kept == normal_only(above.take(k as int)),
            views(out@) == Seq::new(kept.len(), |m: int| joined(kept.take(m + 1))),
            kept.len() > 0 ==> directory@ == joined(kept),
            kept.len() == 0 ==> directory@.len() == 0,
            out@.len() == kept.len(),
        decreases n - k,
    {
        proof {
            let next = above.take(k + 1);
            assert(next.drop_last() == above.take(k as int));
            assert(next.last() == comps@[k as int]@);
        }
        if normal(&comps[k]) {
            let ghost c = comps@[k as int]@;
            let ghost kept2 = kept.push(c);
            let ghost before = views(out@);
            if out.len() > 0 {
                directory.push('/');
            }
            append_copy(&mut directory, &comps[k]);
            proof {
                assert(kept2.drop_last() == kept);
                assert(kept2.last() == c);
                if kept.len() > 0 {
                    assert(directory@ =~= joined(kept) + seq!['/'] + c);
                } else {
                    assert(directory@ =~= c);
                }
                assert(directory@ == joined(kept2));
            }
            out.push(copy_of(&directory));
            proof {
                assert(views(out@) =~= before.push(directory@));
                assert forall|m: int| 0 <= m < kept2.len() implies #[trigger] views(out@)[m]
                    == joined(kept2.take(m + 1)) by {
                    if m < kept.len() {
                        assert(kept2.take(m + 1) == kept.take(m + 1));
                    } else {
                        assert(kept2.take(m + 1) == kept2);
                    }
                }
                assert(views(out@) =~= Seq::new(kept2.len(), |m: int| joined(kept2.take(m + 1))));
                kept = kept2;
            }
        }
        k += 1;
    }
    assert(above.take(n as int) == above);
    Some(out)
}

/// The error for an entry that cannot be added: a path without a component
/// is an invalid asset, everything else is a header that cannot be written.
pub open spec fn refusal(path: Seq<char>, e: CargoDebError) -> bool {
    if components(path).len() == 0 {
        e matches CargoDebError::Str(m) && m@ == "invalid asset"@
    } else {
        e is Io
    }
}

/// A tar archive in the making. It holds its entries in the order in which
/// they were added; every directory above a file or a link is added before
/// it, once. All entries carry the same modification time.
pub struct Archive {
    added_directories: Vec<Vec<char>>,
    time: u64,
    tar: TarWriter,
    log: Ghost<Seq<Entry>>,
}

impl Archive {
    /// The entries added so far.
    pub closed spec fn entries(&self) -> Seq<Entry> {
        self.log@
    }

    /// The modification time that every entry carries.
    pub closed spec fn mtime(&self) -> u64 {
        self.time
    }

    /// The bytes written so far.
    pub closed spec fn written(&self) -> Seq<u8> {
        tar_written(self.tar)
    }

    pub closed spec fn wf(&self) -> bool {
        &&& sound(self.time, self.log@)
        &&& views(self.added_directories@) == dirs_of(self.log@)
        &&& tar_written(self.tar) == encoded(self.time, self.log@)
    }

    /// For any sequence of additions, every directory above a file or a link
    /// stands in the archive before it, no directory stands twice, and the
    /// bytes written are those of the entries in their order.
    pub proof fn lemma_directories_first_and_once(&self)
        requires
            self.wf(),
        ensures
            sound(self.mtime(), self.entries()),
            parents_first(self.entries()),
            directories_once(self.entries()),
            self.written() == encoded(self.mtime(), self.entries()),
    {
    }

    pub fn new(time: u64) -> (r: Self)
        ensures
            r.wf(),
            r.mtime() == time,
            r.entries() == Seq::<Entry>::empty(),
    {
        let r = Self {
            added_directories: Vec::new(),
            time,
            tar: builder_new(),
            log: Ghost(Seq::empty()),
        };
        assert(views(r.added_directories@) =~= dirs_of(r.log@));
        r
    }

    fn directory_header(time: u64, d: &Vec<char>) -> (r: Result<tar::Header, std::io::Error>)
        ensures
            match entry_block(time, dir_entry(d@)) {
                Some(b) => r is Ok && header_block(r->Ok_0) == b,
                None => r is Err,
            },
    {
        let mut header = header_new_gnu();
        header_set_mtime(&mut header, time);
        header_set_size(&mut header, 0);
        header_set_mode(&mut header, 0o755);
        // the path of a directory ends with a slash in the archive
        let mut path = copy_of(d);
        path.push('/');
        assert(path@ =~= d@ + seq!['/']);
        match header_set_path(&mut header, string_of(&path).as_str()) {
            Ok(_) => {},
            Err(e) => {
                return Err(e);
            },
        }
        header_set_entry_type(&mut header, EntryKind::Directory);
        header_set_cksum(&mut header);
        Ok(header)
    }

    fn push_directory(&mut self, d: Vec<char>, header: &tar::Header)
        requires
            old(self).wf(),
            !dirs_of(old(self).entries()).contains(d@),
            entry_block(old(self).mtime(), dir_entry(d@)) == Some(header_block(*header)),
        ensures
            final(self).wf(),
            final(self).mtime() == old(self).mtime(),
            final(self).entries() == old(self).entries().push(dir_entry(d@)),
    {
        let ghost es = self.log@;
        let ghost e = dir_entry(d@);
        let ghost dirs = views(self.added_directories@);
        let nothing: Vec<u8> = Vec::new();
        let _ = builder_append(&mut self.tar, header, nothing.as_slice());
        proof {
            lemma_sound_with_directory(self.time, es, d@);
            lemma_encoded_push(self.time, es, e);
            assert(nothing@ =~= e.data);
            assert(tar_written(self.tar) =~= encoded(self.time, es) + entry_bytes(self.time, e));
        }
        self.added_directories.push(d);
        self.log = Ghost(es.push(e));
        assert(views(self.added_directories@) =~= dirs.push(d@));
    }

    fn push_leaf(&mut self, header: &tar::Header, data: &[u8], Ghost(e): Ghost<Entry>)
        requires
            old(self).wf(),
            !(e.kind is Directory),
            e.data == data@,
            entry_block(old(self).mtime(), e) == Some(header_block(*header)),
            forall|k: int|
                0 <= k < dir_chain(e.path).len() ==> dirs_of(old(self).entries()).contains(
                    #[trigger] dir_chain(e.path)[k],
                ),
        ensures
            final(self).wf(),
            final(self).mtime() == old(self).mtime(),
            final(self).entries() == old(self).entries().push(e),
    {
        let ghost es = self.log@;
        let _ = builder_append(&mut self.tar, header, data);
        proof {
            lemma_sound_with_leaf(self.time, es, e);
            lemma_encoded_push(self.time, es, e);
            assert(tar_written(self.tar) =~= encoded(self.time, es) + entry_bytes(self.time, e));
        }
        self.log = Ghost(es.push(e));
    }

    /// Adds the directories of `chain` that are missing, then the entry `e`
    /// with its header and data; or nothing at all where the header of a
    /// directory cannot be made.
    fn add(
        &mut self,
        chain: &Vec<Vec<char>>,
        header: &tar::Header,
        data: &[u8],
        Ghost(e): Ghost<Entry>,
    ) -> (r: CDResult<()>)
        requires
            old(self).wf(),
            !(e.kind is Directory),
            e.data == data@,
            components(e.path).len() > 0,
            views(chain@) == dir_chain(e.path),
            entry_block(old(self).mtime(), e) == Some(header_block(*header)),
        ensures
            final(self).wf(),
            final(self).mtime() == old(self).mtime(),
            match appended(old(self).mtime(), old(self).entries(), e) {
                Some(es) => r is Ok && final(self).entries() == es,
                None => (r matches Err(x) && x is Io) && final(self).entries() == old(
                    self,
                ).entries() && final(self).written() == old(self).written(),
            },
    {
        let ghost es0 = self.log@;
        let ghost seen = dirs_of(es0);
        let ghost all = dir_chain(e.path);
        let mut fresh: Vec<Vec<char>> = Vec::new();
        let mut headers: Vec<tar::Header> = Vec::new();
        let mut k: usize = 0;
        assert(views(fresh@) =~= new_dirs(all.take(0), seen));
        while k < chain.len()
            invariant
                k <= chain.len(),
                *self == *old(self),
                self.wf(),
                es0 == self.log@,
                seen == dirs_of(es0),
                all == dir_chain(e.path),
                views(chain@) == all,
                views(fresh@) == new_dirs(all.take(k as int), seen),
                headers@.len() == fresh@.len(),
                forall|m: int|
                    0 <= m < fresh@.len() ==> entry_block(self.time, dir_entry(fresh@[m]@)) == Some(
                        header_block(#[trigger] headers@[m]),
                    ),
            decreases chain.len() - k,
        {
            let d = &chain[k];
            proof {
                let next = all.take(k + 1);
                assert(next.drop_last() == all.take(k as int));
                assert(next.last() == d@);
            }
            if !holds_text(&self.added_directories, d) && !holds_text(&fresh, d) {
                let ghost before = views(fresh@);
                match Self::directory_header(self.time, d) {
                    Ok(h) => {
                        fresh.push(copy_of(d));
                        headers.push(h);
                        assert(views(fresh@) =~= before.push(d@));
                    },
                    Err(x) => {
                        proof {
                            let full = new_dirs(all, seen);
                            let part = new_dirs(all.take(k + 1), seen);
                            lemma_new_dirs_prefix(all, seen, k + 1);
                            assert(part == before.push(d@));
                            assert(full.take(part.len() as int)[before.len() as int] == d@);
                            assert(full[before.len() as int] == d@);
                            assert(entry_block(self.time, dir_entry(full[before.len() as int]))
                                is None);
                        }
                        return Err(CargoDebError::Io(io_error_text(&x)));
                    },
                }
            }
            k += 1;
        }
        proof {
            assert(all.take(chain.len() as int) == all);
            lemma_new_dirs(all, seen);
        }
        let ghost new = views(fresh@);
        let mut m: usize = 0;
        assert(es0 + dir_entries(new.take(0)) =~= es0);
        assert(seen + new.take(0) =~= seen);
        while m < fresh.len()
            invariant
                m <= fresh.len(),
                self.wf(),
                self.time == old(self).time,
                new == views(fresh@),
                new == new_dirs(all, seen),
                new.no_duplicates(),
                forall|j: int| 0 <= j < new.len() ==> !seen.contains(#[trigger] new[j]),
                headers@.len() == fresh@.len(),
                forall|j: int|
                    0 <= j < fresh@.len() ==> entry_block(self.time, dir_entry(fresh@[j]@)) == Some(
                        header_block(#[trigger] headers@[j]),
                    ),
                self.log@ == es0 + dir_entries(new.take(m as int)),
                dirs_of(self.log@) == seen + new.take(m as int),
            decreases fresh.len() - m,
        {
            let ghost es = self.log@;
            proof {
                let d = new[m as int];
                assert(fresh@[m as int]@ == d);
                if (seen + new.take(m as int)).contains(d) {
                    let j = choose|j: int|
                        0 <= j < (seen + new.take(m as int)).len() && (seen + new.take(
                            m as int,
                        ))[j] == d;
                    if j < seen.len() {
                        assert(seen[j] == d);
                    } else {
                        assert(new[j - seen.len()] == d);
                    }
                }
            }
            self.push_directory(copy_of(&fresh[m]), &headers[m]);
            proof {
                let d = new[m as int];
                assert(es0 + dir_entries(new.take(m + 1)) =~= (es0 + dir_entries(
                    new.take(m as int),
                )).push(dir_entry(d)));
                lemma_sound_with_directory(self.time, es, d);
                assert(seen + new.take(m + 1) =~= (seen + new.take(m as int)).push(d));
            }
            m += 1;
        }
        proof {
            assert(new.take(fresh.len() as int) == new);
            assert forall|j: int| 0 <= j < all.len() implies dirs_of(self.log@).contains(
                #[trigger] all[j],
            ) by {
                let d = all[j];
                if seen.contains(d) {
                    let i = choose|i: int| 0 <= i < seen.len() && seen[i] == d;
                    assert((seen + new)[i] == d);
                } else {
                    let i = choose|i: int| 0 <= i < new.len() && new[i] == d;
                    assert((seen + new)[seen.len() + i] == d);
                }
            }
            assert forall|j: int| 0 <= j < new.len() implies entry_block(
                self.time,
                dir_entry(#[trigger] new[j]),
            ) is Some by {
                assert(fresh@[j]@ == new[j]);
                assert(entry_block(self.time, dir_entry(fresh@[j]@)) == Some(
                    header_block(headers@[j]),
                ));
            }
        }
        self.push_leaf(header, data, Ghost(e));
        assert(self.log@ =~= es0 + dir_entries(new) + seq![e]);
        Ok(())
    }

    /// Adds a file with its contents and mode, and before it the directories
    /// above it that the archive does not hold yet.
    pub fn file(&mut self, path: &str, out_data: &[u8], chmod: u32) -> (r: CDResult<()>)
        requires
            old(self).wf(),
        ensures
            final(self).wf(),
            final(self).mtime() == old(self).mtime(),
            match appended(
                old(self).mtime(),
                old(self).entries(),
                file_entry(path@, out_data@, chmod),
            ) {
                Some(es) => r is Ok && final(self).entries() == es,
                None => (r matches Err(x) && refusal(path@, x)) && final(self).entries() == old(
                    self,
                ).entries() && final(self).written() == old(self).written(),
            },
    {
        let p = chars_of(path);
        let chain = match parent_directories(&p) {
            Some(c) => c,
            None => {
                return Err(CargoDebError::Str("invalid asset"));
            },
        };
        let mut header = header_new_gnu();
        header_set_mtime(&mut header, self.time);
        match header_set_path(&mut header, path) {
            Ok(_) => {},
            Err(x) => {
                return Err(CargoDebError::Io(io_error_text(&x)));
            },
        }
        header_set_mode(&mut header, chmod);
        header_set_size(&mut header, out_data.len() as u64);
        header_set_cksum(&mut header);
        self.add(&chain, &header, out_data, Ghost(file_entry(path@, out_data@, chmod)))
    }

    /// Adds a symbolic link at `path` that points to `link_name`, and before
    /// it the directories above `path` that the archive does not hold yet.
    pub fn symlink(&mut self, path: &str, link_name: &str) -> (r: CDResult<()>)
        requires
            old(self).wf(),
        ensures
            final(self).wf(),
            final(self).mtime() == old(self).mtime(),
            match appended(
                old(self).mtime(),
                old(self).entries(),
                symlink_entry(path@, link_name@),
            ) {
                Some(es) => r is Ok && final(self).entries() == es,
                None => (r matches Err(x) && refusal(path@, x)) && final(self).entries() == old(
                    self,
                ).entries() && final(self).written() == old(self).written(),
            },
    {
        let p = chars_of(path);
        let chain = match parent_directories(&p) {
            Some(c) => c,
            None => {
                return Err(CargoDebError::Str("invalid asset"));
            },
        };
        let mut header = header_new_gnu();
        header_set_mtime(&mut header, self.time);
        header_set_entry_type(&mut header, EntryKind::Symlink);
        match header_set_path(&mut header, path) {
            Ok(_) => {},
            Err(x) => {
                return Err(CargoDebError::Io(io_error_text(&x)));
            },
        }
        match header_set_link_name(&mut header, link_name) {
            Ok(_) => {},
            Err(x) => {
                return Err(CargoDebError::Io(io_error_text(&x)));
            },
        }
        header_set_size(&mut header, 0);
        header_set_mode(&mut header, 0o777);
        header_set_cksum(&mut header);
        let nothing: Vec<u8> = Vec::new();
        assert(nothing@ =~= symlink_entry(path@, link_name@).data);
        self.add(&chain, &header, nothing.as_slice(), Ghost(symlink_entry(path@, link_name@)))
    }

    /// Ends the archive and hands out its bytes: the entries in their order,
    /// then 1024 zero bytes.
    pub fn into_inner(self) -> (r: CDResult<Vec<u8>>)
        requires
            self.wf(),
        ensures
            r matches Ok(bytes) && bytes@ == encoded(self.mtime(), self.entries()) + zeros(1024),
    {
        match builder_into_inner(self.tar) {
            Ok(v) => Ok(v),
            Err(x) => Err(CargoDebError::Io(io_error_text(&x))),
        }
    }
}

proof fn lemma_dirs_of_with_directories(es: Seq<Entry>, ds: Seq<Seq<char>>)
    ensures
        dirs_of(es + dir_entries(ds)) == dirs_of(es) + ds,
    decreases ds.len(),
{
    if ds.len() == 0 {
        assert(es + dir_entries(ds) =~= es);
        assert(dirs_of(es) + ds =~= dirs_of(es));
    } else {
        let all = es + dir_entries(ds);
        assert(all.drop_last() =~= es + dir_entries(ds.drop_last()));
        assert(all.last() == dir_entry(ds.last()));
        lemma_dirs_of_with_directories(es, ds.drop_last());
        assert(dirs_of(es) + ds =~= (dirs_of(es) + ds.drop_last()).push(ds.last()));
    }
}

proof fn lemma_no_new_dirs(chain: Seq<Seq<char>>, seen: Seq<Seq<char>>)
    requires
        forall|k: int| 0 <= k < chain.len() ==> seen.contains(#[trigger] chain[k]),
    ensures
        new_dirs(chain, seen) == Seq::<Seq<char>>::empty(),
    decreases chain.len(),
{
    if chain.len() > 0 {
        assert forall|k: int| 0 <= k < chain.drop_last().len() implies seen.contains(
            #[trigger] chain.drop_last()[k],
        ) by {
            assert(chain.drop_last()[k] == chain[k]);
        }
        lemma_no_new_dirs(chain.drop_last(), seen);
        assert(seen.contains(chain[chain.len() - 1]));
    }
}

/// Two files or links below the same directories, added one after the
/// other: the second adds no directory entry, only itself.
pub proof fn lemma_same_parent_adds_no_directory(
    time: u64,
    es: Seq<Entry>,
    first: Entry,
    second: Entry,
)
    requires
        appended(time, es, first) is Some,
        !(first.kind is Directory),
        dir_chain(first.path) == dir_chain(second.path),
        components(second.path).len() > 0,
        entry_block(time, second) is Some,
    ensures
        appended(time, appended(time, es, first)->0, second) == Some(
            appended(time, es, first)->0.push(second),
        ),
{
    let chain = dir_chain(first.path);
    let seen = dirs_of(es);
    let fresh = new_dirs(chain, seen);
    let es1 = appended(time, es, first)->0;
    assert(es1 == es + dir_entries(fresh) + seq![first]);
    assert(es1.drop_last() =~= es + dir_entries(fresh));
    assert(es1.last() == first);
    lemma_dirs_of_with_directories(es, fresh);
    assert(dirs_of(es1) == seen + fresh);
    lemma_new_dirs(chain, seen);
    assert forall|k: int| 0 <= k < chain.len() implies (seen + fresh).contains(
        #[trigger] chain[k],
    ) by {
        let d = chain[k];
        if seen.contains(d) {
            let i = choose|i: int| 0 <= i < seen.len() && seen[i] == d;
            assert((seen + fresh)[i] == d);
        } else {
            let i = choose|i: int| 0 <= i < fresh.len() && fresh[i] == d;
            assert((seen + fresh)[seen.len() + i] == d);
        }
    }
    lemma_no_new_dirs(chain, seen + fresh);
    assert(dir_entries(Seq::<Seq<char>>::empty()) =~= Seq::<Entry>::empty());
    assert(es1 + Seq::<Entry>::empty() + seq![second] =~= es1.push(second));
}

} // verus!
