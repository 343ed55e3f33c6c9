//! A picture of the files that a build can see.
//!
//! The library never reads a disk. Whoever calls it reads what is needed and
//! hands it over as a `FileTree`: the paths that exist, and for each whether it
//! is a directory, where it points if it is a symbolic link, and what it holds.

use crate::paths::{paths_equal, same_path};
use vstd::prelude::*;

verus! {

/// One path that exists.
pub struct FileEntry {
    pub path: String,
    /// The path names a directory (after following links).
    pub is_dir: bool,
    /// Where the path points, if it is itself a symbolic link.
    pub link: Option<String>,
    /// What a read of the path gives. Empty for a directory.
    pub data: Vec<u8>,
}

pub struct FileTree {
    pub entries: Vec<FileEntry>,
}

impl FileTree {
    /// `i` is the first entry that names `path`.
    pub open spec fn is_first(&self, path: Seq<char>, i: int) -> bool {
        &&& 0 <= i < self.entries@.len()
        &&& same_path(self.entries@[i].path@, path)
        &&& forall|j: int| 0 <= j < i ==> !same_path(#[trigger] self.entries@[j].path@, path)
    }

    /// No entry names `path`.
    pub open spec fn absent(&self, path: Seq<char>) -> bool {
        forall|j: int|
            0 <= j < self.entries@.len() ==> !same_path(#[trigger] self.entries@[j].path@, path)
    }

    /// The first entry that names `path`.
    pub open spec fn lookup(&self, path: Seq<char>) -> Option<FileEntry> {
        if exists|i: int| self.is_first(path, i) {
            Some(self.entries@[choose|i: int| self.is_first(path, i)])
        } else {
            None
        }
    }

    /// `path` exists and is no directory.
    pub open spec fn has_file(&self, path: Seq<char>) -> bool {
        self.lookup(path) matches Some(e) && !e.is_dir
    }

    /// What a read of `path` gives, where it is a file.
    pub open spec fn content(&self, path: Seq<char>) -> Option<Seq<u8>> {
        match self.lookup(path) {
            Some(e) => if e.is_dir {
                None
            } else {
                Some(e.data@)
            },
            None => None,
        }
    }

    pub proof fn lemma_first_is_lookup(&self, path: Seq<char>, i: int)
        requires
            self.is_first(path, i),
        ensures
            self.lookup(path) == Some(self.entries@[i]),
    {
        let k = choose|k: int| self.is_first(path, k);
        assert(self.is_first(path, k));
        if k < i {
            assert(!same_path(self.entries@[k].path@, path));
        } else if i < k {
            assert(!same_path(self.entries@[i].path@, path));
        }
    }

    pub proof fn lemma_absent_is_none(&self, path: Seq<char>)
        requires
            self.absent(path),
        ensures
            self.lookup(path) is None,
    {
        if exists|i: int| self.is_first(path, i) {
            let k = choose|k: int| self.is_first(path, k);
            assert(!same_path(self.entries@[k].path@, path));
        }
    }

    pub fn new() -> (r: FileTree)
        ensures
            r.entries@.len() == 0,
    {
        FileTree { entries: Vec::new() }
    }

    /// Adds a file at `path` that holds `data`.
    pub fn add_file(&mut self, path: &str, data: Vec<u8>)
        ensures
            final(self).entries@.len() == old(self).entries@.len() + 1,
            final(self).entries@.drop_last() == old(self).entries@,
            final(self).entries@.last().path@ == path@,
            final(self).entries@.last().data@ == data@,
            !final(self).entries@.last().is_dir,
            final(self).entries@.last().link is None,
    {
        let e = FileEntry { path: path.to_owned(), is_dir: false, link: None, data };
        self.entries.push(e);
        assert(self.entries@.drop_last() == old(self).entries@);
    }

    /// The place of the first entry that names `path`.
    pub fn find(&self, path: &str) -> (r: Option<usize>)
        ensures
            match r {
                Some(i) => self.is_first(path@, i as int) && self.lookup(path@) == Some(
                    self.entries@[i as int],
                ),
                None => self.absent(path@) && self.lookup(path@) is None,
            },
    {
        let mut i: usize = 0;
        while i < self.entries.len()
            invariant
                i <= self.entries.len(),
                forall|j: int| 0 <= j < i ==> !same_path(#[trigger] self.entries@[j].path@, path@),
            decreases self.entries.len() - i,
        {
            if paths_equal(self.entries[i].path.as_str(), path) {
                proof {
                    self.lemma_first_is_lookup(path@, i as int);
                }
                return Some(i);
            }
            i += 1;
        }
        proof {
            self.lemma_absent_is_none(path@);
        }
        None
    }

    /// Whether `path` exists and is no directory.
    pub fn is_file(&self, path: &str) -> (b: bool)
        ensures
            b == self.has_file(path@),
    {
        match self.find(path) {
            Some(i) => !self.entries[i].is_dir,
            None => false,
        }
    }

    /// Whether `path` exists.
    pub fn has_path(&self, path: &str) -> (b: bool)
        ensures
            b == self.lookup(path@).is_some(),
    {
        self.find(path).is_some()
    }

    /// What `path` holds, where it is a file.
    pub fn read(&self, path: &str) -> (r: Option<&Vec<u8>>)
        ensures
            match r {
                Some(d) => self.content(path@) == Some(d@),
                None => self.content(path@) is None,
            },
    {
        match self.find(path) {
            Some(i) => if self.entries[i].is_dir {
                None
            } else {
                Some(&self.entries[i].data)
            },
            None => None,
        }
    }
}

} // verus!
