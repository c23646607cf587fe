//! The filesystem capability: users implement [`Filesystem`] to provide files
//! for [`ServeDir`](crate::ServeDir).

use vstd::prelude::*;

pub mod disk;
pub mod include_dir;
pub mod single_file;

verus! {

/// What the server can fail with when it touches a filesystem.
#[derive(Clone, Copy, Debug, PartialEq, Eq, Structural)]
pub enum FsError {
    /// The path does not name a file, or a path component was rejected.
    NotFound,
    /// The file exists but may not be read.
    PermissionDenied,
    /// A seek was asked to move to a negative or overflowing position.
    InvalidInput,
    /// Any other I/O failure.
    Other,
}

/// A file's metadata.
#[derive(Debug, Clone)]
pub struct Metadata {
    /// Last-modified time, in whole seconds since the Unix epoch;
    /// `None` means the time is unknown.
    pub modified: Option<u64>,

    /// File size in bytes.
    pub len: u64,
}

/// Where a seek starts from.
#[derive(Clone, Copy, Debug)]
pub enum SeekFrom {
    /// An absolute offset from the first byte.
    Start(u64),
    /// A signed offset from one past the last byte.
    End(i64),
    /// A signed offset from the current position.
    Current(i64),
}

/// The mathematical model of one file: its bytes and its modification time.
pub struct FileModel {
    pub contents: Seq<u8>,
    pub modified: Option<u64>,
}

/// An opened file: sequential reads, absolute seeks, and metadata lookup.
pub trait FileExt: Sized {
    /// The bytes of the file.
    spec fn contents(&self) -> Seq<u8>;

    /// The file's last-modified time in seconds, if known.
    spec fn modified(&self) -> Option<u64>;

    /// The current read position (may lie past the end after a seek).
    spec fn pos(&self) -> int;

    /// Whether every operation on this handle is guaranteed to succeed.
    spec fn infallible(&self) -> bool;

    /// Get the file's [`Metadata`].
    fn metadata(&self) -> (r: Result<Metadata, FsError>)
        ensures
            r matches Ok(m) ==> m.len == self.contents().len() && m.modified == self.modified(),
            self.infallible() ==> r is Ok,
    ;

    /// Read at most `max` bytes, starting at the current position; an empty
    /// result means the position is at or past the end (or `max` is zero).
    fn read_chunk(&mut self, max: usize) -> (r: Result<Vec<u8>, FsError>)
        ensures
            final(self).contents() == old(self).contents(),
            final(self).modified() == old(self).modified(),
            final(self).infallible() == old(self).infallible(),
            old(self).infallible() ==> r is Ok,
            r matches Err(_) ==> final(self).pos() == old(self).pos(),
            r matches Ok(v) ==> {
                &&& v@.len() <= max
                &&& final(self).pos() == old(self).pos() + v@.len()
                &&& if 0 <= old(self).pos() && old(self).pos() < old(self).contents().len() {
                        &&& old(self).pos() + v@.len() <= old(self).contents().len()
                        &&& v@ == old(self).contents().subrange(
                            old(self).pos(),
                            old(self).pos() + v@.len(),
                        )
                        &&& (v@.len() == 0 ==> max == 0)
                    } else {
                        v@.len() == 0
                    }
            },
    ;

    /// Move the read position; a target inside the file is always reached,
    /// one before the start or past the end may be refused.
    fn seek(&mut self, from: SeekFrom) -> (r: Result<u64, FsError>)
        ensures
            final(self).contents() == old(self).contents(),
            final(self).modified() == old(self).modified(),
            final(self).infallible() == old(self).infallible(),
            r matches Ok(n) ==> final(self).pos() == n,
            r matches Err(_) ==> final(self).pos() == old(self).pos(),
            from matches SeekFrom::Start(p) ==> {
                &&& old(self).infallible() && p <= old(self).contents().len() ==> r is Ok
                &&& r matches Ok(n) ==> n == p
            },
            from matches SeekFrom::End(off) ==> (r matches Ok(n)
                ==> n == old(self).contents().len() + off),
            from matches SeekFrom::Current(off) ==> (r matches Ok(n)
                ==> n == old(self).pos() + off),
    ;
}

/// The filesystem capability. Its model is a map from paths to files
/// ([`Filesystem::files`]) and a set of directory paths ([`Filesystem::dirs`]).
///
/// `total()` says the backend behaves exactly as the model prescribes: a
/// lookup succeeds if and only if the model holds the path, and everything
/// else fails with [`FsError::NotFound`]. The embedded backend is total;
/// a backend over shared mutable storage need not be.
pub trait Filesystem: Sized {
    type File: FileExt;

    /// The files the backend holds, keyed by relative path.
    spec fn files(&self) -> Map<Seq<char>, FileModel>;

    /// The directory paths the backend holds.
    spec fn dirs(&self) -> Set<Seq<char>>;

    /// Whether the backend behaves exactly as `files()` and `dirs()` say.
    spec fn total(&self) -> bool;

    /// Open the file at `path` for reading.
    fn open(&mut self, path: &String) -> (r: Result<Self::File, FsError>)
        ensures
            final(self).files() == old(self).files(),
            final(self).dirs() == old(self).dirs(),
            final(self).total() == old(self).total(),
            r matches Ok(f) ==> {
                &&& old(self).files().contains_key(path@)
                &&& f.contents() == old(self).files()[path@].contents
                &&& f.modified() == old(self).files()[path@].modified
                &&& f.pos() == 0
            },
            old(self).total() ==> {
                &&& old(self).files().contains_key(path@) <==> r is Ok
                &&& r matches Ok(f) ==> f.infallible()
                &&& r matches Err(e) ==> e == FsError::NotFound
            },
    ;

    /// Whether `path` names a directory; `Err(NotFound)` when it names nothing.
    fn is_dir(&self, path: &String) -> (r: Result<bool, FsError>)
        ensures
            r == Ok::<bool, FsError>(true) ==> self.dirs().contains(path@),
            self.total() ==> {
                &&& self.dirs().contains(path@) ==> r == Ok::<bool, FsError>(true)
                &&& self.files().contains_key(path@) ==> r == Ok::<bool, FsError>(false)
                &&& !self.dirs().contains(path@) && !self.files().contains_key(path@)
                    ==> r == Err::<bool, FsError>(FsError::NotFound)
            },
    ;

    /// Get the [`Metadata`] of the file at `path`.
    fn metadata(&self, path: &String) -> (r: Result<Metadata, FsError>)
        ensures
            self.total() ==> {
                &&& self.files().contains_key(path@) ==> (r matches Ok(m)
                    && m.len == self.files()[path@].contents.len()
                    && m.modified == self.files()[path@].modified)
                &&& !self.files().contains_key(path@)
                    ==> r == Err::<Metadata, FsError>(FsError::NotFound)
            },
    ;
}

} // verus!
