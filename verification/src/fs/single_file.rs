//! A wrapper that restricts any backend to one fixed path.

use vstd::prelude::*;

use crate::fs::{FileModel, Filesystem, FsError, Metadata};

verus! {

/// A filesystem that serves exactly one path of an inner filesystem; every
/// other path fails with [`FsError::NotFound`].
pub struct SingleFileFilesystem<F> {
    file_path: String,
    filesystem: F,
}

impl<F> SingleFileFilesystem<F> {
    /// The one path this filesystem serves.
    pub closed spec fn spec_path(&self) -> Seq<char> {
        self.file_path@
    }

    /// The wrapped filesystem.
    pub closed spec fn inner(&self) -> F {
        self.filesystem
    }

    /// Create a new [`SingleFileFilesystem`] serving `file_path` from
    /// `filesystem`.
    pub fn new(file_path: String, filesystem: F) -> (r: Self)
        ensures
            r.spec_path() == file_path@,
            r.inner() == filesystem,
    {
        Self { file_path, filesystem }
    }
}

impl<F: Filesystem> SingleFileFilesystem<F> {
    /// How the trait model arises from the wrapped filesystem: the inner
    /// model restricted to the one served path. This is the public bridge
    /// from [`Self::inner`] and [`Self::spec_path`] to the model that
    /// [`crate::serve_dir::serve_model`] is stated over.
    pub proof fn lemma_model(&self)
        ensures
            self.files() == self.inner().files().restrict(
                Set::new(|p: Seq<char>| p == self.spec_path()),
            ),
            self.dirs() == self.inner().dirs().intersect(
                Set::new(|p: Seq<char>| p == self.spec_path()),
            ),
            self.total() == self.inner().total(),
    {
    }
}

impl<F: Filesystem> Filesystem for SingleFileFilesystem<F> {
    type File = F::File;

    closed spec fn files(&self) -> Map<Seq<char>, FileModel> {
        self.filesystem.files().restrict(Set::new(|p: Seq<char>| p == self.file_path@))
    }

    closed spec fn dirs(&self) -> Set<Seq<char>> {
        self.filesystem.dirs().intersect(Set::new(|p: Seq<char>| p == self.file_path@))
    }

    closed spec fn total(&self) -> bool {
        self.filesystem.total()
    }

    fn open(&mut self, path: &String) -> (r: Result<Self::File, FsError>) {
        if !(self.file_path == *path) {
            return Err(FsError::NotFound);
        }
        self.filesystem.open(path)
    }

    fn is_dir(&self, path: &String) -> (r: Result<bool, FsError>) {
        if !(self.file_path == *path) {
            return Err(FsError::NotFound);
        }
        self.filesystem.is_dir(path)
    }

    fn metadata(&self, path: &String) -> (r: Result<Metadata, FsError>) {
        if !(self.file_path == *path) {
            return Err(FsError::NotFound);
        }
        self.filesystem.metadata(path)
    }
}

} // verus!
