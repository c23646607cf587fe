//! A handler that serves one fixed file.

use vstd::prelude::*;

use crate::fs::single_file::SingleFileFilesystem;
use crate::fs::Filesystem;
use crate::open_file::mime_value_of;
use crate::request::HttpRequest;
use crate::serve_dir::{
    serve_model, serve_view, ServeDir, ServeOutcome, VariantModel, DEFAULT_CAPACITY,
};

verus! {

/// Service that serves one file, with the `Content-Type` guessed from the
/// file extension unless one is given.
pub struct ServeFile<FS> {
    inner: ServeDir<SingleFileFilesystem<FS>>,
}

impl<FS> ServeFile<FS> {
    /// The wrapped directory handler.
    pub closed spec fn inner_spec(&self) -> ServeDir<SingleFileFilesystem<FS>> {
        self.inner
    }

    /// Create a new [`ServeFile`]; the `Content-Type` is guessed from the
    /// path's extension.
    pub fn new(path: String, filesystem: FS) -> (r: Self)
        ensures
            r.inner_spec().chunk_size_spec() == DEFAULT_CAPACITY,
            r.inner_spec().precompressed_spec() is None,
            r.inner_spec().variant_spec() == (VariantModel::SingleFile {
                mime: mime_value_of(path@),
                path: path@,
            }),
            !r.inner_spec().has_fallback_spec(),
            !r.inner_spec().fallback_on_method_spec(),
            r.inner_spec().fs_spec().spec_path() == path@,
            r.inner_spec().fs_spec().inner() == filesystem,
    {
        let mime = crate::open_file::mime_for_path(&path);
        let own_path = path.clone();
        ServeFile {
            inner: ServeDir::new_single_file(
                SingleFileFilesystem::new(path, filesystem),
                mime,
                own_path,
            ),
        }
    }

    /// Create a new [`ServeFile`] with a specific MIME value.
    pub fn new_with_mime(path: String, mime: String, filesystem: FS) -> (r: Self)
        ensures
            r.inner_spec().chunk_size_spec() == DEFAULT_CAPACITY,
            r.inner_spec().precompressed_spec() is None,
            r.inner_spec().variant_spec() == (VariantModel::SingleFile {
                mime: mime@,
                path: path@,
            }),
            !r.inner_spec().has_fallback_spec(),
            !r.inner_spec().fallback_on_method_spec(),
            r.inner_spec().fs_spec().spec_path() == path@,
            r.inner_spec().fs_spec().inner() == filesystem,
    {
        let own_path = path.clone();
        ServeFile {
            inner: ServeDir::new_single_file(
                SingleFileFilesystem::new(path, filesystem),
                mime,
                own_path,
            ),
        }
    }

    /// Set a specific read buffer chunk size.
    ///
    /// The default capacity is 64 KiB.
    pub fn with_buf_chunk_size(self, chunk_size: usize) -> (r: Self)
        ensures
            r.inner_spec().chunk_size_spec() == chunk_size,
            r.inner_spec().precompressed_spec() == self.inner_spec().precompressed_spec(),
            r.inner_spec().variant_spec() == self.inner_spec().variant_spec(),
            r.inner_spec().has_fallback_spec() == self.inner_spec().has_fallback_spec(),
            r.inner_spec().fallback_on_method_spec() == self.inner_spec().fallback_on_method_spec(),
            r.inner_spec().fs_spec() == self.inner_spec().fs_spec(),
    {
        ServeFile { inner: self.inner.with_buf_chunk_size(chunk_size) }
    }

    /// Also look for a precompressed gzip sibling of the file.
    pub fn precompressed_gzip(self) -> (r: Self)
        ensures
            r.inner_spec().precompressed_spec() matches Some(p) && p.gzip,
            r.inner_spec().chunk_size_spec() == self.inner_spec().chunk_size_spec(),
            r.inner_spec().variant_spec() == self.inner_spec().variant_spec(),
            r.inner_spec().has_fallback_spec() == self.inner_spec().has_fallback_spec(),
            r.inner_spec().fallback_on_method_spec() == self.inner_spec().fallback_on_method_spec(),
            r.inner_spec().fs_spec() == self.inner_spec().fs_spec(),
    {
        ServeFile { inner: self.inner.precompressed_gzip() }
    }

    /// Also look for a precompressed brotli sibling of the file.
    pub fn precompressed_br(self) -> (r: Self)
        ensures
            r.inner_spec().precompressed_spec() matches Some(p) && p.br,
            r.inner_spec().chunk_size_spec() == self.inner_spec().chunk_size_spec(),
            r.inner_spec().variant_spec() == self.inner_spec().variant_spec(),
            r.inner_spec().has_fallback_spec() == self.inner_spec().has_fallback_spec(),
            r.inner_spec().fallback_on_method_spec() == self.inner_spec().fallback_on_method_spec(),
            r.inner_spec().fs_spec() == self.inner_spec().fs_spec(),
    {
        ServeFile { inner: self.inner.precompressed_br() }
    }

    /// Also look for a precompressed deflate sibling of the file.
    pub fn precompressed_deflate(self) -> (r: Self)
        ensures
            r.inner_spec().precompressed_spec() matches Some(p) && p.deflate,
            r.inner_spec().chunk_size_spec() == self.inner_spec().chunk_size_spec(),
            r.inner_spec().variant_spec() == self.inner_spec().variant_spec(),
            r.inner_spec().has_fallback_spec() == self.inner_spec().has_fallback_spec(),
            r.inner_spec().fallback_on_method_spec() == self.inner_spec().fallback_on_method_spec(),
            r.inner_spec().fs_spec() == self.inner_spec().fs_spec(),
    {
        ServeFile { inner: self.inner.precompressed_deflate() }
    }
}

impl<FS: Filesystem> ServeFile<FS> {
    /// Serve one request against the fixed file.
    pub fn call(&mut self, req: &HttpRequest) -> (r: Result<
        ServeOutcome<<SingleFileFilesystem<FS> as Filesystem>::File>,
        crate::fs::FsError,
    >)
        ensures
            final(self).inner_spec().config_spec() == old(self).inner_spec().config_spec(),
            old(self).inner_spec().fs_spec().total() ==> serve_view(r) == serve_model(
                old(self).inner_spec().chunk_size_spec(),
                old(self).inner_spec().precompressed_spec(),
                old(self).inner_spec().variant_spec(),
                old(self).inner_spec().has_fallback_spec(),
                old(self).inner_spec().fallback_on_method_spec(),
                old(self).inner_spec().fs_spec().files(),
                old(self).inner_spec().fs_spec().dirs(),
                *req,
            ),
    {
        self.inner.call(req)
    }
}

} // verus!
