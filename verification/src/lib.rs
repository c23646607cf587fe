//! HTTP file server core: serves files from a pluggable [`Filesystem`](fs::Filesystem).
//! Users can implement their own filesystem, or use the embedded
//! [`IncludeDirFilesystem`](fs::include_dir::IncludeDirFilesystem) directly.

pub use serve_dir::{DefaultServeDirFallback, ServeDir};
pub use serve_file::ServeFile;

pub mod body;
pub mod content_encoding;
pub mod fs;
pub mod headers;
pub mod laws;
pub mod open_file;
pub mod request;
pub mod serve_dir;
pub mod serve_file;
pub mod strutil;
