//! The request handler: serves files from a [`Filesystem`] under a root, or
//! one fixed file, and renders the final response.

use vstd::prelude::*;

use crate::body::ResponseBody;
use crate::content_encoding::PrecompressedVariants;
use crate::fs::{FileExt, FileModel, Filesystem};
use crate::strutil::count_char;

verus! {

/// The default read buffer: 64 KiB per chunk.
pub const DEFAULT_CAPACITY: usize = 65536;

/// How the handler resolves paths: under a directory tree, or pinned to a
/// single file with a fixed MIME value.
#[derive(Clone, Debug)]
pub enum ServeVariant {
    Directory { append_index_html_on_directories: bool },
    SingleFile { mime: String, path: String },
}

/// The model of a [`ServeVariant`].
pub enum VariantModel {
    Directory { append_index_html: bool },
    SingleFile { mime: Seq<char>, path: Seq<char> },
}

impl ServeVariant {
    /// The model of this variant.
    pub open spec fn model(&self) -> VariantModel {
        match self {
            ServeVariant::Directory { append_index_html_on_directories } => VariantModel::Directory {
                append_index_html: *append_index_html_on_directories,
            },
            ServeVariant::SingleFile { mime, path } => VariantModel::SingleFile {
                mime: mime@,
                path: path@,
            },
        }
    }
}

/// The default fallback of [`ServeDir`]: there is none, and no value of
/// this type can be made outside the crate.
pub struct DefaultServeDirFallback(());

/// A rendered response: the status, the headers this server ever sets, and
/// the body.
pub struct Response<F> {
    pub status: u16,
    pub content_type: Option<String>,
    pub accept_ranges_bytes: bool,
    pub content_encoding: Option<String>,
    pub last_modified: Option<String>,
    pub content_length: Option<u64>,
    pub content_range: Option<String>,
    pub location: Option<String>,
    pub allow: Option<String>,
    pub body: ResponseBody<F>,
}

/// The model of a rendered response; the body stands as the bytes it would
/// stream.
pub struct ResponseModel {
    pub status: int,
    pub content_type: Option<Seq<char>>,
    pub accept_ranges_bytes: bool,
    pub content_encoding: Option<Seq<char>>,
    pub last_modified: Option<Seq<char>>,
    pub content_length: Option<u64>,
    pub content_range: Option<Seq<char>>,
    pub location: Option<Seq<char>>,
    pub allow: Option<Seq<char>>,
    pub body: Seq<u8>,
}

impl<F: FileExt> View for Response<F> {
    type V = ResponseModel;

    open spec fn view(&self) -> ResponseModel {
        ResponseModel {
            status: self.status as int,
            content_type: crate::request::opt_chars(&self.content_type),
            accept_ranges_bytes: self.accept_ranges_bytes,
            content_encoding: crate::request::opt_chars(&self.content_encoding),
            last_modified: crate::request::opt_chars(&self.last_modified),
            content_length: self.content_length,
            content_range: crate::request::opt_chars(&self.content_range),
            location: crate::request::opt_chars(&self.location),
            allow: crate::request::opt_chars(&self.allow),
            body: self.body.bytes_model(),
        }
    }
}

/// What one request comes to: a response of this server, or the instruction
/// to forward the request to the configured fallback.
pub enum ServeOutcome<F> {
    Respond(Response<F>),
    Fallback,
}

/// Service that serves files from a given directory and all its
/// subdirectories.
///
/// The `Content-Type` is guessed from the file extension.
///
/// An empty response with status `404 Not Found` is returned if:
///
/// - the file doesn't exist,
/// - any segment of the path contains `..`,
/// - any segment of the path contains a backslash,
/// - reading the file is not permitted.
#[derive(Clone, Debug)]
pub struct ServeDir<FS> {
    pub(crate) buf_chunk_size: usize,
    pub(crate) precompressed_variants: Option<PrecompressedVariants>,
    variant: ServeVariant,
    has_fallback: bool,
    call_fallback_on_method_not_allowed: bool,
    filesystem: FS,
}

impl<FS> ServeDir<FS> {
    /// The read buffer chunk size.
    pub closed spec fn chunk_size_spec(&self) -> usize {
        self.buf_chunk_size
    }

    /// The precompressed-variant policy, if one was switched on.
    pub closed spec fn precompressed_spec(&self) -> Option<PrecompressedVariants> {
        self.precompressed_variants
    }

    /// The serve variant.
    pub closed spec fn variant_spec(&self) -> VariantModel {
        self.variant.model()
    }

    /// Whether a fallback service stands behind this handler.
    pub closed spec fn has_fallback_spec(&self) -> bool {
        self.has_fallback
    }

    /// Whether disallowed methods go to the fallback.
    pub closed spec fn fallback_on_method_spec(&self) -> bool {
        self.call_fallback_on_method_not_allowed
    }

    /// The filesystem.
    pub closed spec fn fs_spec(&self) -> FS {
        self.filesystem
    }

    /// Everything but the filesystem, for stating that a call leaves the
    /// configuration alone.
    pub open spec fn config_spec(&self) -> (usize, Option<PrecompressedVariants>, VariantModel, bool, bool) {
        (
            self.chunk_size_spec(),
            self.precompressed_spec(),
            self.variant_spec(),
            self.has_fallback_spec(),
            self.fallback_on_method_spec(),
        )
    }

    /// Create a new [`ServeDir`] over `filesystem`.
    pub fn new(filesystem: FS) -> (r: Self)
        ensures
            r.chunk_size_spec() == DEFAULT_CAPACITY,
            r.precompressed_spec() is None,
            r.variant_spec() == (VariantModel::Directory { append_index_html: true }),
            !r.has_fallback_spec(),
            !r.fallback_on_method_spec(),
            r.fs_spec() == filesystem,
    {
        Self {
            buf_chunk_size: DEFAULT_CAPACITY,
            precompressed_variants: None,
            variant: ServeVariant::Directory { append_index_html_on_directories: true },
            has_fallback: false,
            call_fallback_on_method_not_allowed: false,
            filesystem,
        }
    }

    /// Create a handler that always serves the file at `path` with `mime`,
    /// whatever path a request carries.
    pub(crate) fn new_single_file(filesystem: FS, mime: String, path: String) -> (r: Self)
        ensures
            r.chunk_size_spec() == DEFAULT_CAPACITY,
            r.precompressed_spec() is None,
            r.variant_spec() == (VariantModel::SingleFile { mime: mime@, path: path@ }),
            !r.has_fallback_spec(),
            !r.fallback_on_method_spec(),
            r.fs_spec() == filesystem,
    {
        Self {
            buf_chunk_size: DEFAULT_CAPACITY,
            precompressed_variants: None,
            variant: ServeVariant::SingleFile { mime, path },
            has_fallback: false,
            call_fallback_on_method_not_allowed: false,
            filesystem,
        }
    }

    /// If the requested path is a directory, append `index.html`.
    ///
    /// This is useful for static sites. Defaults to `true`.
    pub fn append_index_html_on_directories(self, append: bool) -> (r: Self)
        ensures
            r.variant_spec() == (match self.variant_spec() {
                VariantModel::Directory { .. } => VariantModel::Directory {
                    append_index_html: append,
                },
                VariantModel::SingleFile { mime, path } => VariantModel::SingleFile {
                    mime,
                    path,
                },
            }),
            r.chunk_size_spec() == self.chunk_size_spec(),
            r.precompressed_spec() == self.precompressed_spec(),
            r.has_fallback_spec() == self.has_fallback_spec(),
            r.fallback_on_method_spec() == self.fallback_on_method_spec(),
            r.fs_spec() == self.fs_spec(),
    {
        let mut this = self;
        match &mut this.variant {
            ServeVariant::Directory { append_index_html_on_directories } => {
                *append_index_html_on_directories = append;
            },
            ServeVariant::SingleFile { .. } => {},
        }
        this
    }

    /// Set a specific read buffer chunk size.
    ///
    /// The default capacity is 64 KiB.
    pub fn with_buf_chunk_size(self, chunk_size: usize) -> (r: Self)
        ensures
            r.chunk_size_spec() == chunk_size,
            r.precompressed_spec() == self.precompressed_spec(),
            r.variant_spec() == self.variant_spec(),
            r.has_fallback_spec() == self.has_fallback_spec(),
            r.fallback_on_method_spec() == self.fallback_on_method_spec(),
            r.fs_spec() == self.fs_spec(),
    {
        let mut this = self;
        this.buf_chunk_size = chunk_size;
        this
    }

    /// Also look for a precompressed gzip sibling (`foo.txt.gz`) of any
    /// requested file, and serve it to clients that accept gzip.
    pub fn precompressed_gzip(self) -> (r: Self)
        ensures
            r.precompressed_spec() matches Some(p) && p.gzip && p.deflate == (match self
                .precompressed_spec() {
                Option::Some(q) => q.deflate,
                Option::None => false,
            }) && p.br == (match self.precompressed_spec() {
                Option::Some(q) => q.br,
                Option::None => false,
            }),
            r.chunk_size_spec() == self.chunk_size_spec(),
            r.variant_spec() == self.variant_spec(),
            r.has_fallback_spec() == self.has_fallback_spec(),
            r.fallback_on_method_spec() == self.fallback_on_method_spec(),
            r.fs_spec() == self.fs_spec(),
    {
        let mut this = self;
        let mut p = match this.precompressed_variants {
            Option::Some(p) => p,
            Option::None => PrecompressedVariants { gzip: false, deflate: false, br: false },
        };
        p.gzip = true;
        this.precompressed_variants = Some(p);
        this
    }

    /// Also look for a precompressed brotli sibling (`foo.txt.br`) of any
    /// requested file, and serve it to clients that accept brotli.
    pub fn precompressed_br(self) -> (r: Self)
        ensures
            r.precompressed_spec() matches Some(p) && p.br && p.gzip == (match self
                .precompressed_spec() {
                Option::Some(q) => q.gzip,
                Option::None => false,
            }) && p.deflate == (match self.precompressed_spec() {
                Option::Some(q) => q.deflate,
                Option::None => false,
            }),
            r.chunk_size_spec() == self.chunk_size_spec(),
            r.variant_spec() == self.variant_spec(),
            r.has_fallback_spec() == self.has_fallback_spec(),
            r.fallback_on_method_spec() == self.fallback_on_method_spec(),
            r.fs_spec() == self.fs_spec(),
    {
        let mut this = self;
        let mut p = match this.precompressed_variants {
            Option::Some(p) => p,
            Option::None => PrecompressedVariants { gzip: false, deflate: false, br: false },
        };
        p.br = true;
        this.precompressed_variants = Some(p);
        this
    }

    /// Also look for a precompressed deflate sibling (`foo.txt.zz`) of any
    /// requested file, and serve it to clients that accept deflate.
    pub fn precompressed_deflate(self) -> (r: Self)
        ensures
            r.precompressed_spec() matches Some(p) && p.deflate && p.gzip == (match self
                .precompressed_spec() {
                Option::Some(q) => q.gzip,
                Option::None => false,
            }) && p.br == (match self.precompressed_spec() {
                Option::Some(q) => q.br,
                Option::None => false,
            }),
            r.chunk_size_spec() == self.chunk_size_spec(),
            r.variant_spec() == self.variant_spec(),
            r.has_fallback_spec() == self.has_fallback_spec(),
            r.fallback_on_method_spec() == self.fallback_on_method_spec(),
            r.fs_spec() == self.fs_spec(),
    {
        let mut this = self;
        let mut p = match this.precompressed_variants {
            Option::Some(p) => p,
            Option::None => PrecompressedVariants { gzip: false, deflate: false, br: false },
        };
        p.deflate = true;
        this.precompressed_variants = Some(p);
        this
    }

    /// Record whether a fallback service stands behind this handler; the
    /// embedding program holds the service itself and forwards to it when a
    /// call comes out as [`ServeOutcome::Fallback`].
    pub fn fallback_present(self, present: bool) -> (r: Self)
        ensures
            r.has_fallback_spec() == present,
            r.chunk_size_spec() == self.chunk_size_spec(),
            r.precompressed_spec() == self.precompressed_spec(),
            r.variant_spec() == self.variant_spec(),
            r.fallback_on_method_spec() == self.fallback_on_method_spec(),
            r.fs_spec() == self.fs_spec(),
    {
        let mut this = self;
        this.has_fallback = present;
        this
    }

    /// Customise whether to send requests that are neither `GET` nor `HEAD`
    /// to the fallback.
    ///
    /// Defaults to not doing so and answering `405 Method Not Allowed`.
    pub fn call_fallback_on_method_not_allowed(self, call_fallback: bool) -> (r: Self)
        ensures
            r.fallback_on_method_spec() == call_fallback,
            r.chunk_size_spec() == self.chunk_size_spec(),
            r.precompressed_spec() == self.precompressed_spec(),
            r.variant_spec() == self.variant_spec(),
            r.has_fallback_spec() == self.has_fallback_spec(),
            r.fs_spec() == self.fs_spec(),
    {
        let mut this = self;
        this.call_fallback_on_method_not_allowed = call_fallback;
        this
    }
}

/// The text answering a multipart range request.
pub open spec fn multipart_msg() -> Seq<char> {
    "Cannot serve multipart range requests"@
}

/// The text answering a range header that parsed to no ranges at all; the
/// external parser never produces that shape, but the builder stays total.
pub open spec fn no_ranges_msg() -> Seq<char> {
    "No range found after parsing range header, please file an issue"@
}

/// The value of the `Allow` header on a disallowed method.
pub open spec fn allow_value() -> Seq<char> {
    seq!['G', 'E', 'T', ',', 'H', 'E', 'A', 'D']
}

/// A `Content-Range` of the form `bytes S-E/L`.
pub open spec fn content_range_chars(s: int, e: int, l: int) -> Seq<char> {
    seq!['b', 'y', 't', 'e', 's', ' '] + crate::strutil::dec_chars(s) + seq!['-']
        + crate::strutil::dec_chars(e) + seq!['/'] + crate::strutil::dec_chars(l)
}

/// A `Content-Range` of the form `bytes */L`.
pub open spec fn content_range_unsatisfiable_chars(l: int) -> Seq<char> {
    seq!['b', 'y', 't', 'e', 's', ' ', '*', '/'] + crate::strutil::dec_chars(l)
}

/// A response with a status and nothing else.
pub open spec fn plain_response_model(status: int) -> ResponseModel {
    ResponseModel {
        status,
        content_type: None,
        accept_ranges_bytes: false,
        content_encoding: None,
        last_modified: None,
        content_length: None,
        content_range: None,
        location: None,
        allow: None,
        body: Seq::empty(),
    }
}

/// The `405 Method Not Allowed` response.
pub open spec fn method_not_allowed_model() -> ResponseModel {
    ResponseModel { allow: Some(allow_value()), ..plain_response_model(405) }
}

/// The `307 Temporary Redirect` response.
pub open spec fn redirect_model(location: Seq<char>) -> ResponseModel {
    ResponseModel { location: Some(location), ..plain_response_model(307) }
}

/// The response built from an opened file, by the range cases: none (whole
/// file), one satisfiable range (a partial response), several or none
/// (unsatisfiable), or an unsatisfiable header.
pub open spec fn response_of(m: crate::open_file::OpenedModel) -> ResponseModel {
    let common = ResponseModel {
        status: 200,
        content_type: Some(m.mime),
        accept_ranges_bytes: true,
        content_encoding: match m.encoding {
            Option::Some(e) => Some(e.token()),
            Option::None => None,
        },
        last_modified: match m.last_modified {
            Option::Some(t) => Some(crate::headers::http_date_chars(t as int)),
            Option::None => None,
        },
        content_length: None,
        content_range: None,
        location: None,
        allow: None,
        body: Seq::empty(),
    };
    match m.range {
        Option::Some(Result::Ok(v)) => {
            if v.len() == 0 {
                ResponseModel {
                    status: 416,
                    content_range: Some(content_range_unsatisfiable_chars(m.meta_len)),
                    body: vstd::utf8::encode_utf8(no_ranges_msg()),
                    ..common
                }
            } else if v.len() > 1 {
                ResponseModel {
                    status: 416,
                    content_range: Some(content_range_unsatisfiable_chars(m.meta_len)),
                    body: vstd::utf8::encode_utf8(multipart_msg()),
                    ..common
                }
            } else {
                let s = v[0].0;
                let e = v[0].1;
                ResponseModel {
                    status: 206,
                    content_range: Some(content_range_chars(s as int, e as int, m.meta_len)),
                    content_length: Some((e - s + 1) as u64),
                    body: if m.head {
                        Seq::empty()
                    } else {
                        m.contents.subrange(m.pos, m.pos + (e - s + 1))
                    },
                    ..common
                }
            }
        },
        Option::Some(Result::Err(_)) => ResponseModel {
            status: 416,
            content_range: Some(content_range_unsatisfiable_chars(m.meta_len)),
            ..common
        },
        Option::None => ResponseModel {
            status: 200,
            content_length: Some(m.meta_len as u64),
            body: if m.head {
                Seq::empty()
            } else {
                m.contents
            },
            ..common
        },
    }
}

/// A response with `status` and an empty body.
fn response_with_status<F: FileExt>(status: u16) -> (r: Response<F>)
    ensures
        r@ == plain_response_model(status as int),
{
    Response {
        status,
        content_type: None,
        accept_ranges_bytes: false,
        content_encoding: None,
        last_modified: None,
        content_length: None,
        content_range: None,
        location: None,
        allow: None,
        body: empty_body(),
    }
}

/// The empty response body.
fn empty_body<F>() -> (r: ResponseBody<F>)
    ensures
        r is Empty,
{
    ResponseBody::Empty
}

/// A response body holding the given bytes.
fn body_from_bytes<F>(bytes: Vec<u8>) -> (r: ResponseBody<F>)
    ensures
        r == ResponseBody::<F>::Bytes(bytes),
{
    ResponseBody::Bytes(bytes)
}

/// The plain `404 Not Found` response.
fn not_found<F: FileExt>() -> (r: Response<F>)
    ensures
        r@ == plain_response_model(404),
{
    response_with_status(404)
}

/// Render `Content-Range: bytes S-E/L`.
fn content_range_value(s: u64, e: u64, l: u64) -> (r: String)
    ensures
        r@ == content_range_chars(s as int, e as int, l as int),
{
    let prefix = "bytes ";
    proof {
        reveal_strlit("bytes ");
        assert(prefix@ =~= seq!['b', 'y', 't', 'e', 's', ' ']);
    }
    let dash = "-";
    proof {
        reveal_strlit("-");
        assert(dash@ =~= seq!['-']);
    }
    let slash = "/";
    proof {
        reveal_strlit("/");
        assert(slash@ =~= seq!['/']);
    }
    let mut out = String::from_str(prefix);
    out.append(crate::strutil::u64_to_dec(s).as_str());
    out.append(dash);
    out.append(crate::strutil::u64_to_dec(e).as_str());
    out.append(slash);
    out.append(crate::strutil::u64_to_dec(l).as_str());
    proof {
        assert(out@ =~= content_range_chars(s as int, e as int, l as int));
    }
    out
}

/// Render `Content-Range: bytes */L`.
fn content_range_unsatisfiable_value(l: u64) -> (r: String)
    ensures
        r@ == content_range_unsatisfiable_chars(l as int),
{
    let prefix = "bytes */";
    proof {
        reveal_strlit("bytes */");
        assert(prefix@ =~= seq!['b', 'y', 't', 'e', 's', ' ', '*', '/']);
    }
    let mut out = String::from_str(prefix);
    out.append(crate::strutil::u64_to_dec(l).as_str());
    proof {
        assert(out@ =~= content_range_unsatisfiable_chars(l as int));
    }
    out
}

/// Build the final response around an opened file, by the range cases.
fn build_response<F: FileExt>(output: crate::open_file::FileOpened<F>) -> (r: Response<F>)
    requires
        ({
            let m = crate::open_file::opened_view(output);
            &&& (output.extent matches crate::open_file::FileRequestExtent::Full(f, meta)
                ==> meta.len == f.contents().len())
            &&& (m.range matches Some(Ok(v)) ==> v.len() >= 1 && (forall|i: int|
                0 <= i < v.len() ==> (#[trigger] v[i]).0 <= v[i].1 < m.meta_len))
            &&& m.pos == (if !m.head && (m.range matches Some(Ok(v)) && v.len() == 1) {
                m.range->Some_0->Ok_0[0].0 as int
            } else {
                0
            })
        }),
    ensures
        r@ == response_of(crate::open_file::opened_view(output)),
        r.body.reliable() || !(output.extent matches crate::open_file::FileRequestExtent::Full(
            f,
            _,
        ) && f.infallible() && output.chunk_size > 0),
{
    let ghost m = crate::open_file::opened_view(output);
    let crate::open_file::FileOpened {
        extent,
        chunk_size,
        mime_header_value,
        maybe_encoding,
        maybe_range,
        last_modified,
    } = output;
    let (maybe_file, size) = match extent {
        crate::open_file::FileRequestExtent::Full(file, meta) => (Some(file), meta.len),
        crate::open_file::FileRequestExtent::Head(meta) => (None, meta.len),
    };
    let content_encoding: Option<String> = match &maybe_encoding {
        Option::Some(e) => Some(String::from_str(e.to_str())),
        Option::None => None,
    };
    let last_modified_value: Option<String> = match &last_modified {
        Option::Some(lm) => Some(lm.to_date_string()),
        Option::None => None,
    };
    match maybe_range {
        Option::Some(Result::Ok(ranges)) => {
            if ranges.len() == 0 {
                let msg = "No range found after parsing range header, please file an issue";
                proof {
                    reveal_strlit(
                        "No range found after parsing range header, please file an issue",
                    );
                }
                Response {
                    status: 416,
                    content_type: Some(mime_header_value),
                    accept_ranges_bytes: true,
                    content_encoding,
                    last_modified: last_modified_value,
                    content_length: None,
                    content_range: Some(content_range_unsatisfiable_value(size)),
                    location: None,
                    allow: None,
                    body: body_from_bytes(msg.as_bytes_vec()),
                }
            } else if ranges.len() > 1 {
                let msg = "Cannot serve multipart range requests";
                proof {
                    reveal_strlit("Cannot serve multipart range requests");
                }
                Response {
                    status: 416,
                    content_type: Some(mime_header_value),
                    accept_ranges_bytes: true,
                    content_encoding,
                    last_modified: last_modified_value,
                    content_length: None,
                    content_range: Some(content_range_unsatisfiable_value(size)),
                    location: None,
                    allow: None,
                    body: body_from_bytes(msg.as_bytes_vec()),
                }
            } else {
                let s = ranges[0].0;
                let e = ranges[0].1;
                let range_size = e - s + 1;
                let body = match maybe_file {
                    Option::Some(file) => ResponseBody::Stream {
                        file,
                        chunk_size,
                        limit: Some(range_size),
                    },
                    Option::None => empty_body(),
                };
                proof {
                    assert(body.bytes_model() =~= response_of(m).body);
                }
                Response {
                    status: 206,
                    content_type: Some(mime_header_value),
                    accept_ranges_bytes: true,
                    content_encoding,
                    last_modified: last_modified_value,
                    content_length: Some(range_size),
                    content_range: Some(content_range_value(s, e, size)),
                    location: None,
                    allow: None,
                    body,
                }
            }
        },
        Option::Some(Result::Err(_)) => Response {
            status: 416,
            content_type: Some(mime_header_value),
            accept_ranges_bytes: true,
            content_encoding,
            last_modified: last_modified_value,
            content_length: None,
            content_range: Some(content_range_unsatisfiable_value(size)),
            location: None,
            allow: None,
            body: empty_body(),
        },
        Option::None => {
            let body = match maybe_file {
                Option::Some(file) => ResponseBody::Stream { file, chunk_size, limit: None },
                Option::None => empty_body(),
            };
            proof {
                assert(body.bytes_model() =~= response_of(m).body);
            }
            Response {
                status: 200,
                content_type: Some(mime_header_value),
                accept_ranges_bytes: true,
                content_encoding,
                last_modified: last_modified_value,
                content_length: Some(size),
                content_range: None,
                location: None,
                allow: None,
                body,
            }
        },
    }
}

/// What percent-decoding answers for a path; the decoding depends on the
/// characters alone. `None` means the escapes do not decode to UTF-8.
pub uninterp spec fn percent_decoded(s: Seq<char>) -> Option<Seq<char>>;

/// Relies on `percent_encoding::percent_decode_str` and `decode_utf8`: each
/// `%XY` escape becomes the byte `0xXY`, other bytes stay, and the result
/// must be UTF-8; a string without `%` therefore decodes to itself.
#[verifier::external_body]
fn percent_decode_utf8(s: &str) -> (r: Option<String>)
    ensures
        r matches Some(d) ==> percent_decoded(s@) == Some(d@),
        r is None <==> percent_decoded(s@) is None,
        !s@.contains('%') ==> r is Some,
        r matches Some(d) ==> (!s@.contains('%') ==> d@ == s@),
{
    percent_encoding::percent_decode_str(s).decode_utf8().ok().map(|c| c.into_owned())
}

/// `s` without its trailing slashes.
pub open spec fn trim_trailing_slashes(s: Seq<char>) -> Seq<char>
    decreases s.len(),
{
    if s.len() > 0 && s.last() == '/' {
        trim_trailing_slashes(s.drop_last())
    } else {
        s
    }
}

/// Strip the trailing slashes off a path: the filesystem is keyed by bare
/// relative paths.
fn trim_end_slashes(s: &str) -> (r: String)
    ensures
        r@ == trim_trailing_slashes(s@),
{
    let n = s.unicode_len();
    let mut hi: usize = n;
    proof {
        assert(s@.subrange(0, n as int) =~= s@);
    }
    while hi > 0 && s.get_char(hi - 1) == '/'
        invariant
            n == s@.len(),
            hi <= n,
            trim_trailing_slashes(s@) == trim_trailing_slashes(s@.subrange(0, hi as int)),
        decreases hi,
    {
        proof {
            assert(s@.subrange(0, hi as int).drop_last() =~= s@.subrange(0, hi - 1));
            assert(s@.subrange(0, hi as int).last() == s@[hi - 1]);
        }
        hi = hi - 1;
    }
    proof {
        assert(trim_trailing_slashes(s@.subrange(0, hi as int)) == s@.subrange(0, hi as int));
    }
    String::from_str(s.substring_char(0, hi))
}

/// `s` without its leading slashes.
pub open spec fn trim_leading_slashes(s: Seq<char>) -> Seq<char>
    decreases s.len(),
{
    if s.len() > 0 && s[0] == '/' {
        trim_leading_slashes(s.drop_first())
    } else {
        s
    }
}

/// Strip the leading slashes off a path.
fn trim_slashes(s: &str) -> (r: String)
    ensures
        r@ == trim_leading_slashes(s@),
{
    let n = s.unicode_len();
    let mut lo: usize = 0;
    proof {
        assert(s@.skip(0) =~= s@);
    }
    while lo < n && s.get_char(lo) == '/'
        invariant
            n == s@.len(),
            lo <= n,
            trim_leading_slashes(s@) == trim_leading_slashes(s@.skip(lo as int)),
        decreases n - lo,
    {
        proof {
            assert(s@.skip(lo as int).drop_first() =~= s@.skip(lo + 1));
        }
        lo = lo + 1;
    }
    proof {
        assert(trim_leading_slashes(s@.skip(lo as int)) == s@.skip(lo as int));
    }
    String::from_str(s.substring_char(lo, n))
}

/// What one request comes to, as a value.
pub enum ServeModel {
    Respond(ResponseModel),
    FallbackOut,
    Failure(crate::fs::FsError),
}

/// A lookup miss: the fallback when one stands behind the handler, else a
/// plain `404 Not Found`.
pub open spec fn miss_model(has_fallback: bool) -> ServeModel {
    if has_fallback {
        ServeModel::FallbackOut
    } else {
        ServeModel::Respond(plain_response_model(404))
    }
}

/// The whole request handler as a function of the configuration, the
/// filesystem model, and the request.
pub open spec fn serve_model(
    chunk: usize,
    precompressed: Option<PrecompressedVariants>,
    variant: VariantModel,
    has_fallback: bool,
    fallback_on_method: bool,
    files: Map<Seq<char>, crate::fs::FileModel>,
    dirs: Set<Seq<char>>,
    req: crate::request::HttpRequest,
) -> ServeModel {
    let method_allowed = req.method is Get || req.method is Head;
    if !method_allowed && fallback_on_method && has_fallback {
        ServeModel::FallbackOut
    } else if !method_allowed {
        ServeModel::Respond(method_not_allowed_model())
    } else {
        match percent_decoded(trim_leading_slashes(req.uri.path@)) {
            Option::None => miss_model(has_fallback),
            Option::Some(path) => {
                let candidate = match variant {
                    VariantModel::SingleFile { path: own, .. } => own,
                    VariantModel::Directory { .. } => trim_trailing_slashes(path),
                };
                let policy = match precompressed {
                    Option::Some(p) => p,
                    Option::None => PrecompressedVariants {
                        gzip: false,
                        deflate: false,
                        br: false,
                    },
                };
                let neg = crate::content_encoding::encodings_of(
                    crate::request::opt_chars(&req.accept_encoding),
                    policy,
                );
                match crate::open_file::open_file_model(
                    files,
                    dirs,
                    variant,
                    candidate,
                    req,
                    neg,
                    crate::request::opt_chars(&req.range),
                    chunk,
                ) {
                    crate::open_file::OutcomeModel::Opened(m) => ServeModel::Respond(
                        response_of(m),
                    ),
                    crate::open_file::OutcomeModel::Redirect(loc) => ServeModel::Respond(
                        redirect_model(loc),
                    ),
                    crate::open_file::OutcomeModel::NotFound => miss_model(has_fallback),
                    crate::open_file::OutcomeModel::PreconditionFailed => ServeModel::Respond(
                        plain_response_model(412),
                    ),
                    crate::open_file::OutcomeModel::NotModified => ServeModel::Respond(
                        plain_response_model(304),
                    ),
                    crate::open_file::OutcomeModel::Failed(e) => if e
                        == crate::fs::FsError::NotFound || e
                        == crate::fs::FsError::PermissionDenied {
                        miss_model(has_fallback)
                    } else {
                        ServeModel::Failure(e)
                    },
                }
            },
        }
    }
}

/// The view of a handler's exec outcome.
pub open spec fn serve_view<F: FileExt>(r: Result<ServeOutcome<F>, crate::fs::FsError>) -> ServeModel {
    match r {
        Result::Err(e) => ServeModel::Failure(e),
        Result::Ok(o) => match o {
            ServeOutcome::Respond(resp) => ServeModel::Respond(resp@),
            ServeOutcome::Fallback => ServeModel::FallbackOut,
        },
    }
}

impl<FS: Filesystem> ServeDir<FS> {
    /// Serve one request: decode the path, negotiate encodings, run the
    /// open-file pipeline, and render the outcome. A [`ServeOutcome::Fallback`]
    /// instructs the embedding program to forward the request to its
    /// fallback service; it arises only when one was declared present.
    pub fn call(&mut self, req: &crate::request::HttpRequest) -> (r: Result<
        ServeOutcome<FS::File>,
        crate::fs::FsError,
    >)
        ensures
            final(self).config_spec() == old(self).config_spec(),
            final(self).fs_spec().files() == old(self).fs_spec().files(),
            final(self).fs_spec().dirs() == old(self).fs_spec().dirs(),
            final(self).fs_spec().total() == old(self).fs_spec().total(),
            old(self).fs_spec().total() ==> serve_view(r) == serve_model(
                old(self).chunk_size_spec(),
                old(self).precompressed_spec(),
                old(self).variant_spec(),
                old(self).has_fallback_spec(),
                old(self).fallback_on_method_spec(),
                old(self).fs_spec().files(),
                old(self).fs_spec().dirs(),
                *req,
            ),
            r matches Ok(o) ==> (o is Fallback ==> old(self).has_fallback_spec()),
            req.range matches Some(h) && count_char(h@, ',') >= 1 ==> (r matches Ok(o) ==> (
            o matches ServeOutcome::Respond(resp) ==> resp@.status != 200 && resp@.status != 206)),
    {
        let method_allowed = req.method == crate::request::HttpMethod::Get || req.method
            == crate::request::HttpMethod::Head;
        if !method_allowed {
            if self.call_fallback_on_method_not_allowed && self.has_fallback {
                return Ok(ServeOutcome::Fallback);
            }
            let mut res = response_with_status(405);
            let allow = "GET,HEAD";
            proof {
                reveal_strlit("GET,HEAD");
                assert(allow@ =~= allow_value());
            }
            res.allow = Some(String::from_str(allow));
            return Ok(ServeOutcome::Respond(res));
        }
        let trimmed = trim_slashes(req.uri.path.as_str());
        let path_decoded = match percent_decode_utf8(trimmed.as_str()) {
            Option::Some(p) => p,
            Option::None => {
                if self.has_fallback {
                    return Ok(ServeOutcome::Fallback);
                } else {
                    return Ok(ServeOutcome::Respond(not_found()));
                }
            },
        };
        let candidate = match &self.variant {
            ServeVariant::SingleFile { path, .. } => path.clone(),
            ServeVariant::Directory { .. } => trim_end_slashes(path_decoded.as_str()),
        };
        let range_header = crate::request::clone_opt_string(&req.range);
        let accept_encoding = match &req.accept_encoding {
            Option::Some(s) => Some(s),
            Option::None => None,
        };
        let policy = match self.precompressed_variants {
            Option::Some(p) => p,
            Option::None => PrecompressedVariants { gzip: false, deflate: false, br: false },
        };
        let negotiated_encodings = crate::content_encoding::encodings(accept_encoding, policy);
        let buf_chunk_size = self.buf_chunk_size;
        let outcome = crate::open_file::open_file(
            &mut self.filesystem,
            &self.variant,
            candidate,
            req,
            negotiated_encodings,
            range_header,
            buf_chunk_size,
        );
        match outcome {
            Result::Ok(crate::open_file::OpenFileOutput::FileOpened(file_output)) => Ok(
                ServeOutcome::Respond(build_response(*file_output)),
            ),
            Result::Ok(crate::open_file::OpenFileOutput::Redirect { location }) => {
                let mut res = response_with_status(307);
                res.location = Some(location);
                Ok(ServeOutcome::Respond(res))
            },
            Result::Ok(crate::open_file::OpenFileOutput::FileNotFound) => {
                if self.has_fallback {
                    Ok(ServeOutcome::Fallback)
                } else {
                    Ok(ServeOutcome::Respond(not_found()))
                }
            },
            Result::Ok(crate::open_file::OpenFileOutput::PreconditionFailed) => Ok(
                ServeOutcome::Respond(response_with_status(412)),
            ),
            Result::Ok(crate::open_file::OpenFileOutput::NotModified) => Ok(
                ServeOutcome::Respond(response_with_status(304)),
            ),
            Result::Err(err) => {
                if err == crate::fs::FsError::NotFound || err
                    == crate::fs::FsError::PermissionDenied {
                    if self.has_fallback {
                        Ok(ServeOutcome::Fallback)
                    } else {
                        Ok(ServeOutcome::Respond(not_found()))
                    }
                } else {
                    Err(err)
                }
            },
        }
    }
}

} // verus!
