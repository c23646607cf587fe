//! The open-file pipeline: resolve the candidate path, negotiate a
//! precompressed variant, evaluate the conditional headers, parse the
//! `Range` header, and hand back a tagged outcome.

use vstd::prelude::*;
use vstd::string::StringExecFns;

use crate::content_encoding::{Encoding, QValue};
use crate::fs::{FileExt, FileModel, Filesystem, FsError, Metadata, SeekFrom};
use crate::headers::{
    http_date_of_chars, IfModifiedSince, IfUnmodifiedSince, LastModified, MAX_HTTP_DATE_SECS,
};
use crate::request::{opt_chars, HttpMethod, HttpRequest, Uri};
use crate::serve_dir::ServeVariant;
use crate::strutil::count_char;

verus! {

/// The ranges of a `Range` header cannot be satisfied, or the header could
/// not be understood.
#[derive(Clone, Copy, Debug, PartialEq, Eq, Structural)]
pub struct RangeUnsatisfiable;

/// What the pipeline hands back.
pub enum OpenFileOutput<F> {
    FileOpened(Box<FileOpened<F>>),
    Redirect { location: String },
    FileNotFound,
    PreconditionFailed,
    NotModified,
}

/// The portion of the request that needs file bytes: the whole file for
/// `GET`, the metadata alone for `HEAD`.
pub enum FileRequestExtent<F> {
    Full(F, Metadata),
    Head(Metadata),
}

/// Everything the response builder needs about an opened file.
pub struct FileOpened<F> {
    pub extent: FileRequestExtent<F>,
    pub chunk_size: usize,
    pub mime_header_value: String,
    pub maybe_encoding: Option<Encoding>,
    pub maybe_range: Option<Result<Vec<(u64, u64)>, RangeUnsatisfiable>>,
    pub last_modified: Option<LastModified>,
}

/// What `mime_guess` answers for a path; the guess depends on the path's
/// characters alone.
pub uninterp spec fn mime_guess_of(path: Seq<char>) -> Option<Seq<char>>;

/// Relies on `mime_guess::from_path(..).first_raw()`: a pure table lookup by
/// the path's extension, so the result is a function of the path alone.
#[verifier::external_body]
fn guess_mime(path: &String) -> (r: Option<String>)
    ensures
        r matches Some(s) ==> mime_guess_of(path@) == Some(s@),
        r is None <==> mime_guess_of(path@) is None,
{
    mime_guess::from_path(path.as_str()).first_raw().map(|s| s.to_string())
}

/// The fallback MIME value when no guess exists.
pub open spec fn octet_stream_chars() -> Seq<char> {
    seq![
        'a',
        'p',
        'p',
        'l',
        'i',
        'c',
        'a',
        't',
        'i',
        'o',
        'n',
        '/',
        'o',
        'c',
        't',
        'e',
        't',
        '-',
        's',
        't',
        'r',
        'e',
        'a',
        'm',
    ]
}

/// The `Content-Type` value served for `path`: the guess by extension, or
/// `application/octet-stream`.
pub open spec fn mime_value_of(path: Seq<char>) -> Seq<char> {
    match mime_guess_of(path) {
        Option::Some(s) => s,
        Option::None => octet_stream_chars(),
    }
}

/// Guess the `Content-Type` from the path's extension.
pub(crate) fn mime_for_path(path: &String) -> (r: String)
    ensures
        r@ == mime_value_of(path@),
{
    match guess_mime(path) {
        Option::Some(s) => s,
        Option::None => {
            let s = "application/octet-stream";
            proof {
                reveal_strlit("application/octet-stream");
                assert(s@ =~= octet_stream_chars());
            }
            String::from_str(s)
        },
    }
}

/// What the external range parser answers for a header value and a file
/// length; the answer depends on the two alone.
pub uninterp spec fn range_parse(header: Seq<char>, len: int) -> Result<Seq<(u64, u64)>, ()>;

/// The canonical single-range header naming the inclusive interval `s..=e`.
pub open spec fn single_range_header(s: u64, e: u64) -> Seq<char> {
    seq!['b', 'y', 't', 'e', 's', '='] + crate::strutil::dec_chars(s as int) + seq!['-']
        + crate::strutil::dec_chars(e as int)
}

/// Relies on `http_range_header::parse_range_header` and
/// `ParsedRanges::validate`: the parse is strict, keeps one entry per
/// comma-separated element, validates every entry to lie inside
/// `0..file_size`, and accepts the canonical `bytes=S-E` form as exactly
/// that interval.
#[verifier::external_body]
fn parse_range_header_validated(header: &String, file_size: u64) -> (r: Result<
    Vec<(u64, u64)>,
    RangeUnsatisfiable,
>)
    requires
        file_size >= 1,
    ensures
        r matches Ok(v) ==> {
            &&& range_parse(header@, file_size as int) == Ok::<Seq<(u64, u64)>, ()>(v@)
            &&& v@.len() >= 1
            &&& v@.len() == count_char(header@, ',') + 1
            &&& forall|i: int| 0 <= i < v@.len() ==> (#[trigger] v@[i]).0 <= v@[i].1 < file_size
        },
        r is Err <==> range_parse(header@, file_size as int) is Err,
        r is Err ==> (range_parse(header@, file_size as int) == Err::<Seq<(u64, u64)>, ()>(())),
        (exists|s: u64, e: u64| s <= e < file_size && header@ == single_range_header(s, e))
            ==> r is Ok,
        r matches Ok(v) ==> (forall|s: u64, e: u64|
            s <= e < file_size && header@ == single_range_header(s, e) ==> v@ =~= seq![(s, e)]),
{
    match http_range_header::parse_range_header(header.as_str()).and_then(
        |first_pass| first_pass.validate(file_size),
    ) {
        Ok(ranges) => Ok(ranges.into_iter().map(|r| (*r.start(), *r.end())).collect()),
        Err(_) => Err(RangeUnsatisfiable),
    }
}

/// What parsing the optional `Range` header against a file length yields.
/// An empty file satisfies no byte range, so any header over it is
/// unsatisfiable without asking the parser; the canonical single-range form
/// `bytes=S-E` with `S <= E < L` always comes out as its one interval.
pub open spec fn try_parse_range_spec(header: Option<Seq<char>>, file_size: int) -> Option<
    Result<Seq<(u64, u64)>, ()>,
> {
    match header {
        Option::None => None,
        Option::Some(h) => if file_size == 0 {
            Some(Err(()))
        } else if exists|s: u64, e: u64| s <= e < file_size && h == single_range_header(s, e) {
            let (s0, e0) = choose|s: u64, e: u64|
                s <= e < file_size && h == single_range_header(s, e);
            Some(Ok(seq![(s0, e0)]))
        } else {
            Some(range_parse(h, file_size))
        },
    }
}

/// Parse the `Range` header, if one came, against the file length.
fn try_parse_range(maybe_range_ref: Option<&String>, file_size: u64) -> (r: Option<
    Result<Vec<(u64, u64)>, RangeUnsatisfiable>,
>)
    ensures
        ({
            let spec_r = try_parse_range_spec(
                match maybe_range_ref {
                    Option::Some(h) => Some(h@),
                    Option::None => None,
                },
                file_size as int,
            );
            &&& r is None <==> spec_r is None
            &&& r matches Some(Ok(v)) ==> spec_r == Some(Ok::<Seq<(u64, u64)>, ()>(v@))
            &&& r matches Some(Err(_)) ==> spec_r == Some(Err::<Seq<(u64, u64)>, ()>(()))
            &&& r matches Some(Ok(v)) ==> {
                &&& v@.len() >= 1
                &&& maybe_range_ref matches Some(h) && v@.len() == count_char(h@, ',') + 1
                &&& forall|i: int| 0 <= i < v@.len() ==> (#[trigger] v@[i]).0 <= v@[i].1
                    < file_size
            }
            &&& (maybe_range_ref matches Some(h) && (exists|s: u64, e: u64|
                s <= e < file_size && h@ == single_range_header(s, e))) ==> (r matches Some(rs)
                && rs is Ok)
            &&& r matches Some(Ok(v)) ==> (maybe_range_ref matches Some(h) && (forall|
                s: u64,
                e: u64,
            |
                s <= e < file_size && h@ == single_range_header(s, e) ==> v@ =~= seq![(s, e)]))
        }),
{
    match maybe_range_ref {
        Option::Some(h) => {
            if file_size == 0 {
                Some(Err(RangeUnsatisfiable))
            } else {
                let parsed = parse_range_header_validated(h, file_size);
                proof {
                    if exists|s: u64, e: u64|
                        s <= e < file_size && h@ == single_range_header(s, e) {
                        let (s0, e0) = choose|s: u64, e: u64|
                            s <= e < file_size && h@ == single_range_header(s, e);
                        assert(parsed is Ok);
                        if let Result::Ok(ref v) = parsed {
                            assert(v@ =~= seq![(s0, e0)]);
                        }
                    }
                }
                Some(parsed)
            }
        },
        Option::None => None,
    }
}

/// The file-name suffix an encoding choice appends to the base path.
pub open spec fn extension_suffix(e: Option<Encoding>) -> Seq<char> {
    match e {
        Option::Some(enc) => match enc.extension() {
            Option::Some(x) => x,
            Option::None => Seq::empty(),
        },
        Option::None => Seq::empty(),
    }
}

/// Returns the preferred encoding and appends the corresponding file
/// extension to the path.
pub fn preferred_encoding(path: &mut String, negotiated_encoding: &Vec<(Encoding, QValue)>) -> (r:
    Option<Encoding>)
    ensures
        r == Encoding::preferred_of(negotiated_encoding@),
        final(path)@ == old(path)@ + extension_suffix(r),
{
    let preferred = Encoding::preferred_encoding(negotiated_encoding);
    match preferred {
        Option::Some(enc) => {
            match enc.to_file_extension() {
                Option::Some(ext) => {
                    path.append(ext);
                },
                Option::None => {
                    proof {
                        assert(old(path)@ + extension_suffix(preferred) =~= old(path)@);
                    }
                },
            }
        },
        Option::None => {
            proof {
                assert(old(path)@ + extension_suffix(preferred) =~= old(path)@);
            }
        },
    }
    preferred
}

/// The negotiated list with every entry for `enc` removed.
pub open spec fn remove_encoding(neg: Seq<(Encoding, QValue)>, enc: Encoding) -> Seq<
    (Encoding, QValue),
>
    decreases neg.len(),
{
    if neg.len() == 0 {
        neg
    } else if neg.first().0 == enc {
        remove_encoding(neg.drop_first(), enc)
    } else {
        seq![neg.first()] + remove_encoding(neg.drop_first(), enc)
    }
}

/// Removing never lengthens the list, and removing a present encoding
/// shortens it.
pub proof fn lemma_remove_encoding_len(neg: Seq<(Encoding, QValue)>, enc: Encoding)
    ensures
        remove_encoding(neg, enc).len() <= neg.len(),
        (exists|i: int| 0 <= i < neg.len() && (#[trigger] neg[i]).0 == enc) ==> remove_encoding(
            neg,
            enc,
        ).len() < neg.len(),
    decreases neg.len(),
{
    if neg.len() > 0 {
        lemma_remove_encoding_len(neg.drop_first(), enc);
        if neg.first().0 != enc {
            if exists|i: int| 0 <= i < neg.len() && (#[trigger] neg[i]).0 == enc {
                let w = choose|i: int| 0 <= i < neg.len() && (#[trigger] neg[i]).0 == enc;
                assert(neg.drop_first()[w - 1].0 == enc);
            }
        }
    }
}

/// The preferred encoding is drawn from the list.
pub proof fn lemma_preferred_in(neg: Seq<(Encoding, QValue)>)
    ensures
        Encoding::preferred_of(neg) matches Some(e) ==> exists|i: int|
            0 <= i < neg.len() && (#[trigger] neg[i]).0 == e,
    decreases neg.len(),
{
    if neg.len() > 0 {
        lemma_preferred_in(neg.drop_last());
        if let Option::Some(e) = Encoding::preferred_of(neg) {
            if Encoding::preferred_of(neg) == Encoding::preferred_of(neg.drop_last()) {
                if exists|i: int| 0 <= i < neg.drop_last().len() && (#[trigger] neg.drop_last()[i]).0
                    == e {
                    let w = choose|i: int|
                        0 <= i < neg.drop_last().len() && (#[trigger] neg.drop_last()[i]).0 == e;
                    assert(neg[w].0 == e);
                }
            } else {
                assert(neg.last().0 == e);
            }
        }
    }
}

/// Remove every entry for `enc`, executably.
fn remove_encoding_x(neg: &Vec<(Encoding, QValue)>, enc: Encoding) -> (r: Vec<(Encoding, QValue)>)
    ensures
        r@ == remove_encoding(neg@, enc),
{
    let mut out: Vec<(Encoding, QValue)> = Vec::new();
    let mut i: usize = 0;
    proof {
        assert(neg@.skip(0) =~= neg@);
    }
    while i < neg.len()
        invariant
            i <= neg@.len(),
            remove_encoding(neg@, enc) == out@ + remove_encoding(neg@.skip(i as int), enc),
        decreases neg@.len() - i,
    {
        let e = neg[i];
        proof {
            assert(neg@.skip(i as int).drop_first() =~= neg@.skip(i + 1));
            assert(neg@.skip(i as int).first() == e);
        }
        if !(e.0 == enc) {
            out.push(e);
            proof {
                assert(out@ + remove_encoding(neg@.skip(i + 1), enc) =~= out@.drop_last() + (seq![
                    e,
                ] + remove_encoding(neg@.skip(i + 1), enc)));
            }
        }
        i = i + 1;
    }
    proof {
        assert(neg@.skip(neg@.len() as int) =~= Seq::<(Encoding, QValue)>::empty());
        assert(out@ + remove_encoding(neg@.skip(neg@.len() as int), enc) =~= out@);
    }
    out
}

/// Which file the encoding-fallback loop settles on: try the preferred
/// encoding's sibling, drop the encoding when that file is absent, and fall
/// back to the plain path once no candidate encoding is left.
pub open spec fn selection(
    files: Map<Seq<char>, FileModel>,
    base: Seq<char>,
    neg: Seq<(Encoding, QValue)>,
) -> Option<(Seq<char>, Option<Encoding>)>
    decreases neg.len(),
    via selection_decreases
{
    let pref = Encoding::preferred_of(neg);
    let candidate = base + extension_suffix(pref);
    if files.contains_key(candidate) {
        Some((candidate, pref))
    } else {
        match pref {
            Option::None => None,
            Option::Some(e) => selection(files, base, remove_encoding(neg, e)),
        }
    }
}

#[via_fn]
proof fn selection_decreases(
    files: Map<Seq<char>, FileModel>,
    base: Seq<char>,
    neg: Seq<(Encoding, QValue)>,
) {
    lemma_preferred_in(neg);
    if let Option::Some(e) = Encoding::preferred_of(neg) {
        lemma_remove_encoding_len(neg, e);
    }
}

/// Open the file, trying the negotiated precompressed siblings in preferred
/// order and falling back to the uncompressed file.
fn open_file_with_fallback<FS: Filesystem>(
    filesystem: &mut FS,
    path: &String,
    negotiated_encoding: Vec<(Encoding, QValue)>,
) -> (r: Result<(FS::File, Option<Encoding>), FsError>)
    ensures
        final(filesystem).files() == old(filesystem).files(),
        final(filesystem).dirs() == old(filesystem).dirs(),
        final(filesystem).total() == old(filesystem).total(),
        r matches Ok((f, enc)) ==> {
            &&& old(filesystem).files().contains_key(path@ + extension_suffix(enc))
            &&& f.contents() == old(filesystem).files()[path@ + extension_suffix(enc)].contents
            &&& f.modified() == old(filesystem).files()[path@ + extension_suffix(enc)].modified
            &&& f.pos() == 0
        },
        old(filesystem).total() ==> (match selection(
            old(filesystem).files(),
            path@,
            negotiated_encoding@,
        ) {
            Option::Some((cand, enc)) => r matches Ok((f, e)) && e == enc && f.contents() == old(
                filesystem,
            ).files()[cand].contents && f.modified() == old(filesystem).files()[cand].modified
                && f.pos() == 0 && f.infallible(),
            Option::None => r == Err::<(FS::File, Option<Encoding>), FsError>(FsError::NotFound),
        }),
{
    let ghost files0 = old(filesystem).files();
    let ghost neg0 = negotiated_encoding@;
    let mut negotiated_encoding = negotiated_encoding;
    #[verifier::loop_isolation(false)]
    loop
        invariant
            filesystem.files() == files0,
            filesystem.dirs() == old(filesystem).dirs(),
            filesystem.total() == old(filesystem).total(),
            old(filesystem).total() ==> selection(files0, path@, negotiated_encoding@) == selection(
                files0,
                path@,
                neg0,
            ),
        decreases negotiated_encoding@.len(),
    {
        let mut candidate = path.clone();
        let encoding = preferred_encoding(&mut candidate, &negotiated_encoding);
        let ghost neg_now = negotiated_encoding@;
        let opened = filesystem.open(&candidate);
        match opened {
            Ok(file) => {
                return Ok((file, encoding));
            },
            Err(err) => {
                match encoding {
                    Option::Some(enc) => {
                        if err == FsError::NotFound {
                            proof {
                                lemma_preferred_in(neg_now);
                                lemma_remove_encoding_len(neg_now, enc);
                            }
                            negotiated_encoding = remove_encoding_x(&negotiated_encoding, enc);
                        } else {
                            return Err(err);
                        }
                    },
                    Option::None => {
                        return Err(err);
                    },
                }
            },
        }
    }
}

/// Fetch the metadata, trying the negotiated precompressed siblings in
/// preferred order and falling back to the uncompressed file.
fn file_metadata_with_fallback<FS: Filesystem>(
    filesystem: &FS,
    path: &String,
    negotiated_encoding: Vec<(Encoding, QValue)>,
) -> (r: Result<(Metadata, Option<Encoding>), FsError>)
    ensures
        filesystem.total() ==> (match selection(
            filesystem.files(),
            path@,
            negotiated_encoding@,
        ) {
            Option::Some((cand, enc)) => r matches Ok((m, e)) && e == enc && m.len
                == filesystem.files()[cand].contents.len() && m.modified
                == filesystem.files()[cand].modified,
            Option::None => r == Err::<(Metadata, Option<Encoding>), FsError>(FsError::NotFound),
        }),
{
    let ghost files0 = filesystem.files();
    let ghost neg0 = negotiated_encoding@;
    let mut negotiated_encoding = negotiated_encoding;
    #[verifier::loop_isolation(false)]
    loop
        invariant
            filesystem.total() ==> selection(files0, path@, negotiated_encoding@) == selection(
                files0,
                path@,
                neg0,
            ),
        decreases negotiated_encoding@.len(),
    {
        let mut candidate = path.clone();
        let encoding = preferred_encoding(&mut candidate, &negotiated_encoding);
        let ghost neg_now = negotiated_encoding@;
        let got = filesystem.metadata(&candidate);
        match got {
            Ok(meta) => {
                return Ok((meta, encoding));
            },
            Err(err) => {
                match encoding {
                    Option::Some(enc) => {
                        if err == FsError::NotFound {
                            proof {
                                lemma_preferred_in(neg_now);
                                lemma_remove_encoding_len(neg_now, enc);
                            }
                            negotiated_encoding = remove_encoding_x(&negotiated_encoding, enc);
                        } else {
                            return Err(err);
                        }
                    },
                    Option::None => {
                        return Err(err);
                    },
                }
            },
        }
    }
}

/// How the conditional headers come out.
#[derive(PartialEq, Eq, Structural)]
pub enum CondResult {
    Pass,
    PreconditionFailed,
    NotModified,
}

/// The modification time the conditional headers are held against: absent
/// when unknown or past the last representable HTTP date.
pub open spec fn lm_model(modified: Option<u64>) -> Option<u64> {
    match modified {
        Option::Some(t) => if t < MAX_HTTP_DATE_SECS {
            Some(t)
        } else {
            None
        },
        Option::None => None,
    }
}

/// The threshold a conditional header value carries, if it parses.
pub open spec fn header_date_secs(h: Option<Seq<char>>) -> Option<u64> {
    match h {
        Option::Some(v) => match http_date_of_chars(v) {
            Option::Some(t) => Some(t as u64),
            Option::None => None,
        },
        Option::None => None,
    }
}

/// What the conditional headers decide. `If-Unmodified-Since` fails unless
/// the file is known to be unmodified since the threshold; afterwards
/// `If-Modified-Since` answers not-modified when the file is known to be at
/// most as new as its threshold.
pub open spec fn cond_decision(
    modified: Option<u64>,
    if_unmodified_since: Option<u64>,
    if_modified_since: Option<u64>,
) -> CondResult {
    if if_unmodified_since matches Some(s) && !(modified matches Some(t) && t <= s) {
        CondResult::PreconditionFailed
    } else if if_modified_since matches Some(s) && modified matches Some(t) && t <= s {
        CondResult::NotModified
    } else {
        CondResult::Pass
    }
}

/// The view of an optional parsed threshold.
pub open spec fn ius_secs(x: Option<IfUnmodifiedSince>) -> Option<u64> {
    match x {
        Option::Some(v) => Some(v.sec()),
        Option::None => None,
    }
}

/// The view of an optional parsed threshold.
pub open spec fn ims_secs(x: Option<IfModifiedSince>) -> Option<u64> {
    match x {
        Option::Some(v) => Some(v.sec()),
        Option::None => None,
    }
}

/// The view of an optional modification time.
pub open spec fn lm_secs(x: Option<LastModified>) -> Option<u64> {
    match x {
        Option::Some(v) => Some(v.sec()),
        Option::None => None,
    }
}

/// Evaluate the conditional headers against the file's modification time.
fn check_modified_headers<F>(
    modified: Option<&LastModified>,
    if_unmodified_since: Option<IfUnmodifiedSince>,
    if_modified_since: Option<IfModifiedSince>,
) -> (r: Option<OpenFileOutput<F>>)
    ensures
        ({
            let c = cond_decision(
                match modified {
                    Option::Some(l) => Some(l.sec()),
                    Option::None => None,
                },
                ius_secs(if_unmodified_since),
                ims_secs(if_modified_since),
            );
            &&& r is None <==> c == CondResult::Pass
            &&& r matches Some(o) ==> (o is PreconditionFailed <==> c
                == CondResult::PreconditionFailed)
            &&& r matches Some(o) ==> (o is NotModified <==> c == CondResult::NotModified)
            &&& r matches Some(o) ==> (o is PreconditionFailed || o is NotModified)
        }),
{
    if let Option::Some(since) = if_unmodified_since {
        let precondition = match modified {
            Option::Some(time) => since.precondition_passes(time),
            Option::None => false,
        };
        if !precondition {
            return Some(OpenFileOutput::PreconditionFailed);
        }
    }
    if let Option::Some(since) = if_modified_since {
        let unmodified = match modified {
            Option::Some(time) => !since.is_modified(time),
            Option::None => false,
        };
        if unmodified {
            return Some(OpenFileOutput::NotModified);
        }
    }
    None
}

/// Whether the path component of the request URI ends with a slash.
pub open spec fn ends_with_slash(p: Seq<char>) -> bool {
    p.len() > 0 && p[p.len() - 1] == '/'
}

/// The piece appended to a directory path when index files are served.
pub open spec fn index_html_suffix() -> Seq<char> {
    seq!['/', 'i', 'n', 'd', 'e', 'x', '.', 'h', 't', 'm', 'l']
}

/// What the directory step decides.
pub enum DirStep {
    Proceed(Seq<char>),
    RedirectTo(Seq<char>),
    Miss,
}

/// The directory handling of the pipeline: redirect a directory request
/// without a trailing slash, serve `index.html` under one with it, and pass
/// plain file paths through.
pub open spec fn dir_step(
    dirs: Set<Seq<char>>,
    path0: Seq<char>,
    scheme: Option<Seq<char>>,
    authority: Option<Seq<char>>,
    uri_path: Seq<char>,
    query: Option<Seq<char>>,
    append_index_html: bool,
) -> DirStep {
    if !ends_with_slash(uri_path) {
        if dirs.contains(path0) {
            DirStep::RedirectTo(
                crate::request::uri_chars(scheme, authority, uri_path + seq!['/'], query),
            )
        } else {
            DirStep::Proceed(path0)
        }
    } else if dirs.contains(path0) {
        if append_index_html {
            DirStep::Proceed(path0 + index_html_suffix())
        } else {
            DirStep::Miss
        }
    } else {
        DirStep::Proceed(path0)
    }
}

/// Redirect a directory request without a trailing slash, append
/// `index.html` under one with it, or let the path pass.
fn maybe_redirect_or_append_path<FS: Filesystem>(
    filesystem: &FS,
    path_to_file: &mut String,
    uri: &Uri,
    append_index_html_on_directories: bool,
) -> (r: Option<OpenFileOutput<FS::File>>)
    ensures
        ({
            let step = dir_step(
                filesystem.dirs(),
                old(path_to_file)@,
                opt_chars(&uri.scheme),
                opt_chars(&uri.authority),
                uri.path@,
                opt_chars(&uri.query),
                append_index_html_on_directories,
            );
            filesystem.total() ==> match step {
                DirStep::Proceed(p) => r is None && final(path_to_file)@ == p,
                DirStep::RedirectTo(loc) => r matches Some(o) && o matches
                    OpenFileOutput::Redirect { location } && location@ == loc,
                DirStep::Miss => r matches Some(o) && o is FileNotFound,
            }
        }),
        r is None ==> final(path_to_file)@ == old(path_to_file)@ || final(path_to_file)@ == old(
            path_to_file,
        )@ + index_html_suffix(),
        r is Some ==> final(path_to_file)@ == old(path_to_file)@,
        r matches Some(o) ==> (o matches OpenFileOutput::Redirect { location } && location@
            == crate::request::uri_chars(
            opt_chars(&uri.scheme),
            opt_chars(&uri.authority),
            uri.path@ + seq!['/'],
            opt_chars(&uri.query),
        )) || o is FileNotFound,
{
    let n = uri.path.as_str().unicode_len();
    let uri_ends_slash = n > 0 && uri.path.as_str().get_char(n - 1) == '/';
    let is_dir = match filesystem.is_dir(path_to_file) {
        Ok(b) => b,
        Err(_) => false,
    };
    if !uri_ends_slash {
        if is_dir {
            let location = crate::request::append_slash_on_path(
                crate::request::clone_uri(uri),
            ).to_uri_string();
            Some(OpenFileOutput::Redirect { location })
        } else {
            None
        }
    } else if is_dir {
        if append_index_html_on_directories {
            let suffix = "/index.html";
            proof {
                reveal_strlit("/index.html");
                assert(suffix@ =~= index_html_suffix());
            }
            path_to_file.append(suffix);
            None
        } else {
            Some(OpenFileOutput::FileNotFound)
        }
    } else {
        None
    }
}

/// The model of an opened file: what the response builder will see.
pub struct OpenedModel {
    pub head: bool,
    pub contents: Seq<u8>,
    pub meta_len: int,
    pub meta_modified: Option<u64>,
    pub pos: int,
    pub chunk_size: usize,
    pub mime: Seq<char>,
    pub encoding: Option<Encoding>,
    pub range: Option<Result<Seq<(u64, u64)>, ()>>,
    pub last_modified: Option<u64>,
}

/// The model of the pipeline's outcome.
pub enum OutcomeModel {
    Opened(OpenedModel),
    Redirect(Seq<char>),
    NotFound,
    PreconditionFailed,
    NotModified,
    Failed(FsError),
}

/// The view of a range-parse result.
pub open spec fn range_view(
    r: Option<Result<Vec<(u64, u64)>, RangeUnsatisfiable>>,
) -> Option<Result<Seq<(u64, u64)>, ()>> {
    match r {
        Option::None => None,
        Option::Some(Result::Ok(v)) => Some(Ok(v@)),
        Option::Some(Result::Err(_)) => Some(Err(())),
    }
}

/// The view of a [`FileOpened`].
pub open spec fn opened_view<F: FileExt>(x: FileOpened<F>) -> OpenedModel {
    match x.extent {
        FileRequestExtent::Full(f, meta) => OpenedModel {
            head: false,
            contents: f.contents(),
            meta_len: meta.len as int,
            meta_modified: meta.modified,
            pos: f.pos(),
            chunk_size: x.chunk_size,
            mime: x.mime_header_value@,
            encoding: x.maybe_encoding,
            range: range_view(x.maybe_range),
            last_modified: lm_secs(x.last_modified),
        },
        FileRequestExtent::Head(meta) => OpenedModel {
            head: true,
            contents: Seq::empty(),
            meta_len: meta.len as int,
            meta_modified: meta.modified,
            pos: 0,
            chunk_size: x.chunk_size,
            mime: x.mime_header_value@,
            encoding: x.maybe_encoding,
            range: range_view(x.maybe_range),
            last_modified: lm_secs(x.last_modified),
        },
    }
}

/// The view of the pipeline's exec outcome.
pub open spec fn outcome_view<F: FileExt>(r: Result<OpenFileOutput<F>, FsError>) -> OutcomeModel {
    match r {
        Result::Err(e) => OutcomeModel::Failed(e),
        Result::Ok(o) => match o {
            OpenFileOutput::FileOpened(x) => OutcomeModel::Opened(opened_view(*x)),
            OpenFileOutput::Redirect { location } => OutcomeModel::Redirect(location@),
            OpenFileOutput::FileNotFound => OutcomeModel::NotFound,
            OpenFileOutput::PreconditionFailed => OutcomeModel::PreconditionFailed,
            OpenFileOutput::NotModified => OutcomeModel::NotModified,
        },
    }
}

/// The pipeline past the directory step: select a file under the content
/// negotiation, evaluate the conditional headers, parse the range header,
/// and describe the opened file.
pub open spec fn proceed_model(
    files: Map<Seq<char>, FileModel>,
    head: bool,
    path: Seq<char>,
    mime: Seq<char>,
    neg: Seq<(Encoding, QValue)>,
    range_h: Option<Seq<char>>,
    chunk: usize,
    ius_h: Option<Seq<char>>,
    ims_h: Option<Seq<char>>,
) -> OutcomeModel {
    match selection(files, path, neg) {
        Option::None => OutcomeModel::Failed(FsError::NotFound),
        Option::Some((cand, enc)) => {
            let fm = files[cand];
            let lm = lm_model(fm.modified);
            match cond_decision(lm, header_date_secs(ius_h), header_date_secs(ims_h)) {
                CondResult::PreconditionFailed => OutcomeModel::PreconditionFailed,
                CondResult::NotModified => OutcomeModel::NotModified,
                CondResult::Pass => {
                    let len = fm.contents.len() as int;
                    let range = try_parse_range_spec(range_h, len);
                    let pos: int = if !head && (range matches Some(Ok(v)) && v.len() == 1) {
                        range->Some_0->Ok_0[0].0 as int
                    } else {
                        0
                    };
                    OutcomeModel::Opened(
                        OpenedModel {
                            head,
                            contents: if head {
                                Seq::empty()
                            } else {
                                fm.contents
                            },
                            meta_len: len,
                            meta_modified: fm.modified,
                            pos,
                            chunk_size: chunk,
                            mime,
                            encoding: enc,
                            range,
                            last_modified: lm,
                        },
                    )
                },
            }
        },
    }
}

/// The whole pipeline, §-by-§: directory handling and MIME, selection,
/// conditionals, range parsing.
pub open spec fn open_file_model(
    files: Map<Seq<char>, FileModel>,
    dirs: Set<Seq<char>>,
    variant: crate::serve_dir::VariantModel,
    path0: Seq<char>,
    req: HttpRequest,
    neg: Seq<(Encoding, QValue)>,
    range_h: Option<Seq<char>>,
    chunk: usize,
) -> OutcomeModel {
    let head = req.method is Head;
    let ius_h = opt_chars(&req.if_unmodified_since);
    let ims_h = opt_chars(&req.if_modified_since);
    match variant {
        crate::serve_dir::VariantModel::SingleFile { mime, .. } => proceed_model(
            files,
            head,
            path0,
            mime,
            neg,
            range_h,
            chunk,
            ius_h,
            ims_h,
        ),
        crate::serve_dir::VariantModel::Directory { append_index_html } => match dir_step(
            dirs,
            path0,
            opt_chars(&req.uri.scheme),
            opt_chars(&req.uri.authority),
            req.uri.path@,
            opt_chars(&req.uri.query),
            append_index_html,
        ) {
            DirStep::RedirectTo(loc) => OutcomeModel::Redirect(loc),
            DirStep::Miss => OutcomeModel::NotFound,
            DirStep::Proceed(p) => proceed_model(
                files,
                head,
                p,
                mime_value_of(p),
                neg,
                range_h,
                chunk,
                ius_h,
                ims_h,
            ),
        },
    }
}

/// What always holds of a `FileOpened` this pipeline hands back, whatever
/// the backend did.
pub open spec fn opened_wf<F: FileExt>(
    x: FileOpened<F>,
    range_h: Option<Seq<char>>,
    chunk: usize,
) -> bool {
    let m = opened_view(x);
    &&& m.chunk_size == chunk
    &&& (x.extent matches FileRequestExtent::Full(f, meta) ==> meta.len == f.contents().len()
        && meta.modified == f.modified())
    &&& m.range == try_parse_range_spec(range_h, m.meta_len)
    &&& (m.range matches Some(Ok(v)) ==> {
        &&& v.len() >= 1
        &&& (range_h matches Some(h) && v.len() == count_char(h, ',') + 1)
        &&& forall|i: int| 0 <= i < v.len() ==> (#[trigger] v[i]).0 <= v[i].1 < m.meta_len
    })
    &&& m.pos == (if !m.head && (m.range matches Some(Ok(v)) && v.len() == 1) {
        m.range->Some_0->Ok_0[0].0 as int
    } else {
        0
    })
    &&& m.last_modified == lm_model(m.meta_modified)
}

/// Resolve, negotiate, check conditions, parse ranges, seek: the whole
/// open-file pipeline.
pub fn open_file<FS: Filesystem>(
    filesystem: &mut FS,
    variant: &ServeVariant,
    path_to_file: String,
    req: &HttpRequest,
    negotiated_encodings: Vec<(Encoding, QValue)>,
    range_header: Option<String>,
    buf_chunk_size: usize,
) -> (r: Result<OpenFileOutput<FS::File>, FsError>)
    ensures
        final(filesystem).files() == old(filesystem).files(),
        final(filesystem).dirs() == old(filesystem).dirs(),
        final(filesystem).total() == old(filesystem).total(),
        old(filesystem).total() ==> outcome_view(r) == open_file_model(
            old(filesystem).files(),
            old(filesystem).dirs(),
            variant.model(),
            path_to_file@,
            *req,
            negotiated_encodings@,
            opt_chars(&range_header),
            buf_chunk_size,
        ),
        r matches Ok(o) ==> (o matches OpenFileOutput::FileOpened(x) ==> opened_wf(
            *x,
            opt_chars(&range_header),
            buf_chunk_size,
        )),
        r matches Ok(o) ==> (o matches OpenFileOutput::FileOpened(x) ==> (x.extent matches
            FileRequestExtent::Full(f, meta) ==> (exists|p: Seq<char>|
            {
                &&& (p == path_to_file@ || p == path_to_file@ + index_html_suffix())
                &&& old(filesystem).files().contains_key(
                    #[trigger] (p + extension_suffix(x.maybe_encoding)),
                )
                &&& f.contents() == old(filesystem).files()[p + extension_suffix(
                    x.maybe_encoding,
                )].contents
            }))),
{
    let if_unmodified_since = match &req.if_unmodified_since {
        Option::Some(v) => IfUnmodifiedSince::from_header_value(v.as_str()),
        Option::None => None,
    };
    let if_modified_since = match &req.if_modified_since {
        Option::Some(v) => IfModifiedSince::from_header_value(v.as_str()),
        Option::None => None,
    };
    let mut path_to_file = path_to_file;
    let mime = match variant {
        ServeVariant::Directory { append_index_html_on_directories } => {
            let early = maybe_redirect_or_append_path(
                filesystem,
                &mut path_to_file,
                &req.uri,
                *append_index_html_on_directories,
            );
            match early {
                Option::Some(output) => {
                    return Ok(output);
                },
                Option::None => {},
            }
            mime_for_path(&path_to_file)
        },
        ServeVariant::SingleFile { mime, .. } => mime.clone(),
    };
    if req.method == HttpMethod::Head {
        let got = file_metadata_with_fallback(filesystem, &path_to_file, negotiated_encodings);
        let (meta, maybe_encoding) = match got {
            Ok(p) => p,
            Err(e) => {
                return Err(e);
            },
        };
        let last_modified = match meta.modified {
            Option::Some(t) => LastModified::from_unix(t),
            Option::None => None,
        };
        let lm_ref = match &last_modified {
            Option::Some(l) => Some(l),
            Option::None => None,
        };
        let early = check_modified_headers(lm_ref, if_unmodified_since, if_modified_since);
        match early {
            Option::Some(output) => {
                return Ok(output);
            },
            Option::None => {},
        }
        let range_ref = match &range_header {
            Option::Some(h) => Some(h),
            Option::None => None,
        };
        let maybe_range = try_parse_range(range_ref, meta.len);
        Ok(
            OpenFileOutput::FileOpened(
                Box::new(
                    FileOpened {
                        extent: FileRequestExtent::Head(meta),
                        chunk_size: buf_chunk_size,
                        mime_header_value: mime,
                        maybe_encoding,
                        maybe_range,
                        last_modified,
                    },
                ),
            ),
        )
    } else {
        let got = open_file_with_fallback(filesystem, &path_to_file, negotiated_encodings);
        let (mut file, maybe_encoding) = match got {
            Ok(p) => p,
            Err(e) => {
                return Err(e);
            },
        };
        let meta = match file.metadata() {
            Ok(m) => m,
            Err(e) => {
                return Err(e);
            },
        };
        let last_modified = match meta.modified {
            Option::Some(t) => LastModified::from_unix(t),
            Option::None => None,
        };
        let lm_ref = match &last_modified {
            Option::Some(l) => Some(l),
            Option::None => None,
        };
        let early = check_modified_headers(lm_ref, if_unmodified_since, if_modified_since);
        match early {
            Option::Some(output) => {
                return Ok(output);
            },
            Option::None => {},
        }
        let range_ref = match &range_header {
            Option::Some(h) => Some(h),
            Option::None => None,
        };
        let maybe_range = try_parse_range(range_ref, meta.len);
        if let Option::Some(Result::Ok(ranges)) = &maybe_range {
            // Multipart ranges are answered with an unsatisfiable status
            // later; only a single range needs the file positioned.
            if ranges.len() == 1 {
                let start = ranges[0].0;
                match file.seek(SeekFrom::Start(start)) {
                    Ok(_) => {},
                    Err(e) => {
                        return Err(e);
                    },
                }
            }
        }
        Ok(
            OpenFileOutput::FileOpened(
                Box::new(
                    FileOpened {
                        extent: FileRequestExtent::Full(file, meta),
                        chunk_size: buf_chunk_size,
                        mime_header_value: mime,
                        maybe_encoding,
                        maybe_range,
                        last_modified,
                    },
                ),
            ),
        )
    }
}

} // verus!
