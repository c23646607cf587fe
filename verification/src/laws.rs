//! The server's behavioural laws, proved once and for all over the handler's
//! model: method-independence of `HEAD`, single-range responses, conditional
//! requests, and precompressed-variant selection.

use vstd::prelude::*;

use crate::content_encoding::{Encoding, QValue};
use crate::fs::FileModel;
use crate::open_file::{
    dir_step, ends_with_slash, extension_suffix, header_date_secs, index_html_suffix, lm_model,
    proceed_model, selection, single_range_header, try_parse_range_spec, DirStep, OpenedModel,
    OutcomeModel,
};
use crate::request::{opt_chars, uri_chars, HttpMethod, HttpRequest};
use crate::serve_dir::{
    content_range_chars, miss_model, percent_decoded, plain_response_model, redirect_model,
    response_of, serve_model, trim_leading_slashes, trim_trailing_slashes, ResponseModel,
    ServeModel, VariantModel,
};
use crate::strutil::{
    dec_chars, has_dotdot_prefixed_segment, has_dotdot_segment, lemma_dec_chars_digits,
    lemma_dec_chars_injective,
};

verus! {

/// A canonical single-range header names exactly one interval.
pub proof fn lemma_single_range_header_injective(s1: u64, e1: u64, s2: u64, e2: u64)
    requires
        single_range_header(s1, e1) == single_range_header(s2, e2),
    ensures
        s1 == s2 && e1 == e2,
{
    let h1 = single_range_header(s1, e1);
    let h2 = single_range_header(s2, e2);
    lemma_dec_chars_digits(s1 as int);
    lemma_dec_chars_digits(s2 as int);
    lemma_dec_chars_digits(e1 as int);
    lemma_dec_chars_digits(e2 as int);
    let l1 = dec_chars(s1 as int).len() as int;
    let l2 = dec_chars(s2 as int).len() as int;
    assert(h1[6 + l1] == '-');
    assert(h2[6 + l2] == '-');
    assert(l1 == l2) by {
        if l1 < l2 {
            assert(h2[6 + l1] == dec_chars(s2 as int)[l1]);
            assert(48 <= h2[6 + l1] as u32 <= 57);
            assert(h1[6 + l1] == '-');
        }
        if l2 < l1 {
            assert(h1[6 + l2] == dec_chars(s1 as int)[l2]);
            assert(48 <= h1[6 + l2] as u32 <= 57);
            assert(h2[6 + l2] == '-');
        }
    }
    assert(dec_chars(s1 as int) =~= dec_chars(s2 as int)) by {
        assert(forall|i: int| 0 <= i < l1 ==> h1[6 + i] == dec_chars(s1 as int)[i]);
        assert(forall|i: int| 0 <= i < l1 ==> h2[6 + i] == dec_chars(s2 as int)[i]);
    }
    lemma_dec_chars_injective(s1 as int, s2 as int);
    assert(dec_chars(e1 as int) =~= dec_chars(e2 as int)) by {
        assert(h1.len() == 7 + l1 + dec_chars(e1 as int).len());
        assert(h2.len() == 7 + l1 + dec_chars(e2 as int).len());
        assert(forall|i: int| 0 <= i < dec_chars(e1 as int).len() ==> h1[7 + l1 + i] == dec_chars(
            e1 as int,
        )[i]);
        assert(forall|i: int| 0 <= i < dec_chars(e2 as int).len() ==> h2[7 + l1 + i] == dec_chars(
            e2 as int,
        )[i]);
    }
    lemma_dec_chars_injective(e1 as int, e2 as int);
}

/// A `Range: bytes=S-E` request with `0 <= S <= E < L` that reaches the
/// opened file is answered `206 Partial Content`, with
/// `Content-Range: bytes S-E/L`, `Content-Length: E-S+1`, and, for `GET`,
/// exactly the bytes `S..=E` of the file.
pub proof fn lemma_single_range_response(m: OpenedModel, range_h: Seq<char>, s: u64, e: u64)
    requires
        m.range == try_parse_range_spec(Some(range_h), m.meta_len),
        range_h == single_range_header(s, e),
        s <= e < m.meta_len,
        !m.head ==> m.contents.len() == m.meta_len,
        m.pos == (if !m.head && (m.range matches Some(Ok(v)) && v.len() == 1) {
            m.range->Some_0->Ok_0[0].0 as int
        } else {
            0
        }),
    ensures
        response_of(m).status == 206,
        response_of(m).content_range == Some(
            content_range_chars(s as int, e as int, m.meta_len),
        ),
        response_of(m).content_length == Some((e - s + 1) as u64),
        !m.head ==> response_of(m).body == m.contents.subrange(s as int, e + 1),
        m.head ==> response_of(m).body == Seq::<u8>::empty(),
{
    assert(m.meta_len > 0);
    assert(exists|s2: u64, e2: u64|
        s2 <= e2 < m.meta_len && range_h == single_range_header(s2, e2));
    let (s0, e0) = choose|s2: u64, e2: u64|
        s2 <= e2 < m.meta_len && range_h == single_range_header(s2, e2);
    assert(m.range == Some(Ok::<Seq<(u64, u64)>, ()>(seq![(s0, e0)])));
    lemma_single_range_header_injective(s0, e0, s, e);
    assert(m.range->Some_0->Ok_0 =~= seq![(s, e)]);
}

/// A `GET` with `Range: bytes=S-E`, `0 <= S <= E < L`, and no conditional
/// headers, whose negotiation settles on a file of length `L`, is answered
/// `206 Partial Content` with `Content-Range: bytes S-E/L`,
/// `Content-Length: E-S+1`, and exactly the bytes `S..=E` of that file.
pub proof fn lemma_single_range_proceed(
    files: Map<Seq<char>, FileModel>,
    path: Seq<char>,
    mime: Seq<char>,
    neg: Seq<(Encoding, QValue)>,
    chunk: usize,
    s: u64,
    e: u64,
)
    requires
        selection(files, path, neg) matches Some(sel),
        s <= e < files[selection(files, path, neg)->Some_0.0].contents.len(),
    ensures
        ({
            let out = proceed_model(
                files,
                false,
                path,
                mime,
                neg,
                Some(single_range_header(s, e)),
                chunk,
                None,
                None,
            );
            let contents = files[selection(files, path, neg)->Some_0.0].contents;
            &&& out matches OutcomeModel::Opened(m)
            &&& response_of(out->Opened_0).status == 206
            &&& response_of(out->Opened_0).content_range == Some(
                content_range_chars(s as int, e as int, contents.len() as int),
            )
            &&& response_of(out->Opened_0).content_length == Some((e - s + 1) as u64)
            &&& response_of(out->Opened_0).body == contents.subrange(s as int, e + 1)
        }),
{
    let sel = selection(files, path, neg)->Some_0;
    let contents = files[sel.0].contents;
    lemma_try_parse_single(single_range_header(s, e), contents.len() as int, s, e);
    let out = proceed_model(
        files,
        false,
        path,
        mime,
        neg,
        Some(single_range_header(s, e)),
        chunk,
        None,
        None,
    );
    let m = out->Opened_0;
    lemma_single_range_response(m, single_range_header(s, e), s, e);
}

/// The branch of the range model that the law above relies on: a canonical
/// single-range header over a nonempty file is recognised as its interval.
pub proof fn lemma_try_parse_single(range_h: Seq<char>, len: int, s: u64, e: u64)
    requires
        range_h == single_range_header(s, e),
        s <= e < len,
    ensures
        try_parse_range_spec(Some(range_h), len) matches Some(rr) && rr matches Ok(v) && v
            =~= seq![(s, e)],
{
    assert(exists|s2: u64, e2: u64| s2 <= e2 < len && range_h == single_range_header(s2, e2));
    let (s0, e0) = choose|s2: u64, e2: u64|
        s2 <= e2 < len && range_h == single_range_header(s2, e2);
    lemma_single_range_header_injective(s0, e0, s, e);
}

/// A `HEAD` request whose `GET` twin is answered `200 OK` gets the same
/// status and headers back, with an empty body.
pub proof fn lemma_head_matches_get(
    chunk: usize,
    precompressed: Option<crate::content_encoding::PrecompressedVariants>,
    variant: VariantModel,
    has_fallback: bool,
    fallback_on_method: bool,
    files: Map<Seq<char>, FileModel>,
    dirs: Set<Seq<char>>,
    req: HttpRequest,
    rm: ResponseModel,
)
    requires
        req.method is Get,
        serve_model(
            chunk,
            precompressed,
            variant,
            has_fallback,
            fallback_on_method,
            files,
            dirs,
            req,
        ) == ServeModel::Respond(rm),
        rm.status == 200,
    ensures
        serve_model(
            chunk,
            precompressed,
            variant,
            has_fallback,
            fallback_on_method,
            files,
            dirs,
            HttpRequest { method: HttpMethod::Head, ..req },
        ) == ServeModel::Respond(ResponseModel { body: Seq::<u8>::empty(), ..rm }),
{
    let hreq = HttpRequest { method: HttpMethod::Head, ..req };
    assert(opt_chars(&hreq.accept_encoding) == opt_chars(&req.accept_encoding));
    assert(opt_chars(&hreq.range) == opt_chars(&req.range));
}

/// A request whose `If-Modified-Since` threshold is at or past the file's
/// known modification time is answered `304 Not Modified`; the pipeline
/// never opens a body for it.
pub proof fn lemma_not_modified(
    files: Map<Seq<char>, FileModel>,
    head: bool,
    path: Seq<char>,
    mime: Seq<char>,
    neg: Seq<(Encoding, QValue)>,
    range_h: Option<Seq<char>>,
    chunk: usize,
    ims_h: Seq<char>,
    threshold: u64,
    mtime: u64,
)
    requires
        selection(files, path, neg) matches Some(se),
        lm_model(files[selection(files, path, neg)->Some_0.0].modified) == Some(mtime),
        header_date_secs(Some(ims_h)) == Some(threshold),
        mtime <= threshold,
    ensures
        proceed_model(files, head, path, mime, neg, range_h, chunk, None, Some(ims_h))
            == OutcomeModel::NotModified,
{
}

/// A request whose `If-Unmodified-Since` threshold lies before the file's
/// modification time — or whose file has no known modification time — is
/// answered `412 Precondition Failed`.
pub proof fn lemma_precondition_failed(
    files: Map<Seq<char>, FileModel>,
    head: bool,
    path: Seq<char>,
    mime: Seq<char>,
    neg: Seq<(Encoding, QValue)>,
    range_h: Option<Seq<char>>,
    chunk: usize,
    ims_h: Option<Seq<char>>,
    ius_h: Seq<char>,
    threshold: u64,
)
    requires
        selection(files, path, neg) matches Some(se),
        header_date_secs(Some(ius_h)) == Some(threshold),
        match lm_model(files[selection(files, path, neg)->Some_0.0].modified) {
            Option::Some(mtime) => mtime > threshold,
            Option::None => true,
        },
    ensures
        proceed_model(files, head, path, mime, neg, range_h, chunk, Some(ius_h), ims_h)
            == OutcomeModel::PreconditionFailed,
{
}

/// When the client's preferred encoding has a present precompressed
/// sibling, that sibling is selected and the matching `Content-Encoding`
/// token is served.
pub proof fn lemma_precompressed_served(
    files: Map<Seq<char>, FileModel>,
    base: Seq<char>,
    neg: Seq<(Encoding, QValue)>,
    enc: Encoding,
)
    requires
        Encoding::preferred_of(neg) == Some(enc),
        files.contains_key(base + extension_suffix(Some(enc))),
    ensures
        selection(files, base, neg) == Some((base + extension_suffix(Some(enc)), Some(enc))),
{
}

/// When no negotiated encoding has a present precompressed sibling, the
/// uncompressed file is served with no encoding at all.
pub proof fn lemma_precompressed_fallback(
    files: Map<Seq<char>, FileModel>,
    base: Seq<char>,
    neg: Seq<(Encoding, QValue)>,
)
    requires
        files.contains_key(base),
        forall|i: int| 0 <= i < neg.len() ==> ((#[trigger] neg[i]).1.0 > 0 ==> neg[i].0
            != Encoding::Identity && !files.contains_key(
            base + extension_suffix(Some(neg[i].0)),
        )),
    ensures
        selection(files, base, neg) == Some((base, None::<Encoding>)),
    decreases neg.len(),
{
    crate::open_file::lemma_preferred_in(neg);
    match Encoding::preferred_of(neg) {
        Option::None => {
            assert(base + extension_suffix(None::<Encoding>) =~= base);
        },
        Option::Some(e) => {
            lemma_preferred_has_positive_q(neg);
            let w = choose|i: int| 0 <= i < neg.len() && (#[trigger] neg[i]).0 == e && neg[i].1.0
                > 0;
            assert(!files.contains_key(base + extension_suffix(Some(e))));
            crate::open_file::lemma_remove_encoding_len(neg, e);
            lemma_remove_encoding_keeps(neg, e);
            lemma_precompressed_fallback(files, base, crate::open_file::remove_encoding(neg, e));
        },
    }
}

/// The preferred encoding comes from an entry with positive quality.
pub proof fn lemma_preferred_has_positive_q(neg: Seq<(Encoding, QValue)>)
    ensures
        Encoding::preferred_of(neg) matches Some(e) ==> exists|i: int|
            0 <= i < neg.len() && (#[trigger] neg[i]).0 == e && neg[i].1.0 > 0,
    decreases neg.len(),
{
    if neg.len() > 0 {
        lemma_preferred_has_positive_q(neg.drop_last());
        if let Option::Some(e) = Encoding::preferred_of(neg) {
            if Encoding::preferred_of(neg) == Encoding::preferred_of(neg.drop_last()) {
                if exists|i: int|
                    0 <= i < neg.drop_last().len() && (#[trigger] neg.drop_last()[i]).0 == e
                        && neg.drop_last()[i].1.0 > 0 {
                    let w = choose|i: int|
                        0 <= i < neg.drop_last().len() && (#[trigger] neg.drop_last()[i]).0 == e
                            && neg.drop_last()[i].1.0 > 0;
                    assert(neg[w].0 == e && neg[w].1.0 > 0);
                }
            } else {
                assert(neg.last().0 == e && neg.last().1.0 > 0);
            }
        }
    }
}

/// Removing one encoding keeps every other entry.
pub proof fn lemma_remove_encoding_keeps(neg: Seq<(Encoding, QValue)>, enc: Encoding)
    ensures
        forall|j: int|
            0 <= j < crate::open_file::remove_encoding(neg, enc).len() ==> exists|i: int|
                0 <= i < neg.len() && (#[trigger] crate::open_file::remove_encoding(neg, enc)[j])
                    == neg[i],
    decreases neg.len(),
{
    let rem = crate::open_file::remove_encoding(neg, enc);
    if neg.len() > 0 {
        lemma_remove_encoding_keeps(neg.drop_first(), enc);
        let rest = crate::open_file::remove_encoding(neg.drop_first(), enc);
        assert forall|j: int| 0 <= j < rem.len() implies exists|i: int|
            0 <= i < neg.len() && (#[trigger] rem[j]) == neg[i] by {
            if neg.first().0 == enc {
                assert(rem[j] == rest[j]);
                let w = choose|i: int|
                    0 <= i < neg.drop_first().len() && (#[trigger] rest[j]) == neg.drop_first()[i];
                assert(rem[j] == neg[w + 1]);
            } else {
                if j == 0 {
                    assert(rem[0] == neg[0]);
                } else {
                    assert(rem[j] == rest[j - 1]);
                    let w = choose|i: int|
                        0 <= i < neg.drop_first().len() && (#[trigger] rest[j - 1])
                            == neg.drop_first()[i];
                    assert(rem[j] == neg[w + 1]);
                }
            }
        }
    }
}

/// A request for a directory whose URI path lacks the trailing slash is
/// answered `307 Temporary Redirect` to the same URI with one appended,
/// scheme, authority and query preserved.
pub proof fn lemma_directory_redirect(
    chunk: usize,
    precompressed: Option<crate::content_encoding::PrecompressedVariants>,
    append_index_html: bool,
    has_fallback: bool,
    fallback_on_method: bool,
    files: Map<Seq<char>, FileModel>,
    dirs: Set<Seq<char>>,
    req: HttpRequest,
    p: Seq<char>,
)
    requires
        req.method is Get || req.method is Head,
        percent_decoded(trim_leading_slashes(req.uri.path@)) == Some(p),
        !ends_with_slash(req.uri.path@),
        dirs.contains(trim_trailing_slashes(p)),
    ensures
        serve_model(
            chunk,
            precompressed,
            VariantModel::Directory { append_index_html },
            has_fallback,
            fallback_on_method,
            files,
            dirs,
            req,
        ) == ServeModel::Respond(
            redirect_model(
                uri_chars(
                    opt_chars(&req.uri.scheme),
                    opt_chars(&req.uri.authority),
                    req.uri.path@ + seq!['/'],
                    opt_chars(&req.uri.query),
                ),
            ),
        ),
{
}

/// A request for a directory whose URI path carries the trailing slash is
/// served the directory's `index.html` when index appending is on, and
/// misses when it is off.
pub proof fn lemma_directory_index(
    dirs: Set<Seq<char>>,
    candidate: Seq<char>,
    scheme: Option<Seq<char>>,
    authority: Option<Seq<char>>,
    uri_path: Seq<char>,
    query: Option<Seq<char>>,
    append_index_html: bool,
)
    requires
        ends_with_slash(uri_path),
        dirs.contains(candidate),
    ensures
        dir_step(dirs, candidate, scheme, authority, uri_path, query, append_index_html) == (
        if append_index_html {
            DirStep::Proceed(candidate + index_html_suffix())
        } else {
            DirStep::Miss
        }),
{
}

/// Cutting trailing slashes leaves a prefix; everything cut was a slash.
proof fn lemma_trim_trailing_prefix(p: Seq<char>)
    ensures
        trim_trailing_slashes(p) == p.subrange(0, trim_trailing_slashes(p).len() as int),
        trim_trailing_slashes(p).len() <= p.len(),
        forall|m: int| trim_trailing_slashes(p).len() <= m < p.len() ==> p[m] == '/',
    decreases p.len(),
{
    if p.len() > 0 && p.last() == '/' {
        lemma_trim_trailing_prefix(p.drop_last());
        assert(p.drop_last() =~= p.subrange(0, p.len() - 1));
        assert(trim_trailing_slashes(p) =~= p.subrange(
            0,
            trim_trailing_slashes(p).len() as int,
        ));
        assert forall|m: int|
            trim_trailing_slashes(p).len() <= m < p.len() implies p[m] == '/' by {
            if m < p.len() - 1 {
                assert(p.drop_last()[m] == p[m]);
            } else {
                assert(p[m] == p.last());
            }
        }
    } else {
        assert(p =~= p.subrange(0, p.len() as int));
    }
}

/// A whole `..` segment survives the cutting of trailing slashes, as a
/// `..`-prefixed segment.
proof fn lemma_dotdot_survives_trim(p: Seq<char>)
    requires
        has_dotdot_segment(p),
    ensures
        has_dotdot_prefixed_segment(trim_trailing_slashes(p)),
{
    lemma_trim_trailing_prefix(p);
    let q = trim_trailing_slashes(p);
    let i = choose|i: int|
        0 <= i && i + 2 <= p.len() && #[trigger] p.subrange(i, i + 2) == seq!['.', '.'] && (i == 0
            || p[i - 1] == '/') && (i + 2 == p.len() || p[i + 2] == '/');
    assert(p[i] == '.' && p[i + 1] == '.') by {
        assert(p.subrange(i, i + 2)[0] == '.');
        assert(p.subrange(i, i + 2)[1] == '.');
    }
    assert(i + 2 <= q.len()) by {
        if i + 1 >= q.len() {
            assert(p[i + 1] == '/');
        }
    }
    assert(q.subrange(i, i + 2) =~= p.subrange(i, i + 2));
}

/// A `..`-prefixed segment survives gluing any suffix onto the path.
proof fn lemma_dotdot_survives_suffix(q: Seq<char>, suffix: Seq<char>)
    requires
        has_dotdot_prefixed_segment(q),
    ensures
        has_dotdot_prefixed_segment(q + suffix),
{
    let i = choose|i: int|
        0 <= i && i + 2 <= q.len() && #[trigger] q.subrange(i, i + 2) == seq!['.', '.'] && (i == 0
            || q[i - 1] == '/');
    assert((q + suffix).subrange(i, i + 2) =~= q.subrange(i, i + 2));
}

/// When no candidate the negotiation could try is a stored file, the
/// selection comes up empty.
proof fn lemma_selection_misses(
    files: Map<Seq<char>, FileModel>,
    base: Seq<char>,
    neg: Seq<(Encoding, QValue)>,
)
    requires
        forall|e: Option<Encoding>| !files.contains_key(base + #[trigger] extension_suffix(e)),
    ensures
        selection(files, base, neg) is None,
    decreases neg.len(),
{
    crate::open_file::lemma_preferred_in(neg);
    match Encoding::preferred_of(neg) {
        Option::None => {},
        Option::Some(e) => {
            crate::open_file::lemma_remove_encoding_len(neg, e);
            lemma_selection_misses(files, base, crate::open_file::remove_encoding(neg, e));
        },
    }
}

/// A decoded path with a `..` segment never reaches a file: as long as no
/// stored path holds a `..`-prefixed segment — true of any tree built from
/// real file names — the handler answers the miss, a plain `404 Not Found`
/// or the fallback, and opens nothing.
pub proof fn lemma_traversal_misses(
    chunk: usize,
    precompressed: Option<crate::content_encoding::PrecompressedVariants>,
    append_index_html: bool,
    has_fallback: bool,
    fallback_on_method: bool,
    files: Map<Seq<char>, FileModel>,
    dirs: Set<Seq<char>>,
    req: HttpRequest,
    p: Seq<char>,
)
    requires
        req.method is Get || req.method is Head,
        percent_decoded(trim_leading_slashes(req.uri.path@)) == Some(p),
        has_dotdot_segment(p),
        forall|k: Seq<char>| files.contains_key(k) ==> !has_dotdot_prefixed_segment(k),
        forall|k: Seq<char>| dirs.contains(k) ==> !has_dotdot_prefixed_segment(k),
    ensures
        serve_model(
            chunk,
            precompressed,
            VariantModel::Directory { append_index_html },
            has_fallback,
            fallback_on_method,
            files,
            dirs,
            req,
        ) == miss_model(has_fallback),
        !has_fallback ==> serve_model(
            chunk,
            precompressed,
            VariantModel::Directory { append_index_html },
            has_fallback,
            fallback_on_method,
            files,
            dirs,
            req,
        ) == ServeModel::Respond(plain_response_model(404)),
{
    let candidate = trim_trailing_slashes(p);
    lemma_dotdot_survives_trim(p);
    assert(!dirs.contains(candidate));
    assert forall|e: Option<Encoding>| !files.contains_key(
        candidate + #[trigger] extension_suffix(e),
    ) by {
        lemma_dotdot_survives_suffix(candidate, extension_suffix(e));
    }
    let policy = match precompressed {
        Option::Some(q) => q,
        Option::None => crate::content_encoding::PrecompressedVariants {
            gzip: false,
            deflate: false,
            br: false,
        },
    };
    let neg = crate::content_encoding::encodings_of(opt_chars(&req.accept_encoding), policy);
    lemma_selection_misses(files, candidate, neg);
}

} // verus!