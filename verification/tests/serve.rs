use http_dir::body::ResponseBody;
use http_dir::fs::include_dir::{DirEntry, DirNode, IncludeDirFilesystem};
use http_dir::request::{HttpMethod, HttpRequest, Uri};
use http_dir::serve_dir::{ServeOutcome, ServeVariant};
use http_dir::ServeDir;
use http_dir::ServeFile;

const HELLO: &[u8] = b"Hello, world!\n";
const HELLO_GZ: &[u8] = &[0x1f, 0x8b, 0x08, 0x00, 0x01, 0x02, 0x03, 0x04];
const INDEX_HTML: &[u8] = b"<h1>hi</h1>";
const MTIME_2020: u64 = 1577836800;

fn assets() -> IncludeDirFilesystem {
    IncludeDirFilesystem::new(vec![
        DirEntry {
            path: "hello.txt".to_string(),
            node: DirNode::File { contents: HELLO.to_vec(), modified: Some(MTIME_2020) },
        },
        DirEntry {
            path: "hello.txt.gz".to_string(),
            node: DirNode::File { contents: HELLO_GZ.to_vec(), modified: Some(MTIME_2020) },
        },
        DirEntry { path: "subdir".to_string(), node: DirNode::Directory },
        DirEntry {
            path: "subdir/index.html".to_string(),
            node: DirNode::File { contents: INDEX_HTML.to_vec(), modified: Some(MTIME_2020) },
        },
        DirEntry {
            path: "empty.bin".to_string(),
            node: DirNode::File { contents: vec![], modified: None },
        },
    ])
}

fn request(method: HttpMethod, path: &str) -> HttpRequest {
    HttpRequest {
        method,
        uri: Uri { scheme: None, authority: None, path: path.to_string(), query: None },
        accept_encoding: None,
        range: None,
        if_modified_since: None,
        if_unmodified_since: None,
    }
}

fn respond(
    service: &mut ServeDir<IncludeDirFilesystem>,
    req: &HttpRequest,
) -> http_dir::serve_dir::Response<http_dir::fs::include_dir::IncludeDirFile> {
    match service.call(req).unwrap() {
        ServeOutcome::Respond(resp) => resp,
        ServeOutcome::Fallback => panic!("no fallback is configured"),
    }
}

#[test]
fn get_hello_txt() {
    let mut service = ServeDir::new(assets());
    let resp = respond(&mut service, &request(HttpMethod::Get, "/hello.txt"));
    assert_eq!(resp.status, 200);
    assert_eq!(resp.content_type.as_deref(), Some("text/plain"));
    assert_eq!(resp.content_length, Some(14));
    assert!(resp.accept_ranges_bytes);
    assert_eq!(resp.content_encoding, None);
    assert_eq!(
        resp.last_modified.as_deref(),
        Some("Wed, 01 Jan 2020 00:00:00 GMT")
    );
    assert_eq!(resp.body.collect().unwrap(), HELLO.to_vec());
}

#[test]
fn head_hello_txt() {
    let mut service = ServeDir::new(assets());
    let get = respond(&mut service, &request(HttpMethod::Get, "/hello.txt"));
    let head = respond(&mut service, &request(HttpMethod::Head, "/hello.txt"));
    assert_eq!(head.status, 200);
    assert_eq!(head.content_length, Some(14));
    assert_eq!(head.content_type, get.content_type);
    assert_eq!(head.last_modified, get.last_modified);
    assert_eq!(head.content_range, get.content_range);
    assert_eq!(head.content_encoding, get.content_encoding);
    assert!(head.body.collect().unwrap().is_empty());
}

#[test]
fn traversal_is_not_found() {
    let mut service = ServeDir::new(assets());
    let resp = respond(&mut service, &request(HttpMethod::Get, "/../etc/passwd"));
    assert_eq!(resp.status, 404);
    assert!(resp.body.collect().unwrap().is_empty());
}

#[test]
fn single_range() {
    let mut service = ServeDir::new(assets());
    let mut req = request(HttpMethod::Get, "/hello.txt");
    req.range = Some("bytes=0-4".to_string());
    let resp = respond(&mut service, &req);
    assert_eq!(resp.status, 206);
    assert_eq!(resp.content_range.as_deref(), Some("bytes 0-4/14"));
    assert_eq!(resp.content_length, Some(5));
    assert_eq!(resp.body.collect().unwrap(), b"Hello".to_vec());
}

#[test]
fn multipart_range_is_unsatisfiable() {
    let mut service = ServeDir::new(assets());
    let mut req = request(HttpMethod::Get, "/hello.txt");
    req.range = Some("bytes=0-4,6-10".to_string());
    let resp = respond(&mut service, &req);
    assert_eq!(resp.status, 416);
    assert_eq!(resp.content_range.as_deref(), Some("bytes */14"));
    assert_eq!(
        resp.body.collect().unwrap(),
        b"Cannot serve multipart range requests".to_vec()
    );
}

#[test]
fn precompressed_gzip_served() {
    let mut service = ServeDir::new(assets()).precompressed_gzip();
    let mut req = request(HttpMethod::Get, "/hello.txt");
    req.accept_encoding = Some("gzip".to_string());
    let resp = respond(&mut service, &req);
    assert_eq!(resp.status, 200);
    assert_eq!(resp.content_encoding.as_deref(), Some("gzip"));
    assert_eq!(resp.content_type.as_deref(), Some("text/plain"));
    assert_eq!(resp.body.collect().unwrap(), HELLO_GZ.to_vec());
}

#[test]
fn precompressed_absent_falls_back() {
    let mut service = ServeDir::new(assets()).precompressed_br();
    let mut req = request(HttpMethod::Get, "/hello.txt");
    req.accept_encoding = Some("br".to_string());
    let resp = respond(&mut service, &req);
    assert_eq!(resp.status, 200);
    assert_eq!(resp.content_encoding, None);
    assert_eq!(resp.body.collect().unwrap(), HELLO.to_vec());
}

#[test]
fn gzip_not_negotiated_without_policy() {
    let mut service = ServeDir::new(assets());
    let mut req = request(HttpMethod::Get, "/hello.txt");
    req.accept_encoding = Some("gzip".to_string());
    let resp = respond(&mut service, &req);
    assert_eq!(resp.status, 200);
    assert_eq!(resp.content_encoding, None);
    assert_eq!(resp.body.collect().unwrap(), HELLO.to_vec());
}

#[test]
fn if_modified_since_not_modified() {
    let mut service = ServeDir::new(assets());
    let mut req = request(HttpMethod::Get, "/hello.txt");
    req.if_modified_since = Some("Wed, 01 Jan 2020 00:00:00 GMT".to_string());
    let resp = respond(&mut service, &req);
    assert_eq!(resp.status, 304);
    assert!(resp.body.collect().unwrap().is_empty());
}

#[test]
fn if_modified_since_older_threshold_serves() {
    let mut service = ServeDir::new(assets());
    let mut req = request(HttpMethod::Get, "/hello.txt");
    req.if_modified_since = Some("Tue, 31 Dec 2019 23:59:59 GMT".to_string());
    let resp = respond(&mut service, &req);
    assert_eq!(resp.status, 200);
}

#[test]
fn if_unmodified_since_precondition_failed() {
    let mut service = ServeDir::new(assets());
    let mut req = request(HttpMethod::Get, "/hello.txt");
    req.if_unmodified_since = Some("Tue, 31 Dec 2019 23:59:59 GMT".to_string());
    let resp = respond(&mut service, &req);
    assert_eq!(resp.status, 412);
    assert!(resp.body.collect().unwrap().is_empty());
}

#[test]
fn if_unmodified_since_passes() {
    let mut service = ServeDir::new(assets());
    let mut req = request(HttpMethod::Get, "/hello.txt");
    req.if_unmodified_since = Some("Wed, 01 Jan 2020 00:00:00 GMT".to_string());
    let resp = respond(&mut service, &req);
    assert_eq!(resp.status, 200);
}

#[test]
fn directory_redirects_to_trailing_slash() {
    let mut service = ServeDir::new(assets());
    let resp = respond(&mut service, &request(HttpMethod::Get, "/subdir"));
    assert_eq!(resp.status, 307);
    assert_eq!(resp.location.as_deref(), Some("/subdir/"));
    let resp = respond(&mut service, &request(HttpMethod::Get, "/subdir/"));
    assert_eq!(resp.status, 200);
    assert_eq!(resp.content_type.as_deref(), Some("text/html"));
    assert_eq!(resp.body.collect().unwrap(), INDEX_HTML.to_vec());
}

#[test]
fn directory_without_index_append_is_not_found() {
    let mut service = ServeDir::new(assets()).append_index_html_on_directories(false);
    let resp = respond(&mut service, &request(HttpMethod::Get, "/subdir/"));
    assert_eq!(resp.status, 404);
}

#[test]
fn post_is_method_not_allowed() {
    let mut service = ServeDir::new(assets());
    let resp = respond(&mut service, &request(HttpMethod::Other, "/hello.txt"));
    assert_eq!(resp.status, 405);
    assert_eq!(resp.allow.as_deref(), Some("GET,HEAD"));
    assert!(resp.body.collect().unwrap().is_empty());
}

#[test]
fn post_is_method_not_allowed_when_flag_set_without_fallback() {
    let mut service =
        ServeDir::new(assets()).call_fallback_on_method_not_allowed(true);
    let resp = respond(&mut service, &request(HttpMethod::Other, "/hello.txt"));
    assert_eq!(resp.status, 405);
    assert_eq!(resp.allow.as_deref(), Some("GET,HEAD"));
}

#[test]
fn post_goes_to_fallback_when_flag_set_with_fallback() {
    let mut service = ServeDir::new(assets())
        .call_fallback_on_method_not_allowed(true)
        .fallback_present(true);
    let outcome = service.call(&request(HttpMethod::Other, "/hello.txt")).unwrap();
    assert!(matches!(outcome, ServeOutcome::Fallback));
}

#[test]
fn missing_file_goes_to_fallback_when_present() {
    let mut service = ServeDir::new(assets()).fallback_present(true);
    let outcome = service.call(&request(HttpMethod::Get, "/missing.txt")).unwrap();
    assert!(matches!(outcome, ServeOutcome::Fallback));
}

#[test]
fn missing_file_is_not_found_without_fallback() {
    let mut service = ServeDir::new(assets());
    let resp = respond(&mut service, &request(HttpMethod::Get, "/missing.txt"));
    assert_eq!(resp.status, 404);
}

#[test]
fn percent_encoded_path_is_decoded() {
    let mut service = ServeDir::new(assets());
    let resp = respond(&mut service, &request(HttpMethod::Get, "/hello%2Etxt"));
    assert_eq!(resp.status, 200);
    assert_eq!(resp.body.collect().unwrap(), HELLO.to_vec());
}

#[test]
fn empty_file_with_range_is_unsatisfiable() {
    let mut service = ServeDir::new(assets());
    let mut req = request(HttpMethod::Get, "/empty.bin");
    req.range = Some("bytes=0-0".to_string());
    let resp = respond(&mut service, &req);
    assert_eq!(resp.status, 416);
    assert_eq!(resp.content_range.as_deref(), Some("bytes */0"));
}

#[test]
fn range_end_at_file_end() {
    let mut service = ServeDir::new(assets());
    let mut req = request(HttpMethod::Get, "/hello.txt");
    req.range = Some("bytes=6-13".to_string());
    let resp = respond(&mut service, &req);
    assert_eq!(resp.status, 206);
    assert_eq!(resp.content_range.as_deref(), Some("bytes 6-13/14"));
    assert_eq!(resp.body.collect().unwrap(), b" world!\n".to_vec());
}

#[test]
fn serve_file_ignores_request_path() {
    let mut service = ServeFile::new("hello.txt".to_string(), assets());
    let outcome = service.call(&request(HttpMethod::Get, "/anything-at-all")).unwrap();
    let resp = match outcome {
        ServeOutcome::Respond(resp) => resp,
        ServeOutcome::Fallback => panic!("no fallback is configured"),
    };
    assert_eq!(resp.status, 200);
    assert_eq!(resp.content_type.as_deref(), Some("text/plain"));
    assert_eq!(resp.body.collect().unwrap(), HELLO.to_vec());
}

#[test]
fn serve_file_with_explicit_mime() {
    let mut service = ServeFile::new_with_mime(
        "hello.txt".to_string(),
        "text/x-greeting".to_string(),
        assets(),
    );
    let outcome = service.call(&request(HttpMethod::Get, "/hello.txt")).unwrap();
    let resp = match outcome {
        ServeOutcome::Respond(resp) => resp,
        ServeOutcome::Fallback => panic!("no fallback is configured"),
    };
    assert_eq!(resp.status, 200);
    assert_eq!(resp.content_type.as_deref(), Some("text/x-greeting"));
}

#[test]
fn bytes_body_collects_to_its_bytes() {
    let body: ResponseBody<http_dir::fs::include_dir::IncludeDirFile> =
        ResponseBody::Bytes(vec![1, 2, 3]);
    assert_eq!(body.collect().unwrap(), vec![1, 2, 3]);
}

#[test]
fn redirect_preserves_query() {
    let mut service = ServeDir::new(assets());
    let mut req = request(HttpMethod::Get, "/subdir");
    req.uri.query = Some("x=1".to_string());
    let resp = respond(&mut service, &req);
    assert_eq!(resp.status, 307);
    assert_eq!(resp.location.as_deref(), Some("/subdir/?x=1"));
}

#[test]
fn variant_is_public() {
    let v = ServeVariant::Directory { append_index_html_on_directories: true };
    assert!(matches!(v, ServeVariant::Directory { .. }));
}
