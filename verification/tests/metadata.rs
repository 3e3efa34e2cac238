use static_files::metadata::{etag_listed, FileInfo, Metadata, MetadataError};
use static_files::range::{extract_range, Range};
use static_files::request::RequestHeaders;
use static_files::response::ResponseHeader;

fn file(size: u64, modified: Option<u64>) -> FileInfo {
    FileInfo { is_file: true, size, modified }
}

fn meta() -> Metadata {
    Metadata::from_path(b"/srv/www/large.txt", None, &file(1000, Some(784111777))).unwrap()
}

fn fields(header: &ResponseHeader) -> Vec<(&str, &str)> {
    header.headers.iter().map(|h| (h.name.as_str(), h.value.as_str())).collect()
}

#[test]
fn from_path_describes_the_file() {
    let meta = meta();
    assert_eq!(meta.path, b"/srv/www/large.txt".to_vec());
    assert_eq!(meta.mime, "text/plain");
    assert_eq!(meta.size, 1000);
    assert_eq!(meta.modified.as_deref(), Some("Sun, 06 Nov 1994 08:49:37 GMT"));
    assert_eq!(meta.etag, "\"2ebc98a1-3e8\"");
}

#[test]
fn from_path_without_modification_time() {
    let meta = Metadata::from_path(b"/srv/www/a.bin", None, &file(0, None)).unwrap();
    assert_eq!(meta.modified, None);
    assert_eq!(meta.etag, "\"0-0\"");
    assert_eq!(meta.mime, "application/octet-stream");
    let late = Metadata::from_path(b"/a", None, &file(1, Some(253402300800))).unwrap();
    assert_eq!(late.modified, None);
    assert_eq!(late.etag, "\"3afff44180-1\"");
}

#[test]
fn from_path_takes_the_media_type_of_the_uncompressed_file() {
    let meta = Metadata::from_path(
        b"/srv/www/page.html.gz",
        Some(b"/srv/www/page.html".as_slice()),
        &file(1234, Some(0)),
    )
    .unwrap();
    assert_eq!(meta.path, b"/srv/www/page.html.gz".to_vec());
    assert_eq!(meta.mime, "text/html");
    assert_eq!(meta.size, 1234);
    assert_eq!(meta.etag, "\"0-4d2\"");
}

#[test]
fn from_path_rejects_what_is_no_regular_file() {
    let dir = FileInfo { is_file: false, size: 4096, modified: Some(0) };
    assert_eq!(Metadata::from_path(b"/srv/www", None, &dir), Err(MetadataError::NotAFile));
}

#[test]
fn etag_lists() {
    assert!(etag_listed("\"abc\"", "\"abc\""));
    assert!(etag_listed("\"x\", \"abc\" ,\"y\"", "\"abc\""));
    assert!(etag_listed("*", "\"abc\""));
    assert!(etag_listed("\"x\", *", "\"abc\""));
    assert!(!etag_listed("\"x\", \"y\"", "\"abc\""));
    assert!(!etag_listed("", "\"abc\""));
    assert!(!etag_listed("abc", "\"abc\""));
    assert!(!etag_listed("W/\"abc\"", "\"abc\""));
}

#[test]
fn failed_preconditions() {
    let meta = meta();
    let mut headers = RequestHeaders::new();
    assert!(!meta.has_failed_precondition(&headers));
    headers.if_match = Some("\"other\"".to_string());
    assert!(meta.has_failed_precondition(&headers));
    headers.if_match = Some("\"other\", \"2ebc98a1-3e8\"".to_string());
    assert!(!meta.has_failed_precondition(&headers));
    headers.if_match = Some("*".to_string());
    assert!(!meta.has_failed_precondition(&headers));

    headers.if_match = None;
    headers.if_unmodified_since = Some("Sun, 06 Nov 1994 08:49:36 GMT".to_string());
    assert!(meta.has_failed_precondition(&headers));
    headers.if_unmodified_since = Some("Sun, 06 Nov 1994 08:49:37 GMT".to_string());
    assert!(!meta.has_failed_precondition(&headers));
    headers.if_unmodified_since = Some("Mon, 07 Nov 1994 00:00:00 GMT".to_string());
    assert!(!meta.has_failed_precondition(&headers));
    headers.if_unmodified_since = Some("yesterday".to_string());
    assert!(!meta.has_failed_precondition(&headers));

    headers.if_match = Some("*".to_string());
    headers.if_unmodified_since = Some("Sat, 05 Nov 1994 08:49:37 GMT".to_string());
    assert!(meta.has_failed_precondition(&headers));
}

#[test]
fn not_modified() {
    let meta = meta();
    let mut headers = RequestHeaders::new();
    assert!(!meta.is_not_modified(&headers));
    headers.if_none_match = Some("\"2ebc98a1-3e8\"".to_string());
    assert!(meta.is_not_modified(&headers));
    headers.if_none_match = Some("*".to_string());
    assert!(meta.is_not_modified(&headers));
    headers.if_none_match = Some("\"other\"".to_string());
    assert!(!meta.is_not_modified(&headers));

    headers.if_none_match = None;
    headers.if_modified_since = Some("Sun, 06 Nov 1994 08:49:37 GMT".to_string());
    assert!(meta.is_not_modified(&headers));
    headers.if_modified_since = Some("Sun, 06 Nov 1994 08:49:38 GMT".to_string());
    assert!(meta.is_not_modified(&headers));
    headers.if_modified_since = Some("Sun, 06 Nov 1994 08:49:36 GMT".to_string());
    assert!(!meta.is_not_modified(&headers));
    headers.if_modified_since = Some("some time ago".to_string());
    assert!(!meta.is_not_modified(&headers));
}

#[test]
fn validator_wins_over_date() {
    let meta = meta();
    let mut headers = RequestHeaders::new();
    headers.if_none_match = Some("\"2ebc98a1-3e8\"".to_string());
    headers.if_modified_since = Some("Sat, 05 Nov 1994 08:49:37 GMT".to_string());
    assert!(meta.is_not_modified(&headers));
    headers.if_none_match = Some("\"other\"".to_string());
    headers.if_modified_since = Some("Mon, 07 Nov 1994 08:49:37 GMT".to_string());
    assert!(!meta.is_not_modified(&headers));
}

#[test]
fn no_date_no_date_checks() {
    let meta = Metadata::from_path(b"/a.txt", None, &file(5, None)).unwrap();
    let mut headers = RequestHeaders::new();
    headers.if_modified_since = Some("Sun, 06 Nov 1994 08:49:37 GMT".to_string());
    headers.if_unmodified_since = Some("Sun, 06 Nov 1994 08:49:37 GMT".to_string());
    assert!(!meta.is_not_modified(&headers));
    assert!(!meta.has_failed_precondition(&headers));
}

#[test]
fn full_header() {
    let header = meta().to_response_header(Some("utf-8"));
    assert_eq!(header.status, 200);
    assert_eq!(
        fields(&header),
        vec![
            ("Content-Length", "1000"),
            ("Content-Type", "text/plain;charset=utf-8"),
            ("ETag", "\"2ebc98a1-3e8\""),
            ("Last-Modified", "Sun, 06 Nov 1994 08:49:37 GMT"),
            ("Accept-Ranges", "bytes"),
        ]
    );
    let plain = meta().to_response_header(None);
    assert_eq!(fields(&plain)[1], ("Content-Type", "text/plain"));
}

#[test]
fn partial_header() {
    let header = meta().to_partial_content_header(None, 100, 299);
    assert_eq!(header.status, 206);
    assert_eq!(
        fields(&header),
        vec![
            ("Content-Length", "200"),
            ("Content-Range", "bytes 100-299/1000"),
            ("Content-Type", "text/plain"),
            ("ETag", "\"2ebc98a1-3e8\""),
            ("Last-Modified", "Sun, 06 Nov 1994 08:49:37 GMT"),
            ("Accept-Ranges", "bytes"),
        ]
    );
    let one = meta().to_partial_content_header(Some("utf-8"), 999, 999);
    assert_eq!(fields(&one)[0], ("Content-Length", "1"));
    assert_eq!(fields(&one)[1], ("Content-Range", "bytes 999-999/1000"));
}

#[test]
fn not_satisfiable_header() {
    let header = meta().to_not_satisfiable_header();
    assert_eq!(header.status, 416);
    assert_eq!(
        fields(&header),
        vec![
            ("Content-Length", "0"),
            ("Content-Range", "bytes */1000"),
            ("ETag", "\"2ebc98a1-3e8\""),
            ("Last-Modified", "Sun, 06 Nov 1994 08:49:37 GMT"),
            ("Accept-Ranges", "bytes"),
        ]
    );
}

#[test]
fn custom_header() {
    let header = meta().to_custom_header(304);
    assert_eq!(header.status, 304);
    assert_eq!(
        fields(&header),
        vec![
            ("ETag", "\"2ebc98a1-3e8\""),
            ("Last-Modified", "Sun, 06 Nov 1994 08:49:37 GMT"),
            ("Accept-Ranges", "bytes"),
        ]
    );
    let undated = Metadata::from_path(b"/a", None, &file(1, None)).unwrap().to_custom_header(412);
    assert_eq!(undated.status, 412);
    assert_eq!(fields(&undated), vec![("ETag", "\"0-1\""), ("Accept-Ranges", "bytes")]);
}

#[test]
fn extract_range_without_if_range() {
    let meta = meta();
    let mut headers = RequestHeaders::new();
    assert_eq!(extract_range(&headers, &meta), None);
    headers.range = Some("bytes=0-499".to_string());
    assert_eq!(extract_range(&headers, &meta), Some(Range::Valid(0, 499)));
    headers.range = Some("bytes=-500".to_string());
    assert_eq!(extract_range(&headers, &meta), Some(Range::Valid(500, 999)));
    headers.range = Some("bytes=9500-".to_string());
    assert_eq!(extract_range(&headers, &meta), Some(Range::OutOfBounds));
    headers.range = Some("lines=1-2".to_string());
    assert_eq!(extract_range(&headers, &meta), None);
}

#[test]
fn extract_range_with_if_range() {
    let meta = meta();
    let mut headers = RequestHeaders::new();
    headers.range = Some("bytes=0-499".to_string());
    headers.if_range = Some("\"2ebc98a1-3e8\"".to_string());
    assert_eq!(extract_range(&headers, &meta), Some(Range::Valid(0, 499)));
    headers.if_range = Some("Sun, 06 Nov 1994 08:49:37 GMT".to_string());
    assert_eq!(extract_range(&headers, &meta), Some(Range::Valid(0, 499)));
    headers.if_range = Some("\"stale\"".to_string());
    assert_eq!(extract_range(&headers, &meta), None);
    headers.if_range = Some("Sat, 05 Nov 1994 08:49:37 GMT".to_string());
    assert_eq!(extract_range(&headers, &meta), None);
    headers.range = Some("bytes=9500-".to_string());
    assert_eq!(extract_range(&headers, &meta), None);
}
