use static_files::configuration::StaticFilesConf;
use static_files::request::{Method, RequestHeaders};
use static_files::request_filter::RequestFilterResult;
use static_files::response::{Header, ResponseHeader};

#[test]
fn methods_by_name() {
    assert_eq!(Method::from_name("GET"), Method::Get);
    assert_eq!(Method::from_name("HEAD"), Method::Head);
    assert_eq!(Method::from_name("POST"), Method::Other);
    assert_eq!(Method::from_name("get"), Method::Other);
    assert_eq!(Method::from_name(""), Method::Other);
}

#[test]
fn no_headers() {
    let headers = RequestHeaders::new();
    assert_eq!(headers.if_match, None);
    assert_eq!(headers.if_none_match, None);
    assert_eq!(headers.if_modified_since, None);
    assert_eq!(headers.if_unmodified_since, None);
    assert_eq!(headers.if_range, None);
    assert_eq!(headers.range, None);
    assert_eq!(headers.accept_encoding, None);
}

#[test]
fn default_settings() {
    let conf = StaticFilesConf::new();
    assert_eq!(conf.root, None);
    assert!(conf.canonicalize_uri);
    assert!(conf.index_file.is_empty());
    assert_eq!(conf.page_404, None);
    assert!(conf.precompressed.is_empty());
    assert_eq!(conf.declare_charset, "utf-8");
    assert!(conf.declare_charset_types.is_empty());
    assert_eq!(StaticFilesConf::default(), conf);
}

#[test]
fn default_filter_result() {
    assert_eq!(RequestFilterResult::default(), RequestFilterResult::Unhandled);
}

#[test]
fn building_a_response_header() {
    let mut header = ResponseHeader::build(200);
    assert_eq!(header.status, 200);
    assert!(header.headers.is_empty());
    header.append_header("ETag", &['"', 'a', '"']);
    header.append_header("X-Empty", &[]);
    header.set_status(404);
    assert_eq!(header.status, 404);
    assert_eq!(
        header.headers,
        vec![
            Header { name: "ETag".to_string(), value: "\"a\"".to_string() },
            Header { name: "X-Empty".to_string(), value: String::new() },
        ]
    );
}

#[test]
fn vary_field() {
    let mut header = ResponseHeader::build(200);
    header.add_vary("Accept-Encoding");
    assert_eq!(header.headers.len(), 1);
    assert_eq!(header.headers[0].name, "Vary");
    assert_eq!(header.headers[0].value, "Accept-Encoding");
    header.add_vary("Accept-Encoding");
    assert_eq!(header.headers[0].value, "Accept-Encoding");
    header.add_vary("Origin");
    assert_eq!(header.headers.len(), 1);
    assert_eq!(header.headers[0].value, "Accept-Encoding, Origin");
    header.add_vary("ORIGIN");
    assert_eq!(header.headers[0].value, "Accept-Encoding, Origin");
}
