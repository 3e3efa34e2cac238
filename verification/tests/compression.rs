use static_files::compression::Compression;
use static_files::compression_algorithm::{CompressionAlgorithm, UnsupportedCompressionAlgorithm};
use static_files::response::ResponseHeader;

use CompressionAlgorithm::{Brotli, Deflate, Gzip, Zstd};

fn chars(s: &str) -> Vec<char> {
    s.chars().collect()
}

fn fields(header: &ResponseHeader) -> Vec<(&str, &str)> {
    header.headers.iter().map(|h| (h.name.as_str(), h.value.as_str())).collect()
}

#[test]
fn algorithm_names_and_extensions() {
    assert_eq!(Gzip.name(), "gzip");
    assert_eq!(Deflate.name(), "deflate");
    assert_eq!(Brotli.name(), "br");
    assert_eq!(Zstd.name(), "zstd");
    assert_eq!(Gzip.ext(), "gz");
    assert_eq!(Deflate.ext(), "zz");
    assert_eq!(Brotli.ext(), "br");
    assert_eq!(Zstd.ext(), "zst");
}

#[test]
fn algorithm_from_str() {
    assert_eq!(CompressionAlgorithm::from_str("gz"), Ok(Gzip));
    assert_eq!(CompressionAlgorithm::from_str("gzip"), Ok(Gzip));
    assert_eq!(CompressionAlgorithm::from_str("zz"), Ok(Deflate));
    assert_eq!(CompressionAlgorithm::from_str("deflate"), Ok(Deflate));
    assert_eq!(CompressionAlgorithm::from_str("br"), Ok(Brotli));
    assert_eq!(CompressionAlgorithm::from_str("zst"), Ok(Zstd));
    assert_eq!(CompressionAlgorithm::from_str("zstd"), Ok(Zstd));
    let err = CompressionAlgorithm::from_str("lzma").unwrap_err();
    assert_eq!(err, UnsupportedCompressionAlgorithm("lzma".to_string()));
    assert_eq!(err.message(), "Unsupported compression algorithm: lzma");
    assert!(CompressionAlgorithm::from_str("GZIP").is_err());
    assert!(CompressionAlgorithm::from_str("").is_err());
}

#[test]
fn variant_paths() {
    for algorithm in [Gzip, Deflate, Brotli, Zstd] {
        let expected = format!("/srv/www/a.html.{}", algorithm.ext());
        assert_eq!(Compression::variant(b"/srv/www/a.html", algorithm), expected.into_bytes());
    }
}

#[test]
fn acceptable_follows_the_configured_order() {
    let both = Compression::new(Some("gzip, br"), &[Brotli, Gzip]);
    assert_eq!(both.acceptable, vec![Brotli, Gzip]);
    assert_eq!(both.active, None);
    let other = Compression::new(Some("br;q=0.1, gzip;q=1.0"), &[Gzip, Brotli]);
    assert_eq!(other.acceptable, vec![Gzip, Brotli]);
    let one = Compression::new(Some("gzip"), &[Brotli, Gzip, Zstd]);
    assert_eq!(one.acceptable, vec![Gzip]);
}

#[test]
fn acceptable_without_header_or_configuration() {
    assert_eq!(Compression::new(None, &[Brotli, Gzip]).acceptable, vec![]);
    assert_eq!(Compression::new(Some(""), &[Brotli, Gzip]).acceptable, vec![]);
    assert_eq!(Compression::new(Some("identity"), &[Brotli, Gzip]).acceptable, vec![]);
    assert_eq!(Compression::new(Some("gzip, br"), &[]).acceptable, vec![]);
}

#[test]
fn acceptable_honours_refusals_and_wildcard() {
    assert_eq!(Compression::new(Some("gzip;q=0, br"), &[Gzip, Brotli]).acceptable, vec![Brotli]);
    let spaced = Compression::new(Some("gzip; Q=0.000 , br"), &[Gzip, Brotli]);
    assert_eq!(spaced.acceptable, vec![Brotli]);
    assert_eq!(Compression::new(Some("gzip;q=0.001"), &[Gzip]).acceptable, vec![Gzip]);
    assert_eq!(Compression::new(Some("*"), &[Gzip, Zstd]).acceptable, vec![Gzip, Zstd]);
    assert_eq!(Compression::new(Some("*;q=0"), &[Gzip, Zstd]).acceptable, vec![]);
    assert_eq!(Compression::new(Some("*, gzip;q=0"), &[Gzip, Zstd]).acceptable, vec![Zstd]);
    assert_eq!(Compression::new(Some("*;q=0, zstd"), &[Gzip, Zstd]).acceptable, vec![Zstd]);
    assert_eq!(Compression::new(Some("GZip , BR"), &[Gzip, Brotli]).acceptable, vec![Gzip, Brotli]);
    assert_eq!(Compression::new(Some("gzip;q=0, gzip"), &[Gzip]).acceptable, vec![]);
}

#[test]
fn transform_header_without_variant() {
    let mut header = ResponseHeader::build(200);
    header.append_header("Content-Length", &chars("5"));
    let compression = Compression { acceptable: vec![Gzip], active: None };
    let out = compression.transform_header(header.clone());
    assert_eq!(out, header);
}

#[test]
fn transform_header_with_variant() {
    let mut header = ResponseHeader::build(200);
    header.append_header("Content-Length", &chars("5"));
    let compression = Compression { acceptable: vec![], active: Some(Brotli) };
    let out = compression.transform_header(header);
    assert_eq!(out.status, 200);
    assert_eq!(
        fields(&out),
        vec![("Content-Length", "5"), ("Content-Encoding", "br"), ("Vary", "Accept-Encoding")]
    );
}

#[test]
fn transform_header_merges_vary() {
    let compression = Compression { acceptable: vec![], active: Some(Gzip) };
    let mut header = ResponseHeader::build(200);
    header.append_header("vary", &chars("Origin"));
    let out = compression.transform_header(header);
    assert_eq!(
        fields(&out),
        vec![("vary", "Origin, Accept-Encoding"), ("Content-Encoding", "gzip")]
    );

    let mut listed = ResponseHeader::build(200);
    listed.append_header("Vary", &chars("Origin, accept-encoding"));
    let out = compression.transform_header(listed);
    assert_eq!(
        fields(&out),
        vec![("Vary", "Origin, accept-encoding"), ("Content-Encoding", "gzip")]
    );

    let mut any = ResponseHeader::build(200);
    any.append_header("Vary", &chars("*"));
    let out = compression.transform_header(any);
    assert_eq!(fields(&out), vec![("Vary", "*"), ("Content-Encoding", "gzip")]);
}
