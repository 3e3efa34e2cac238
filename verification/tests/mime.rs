use static_files::mime_matcher::MimeMatcher;
use static_files::mime_types::media_type_for;

fn media_type(path: &str) -> String {
    media_type_for(path.as_bytes()).into_iter().collect()
}

#[test]
fn media_type_by_extension() {
    assert_eq!(media_type("/srv/www/index.html"), "text/html");
    assert_eq!(media_type("/srv/www/a.b/style.css"), "text/css");
    assert_eq!(media_type("/srv/www/app.js"), "text/javascript");
    assert_eq!(media_type("/srv/www/data.json"), "application/json");
    assert_eq!(media_type("/srv/www/logo.svg"), "image/svg+xml");
    assert_eq!(media_type("/srv/www/photo.JPG"), "image/jpeg");
    assert_eq!(media_type("/srv/www/archive.tar.gz"), "application/gzip");
    assert_eq!(media_type("notes.txt"), "text/plain");
    assert_eq!(media_type("/srv/www/feed.atom"), "application/atom+xml");
}

#[test]
fn media_type_of_unknown_files() {
    assert_eq!(media_type("/srv/www/README"), "application/octet-stream");
    assert_eq!(media_type("/srv/www/.html"), "application/octet-stream");
    assert_eq!(media_type("/srv/www.d/file"), "application/octet-stream");
    assert_eq!(media_type("/srv/www/file."), "application/octet-stream");
    assert_eq!(media_type("/srv/www/file.xyz"), "application/octet-stream");
    assert_eq!(media_type(""), "application/octet-stream");
}

#[test]
fn matcher_exact_pattern() {
    let mut matcher = MimeMatcher::new();
    matcher.add("application/json");
    assert!(matcher.matches("application/json"));
    assert!(matcher.matches("Application/JSON"));
    assert!(matcher.matches("application/json; charset=utf-8"));
    assert!(matcher.matches(" application/json ;q=1"));
    assert!(!matcher.matches("application/json5"));
    assert!(!matcher.matches("application/jso"));
    assert!(!matcher.matches("text/plain"));
}

#[test]
fn matcher_type_pattern() {
    let mut matcher = MimeMatcher::new();
    matcher.add("text/*");
    assert!(matcher.matches("text/plain"));
    assert!(matcher.matches("TEXT/HTML; charset=iso-8859-1"));
    assert!(matcher.matches("text/"));
    assert!(!matcher.matches("text"));
    assert!(!matcher.matches("texture/plain"));
    assert!(!matcher.matches("application/text"));
}

#[test]
fn matcher_suffix_pattern() {
    let mut matcher = MimeMatcher::new();
    matcher.add("*+xml");
    assert!(matcher.matches("image/svg+xml"));
    assert!(matcher.matches("application/atom+XML; charset=utf-8"));
    assert!(!matcher.matches("text/xml"));
    assert!(!matcher.matches("application/xml+json"));
    assert!(!matcher.matches("svg+xml"));
    assert!(!matcher.matches("a+xml/plain"));
}

#[test]
fn matcher_any_pattern_suffices() {
    let mut matcher = MimeMatcher::new();
    assert!(!matcher.matches("text/plain"));
    matcher.add(" Text/* ");
    matcher.add("*+json");
    matcher.add("application/javascript");
    assert!(matcher.matches("text/plain"));
    assert!(matcher.matches("application/ld+json"));
    assert!(matcher.matches("application/javascript"));
    assert!(!matcher.matches("image/png"));
    assert_eq!(matcher.patterns.len(), 3);
    assert_eq!(matcher.patterns[0], "text/*".chars().collect::<Vec<char>>());
}
