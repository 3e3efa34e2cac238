use static_files::path::{confine, path_to_uri, resolve_uri, within, FsError, PathError};

#[test]
fn resolve_plain_path() {
    assert_eq!(resolve_uri("/a/b.txt", b"/srv/www"), Ok(b"/srv/www/a/b.txt".to_vec()));
    assert_eq!(resolve_uri("/", b"/srv/www"), Ok(b"/srv/www".to_vec()));
    assert_eq!(resolve_uri("/a/", b"/srv/www"), Ok(b"/srv/www/a".to_vec()));
    assert_eq!(resolve_uri("/a", b"/"), Ok(b"/a".to_vec()));
    assert_eq!(resolve_uri("/", b"/"), Ok(b"/".to_vec()));
}

#[test]
fn resolve_collapses_dot_segments_and_slashes() {
    assert_eq!(resolve_uri("/a/./b/../c", b"/srv"), Ok(b"/srv/a/c".to_vec()));
    assert_eq!(resolve_uri("//a///b", b"/srv"), Ok(b"/srv/a/b".to_vec()));
    assert_eq!(resolve_uri("/a/b/../../c", b"/srv"), Ok(b"/srv/c".to_vec()));
    assert_eq!(resolve_uri("/a/..", b"/srv"), Ok(b"/srv".to_vec()));
}

#[test]
fn resolve_decodes_percent_escapes() {
    assert_eq!(resolve_uri("/a%20b", b"/srv"), Ok(b"/srv/a b".to_vec()));
    assert_eq!(resolve_uri("/caf%C3%A9", b"/srv"), Ok("/srv/café".as_bytes().to_vec()));
    assert_eq!(resolve_uri("/a%2fb", b"/srv"), Ok(b"/srv/a/b".to_vec()));
    assert_eq!(resolve_uri("/%2e%2e/x", b"/srv"), Err(PathError::Escape));
}

#[test]
fn resolve_rejects_malformed_paths() {
    assert_eq!(resolve_uri("", b"/srv"), Err(PathError::Malformed));
    assert_eq!(resolve_uri("a/b", b"/srv"), Err(PathError::Malformed));
    assert_eq!(resolve_uri("/a%", b"/srv"), Err(PathError::Malformed));
    assert_eq!(resolve_uri("/a%2", b"/srv"), Err(PathError::Malformed));
    assert_eq!(resolve_uri("/a%zz", b"/srv"), Err(PathError::Malformed));
    assert_eq!(resolve_uri("/a%00b", b"/srv"), Err(PathError::Malformed));
}

#[test]
fn resolve_rejects_traversal_above_root() {
    assert_eq!(resolve_uri("/..", b"/srv"), Err(PathError::Escape));
    assert_eq!(resolve_uri("/../etc/passwd", b"/srv"), Err(PathError::Escape));
    assert_eq!(resolve_uri("/a/../../etc/passwd", b"/srv"), Err(PathError::Escape));
    assert_eq!(resolve_uri("/a/b/../../../x", b"/srv"), Err(PathError::Escape));
    assert_eq!(resolve_uri("/a/../b/../../x/y/z", b"/srv"), Err(PathError::Escape));
}

#[test]
fn confine_checks_the_canonical_path() {
    assert_eq!(confine(Ok(b"/srv/www/a".to_vec()), b"/srv/www"), Ok(b"/srv/www/a".to_vec()));
    assert_eq!(confine(Ok(b"/srv/www".to_vec()), b"/srv/www"), Ok(b"/srv/www".to_vec()));
    assert_eq!(confine(Ok(b"/srv/www2/a".to_vec()), b"/srv/www"), Err(PathError::Escape));
    assert_eq!(confine(Ok(b"/etc/passwd".to_vec()), b"/srv/www"), Err(PathError::Escape));
    assert_eq!(confine(Ok(b"/etc/passwd".to_vec()), b"/"), Ok(b"/etc/passwd".to_vec()));
    assert_eq!(confine(Err(FsError::NotFound), b"/srv"), Err(PathError::NotFound));
    assert_eq!(confine(Err(FsError::PermissionDenied), b"/srv"), Err(PathError::PermissionDenied));
    assert_eq!(confine(Err(FsError::Other), b"/srv"), Err(PathError::Other));
}

#[test]
fn path_error_statuses() {
    assert_eq!(PathError::Malformed.status(), 400);
    assert_eq!(PathError::Escape.status(), 400);
    assert_eq!(PathError::NotFound.status(), 404);
    assert_eq!(PathError::PermissionDenied.status(), 403);
    assert_eq!(PathError::Other.status(), 500);
}

#[test]
fn path_to_uri_encodes_names() {
    assert_eq!(path_to_uri(b"/srv/www/a/b.txt", b"/srv/www", false), Some("/a/b.txt".to_string()));
    assert_eq!(path_to_uri(b"/srv/www/a b", b"/srv/www", false), Some("/a%20b".to_string()));
    assert_eq!(
        path_to_uri("/srv/café".as_bytes(), b"/srv", false),
        Some("/caf%C3%A9".to_string())
    );
    assert_eq!(path_to_uri(b"/srv/www/dir", b"/srv/www", true), Some("/dir/".to_string()));
    assert_eq!(path_to_uri(b"/srv/www", b"/srv/www", true), Some("/".to_string()));
    assert_eq!(path_to_uri(b"/a/b", b"/", false), Some("/a/b".to_string()));
    assert_eq!(path_to_uri(b"/srv/100%", b"/srv", false), Some("/100%25".to_string()));
}

#[test]
fn path_to_uri_has_no_answer_outside_root_or_for_unclean_names() {
    assert_eq!(path_to_uri(b"/etc/passwd", b"/srv/www", false), None);
    assert_eq!(path_to_uri(b"/srv/www2", b"/srv/www", false), None);
    assert_eq!(path_to_uri(b"/srv/www/a//b", b"/srv/www", false), None);
    assert_eq!(path_to_uri(b"/srv/www/a/../b", b"/srv/www", false), None);
    assert_eq!(path_to_uri(b"/srv/www/./b", b"/srv/www", false), None);
    assert_eq!(path_to_uri(b"/srv/www/a\0b", b"/srv/www", false), None);
}

#[test]
fn canonical_uri_resolves_to_the_same_path() {
    let root = b"/srv/www";
    let path = b"/srv/www/a b/c&d/100%.txt";
    let uri = path_to_uri(path, root, false).unwrap();
    assert_eq!(resolve_uri(&uri, root), Ok(path.to_vec()));
    assert_eq!(path_to_uri(&resolve_uri(&uri, root).unwrap(), root, false), Some(uri));
}

#[test]
fn within_goes_by_whole_names() {
    assert!(within(b"/srv/www", b"/srv/www"));
    assert!(within(b"/srv/www/a", b"/srv/www"));
    assert!(within(b"/srv/www/", b"/srv/www"));
    assert!(within(b"/srv/www/a", b"/srv/www/"));
    assert!(within(b"/a", b"/"));
    assert!(within(b"/", b"/"));
    assert!(within(b"/anything", b""));
    assert!(!within(b"anything", b""));
    assert!(!within(b"/srv/www2", b"/srv/www"));
    assert!(!within(b"/srv/ww", b"/srv/www"));
    assert!(!within(b"/srv", b"/srv/www"));
    assert!(!within(b"", b"/srv/www"));
}
