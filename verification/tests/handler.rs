use static_files::compression_algorithm::CompressionAlgorithm;
use static_files::compression_algorithm::CompressionAlgorithm::{Brotli, Gzip, Zstd};
use static_files::configuration::StaticFilesConf;
use static_files::handler::{ConfError, Entry, Event, State, StaticFilesHandler, Step};
use static_files::metadata::{FileInfo, Metadata};
use static_files::path::FsError;
use static_files::request::{Method, Request, RequestHeaders};
use static_files::request_filter::RequestFilterResult;
use static_files::response::{Body, Response};

const ROOT: &str = "/srv/www";
const MODIFIED: u64 = 784111777;
const DATE: &str = "Sun, 06 Nov 1994 08:49:37 GMT";

/// What the pretended file system holds at a path.
#[derive(Clone)]
enum Node {
    Dir,
    File(u64),
    Link(&'static str),
    Locked,
}

struct Disk(Vec<(&'static str, Node)>);

impl Disk {
    fn node(&self, path: &[u8]) -> Option<Node> {
        self.0.iter().find(|(p, _)| p.as_bytes() == path).map(|(_, n)| n.clone())
    }

    fn resolve(&self, path: &[u8]) -> Result<Entry, FsError> {
        match self.node(path) {
            None => Err(FsError::NotFound),
            Some(Node::Locked) => Err(FsError::PermissionDenied),
            Some(Node::Link(target)) => self.resolve(target.as_bytes()),
            Some(Node::Dir) => Ok(Entry { path: path.to_vec(), is_dir: true }),
            Some(Node::File(_)) => Ok(Entry { path: path.to_vec(), is_dir: false }),
        }
    }

    fn is_file(&self, path: &[u8]) -> bool {
        matches!(self.node(path), Some(Node::File(_)))
    }

    fn stat(&self, path: &[u8]) -> Result<FileInfo, FsError> {
        match self.node(path) {
            Some(Node::File(size)) => {
                Ok(FileInfo { is_file: true, size, modified: Some(MODIFIED) })
            }
            Some(Node::Dir) => {
                Ok(FileInfo { is_file: false, size: 4096, modified: Some(MODIFIED) })
            }
            Some(Node::Locked) => Err(FsError::PermissionDenied),
            _ => Err(FsError::NotFound),
        }
    }
}

fn disk() -> Disk {
    Disk(vec![
        ("/srv/www", Node::Dir),
        ("/srv/www/index.html", Node::File(100)),
        ("/srv/www/large.txt", Node::File(1000)),
        ("/srv/www/large.txt.gz", Node::File(300)),
        ("/srv/www/large.txt.br", Node::File(200)),
        ("/srv/www/empty.txt", Node::File(0)),
        ("/srv/www/only.css", Node::File(50)),
        ("/srv/www/only.css.gz", Node::File(20)),
        ("/srv/www/subdir", Node::Dir),
        ("/srv/www/subdir/index.htm", Node::File(10)),
        ("/srv/www/bare", Node::Dir),
        ("/srv/www/404.html", Node::File(44)),
        ("/srv/www/secret", Node::Locked),
        ("/srv/www/out", Node::Link("/etc/passwd")),
        ("/srv/www/alias.txt", Node::Link("/srv/www/large.txt")),
        ("/etc/passwd", Node::File(7)),
    ])
}

fn conf() -> StaticFilesConf {
    let mut conf = StaticFilesConf::new();
    conf.root = Some(ROOT.as_bytes().to_vec());
    conf.index_file = vec!["index.html".to_string(), "index.htm".to_string()];
    conf
}

fn handler_of(conf: StaticFilesConf) -> StaticFilesHandler {
    handler(conf)
}

fn handler(conf: StaticFilesConf) -> StaticFilesHandler {
    let root = conf.root.clone().map(Ok);
    StaticFilesHandler::try_from(conf, root).unwrap()
}

fn request(method: Method, path: &str) -> Request {
    Request {
        method,
        path: path.to_string(),
        query: None,
        original_path: path.to_string(),
        headers: RequestHeaders::new(),
    }
}

fn get(path: &str) -> Request {
    request(Method::Get, path)
}

/// Runs the handler against the pretended file system; gives the last step
/// and the questions that were asked on the way.
fn run_traced(handler: &StaticFilesHandler, request: &Request, disk: &Disk) -> (Step, Vec<Step>) {
    let (mut state, mut step) = handler.begin(request);
    let mut asked = Vec::new();
    for _ in 0..100 {
        let event = match &step {
            Step::Resolve(path) => Event::Resolved(disk.resolve(path)),
            Step::Probe(path) => Event::Probed(disk.is_file(path)),
            Step::Stat(path) => Event::Stated(disk.stat(path)),
            _ => {
                assert_eq!(state, State::Done);
                return (step, asked);
            }
        };
        asked.push(step.clone());
        let next = handler.advance(request, state, event);
        state = next.0;
        step = next.1;
    }
    panic!("the handler does not come to an end");
}

fn run(handler: &StaticFilesHandler, request: &Request) -> Step {
    run_traced(handler, request, &disk()).0
}

fn sent(step: Step) -> Response {
    match step {
        Step::Send(response) => response,
        other => panic!("no response but {:?}", other),
    }
}

fn field<'a>(response: &'a Response, name: &str) -> Option<&'a str> {
    response.header.headers.iter().find(|h| h.name == name).map(|h| h.value.as_str())
}

fn file_body(path: &str, start: u64, end: u64) -> Body {
    Body::File { path: path.as_bytes().to_vec(), start, end }
}

#[test]
fn unconfigured_handler_leaves_requests_alone() {
    let handler = handler(StaticFilesConf::new());
    assert_eq!(handler.root, None);
    let (state, step) = handler.begin(&get("/large.txt"));
    assert_eq!(state, State::Done);
    assert_eq!(step, Step::Unhandled);
    assert_eq!(step.result(), Some(RequestFilterResult::Unhandled));
}

#[test]
fn try_from_needs_an_accessible_root() {
    assert_eq!(
        StaticFilesHandler::try_from(conf(), Some(Err(FsError::NotFound))),
        Err(ConfError::RootInaccessible(FsError::NotFound))
    );
    assert_eq!(
        StaticFilesHandler::try_from(conf(), Some(Err(FsError::PermissionDenied))),
        Err(ConfError::RootInaccessible(FsError::PermissionDenied))
    );
    assert_eq!(
        StaticFilesHandler::try_from(conf(), None),
        Err(ConfError::RootInaccessible(FsError::NotFound))
    );
    let handler = StaticFilesHandler::try_from(conf(), Some(Ok(b"/real/www".to_vec()))).unwrap();
    assert_eq!(handler.root, Some(b"/real/www".to_vec()));
    assert_eq!(handler.index_file, vec!["index.html", "index.htm"]);
    assert!(handler.canonicalize_uri);
    assert_eq!(handler.declare_charset, "utf-8");
}

#[test]
fn try_from_sets_up_the_text_types() {
    let handler = handler(conf());
    let matcher = &handler.declare_charset_matcher;
    assert_eq!(matcher.patterns.len(), 6);
    assert!(matcher.matches("text/html"));
    assert!(matcher.matches("image/svg+xml"));
    assert!(matcher.matches("application/ld+json"));
    assert!(matcher.matches("application/javascript"));
    assert!(matcher.matches("application/json"));
    assert!(matcher.matches("application/json5"));
    assert!(!matcher.matches("image/png"));

    let mut own = conf();
    own.declare_charset_types = vec!["image/*".to_string()];
    let handler = handler_of(own);
    assert_eq!(handler.declare_charset_matcher.patterns.len(), 1);
    assert!(handler.declare_charset_matcher.matches("image/png"));
    assert!(!handler.declare_charset_matcher.matches("text/html"));
}

#[test]
fn whole_file() {
    let response = sent(run(&handler(conf()), &get("/large.txt")));
    assert_eq!(response.header.status, 200);
    let fields: Vec<(&str, &str)> =
        response.header.headers.iter().map(|h| (h.name.as_str(), h.value.as_str())).collect();
    assert_eq!(
        fields,
        vec![
            ("Content-Length", "1000"),
            ("Content-Type", "text/plain;charset=utf-8"),
            ("ETag", "\"2ebc98a1-3e8\""),
            ("Last-Modified", DATE),
            ("Accept-Ranges", "bytes"),
        ]
    );
    assert_eq!(response.body, file_body("/srv/www/large.txt", 0, 999));
}

#[test]
fn questions_in_order() {
    let (_, asked) = run_traced(&handler(conf()), &get("/large.txt"), &disk());
    assert_eq!(
        asked,
        vec![
            Step::Resolve(b"/srv/www/large.txt".to_vec()),
            Step::Stat(b"/srv/www/large.txt".to_vec()),
        ]
    );
    assert_eq!(asked[0].result(), None);
}

#[test]
fn head_has_no_body() {
    let response = sent(run(&handler(conf()), &request(Method::Head, "/large.txt")));
    assert_eq!(response.header.status, 200);
    assert_eq!(field(&response, "Content-Length"), Some("1000"));
    assert_eq!(response.body, Body::Empty);

    let mut ranged = request(Method::Head, "/large.txt");
    ranged.headers.range = Some("bytes=0-99".to_string());
    let response = sent(run(&handler(conf()), &ranged));
    assert_eq!(response.header.status, 206);
    assert_eq!(field(&response, "Content-Length"), Some("100"));
    assert_eq!(response.body, Body::Empty);
}

#[test]
fn empty_file() {
    let response = sent(run(&handler(conf()), &get("/empty.txt")));
    assert_eq!(response.header.status, 200);
    assert_eq!(field(&response, "Content-Length"), Some("0"));
    assert_eq!(response.body, Body::Empty);

    let mut ranged = get("/empty.txt");
    ranged.headers.range = Some("bytes=-0".to_string());
    let response = sent(run(&handler(conf()), &ranged));
    assert_eq!(response.header.status, 416);
    assert_eq!(field(&response, "Content-Range"), Some("bytes */0"));
}

#[test]
fn other_methods_are_refused() {
    assert_eq!(run(&handler(conf()), &request(Method::Other, "/large.txt")), Step::Error(405));
    assert_eq!(Step::Error(405).result(), Some(RequestFilterResult::ResponseSent));
}

#[test]
fn malformed_and_escaping_paths() {
    let handler = handler(conf());
    assert_eq!(run(&handler, &get("large.txt")), Step::Error(400));
    assert_eq!(run(&handler, &get("/a%zz")), Step::Error(400));
    assert_eq!(run(&handler, &get("/../etc/passwd")), Step::Error(400));
    assert_eq!(run(&handler, &get("/subdir/../../etc/passwd")), Step::Error(400));
    assert_eq!(run(&handler, &get("/out")), Step::Error(400));
}

#[test]
fn missing_and_forbidden_files() {
    let handler = handler(conf());
    assert_eq!(run(&handler, &get("/missing.txt")), Step::Error(404));
    assert_eq!(run(&handler, &get("/secret")), Step::Error(403));
}

#[test]
fn directory_without_index_is_forbidden() {
    assert_eq!(run(&handler(conf()), &get("/bare/")), Step::Error(403));
}

#[test]
fn directory_index() {
    let handler = handler(conf());
    let (step, asked) = run_traced(&handler, &get("/"), &disk());
    let response = sent(step);
    assert_eq!(response.header.status, 200);
    assert_eq!(field(&response, "Content-Type"), Some("text/html;charset=utf-8"));
    assert_eq!(response.body, file_body("/srv/www/index.html", 0, 99));
    assert_eq!(
        asked,
        vec![
            Step::Resolve(b"/srv/www".to_vec()),
            Step::Probe(b"/srv/www/index.html".to_vec()),
            Step::Stat(b"/srv/www/index.html".to_vec()),
        ]
    );

    let (step, asked) = run_traced(&handler, &get("/subdir/"), &disk());
    assert_eq!(sent(step).body, file_body("/srv/www/subdir/index.htm", 0, 9));
    assert_eq!(asked.len(), 4);
    assert_eq!(asked[1], Step::Probe(b"/srv/www/subdir/index.html".to_vec()));
    assert_eq!(asked[2], Step::Probe(b"/srv/www/subdir/index.htm".to_vec()));
}

#[test]
fn first_index_file_wins() {
    let mut files = disk();
    files.0.push(("/srv/www/subdir/index.html", Node::File(77)));
    let (step, _) = run_traced(&handler(conf()), &get("/subdir/"), &files);
    assert_eq!(sent(step).body, file_body("/srv/www/subdir/index.html", 0, 76));
}

#[test]
fn redirect_to_canonical_uri() {
    let handler = handler(conf());
    assert_eq!(run(&handler, &get("/subdir")), Step::Redirect("/subdir/".to_string()));
    assert_eq!(run(&handler, &get("//large.txt")), Step::Redirect("/large.txt".to_string()));
    assert_eq!(
        run(&handler, &get("/subdir/../large.txt")),
        Step::Redirect("/large.txt".to_string())
    );
    assert_eq!(run(&handler, &get("/large%2Etxt")), Step::Redirect("/large.txt".to_string()));
    assert_eq!(run(&handler, &get("/alias.txt")), Step::Redirect("/large.txt".to_string()));
    assert_eq!(
        Step::Redirect("/x".to_string()).result(),
        Some(RequestFilterResult::ResponseSent)
    );
    assert_eq!(Step::Redirect("/x".to_string()).status(), Some(308));
    assert_eq!(Step::Error(404).status(), Some(404));
    assert_eq!(Step::Unhandled.status(), None);
    assert_eq!(Step::Probe(b"/x".to_vec()).status(), None);
    assert_eq!(run(&handler, &get("/large.txt")).status(), Some(200));
}

#[test]
fn redirect_keeps_query_and_prefix() {
    let handler = handler(conf());
    let mut with_query = get("/subdir");
    with_query.query = Some("a=b&c".to_string());
    assert_eq!(run(&handler, &with_query), Step::Redirect("/subdir/?a=b&c".to_string()));

    let mut rewritten = get("/subdir");
    rewritten.original_path = "/static/subdir".to_string();
    rewritten.query = Some("x".to_string());
    assert_eq!(run(&handler, &rewritten), Step::Redirect("/static/subdir/?x".to_string()));

    let mut unrelated = get("/subdir");
    unrelated.original_path = "/elsewhere".to_string();
    assert_eq!(run(&handler, &unrelated), Step::Redirect("/subdir/".to_string()));
}

#[test]
fn canonical_uri_is_not_redirected_again() {
    let handler = handler(conf());
    for alias in ["/subdir", "//large.txt", "/./large.txt", "/alias.txt"] {
        let target = match run(&handler, &get(alias)) {
            Step::Redirect(target) => target,
            other => panic!("no redirect but {:?}", other),
        };
        let response = sent(run(&handler, &get(&target)));
        assert_eq!(response.header.status, 200);
    }
}

#[test]
fn no_redirect_when_switched_off() {
    let mut conf = conf();
    conf.canonicalize_uri = false;
    let handler = handler(conf);
    let response = sent(run(&handler, &get("//large.txt")));
    assert_eq!(response.header.status, 200);
    assert_eq!(response.body, file_body("/srv/www/large.txt", 0, 999));
    let response = sent(run(&handler, &get("/subdir")));
    assert_eq!(response.body, file_body("/srv/www/subdir/index.htm", 0, 9));
}

#[test]
fn page_404() {
    let mut conf = conf();
    conf.page_404 = Some("/404.html".to_string());
    let handler = handler(conf);
    let (step, asked) = run_traced(&handler, &get("/missing.txt"), &disk());
    let response = sent(step);
    assert_eq!(response.header.status, 404);
    assert_eq!(field(&response, "Content-Length"), Some("44"));
    assert_eq!(field(&response, "Content-Type"), Some("text/html;charset=utf-8"));
    assert_eq!(response.body, file_body("/srv/www/404.html", 0, 43));
    assert_eq!(asked[0], Step::Resolve(b"/srv/www/missing.txt".to_vec()));
    assert_eq!(asked[1], Step::Resolve(b"/srv/www/404.html".to_vec()));

    let head = sent(run(&handler, &request(Method::Head, "/missing.txt")));
    assert_eq!(head.header.status, 404);
    assert_eq!(head.body, Body::Empty);
}

#[test]
fn page_404_that_is_missing_itself() {
    let mut conf = conf();
    conf.page_404 = Some("/nowhere.html".to_string());
    assert_eq!(run(&handler(conf), &get("/missing.txt")), Step::Error(404));
    let mut conf = self::conf();
    conf.page_404 = Some("404.html".to_string());
    assert_eq!(run(&handler(conf), &get("/missing.txt")), Step::Error(404));
    let mut conf = self::conf();
    conf.page_404 = Some("/secret".to_string());
    assert_eq!(run(&handler(conf), &get("/missing.txt")), Step::Error(404));
}

#[test]
fn page_404_is_not_redirected() {
    let mut conf = conf();
    conf.page_404 = Some("//404.html".to_string());
    let response = sent(run(&handler(conf), &get("/missing.txt")));
    assert_eq!(response.header.status, 404);
}

#[test]
fn not_modified_and_precondition_failed() {
    let handler = handler(conf());
    let mut request = get("/large.txt");
    request.headers.if_none_match = Some("\"2ebc98a1-3e8\"".to_string());
    let response = sent(run(&handler, &request));
    assert_eq!(response.header.status, 304);
    assert_eq!(field(&response, "Content-Length"), None);
    assert_eq!(field(&response, "Content-Type"), None);
    assert_eq!(field(&response, "ETag"), Some("\"2ebc98a1-3e8\""));
    assert_eq!(field(&response, "Last-Modified"), Some(DATE));
    assert_eq!(response.body, Body::Empty);

    let mut request = get("/large.txt");
    request.headers.if_match = Some("\"other\"".to_string());
    let response = sent(run(&handler, &request));
    assert_eq!(response.header.status, 412);
    assert_eq!(field(&response, "Content-Length"), None);
    assert_eq!(response.body, Body::Empty);
}

#[test]
fn conditional_precedence() {
    let handler = handler(conf());
    let mut request = get("/large.txt");
    request.headers.if_none_match = Some("\"2ebc98a1-3e8\"".to_string());
    request.headers.if_modified_since = Some("Sat, 05 Nov 1994 08:49:37 GMT".to_string());
    assert_eq!(sent(run(&handler, &request)).header.status, 304);

    request.headers.if_match = Some("\"other\"".to_string());
    assert_eq!(sent(run(&handler, &request)).header.status, 412);
}

#[test]
fn ranges() {
    let handler = handler(conf());
    let mut request = get("/large.txt");
    request.headers.range = Some("bytes=100-299".to_string());
    let response = sent(run(&handler, &request));
    assert_eq!(response.header.status, 206);
    assert_eq!(field(&response, "Content-Length"), Some("200"));
    assert_eq!(field(&response, "Content-Range"), Some("bytes 100-299/1000"));
    assert_eq!(response.body, file_body("/srv/www/large.txt", 100, 299));

    request.headers.range = Some("bytes=-500".to_string());
    assert_eq!(sent(run(&handler, &request)).body, file_body("/srv/www/large.txt", 500, 999));

    request.headers.range = Some("bytes=9500-".to_string());
    let response = sent(run(&handler, &request));
    assert_eq!(response.header.status, 416);
    assert_eq!(field(&response, "Content-Range"), Some("bytes */1000"));
    assert_eq!(field(&response, "Content-Type"), None);
    assert_eq!(response.body, Body::Empty);

    request.headers.range = Some("pages=1-2".to_string());
    let response = sent(run(&handler, &request));
    assert_eq!(response.header.status, 200);
    assert_eq!(response.body, file_body("/srv/www/large.txt", 0, 999));
}

#[test]
fn stale_if_range_gives_the_whole_file() {
    let handler = handler(conf());
    let mut request = get("/large.txt");
    request.headers.range = Some("bytes=100-299".to_string());
    request.headers.if_range = Some("\"stale\"".to_string());
    let response = sent(run(&handler, &request));
    assert_eq!(response.header.status, 200);
    assert_eq!(field(&response, "Content-Length"), Some("1000"));
    assert_eq!(field(&response, "Content-Range"), None);
    assert_eq!(response.body, file_body("/srv/www/large.txt", 0, 999));

    request.headers.range = Some("bytes=9500-".to_string());
    assert_eq!(sent(run(&handler, &request)).header.status, 200);

    request.headers.if_range = Some("\"2ebc98a1-3e8\"".to_string());
    assert_eq!(sent(run(&handler, &request)).header.status, 416);
}

fn precompressed(order: Vec<CompressionAlgorithm>) -> StaticFilesHandler {
    let mut conf = conf();
    conf.precompressed = order;
    handler(conf)
}

#[test]
fn precompressed_variant_in_configured_order() {
    let mut request = get("/large.txt");
    request.headers.accept_encoding = Some("gzip, br".to_string());

    let (step, asked) = run_traced(&precompressed(vec![Brotli, Gzip]), &request, &disk());
    let response = sent(step);
    assert_eq!(response.header.status, 200);
    assert_eq!(field(&response, "Content-Encoding"), Some("br"));
    assert_eq!(field(&response, "Vary"), Some("Accept-Encoding"));
    assert_eq!(field(&response, "Content-Length"), Some("200"));
    assert_eq!(field(&response, "Content-Type"), Some("text/plain;charset=utf-8"));
    assert_eq!(field(&response, "ETag"), Some("\"2ebc98a1-c8\""));
    assert_eq!(response.body, file_body("/srv/www/large.txt.br", 0, 199));
    assert_eq!(
        asked,
        vec![
            Step::Resolve(b"/srv/www/large.txt".to_vec()),
            Step::Probe(b"/srv/www/large.txt.br".to_vec()),
            Step::Stat(b"/srv/www/large.txt.br".to_vec()),
        ]
    );

    let response = sent(run(&precompressed(vec![Gzip, Brotli]), &request));
    assert_eq!(field(&response, "Content-Encoding"), Some("gzip"));
    assert_eq!(response.body, file_body("/srv/www/large.txt.gz", 0, 299));
}

#[test]
fn precompressed_variant_skips_what_is_missing_or_not_accepted() {
    let handler = precompressed(vec![Zstd, Brotli, Gzip]);
    let mut request = get("/only.css");
    request.headers.accept_encoding = Some("gzip, br, zstd".to_string());
    let (step, asked) = run_traced(&handler, &request, &disk());
    let response = sent(step);
    assert_eq!(field(&response, "Content-Encoding"), Some("gzip"));
    assert_eq!(field(&response, "Content-Type"), Some("text/css;charset=utf-8"));
    assert_eq!(response.body, file_body("/srv/www/only.css.gz", 0, 19));
    assert_eq!(asked.len(), 5);
    assert_eq!(asked[1], Step::Probe(b"/srv/www/only.css.zst".to_vec()));
    assert_eq!(asked[2], Step::Probe(b"/srv/www/only.css.br".to_vec()));
    assert_eq!(asked[3], Step::Probe(b"/srv/www/only.css.gz".to_vec()));

    let mut request = get("/large.txt");
    request.headers.accept_encoding = Some("gzip".to_string());
    let response = sent(run(&handler, &request));
    assert_eq!(field(&response, "Content-Encoding"), Some("gzip"));

    request.headers.accept_encoding = Some("identity".to_string());
    let response = sent(run(&handler, &request));
    assert_eq!(field(&response, "Content-Encoding"), None);
    assert_eq!(field(&response, "Vary"), None);
    assert_eq!(response.body, file_body("/srv/www/large.txt", 0, 999));

    request.headers.accept_encoding = None;
    let response = sent(run(&handler, &request));
    assert_eq!(field(&response, "Content-Encoding"), None);

    let mut request = get("/index.html");
    request.headers.accept_encoding = Some("gzip, br, zstd".to_string());
    let response = sent(run(&handler, &request));
    assert_eq!(field(&response, "Content-Encoding"), None);
    assert_eq!(response.body, file_body("/srv/www/index.html", 0, 99));
}

#[test]
fn precompressed_variant_with_conditions_and_ranges() {
    let handler = precompressed(vec![Gzip]);
    let mut request = get("/large.txt");
    request.headers.accept_encoding = Some("gzip".to_string());
    request.headers.if_none_match = Some("\"2ebc98a1-12c\"".to_string());
    let response = sent(run(&handler, &request));
    assert_eq!(response.header.status, 304);
    assert_eq!(field(&response, "Content-Encoding"), Some("gzip"));
    assert_eq!(field(&response, "Vary"), Some("Accept-Encoding"));

    request.headers.if_none_match = None;
    request.headers.range = Some("bytes=-100".to_string());
    let response = sent(run(&handler, &request));
    assert_eq!(response.header.status, 206);
    assert_eq!(field(&response, "Content-Range"), Some("bytes 200-299/300"));
    assert_eq!(field(&response, "Content-Encoding"), Some("gzip"));
    assert_eq!(response.body, file_body("/srv/www/large.txt.gz", 200, 299));
}

#[test]
fn no_variant_of_a_directory() {
    let handler = precompressed(vec![Gzip, Brotli]);
    let mut files = disk();
    files.0.push(("/srv/www/bare.gz", Node::File(5)));
    files.0.push(("/srv/www.gz", Node::File(6)));
    files.0.push(("/srv/bare", Node::Dir));

    let mut request = get("/bare/");
    request.headers.accept_encoding = Some("gzip, br".to_string());
    let (step, asked) = run_traced(&handler, &request, &files);
    assert_eq!(step, Step::Error(403));
    assert_eq!(
        asked,
        vec![
            Step::Resolve(b"/srv/www/bare".to_vec()),
            Step::Probe(b"/srv/www/bare/index.html".to_vec()),
            Step::Probe(b"/srv/www/bare/index.htm".to_vec()),
            Step::Stat(b"/srv/www/bare".to_vec()),
        ]
    );

    let mut conf = conf();
    conf.index_file = Vec::new();
    conf.precompressed = vec![Gzip];
    let handler = handler_of(conf);
    let mut request = get("/");
    request.headers.accept_encoding = Some("gzip".to_string());
    let (step, asked) = run_traced(&handler, &request, &files);
    assert_eq!(step, Step::Error(403));
    assert_eq!(
        asked,
        vec![Step::Resolve(b"/srv/www".to_vec()), Step::Stat(b"/srv/www".to_vec())]
    );
}

#[test]
fn questions_stay_within_the_root() {
    let mut conf = conf();
    conf.precompressed = vec![Zstd, Gzip, Brotli];
    conf.page_404 = Some("/404.html".to_string());
    let handler = handler_of(conf);
    let paths = [
        "/", "/large.txt", "/subdir", "/subdir/", "/bare/", "/missing", "/out", "/alias.txt",
        "/a/../large.txt", "/%2e%2e/x", "/..", "//large.txt", "/secret",
    ];
    for path in paths {
        let mut request = get(path);
        request.headers.accept_encoding = Some("*".to_string());
        let (step, asked) = run_traced(&handler, &request, &disk());
        for question in asked {
            let asked_for = match question {
                Step::Resolve(p) | Step::Probe(p) | Step::Stat(p) => p,
                _ => unreachable!(),
            };
            assert!(asked_for == b"/srv/www" || asked_for.starts_with(b"/srv/www/"));
        }
        if let Step::Send(response) = step {
            if let Body::File { path, .. } = response.body {
                assert!(path.starts_with(b"/srv/www/"));
            }
        }
    }
}

#[test]
fn charset_only_for_text() {
    let mut files = disk();
    files.0.push(("/srv/www/logo.png", Node::File(9)));
    let handler = handler(conf());
    let (step, _) = run_traced(&handler, &get("/logo.png"), &files);
    assert_eq!(field(&sent(step), "Content-Type"), Some("image/png"));
    let (step, _) = run_traced(&handler, &get("/index.html"), &files);
    assert_eq!(field(&sent(step), "Content-Type"), Some("text/html;charset=utf-8"));
}

#[test]
fn metadata_failure_is_a_server_error() {
    let handler = handler(conf());
    let request = get("/large.txt");
    let (state, step) = handler.begin(&request);
    assert_eq!(step, Step::Resolve(b"/srv/www/large.txt".to_vec()));
    let entry = Entry { path: b"/srv/www/large.txt".to_vec(), is_dir: false };
    let (state, step) = handler.advance(&request, state, Event::Resolved(Ok(entry)));
    assert_eq!(step, Step::Stat(b"/srv/www/large.txt".to_vec()));
    let (state, step) = handler.advance(&request, state, Event::Stated(Err(FsError::Other)));
    assert_eq!(state, State::Done);
    assert_eq!(step, Step::Error(500));
}

#[test]
fn lookup_failure_is_a_server_error() {
    let handler = handler(conf());
    let request = get("/large.txt");
    let (state, _) = handler.begin(&request);
    let (state, step) = handler.advance(&request, state, Event::Resolved(Err(FsError::Other)));
    assert_eq!(state, State::Done);
    assert_eq!(step, Step::Error(500));
}

#[test]
fn reply_out_of_turn_is_a_server_error() {
    let handler = handler(conf());
    let request = get("/large.txt");
    let (state, _) = handler.begin(&request);
    let (state, step) = handler.advance(&request, state, Event::Probed(true));
    assert_eq!(state, State::Done);
    assert_eq!(step, Step::Error(500));
    let (_, step) = handler.advance(&request, State::Done, Event::Probed(true));
    assert_eq!(step, Step::Error(500));
}

#[test]
fn respond_is_the_last_stage() {
    let handler = handler(conf());
    let info = FileInfo { is_file: true, size: 1000, modified: Some(MODIFIED) };
    let meta = Metadata::from_path(b"/srv/www/large.txt", None, &info).unwrap();
    let response = handler.respond(&get("/large.txt"), &meta, None, false);
    assert_eq!(response, sent(run(&handler, &get("/large.txt"))));
    let marked = handler.respond(&get("/large.txt"), &meta, None, true);
    assert_eq!(marked.header.status, 404);
    assert_eq!(marked.header.headers, response.header.headers);
}
