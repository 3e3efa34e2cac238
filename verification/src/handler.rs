//! The handler: one request in, one response out, with the file system
//! consulted in between.
//!
//! The handler itself touches no file. It is a state machine: [`begin`] and
//! [`advance`] say what to ask of the file system next ([`Step::Resolve`],
//! [`Step::Probe`], [`Step::Stat`]) or what to answer, and the caller comes
//! back with the file system's reply as an [`Event`]:
//!
//! ```text
//! let (mut state, mut step) = handler.begin(&request);
//! loop {
//!     let event = match step {
//!         Step::Resolve(path) => Event::Resolved(/* the entry at `path` */),
//!         Step::Probe(path) => Event::Probed(/* is `path` a regular file? */),
//!         Step::Stat(path) => Event::Stated(/* the metadata of `path` */),
//!         answer => break answer,
//!     };
//!     (state, step) = handler.advance(&request, state, event);
//! }
//! ```
//!
//! What this loop comes to is said in one piece in [`crate::pipeline`].
//!
//! [`begin`]: StaticFilesHandler::begin
//! [`advance`]: StaticFilesHandler::advance

use crate::bytes::ascii_chars;
use crate::compression::{acceptable, transformed, variant_path, Compression};
use crate::compression_algorithm::CompressionAlgorithm;
use crate::configuration::{bytes_of, texts, StaticFilesConf, StaticFilesConfView};
use crate::metadata::{FileInfo, Metadata, MetadataView};
use crate::mime_matcher::{any_matches, normalized, MimeMatcher};
use crate::path::{
    confine, confine_spec, path_to_uri, path_to_uri_spec, resolve_uri, resolve_uri_spec, slash,
    FsError, PathError,
};
use crate::range::{extract_range, extract_range_spec, Range};
use crate::request::{text_of, Method, Request, RequestView};
use crate::request_filter::RequestFilterResult;
use crate::response::{Body, BodyView, Response, ResponseHeaderView, ResponseView};
use crate::text::{append, append_str, chars_of, ends_with, has_suffix, same, string_of};
use vstd::prelude::*;
use vstd::slice::slice_subrange;
use vstd::utf8::encode_utf8;

verus! {

/// Static files handler: the settings of one served directory.
#[derive(Debug, Clone, PartialEq, Eq)]
pub struct StaticFilesHandler {
    /// The canonical path of the directory that is served, if any.
    pub root: Option<Vec<u8>>,
    /// Whether requests for anything but the canonical URL of a file are
    /// redirected to it.
    pub canonicalize_uri: bool,
    /// The names of the files that stand for a directory, in the order in
    /// which they are tried.
    pub index_file: Vec<String>,
    /// The URL path of the page that is sent where nothing is found.
    pub page_404: Option<String>,
    /// The algorithms for which pre-compressed files are kept, in the order
    /// in which they are preferred.
    pub precompressed: Vec<CompressionAlgorithm>,
    /// The character set that is declared for text.
    pub declare_charset: String,
    /// The media types that count as text.
    pub declare_charset_matcher: MimeMatcher,
}

/// The handler as plain values.
pub ghost struct HandlerView {
    pub root: Option<Seq<u8>>,
    pub canonicalize_uri: bool,
    pub index_file: Seq<Seq<char>>,
    pub page_404: Option<Seq<char>>,
    pub precompressed: Seq<CompressionAlgorithm>,
    pub declare_charset: Seq<char>,
    pub charset_types: Seq<Seq<char>>,
}

impl View for StaticFilesHandler {
    type V = HandlerView;

    open spec fn view(&self) -> HandlerView {
        HandlerView {
            root: bytes_of(self.root),
            canonicalize_uri: self.canonicalize_uri,
            index_file: texts(self.index_file@),
            page_404: text_of(self.page_404),
            precompressed: self.precompressed@,
            declare_charset: self.declare_charset@,
            charset_types: self.declare_charset_matcher@,
        }
    }
}

/// Why a handler cannot be set up.
#[derive(Debug, Clone, Copy, PartialEq, Eq, Structural)]
pub enum ConfError {
    /// The root directory could not be found in the file system.
    RootInaccessible(FsError),
}

/// The media type patterns that count as text unless the settings name
/// their own.
pub open spec fn default_text_types() -> Seq<Seq<char>> {
    seq![
        normalized("text/*"@),
        normalized("*+xml"@),
        normalized("*+json"@),
        normalized("application/javascript"@),
        normalized("application/json"@),
        normalized("application/json5"@),
    ]
}

/// The patterns that a handler with the given settings goes by.
pub open spec fn charset_types_of(declared: Seq<Seq<char>>) -> Seq<Seq<char>> {
    if declared.len() == 0 {
        default_text_types()
    } else {
        declared.map_values(|p: Seq<char>| normalized(p))
    }
}

/// An entry that the file system found.
#[derive(Debug, Clone, PartialEq, Eq)]
pub struct Entry {
    /// The canonical path of the entry: absolute, with symbolic links
    /// followed.
    pub path: Vec<u8>,
    /// Whether the entry is a directory.
    pub is_dir: bool,
}

/// The file system's reply to a [`Step`].
#[derive(Debug, PartialEq, Eq)]
pub enum Event {
    /// The reply to [`Step::Resolve`]: the entry at the path, or why there
    /// is none to be had.
    Resolved(Result<Entry, FsError>),
    /// The reply to [`Step::Probe`]: whether a regular file is at the path.
    Probed(bool),
    /// The reply to [`Step::Stat`]: what the file system knows of the entry
    /// at the path, or why that cannot be had.
    Stated(Result<FileInfo, FsError>),
}

/// A reply as plain values.
pub ghost enum EventView {
    Resolved(Result<(Seq<u8>, bool), FsError>),
    Probed(bool),
    Stated(Result<FileInfo, FsError>),
}

impl View for Event {
    type V = EventView;

    open spec fn view(&self) -> EventView {
        match self {
            Event::Resolved(Ok(entry)) => EventView::Resolved(Ok((entry.path@, entry.is_dir))),
            Event::Resolved(Err(e)) => EventView::Resolved(Err(*e)),
            Event::Probed(exists) => EventView::Probed(*exists),
            Event::Stated(outcome) => EventView::Stated(*outcome),
        }
    }
}

/// What is to happen next for a request.
#[derive(Debug, Clone, PartialEq, Eq)]
pub enum Step {
    /// The handler has nothing to do with the request.
    Unhandled,
    /// Find the entry at this path in the file system; reply with
    /// [`Event::Resolved`].
    Resolve(Vec<u8>),
    /// Find out whether a regular file is at this path; reply with
    /// [`Event::Probed`].
    Probe(Vec<u8>),
    /// Read the metadata of the entry at this path; reply with
    /// [`Event::Stated`].
    Stat(Vec<u8>),
    /// Answer with the standard page for this status.
    Error(u16),
    /// Answer with the standard page for a permanent redirect, status 308,
    /// to this location.
    Redirect(String),
    /// Answer with this response.
    Send(Response),
}

/// A step as plain values.
pub ghost enum StepView {
    Unhandled,
    Resolve(Seq<u8>),
    Probe(Seq<u8>),
    Stat(Seq<u8>),
    Error(u16),
    Redirect(Seq<char>),
    Send(ResponseView),
}

impl View for Step {
    type V = StepView;

    open spec fn view(&self) -> StepView {
        match self {
            Step::Unhandled => StepView::Unhandled,
            Step::Resolve(path) => StepView::Resolve(path@),
            Step::Probe(path) => StepView::Probe(path@),
            Step::Stat(path) => StepView::Stat(path@),
            Step::Error(status) => StepView::Error(*status),
            Step::Redirect(location) => StepView::Redirect(location@),
            Step::Send(response) => StepView::Send(response@),
        }
    }
}

impl StepView {
    /// What the pipeline is told once the step has been carried out, for a
    /// step that ends the handling of the request.
    pub open spec fn result(self) -> Option<RequestFilterResult> {
        match self {
            StepView::Unhandled => Some(RequestFilterResult::Unhandled),
            StepView::Error(_) => Some(RequestFilterResult::ResponseSent),
            StepView::Redirect(_) => Some(RequestFilterResult::ResponseSent),
            StepView::Send(_) => Some(RequestFilterResult::ResponseSent),
            _ => None,
        }
    }

    /// The status of the response that the step stands for: that of the
    /// standard page, 308 for a redirect, that of the response that is
    /// sent; and none for a request that is left alone and for a question.
    pub open spec fn status(self) -> Option<u16> {
        match self {
            StepView::Error(status) => Some(status),
            StepView::Redirect(_) => Some(308),
            StepView::Send(response) => Some(response.header.status),
            _ => None,
        }
    }
}

impl Step {
    /// What the pipeline is told once the step has been carried out: `None`
    /// for a question to the file system, after which the handling goes on.
    pub fn result(&self) -> (r: Option<RequestFilterResult>)
        ensures
            r == self@.result(),
    {
        match self {
            Step::Unhandled => Some(RequestFilterResult::Unhandled),
            Step::Error(_) => Some(RequestFilterResult::ResponseSent),
            Step::Redirect(_) => Some(RequestFilterResult::ResponseSent),
            Step::Send(_) => Some(RequestFilterResult::ResponseSent),
            _ => None,
        }
    }

    /// The status of the response that the step stands for, if it stands
    /// for one: a redirect is permanent and keeps the method, status 308.
    pub fn status(&self) -> (r: Option<u16>)
        ensures
            r == self@.status(),
    {
        match self {
            Step::Error(status) => Some(*status),
            Step::Redirect(_) => Some(308),
            Step::Send(response) => Some(response.header.status),
            _ => None,
        }
    }
}

/// How far the handling of a request has come.
#[derive(Debug, Clone, PartialEq, Eq)]
pub enum State {
    /// The path of the request, or that of the 404 page where `fallback` is
    /// set, is being looked up.
    Resolving { fallback: bool },
    /// The index file number `next` of the directory `dir` is being looked
    /// for.
    ProbingIndex { dir: Vec<u8>, not_found: bool, next: usize },
    /// The variant of `path` for the acceptable algorithm number `next` is
    /// being looked for.
    ProbingVariant { path: Vec<u8>, not_found: bool, next: usize },
    /// The metadata of `path` is being read; `orig_path` is the file of
    /// which `path` is the variant for `active`, if it is one.
    ReadingMetadata {
        path: Vec<u8>,
        orig_path: Option<Vec<u8>>,
        active: Option<CompressionAlgorithm>,
        not_found: bool,
    },
    /// Nothing is left to do.
    Done,
}

/// A state as plain values.
pub ghost enum StateView {
    Resolving { fallback: bool },
    ProbingIndex { dir: Seq<u8>, not_found: bool, next: int },
    ProbingVariant { path: Seq<u8>, not_found: bool, next: int },
    ReadingMetadata {
        path: Seq<u8>,
        orig_path: Option<Seq<u8>>,
        active: Option<CompressionAlgorithm>,
        not_found: bool,
    },
    Done,
}

impl View for State {
    type V = StateView;

    open spec fn view(&self) -> StateView {
        match self {
            State::Resolving { fallback } => StateView::Resolving { fallback: *fallback },
            State::ProbingIndex { dir, not_found, next } => StateView::ProbingIndex {
                dir: dir@,
                not_found: *not_found,
                next: *next as int,
            },
            State::ProbingVariant { path, not_found, next } => StateView::ProbingVariant {
                path: path@,
                not_found: *not_found,
                next: *next as int,
            },
            State::ReadingMetadata { path, orig_path, active, not_found } => {
                StateView::ReadingMetadata {
                    path: path@,
                    orig_path: bytes_of(*orig_path),
                    active: *active,
                    not_found: *not_found,
                }
            },
            State::Done => StateView::Done,
        }
    }
}

/// The view of what the file system made of a path.
pub open spec fn looked_up_view(looked_up: Option<Result<Vec<u8>, FsError>>) -> Option<
    Result<Seq<u8>, FsError>,
> {
    match looked_up {
        Some(Ok(path)) => Some(Ok(path@)),
        Some(Err(e)) => Some(Err(e)),
        None => None,
    }
}

/// The path of the entry `name` in the directory `dir`.
pub open spec fn child(dir: Seq<u8>, name: Seq<char>) -> Seq<u8> {
    dir + seq![slash()] + encode_utf8(name)
}

/// What was cut off the front of the path that the client asked for before
/// the handler saw it.
pub open spec fn stripped_prefix(req: RequestView) -> Seq<char> {
    if ends_with(req.original_path, req.path) {
        req.original_path.take(req.original_path.len() - req.path.len())
    } else {
        Seq::empty()
    }
}

/// Where a client that asked for another URL of the file with the
/// canonical URL path `canonical` is sent: to that path, behind what was cut
/// off the front of the path that it asked for, and with its query.
pub open spec fn location(req: RequestView, canonical: Seq<char>) -> Seq<char> {
    stripped_prefix(req) + canonical + match req.query {
        Some(query) => seq!['?'] + query,
        None => Seq::empty(),
    }
}

/// The body that carries the bytes from `start` to `end` of the file at
/// `path`; a `HEAD` request gets none.
pub open spec fn body_for(method: Method, path: Seq<u8>, start: u64, end: u64) -> BodyView {
    if method == Method::Head {
        BodyView::Empty
    } else {
        BodyView::File { path, start, end }
    }
}

/// The header with status 404 where the file is sent in place of one that
/// was not found.
pub open spec fn marked(header: ResponseHeaderView, not_found: bool) -> ResponseHeaderView {
    if not_found {
        header.with_status(404)
    } else {
        header
    }
}

impl HandlerView {
    /// The handler with the given settings that serves the directory
    /// `root`.
    pub open spec fn of(conf: StaticFilesConfView, root: Option<Seq<u8>>) -> HandlerView {
        HandlerView {
            root,
            canonicalize_uri: conf.canonicalize_uri,
            index_file: conf.index_file,
            page_404: conf.page_404,
            precompressed: conf.precompressed,
            declare_charset: conf.declare_charset,
            charset_types: charset_types_of(conf.declare_charset_types),
        }
    }

    /// The handler with the given settings, where `canonical_root` is what
    /// the file system made of the root directory of the settings. Settings
    /// without a root give a handler without one; settings with a root give
    /// a handler for its canonical path, and none where it has no canonical
    /// path.
    pub open spec fn set_up(
        conf: StaticFilesConfView,
        canonical_root: Option<Result<Seq<u8>, FsError>>,
    ) -> Result<HandlerView, ConfError> {
        match conf.root {
            None => Ok(HandlerView::of(conf, None)),
            Some(_) => match canonical_root {
                Some(Ok(root)) => Ok(HandlerView::of(conf, Some(root))),
                Some(Err(e)) => Err(ConfError::RootInaccessible(e)),
                None => Err(ConfError::RootInaccessible(FsError::NotFound)),
            },
        }
    }

    /// The character set to declare for a media type: the configured one
    /// for text, none for anything else.
    pub open spec fn charset_for(self, mime: Seq<char>) -> Option<Seq<char>> {
        if any_matches(self.charset_types, mime) {
            Some(self.declare_charset)
        } else {
            None
        }
    }

    /// The response to a request for the file with metadata `meta`, which
    /// is the variant for `active` if that is set, and which stands in for
    /// a file that was not found if `not_found` is set.
    ///
    /// A failed precondition gives 412 and a copy that is still good 304,
    /// both without content. Otherwise a range that can be had gives 206
    /// with its bytes, one that cannot 416, and no range 200 with the whole
    /// file.
    pub open spec fn respond(
        self,
        req: RequestView,
        meta: MetadataView,
        active: Option<CompressionAlgorithm>,
        not_found: bool,
    ) -> ResponseView {
        if meta.has_failed_precondition(req.headers) {
            ResponseView {
                header: transformed(meta.custom_header(412), active),
                body: BodyView::Empty,
            }
        } else if meta.is_not_modified(req.headers) {
            ResponseView {
                header: transformed(meta.custom_header(304), active),
                body: BodyView::Empty,
            }
        } else {
            let charset = self.charset_for(meta.mime);
            match extract_range_spec(req.headers, meta) {
                Some(Range::Valid(start, end)) => ResponseView {
                    header: marked(
                        transformed(meta.partial_content_header(charset, start, end), active),
                        not_found,
                    ),
                    body: body_for(req.method, meta.path, start, end),
                },
                Some(Range::OutOfBounds) => ResponseView {
                    header: transformed(meta.not_satisfiable_header(), active),
                    body: BodyView::Empty,
                },
                None => ResponseView {
                    header: marked(transformed(meta.response_header(charset), active), not_found),
                    body: if meta.size == 0 {
                        BodyView::Empty
                    } else {
                        body_for(req.method, meta.path, 0, (meta.size - 1) as u64)
                    },
                },
            }
        }
    }

    /// What follows when a path could not be resolved: the lookup of the 404
    /// page where the path of the request was not found and a page is
    /// configured and well formed, the standard page for 404 where it is
    /// the 404 page that could not be resolved or none is to be had, and the
    /// standard page for the error otherwise.
    pub open spec fn failed(self, root: Seq<u8>, error: PathError, fallback: bool) -> (
        StateView,
        StepView,
    ) {
        if fallback {
            (StateView::Done, StepView::Error(404))
        } else if error == PathError::NotFound {
            match self.page_404 {
                Some(page) => match resolve_uri_spec(encode_utf8(page), root) {
                    Ok(path) => (StateView::Resolving { fallback: true }, StepView::Resolve(path)),
                    Err(_) => (StateView::Done, StepView::Error(404)),
                },
                None => (StateView::Done, StepView::Error(404)),
            }
        } else {
            (StateView::Done, StepView::Error(error.status_spec()))
        }
    }

    /// The first step for a request: none of the handler's business where
    /// no root is configured, else the lookup of the path that the URL asks
    /// for, or the answer to a URL that asks for none.
    pub open spec fn begin(self, req: RequestView) -> (StateView, StepView) {
        match self.root {
            None => (StateView::Done, StepView::Unhandled),
            Some(root) => match resolve_uri_spec(encode_utf8(req.path), root) {
                Ok(path) => (StateView::Resolving { fallback: false }, StepView::Resolve(path)),
                Err(error) => self.failed(root, error, false),
            },
        }
    }

    /// What follows the lookup of a path.
    pub open spec fn resolved(
        self,
        req: RequestView,
        fallback: bool,
        outcome: Result<(Seq<u8>, bool), FsError>,
    ) -> (StateView, StepView) {
        match self.root {
            None => (StateView::Done, StepView::Unhandled),
            Some(root) => {
                let looked_up = match outcome {
                    Ok(entry) => Ok(entry.0),
                    Err(e) => Err(e),
                };
                match confine_spec(looked_up, root) {
                    Err(error) => self.failed(root, error, fallback),
                    Ok(path) => self.located(req, root, path, outcome.unwrap().1, fallback),
                }
            },
        }
    }

    /// Whether a request for the entry at `path` is redirected, and where
    /// to: canonical URLs are enforced, the entry is not a 404 page, and its
    /// canonical URL path is not the one that was asked for.
    pub open spec fn redirect(
        self,
        req: RequestView,
        root: Seq<u8>,
        path: Seq<u8>,
        is_dir: bool,
        not_found: bool,
    ) -> Option<Seq<char>> {
        if self.canonicalize_uri && !not_found {
            match path_to_uri_spec(path, root, is_dir) {
                Some(canonical) => if ascii_chars(canonical) != req.path {
                    Some(location(req, ascii_chars(canonical)))
                } else {
                    None
                },
                None => None,
            }
        } else {
            None
        }
    }

    /// What follows once the entry for the request is known to lie at
    /// `path` within the root.
    pub open spec fn located(
        self,
        req: RequestView,
        root: Seq<u8>,
        path: Seq<u8>,
        is_dir: bool,
        not_found: bool,
    ) -> (StateView, StepView) {
        match self.redirect(req, root, path, is_dir, not_found) {
            Some(to) => (StateView::Done, StepView::Redirect(to)),
            None => if is_dir {
                self.probe_index(req, path, not_found, 0)
            } else {
                self.method_gate(req, path, not_found, path.len() > root.len())
            },
        }
    }

    /// The search for an index file of the directory `dir`, from the
    /// configured name number `next` on.
    pub open spec fn probe_index(
        self,
        req: RequestView,
        dir: Seq<u8>,
        not_found: bool,
        next: int,
    ) -> (StateView, StepView) {
        if 0 <= next < self.index_file.len() {
            (
                StateView::ProbingIndex { dir, not_found, next },
                StepView::Probe(child(dir, self.index_file[next])),
            )
        } else {
            self.method_gate(req, dir, not_found, false)
        }
    }

    /// What follows the search for the index file number `next`: the file
    /// takes the place of the directory where it exists, else the search
    /// goes on.
    pub open spec fn index_probed(
        self,
        req: RequestView,
        dir: Seq<u8>,
        not_found: bool,
        next: int,
        exists: bool,
    ) -> (StateView, StepView) {
        if 0 <= next < self.index_file.len() {
            if exists {
                self.method_gate(req, child(dir, self.index_file[next]), not_found, true)
            } else {
                self.probe_index(req, dir, not_found, next + 1)
            }
        } else {
            self.method_gate(req, dir, not_found, false)
        }
    }

    /// What follows once the entry to serve is settled: 405 for any method
    /// but `GET` and `HEAD`; else the search for a pre-compressed variant
    /// where `negotiate` is set, as it is for a file below the root, and
    /// the reading of the metadata of the entry itself where it is not, as
    /// for a directory without an index file.
    pub open spec fn method_gate(
        self,
        req: RequestView,
        path: Seq<u8>,
        not_found: bool,
        negotiate: bool,
    ) -> (StateView, StepView) {
        if req.method == Method::Other {
            (StateView::Done, StepView::Error(405))
        } else if negotiate {
            self.probe_variant(req, path, not_found, 0)
        } else {
            (
                StateView::ReadingMetadata { path, orig_path: None, active: None, not_found },
                StepView::Stat(path),
            )
        }
    }

    /// The configured algorithms that the client accepts.
    pub open spec fn candidates(self, req: RequestView) -> Seq<CompressionAlgorithm> {
        acceptable(req.headers.accept_encoding, self.precompressed)
    }

    /// The search for a variant of `path`, from the acceptable algorithm
    /// number `next` on; with none left, the file itself is served.
    pub open spec fn probe_variant(
        self,
        req: RequestView,
        path: Seq<u8>,
        not_found: bool,
        next: int,
    ) -> (StateView, StepView) {
        if 0 <= next < self.candidates(req).len() {
            (
                StateView::ProbingVariant { path, not_found, next },
                StepView::Probe(variant_path(path, self.candidates(req)[next])),
            )
        } else {
            (
                StateView::ReadingMetadata { path, orig_path: None, active: None, not_found },
                StepView::Stat(path),
            )
        }
    }

    /// What follows the search for the variant number `next`: the variant
    /// is served where it exists, else the search goes on.
    pub open spec fn variant_probed(
        self,
        req: RequestView,
        path: Seq<u8>,
        not_found: bool,
        next: int,
        exists: bool,
    ) -> (StateView, StepView) {
        if 0 <= next < self.candidates(req).len() && exists {
            let algorithm = self.candidates(req)[next];
            (
                StateView::ReadingMetadata {
                    path: variant_path(path, algorithm),
                    orig_path: Some(path),
                    active: Some(algorithm),
                    not_found,
                },
                StepView::Stat(variant_path(path, algorithm)),
            )
        } else if 0 <= next < self.candidates(req).len() {
            self.probe_variant(req, path, not_found, next + 1)
        } else {
            self.probe_variant(req, path, not_found, next)
        }
    }

    /// What follows the reading of the metadata: 500 where it failed, 403
    /// for anything but a regular file, else the response.
    pub open spec fn stated(
        self,
        req: RequestView,
        path: Seq<u8>,
        orig_path: Option<Seq<u8>>,
        active: Option<CompressionAlgorithm>,
        not_found: bool,
        outcome: Result<FileInfo, FsError>,
    ) -> (StateView, StepView) {
        match outcome {
            Err(_) => (StateView::Done, StepView::Error(500)),
            Ok(info) => if info.is_file {
                (
                    StateView::Done,
                    StepView::Send(
                        self.respond(
                            req,
                            MetadataView::of(path, orig_path, info),
                            active,
                            not_found,
                        ),
                    ),
                )
            } else {
                (StateView::Done, StepView::Error(403))
            },
        }
    }

    /// What follows the file system's reply `event` in the state `state`.
    /// A reply that does not answer the question of the state ends the
    /// handling with 500.
    pub open spec fn advance(self, req: RequestView, state: StateView, event: EventView) -> (
        StateView,
        StepView,
    ) {
        match (state, event) {
            (StateView::Resolving { fallback }, EventView::Resolved(outcome)) => self.resolved(
                req,
                fallback,
                outcome,
            ),
            (StateView::ProbingIndex { dir, not_found, next }, EventView::Probed(exists)) => {
                self.index_probed(req, dir, not_found, next, exists)
            },
            (StateView::ProbingVariant { path, not_found, next }, EventView::Probed(exists)) => {
                self.variant_probed(req, path, not_found, next, exists)
            },
            (
                StateView::ReadingMetadata { path, orig_path, active, not_found },
                EventView::Stated(outcome),
            ) => self.stated(req, path, orig_path, active, not_found, outcome),
            _ => (StateView::Done, StepView::Error(500)),
        }
    }
}

/// A copy of `v`.
fn copy_of(v: &[u8]) -> (r: Vec<u8>)
    ensures
        r@ == v@,
{
    let mut r: Vec<u8> = Vec::new();
    append(&mut r, v);
    r
}

/// Executable form of [`child`].
fn child_path(dir: &[u8], name: &str) -> (r: Vec<u8>)
    ensures
        r@ == child(dir@, name@),
{
    let mut r = copy_of(dir);
    r.push(0x2f);
    append(&mut r, name.as_bytes());
    r
}

/// Executable form of [`location`].
fn location_of(req: &Request, canonical: &str) -> (r: String)
    ensures
        r@ == location(req@, canonical@),
{
    let asked = chars_of(req.original_path.as_str());
    let path = chars_of(req.path.as_str());
    let mut out: Vec<char> = Vec::new();
    if has_suffix(asked.as_slice(), path.as_slice()) {
        let prefix = slice_subrange(asked.as_slice(), 0, asked.len() - path.len());
        assert(prefix@ == stripped_prefix(req@));
        append(&mut out, prefix);
    }
    assert(out@ == stripped_prefix(req@));
    append_str(&mut out, canonical);
    match &req.query {
        Some(query) => {
            out.push('?');
            append_str(&mut out, query.as_str());
            assert(out@ == location(req@, canonical@));
        },
        None => {
            assert(out@ == location(req@, canonical@));
        },
    }
    string_of(out.as_slice())
}

impl StaticFilesHandler {
    /// Sets up a handler with the given settings. `canonical_root` is what
    /// the file system made of the root directory of the settings: its
    /// canonical path, or the reason why it has none.
    ///
    /// Fails where a root directory is configured and has no canonical
    /// path.
    pub fn try_from(conf: StaticFilesConf, canonical_root: Option<Result<Vec<u8>, FsError>>) -> (r:
        Result<StaticFilesHandler, ConfError>)
        ensures
            match r {
                Ok(handler) => HandlerView::set_up(conf@, looked_up_view(canonical_root)) == Ok::<
                    HandlerView,
                    ConfError,
                >(handler@),
                Err(e) => HandlerView::set_up(conf@, looked_up_view(canonical_root)) == Err::<
                    HandlerView,
                    ConfError,
                >(e),
            },
    {
        let root = match (&conf.root, canonical_root) {
            (None, _) => None,
            (Some(_), Some(Ok(root))) => Some(root),
            (Some(_), Some(Err(e))) => {
                return Err(ConfError::RootInaccessible(e));
            },
            (Some(_), None) => {
                return Err(ConfError::RootInaccessible(FsError::NotFound));
            },
        };
        let mut matcher = MimeMatcher::new();
        if conf.declare_charset_types.len() > 0 {
            let mut i: usize = 0;
            while i < conf.declare_charset_types.len()
                invariant
                    i <= conf.declare_charset_types.len(),
                    matcher@ == texts(conf.declare_charset_types@).take(i as int).map_values(
                        |p: Seq<char>| normalized(p),
                    ),
                decreases conf.declare_charset_types.len() - i,
            {
                matcher.add(conf.declare_charset_types[i].as_str());
                i += 1;
            }
            assert(texts(conf.declare_charset_types@).take(i as int) == texts(
                conf.declare_charset_types@,
            ));
        } else {
            matcher.add("text/*");
            matcher.add("*+xml");
            matcher.add("*+json");
            matcher.add("application/javascript");
            matcher.add("application/json");
            matcher.add("application/json5");
            assert(matcher@ == default_text_types());
        }
        Ok(
            StaticFilesHandler {
                root,
                canonicalize_uri: conf.canonicalize_uri,
                index_file: conf.index_file,
                page_404: conf.page_404,
                precompressed: conf.precompressed,
                declare_charset: conf.declare_charset,
                declare_charset_matcher: matcher,
            },
        )
    }

    /// The response to a request for the file with metadata `meta`.
    pub fn respond(
        &self,
        req: &Request,
        meta: &Metadata,
        active: Option<CompressionAlgorithm>,
        not_found: bool,
    ) -> (r: Response)
        ensures
            r@ == self@.respond(req@, meta@, active, not_found),
    {
        let compression = Compression { acceptable: Vec::new(), active };
        if meta.has_failed_precondition(&req.headers) {
            let header = compression.transform_header(meta.to_custom_header(412));
            return Response { header, body: Body::Empty };
        }
        if meta.is_not_modified(&req.headers) {
            let header = compression.transform_header(meta.to_custom_header(304));
            return Response { header, body: Body::Empty };
        }
        let charset = if self.declare_charset_matcher.matches(meta.mime.as_str()) {
            Some(self.declare_charset.as_str())
        } else {
            None
        };
        let (mut header, start, end) = match extract_range(&req.headers, meta) {
            Some(Range::Valid(start, end)) => {
                let header = compression.transform_header(
                    meta.to_partial_content_header(charset, start, end),
                );
                (header, start, end)
            },
            Some(Range::OutOfBounds) => {
                let header = compression.transform_header(meta.to_not_satisfiable_header());
                return Response { header, body: Body::Empty };
            },
            None => {
                let header = compression.transform_header(meta.to_response_header(charset));
                if meta.size == 0 {
                    let mut header = header;
                    if not_found {
                        header.set_status(404);
                    }
                    return Response { header, body: Body::Empty };
                }
                (header, 0, meta.size - 1)
            },
        };
        if not_found {
            header.set_status(404);
        }
        let body = match req.method {
            Method::Head => Body::Empty,
            _ => Body::File { path: copy_of(meta.path.as_slice()), start, end },
        };
        Response { header, body }
    }

    /// Executable form of [`HandlerView::failed`].
    fn failed(&self, root: &[u8], error: PathError, fallback: bool) -> (r: (State, Step))
        ensures
            (r.0@, r.1@) == self@.failed(root@, error, fallback),
    {
        if fallback {
            return (State::Done, Step::Error(404));
        }
        match error {
            PathError::NotFound => match &self.page_404 {
                Some(page) => match resolve_uri(page.as_str(), root) {
                    Ok(path) => (State::Resolving { fallback: true }, Step::Resolve(path)),
                    Err(_) => (State::Done, Step::Error(404)),
                },
                None => (State::Done, Step::Error(404)),
            },
            _ => (State::Done, Step::Error(error.status())),
        }
    }

    /// The first step for a request.
    pub fn begin(&self, req: &Request) -> (r: (State, Step))
        ensures
            (r.0@, r.1@) == self@.begin(req@),
    {
        match &self.root {
            None => (State::Done, Step::Unhandled),
            Some(root) => match resolve_uri(req.path.as_str(), root.as_slice()) {
                Ok(path) => (State::Resolving { fallback: false }, Step::Resolve(path)),
                Err(error) => self.failed(root.as_slice(), error, false),
            },
        }
    }

    /// Executable form of [`HandlerView::resolved`].
    fn resolved(&self, req: &Request, fallback: bool, outcome: Result<Entry, FsError>) -> (r: (
        State,
        Step,
    ))
        ensures
            (r.0@, r.1@) == self@.resolved(
                req@,
                fallback,
                match outcome {
                    Ok(entry) => Ok((entry.path@, entry.is_dir)),
                    Err(e) => Err(e),
                },
            ),
    {
        let root = match &self.root {
            None => {
                return (State::Done, Step::Unhandled);
            },
            Some(root) => root.as_slice(),
        };
        let (looked_up, is_dir) = match outcome {
            Ok(entry) => (Ok(entry.path), entry.is_dir),
            Err(e) => (Err(e), false),
        };
        match confine(looked_up, root) {
            Err(error) => self.failed(root, error, fallback),
            Ok(path) => self.located(req, root, path, is_dir, fallback),
        }
    }

    /// Executable form of [`HandlerView::located`].
    fn located(
        &self,
        req: &Request,
        root: &[u8],
        path: Vec<u8>,
        is_dir: bool,
        not_found: bool,
    ) -> (r: (State, Step))
        ensures
            (r.0@, r.1@) == self@.located(req@, root@, path@, is_dir, not_found),
    {
        if self.canonicalize_uri && !not_found {
            match path_to_uri(path.as_slice(), root, is_dir) {
                Some(canonical) => {
                    let a = chars_of(canonical.as_str());
                    let b = chars_of(req.path.as_str());
                    if !same(a.as_slice(), b.as_slice()) {
                        return (State::Done, Step::Redirect(location_of(req, canonical.as_str())));
                    }
                },
                None => {},
            }
        }
        if is_dir {
            self.probe_index(req, path, not_found, 0)
        } else {
            let below_root = path.len() > root.len();
            self.method_gate(req, path, not_found, below_root)
        }
    }

    /// Executable form of [`HandlerView::probe_index`].
    fn probe_index(&self, req: &Request, dir: Vec<u8>, not_found: bool, next: usize) -> (r: (
        State,
        Step,
    ))
        ensures
            (r.0@, r.1@) == self@.probe_index(req@, dir@, not_found, next as int),
    {
        if next < self.index_file.len() {
            let candidate = child_path(dir.as_slice(), self.index_file[next].as_str());
            (State::ProbingIndex { dir, not_found, next }, Step::Probe(candidate))
        } else {
            self.method_gate(req, dir, not_found, false)
        }
    }

    /// Executable form of [`HandlerView::index_probed`].
    fn index_probed(
        &self,
        req: &Request,
        dir: Vec<u8>,
        not_found: bool,
        next: usize,
        exists: bool,
    ) -> (r: (State, Step))
        ensures
            (r.0@, r.1@) == self@.index_probed(req@, dir@, not_found, next as int, exists),
    {
        if next < self.index_file.len() {
            if exists {
                let file = child_path(dir.as_slice(), self.index_file[next].as_str());
                self.method_gate(req, file, not_found, true)
            } else {
                self.probe_index(req, dir, not_found, next + 1)
            }
        } else {
            self.method_gate(req, dir, not_found, false)
        }
    }

    /// Executable form of [`HandlerView::method_gate`].
    fn method_gate(&self, req: &Request, path: Vec<u8>, not_found: bool, negotiate: bool) -> (r: (
        State,
        Step,
    ))
        ensures
            (r.0@, r.1@) == self@.method_gate(req@, path@, not_found, negotiate),
    {
        match req.method {
            Method::Other => (State::Done, Step::Error(405)),
            _ => if negotiate {
                self.probe_variant(req, path, not_found, 0)
            } else {
                let target = copy_of(path.as_slice());
                (
                    State::ReadingMetadata { path, orig_path: None, active: None, not_found },
                    Step::Stat(target),
                )
            },
        }
    }

    /// The configured algorithms that the client accepts.
    fn candidates(&self, req: &Request) -> (r: Vec<CompressionAlgorithm>)
        ensures
            r@ == self@.candidates(req@),
    {
        let compression = match &req.headers.accept_encoding {
            Some(value) => Compression::new(Some(value.as_str()), self.precompressed.as_slice()),
            None => Compression::new(None, self.precompressed.as_slice()),
        };
        compression.acceptable
    }

    /// Executable form of [`HandlerView::probe_variant`].
    fn probe_variant(&self, req: &Request, path: Vec<u8>, not_found: bool, next: usize) -> (r: (
        State,
        Step,
    ))
        ensures
            (r.0@, r.1@) == self@.probe_variant(req@, path@, not_found, next as int),
    {
        let candidates = self.candidates(req);
        if next < candidates.len() {
            let variant = Compression::variant(path.as_slice(), candidates[next]);
            (State::ProbingVariant { path, not_found, next }, Step::Probe(variant))
        } else {
            let target = copy_of(path.as_slice());
            (
                State::ReadingMetadata { path, orig_path: None, active: None, not_found },
                Step::Stat(target),
            )
        }
    }

    /// Executable form of [`HandlerView::variant_probed`].
    fn variant_probed(
        &self,
        req: &Request,
        path: Vec<u8>,
        not_found: bool,
        next: usize,
        exists: bool,
    ) -> (r: (State, Step))
        ensures
            (r.0@, r.1@) == self@.variant_probed(req@, path@, not_found, next as int, exists),
    {
        let candidates = self.candidates(req);
        if next < candidates.len() && exists {
            let algorithm = candidates[next];
            let variant = Compression::variant(path.as_slice(), algorithm);
            let target = copy_of(variant.as_slice());
            (
                State::ReadingMetadata {
                    path: variant,
                    orig_path: Some(path),
                    active: Some(algorithm),
                    not_found,
                },
                Step::Stat(target),
            )
        } else if next < candidates.len() {
            self.probe_variant(req, path, not_found, next + 1)
        } else {
            self.probe_variant(req, path, not_found, next)
        }
    }

    /// Executable form of [`HandlerView::stated`].
    fn stated(
        &self,
        req: &Request,
        path: Vec<u8>,
        orig_path: Option<Vec<u8>>,
        active: Option<CompressionAlgorithm>,
        not_found: bool,
        outcome: Result<FileInfo, FsError>,
    ) -> (r: (State, Step))
        ensures
            (r.0@, r.1@) == self@.stated(
                req@,
                path@,
                bytes_of(orig_path),
                active,
                not_found,
                outcome,
            ),
    {
        let info = match outcome {
            Err(_) => {
                return (State::Done, Step::Error(500));
            },
            Ok(info) => info,
        };
        let meta = match &orig_path {
            Some(orig) => Metadata::from_path(path.as_slice(), Some(orig.as_slice()), &info),
            None => Metadata::from_path(path.as_slice(), None, &info),
        };
        match meta {
            Ok(meta) => (State::Done, Step::Send(self.respond(req, &meta, active, not_found))),
            Err(_) => (State::Done, Step::Error(403)),
        }
    }

    /// What follows the file system's reply `event` in the state `state`.
    pub fn advance(&self, req: &Request, state: State, event: Event) -> (r: (State, Step))
        ensures
            (r.0@, r.1@) == self@.advance(req@, state@, event@),
    {
        match (state, event) {
            (State::Resolving { fallback }, Event::Resolved(outcome)) => self.resolved(
                req,
                fallback,
                outcome,
            ),
            (State::ProbingIndex { dir, not_found, next }, Event::Probed(exists)) => {
                self.index_probed(req, dir, not_found, next, exists)
            },
            (State::ProbingVariant { path, not_found, next }, Event::Probed(exists)) => {
                self.variant_probed(req, path, not_found, next, exists)
            },
            (
                State::ReadingMetadata { path, orig_path, active, not_found },
                Event::Stated(outcome),
            ) => self.stated(req, path, orig_path, active, not_found, outcome),
            _ => (State::Done, Step::Error(500)),
        }
    }
}

impl StepView {
    /// Whether the step is a question to the file system, after which the
    /// handling goes on.
    pub open spec fn is_question(self) -> bool {
        self is Resolve || self is Probe || self is Stat
    }
}

impl HandlerView {
    /// An upper bound for the number of questions that the handler still
    /// asks of the file system from `state` on.
    pub open spec fn questions_left(self, req: RequestView, state: StateView) -> int {
        let names = self.index_file.len() as int;
        let variants = self.candidates(req).len() as int;
        match state {
            StateView::Resolving { fallback } => if fallback {
                names + variants + 2
            } else {
                names + variants + 3
            },
            StateView::ProbingIndex { next, .. } => if 0 <= next < names {
                names - next + variants + 1
            } else {
                2
            },
            StateView::ProbingVariant { next, .. } => if 0 <= next < variants {
                variants - next + 1
            } else {
                2
            },
            StateView::ReadingMetadata { .. } => 1,
            StateView::Done => 0,
        }
    }
}

/// The handling of a request comes to an end: with every reply of the file
/// system, fewer questions are left to ask, and none once the state is
/// [`StateView::Done`]. The step is a question exactly as long as the state
/// is not done; so after at most as many questions as there are index file
/// names and acceptable algorithms, and three more, the handler answers the
/// request for good.
pub proof fn lemma_handling_ends(
    handler: HandlerView,
    req: RequestView,
    state: StateView,
    event: EventView,
)
    ensures
        handler.questions_left(req, handler.begin(req).0) <= handler.index_file.len()
            + handler.candidates(req).len() + 3,
        handler.begin(req).1.is_question() <==> handler.begin(req).0 != StateView::Done,
        handler.advance(req, state, event).1.is_question() <==> handler.advance(req, state, event).0
            != StateView::Done,
        state != StateView::Done ==> handler.questions_left(
            req,
            handler.advance(req, state, event).0,
        ) < handler.questions_left(req, state),
        state == StateView::Done ==> handler.advance(req, state, event).0 == StateView::Done,
        handler.questions_left(req, state) >= 0,
        handler.questions_left(req, state) == 0 <==> state == StateView::Done,
{
}

} // verus!
