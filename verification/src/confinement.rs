//! The handler keeps to the root directory, and to one URL for each file.

use crate::bytes::ascii_chars;
use crate::compression::variant_path;
use crate::compression_algorithm::CompressionAlgorithm;
use crate::handler::{
    child, location, stripped_prefix, EventView, HandlerView, StateView, StepView,
};
use crate::path::{
    is_within, lemma_resolve_uri_stays_within, path_to_uri_spec, relative, slash,
};
use crate::request::RequestView;
use crate::response::BodyView;
use crate::round_trip::{lemma_canonical_uri_is_ascii, lemma_canonical_uri_resolves};
use vstd::prelude::*;
use vstd::utf8::encode_utf8;

verus! {

/// Whether `path` lies below `root` and is not `root` itself.
pub open spec fn is_below(path: Seq<u8>, root: Seq<u8>) -> bool {
    is_within(path, root) && path.len() > root.len()
}

/// Whether the paths that a state keeps lie within `root`.
pub open spec fn state_within(state: StateView, root: Seq<u8>) -> bool {
    match state {
        StateView::ProbingIndex { dir, .. } => is_within(dir, root),
        StateView::ProbingVariant { path, .. } => is_below(path, root),
        StateView::ReadingMetadata { path, orig_path, .. } => is_within(path, root) && (
        orig_path matches Some(orig) ==> is_within(orig, root)),
        _ => true,
    }
}

/// Whether the path that a step asks about, or whose bytes it sends, lies
/// within `root`.
pub open spec fn step_within(step: StepView, root: Seq<u8>) -> bool {
    match step {
        StepView::Resolve(path) => is_within(path, root),
        StepView::Probe(path) => is_within(path, root),
        StepView::Stat(path) => is_within(path, root),
        StepView::Send(response) => response.body matches BodyView::File { path, .. }
            ==> is_within(path, root),
        _ => true,
    }
}

/// An entry of a directory within the root lies below the root.
proof fn lemma_child_is_below(dir: Seq<u8>, name: Seq<char>, root: Seq<u8>)
    requires
        is_within(dir, root),
    ensures
        is_below(child(dir, name), root),
{
    let path = child(dir, name);
    assert(dir.take(root.len() as int) == root);
    assert(path.take(root.len() as int) == dir.take(root.len() as int));
    if dir.len() > root.len() {
        assert(path[root.len() as int] == dir[root.len() as int]);
    } else {
        assert(path[root.len() as int] == slash());
    }
}

/// The variants of a file below the root lie below the root.
proof fn lemma_variant_is_below(path: Seq<u8>, algorithm: CompressionAlgorithm, root: Seq<u8>)
    requires
        is_below(path, root),
    ensures
        is_below(variant_path(path, algorithm), root),
{
    let variant = variant_path(path, algorithm);
    assert(path.take(root.len() as int) == root);
    assert(variant.take(root.len() as int) == path.take(root.len() as int));
    assert(variant[root.len() as int] == path[root.len() as int]);
}

/// The first step for a request asks about a path within the root only.
pub proof fn lemma_begin_stays_within(handler: HandlerView, req: RequestView)
    requires
        handler.root.is_some(),
    ensures
        state_within(handler.begin(req).0, handler.root.unwrap()),
        step_within(handler.begin(req).1, handler.root.unwrap()),
{
    let root = handler.root.unwrap();
    lemma_resolve_uri_stays_within(encode_utf8(req.path), root);
    match handler.page_404 {
        Some(page) => {
            lemma_resolve_uri_stays_within(encode_utf8(page), root);
        },
        None => {},
    }
}

/// The handler never names a path outside the root: from a state whose
/// paths lie within the root, whatever the file system replies, it comes to
/// a state whose paths lie within the root, and the path that it then asks
/// about, or whose bytes it sends, lies within the root too. The variants
/// that it looks for are those of files below the root, never of the root
/// itself.
///
/// This is said of the paths as they are written. That the entry for the
/// request does not lie outside the root by way of a symbolic link is seen
/// to by [`crate::path::confine`], which holds the canonical path of the
/// entry against the root.
pub proof fn lemma_advance_stays_within(
    handler: HandlerView,
    req: RequestView,
    state: StateView,
    event: EventView,
)
    requires
        handler.root.is_some(),
        state_within(state, handler.root.unwrap()),
    ensures
        state_within(handler.advance(req, state, event).0, handler.root.unwrap()),
        step_within(handler.advance(req, state, event).1, handler.root.unwrap()),
{
    let root = handler.root.unwrap();
    match (state, event) {
        (StateView::Resolving { fallback }, EventView::Resolved(outcome)) => {
            match handler.page_404 {
                Some(page) => {
                    lemma_resolve_uri_stays_within(encode_utf8(page), root);
                },
                None => {},
            }
            match outcome {
                Ok(entry) => {
                    if handler.index_file.len() > 0 && is_within(entry.0, root) {
                        lemma_child_is_below(entry.0, handler.index_file[0], root);
                    }
                    if handler.candidates(req).len() > 0 && entry.0.len() > root.len()
                        && is_within(entry.0, root) {
                        lemma_variant_is_below(entry.0, handler.candidates(req)[0], root);
                    }
                },
                Err(_) => {},
            }
        },
        (StateView::ProbingIndex { dir, not_found, next }, EventView::Probed(exists)) => {
            if 0 <= next < handler.index_file.len() {
                let file = child(dir, handler.index_file[next]);
                lemma_child_is_below(dir, handler.index_file[next], root);
                if handler.candidates(req).len() > 0 {
                    lemma_variant_is_below(file, handler.candidates(req)[0], root);
                }
                if next + 1 < handler.index_file.len() {
                    lemma_child_is_below(dir, handler.index_file[next + 1], root);
                }
            }
        },
        (StateView::ProbingVariant { path, not_found, next }, EventView::Probed(exists)) => {
            if 0 <= next < handler.candidates(req).len() {
                lemma_variant_is_below(path, handler.candidates(req)[next], root);
                if next + 1 < handler.candidates(req).len() {
                    lemma_variant_is_below(path, handler.candidates(req)[next + 1], root);
                }
            }
        },
        _ => {},
    }
}

/// A redirect goes to the canonical URL path of the entry that was found,
/// behind what was cut off the path that the client asked for and with the
/// query of the request; and there is one only where that path differs from
/// the path of the request.
pub proof fn lemma_redirect_goes_to_canonical(
    handler: HandlerView,
    req: RequestView,
    root: Seq<u8>,
    path: Seq<u8>,
    is_dir: bool,
)
    requires
        handler.redirect(req, root, path, is_dir, false).is_some(),
    ensures
        handler.canonicalize_uri,
        path_to_uri_spec(path, root, is_dir).is_some(),
        ascii_chars(path_to_uri_spec(path, root, is_dir).unwrap()) != req.path,
        handler.redirect(req, root, path, is_dir, false) == Some(
            location(req, ascii_chars(path_to_uri_spec(path, root, is_dir).unwrap())),
        ),
        req.query.is_none() && req.original_path == req.path ==> handler.redirect(
            req,
            root,
            path,
            is_dir,
            false,
        ) == Some(ascii_chars(path_to_uri_spec(path, root, is_dir).unwrap())),
{
    let canonical = ascii_chars(path_to_uri_spec(path, root, is_dir).unwrap());
    if req.query.is_none() && req.original_path == req.path {
        assert(req.original_path.skip(0) == req.path);
        assert(stripped_prefix(req) == Seq::<char>::empty());
        assert(location(req, canonical) == canonical);
    }
}

/// A request for the canonical URL path of an entry is not redirected: it
/// asks the file system for that very entry, and when the file system finds
/// the entry again, the handler goes on to serve it. So a client that
/// followed a redirect is not redirected again.
///
/// This holds for entries whose path is in canonical form, as the file
/// system gives it: it does not end in `/` unless it is the root itself.
pub proof fn lemma_canonical_request_is_not_redirected(
    handler: HandlerView,
    req: RequestView,
    path: Seq<u8>,
    is_dir: bool,
)
    requires
        handler.root.is_some(),
        path_to_uri_spec(path, handler.root.unwrap(), is_dir).is_some(),
        req.path == ascii_chars(path_to_uri_spec(path, handler.root.unwrap(), is_dir).unwrap()),
        path == handler.root.unwrap() || relative(path, handler.root.unwrap()).len()
            > 0,
    ensures
        handler.begin(req) == (StateView::Resolving { fallback: false }, StepView::Resolve(path)),
        handler.redirect(req, handler.root.unwrap(), path, is_dir, false).is_none(),
        !(handler.advance(
            req,
            StateView::Resolving { fallback: false },
            EventView::Resolved(Ok((path, is_dir))),
        ).1 is Redirect),
{
    let root = handler.root.unwrap();
    lemma_canonical_uri_is_ascii(path, root, is_dir);
    lemma_canonical_uri_resolves(path, root, is_dir);
}

} // verus!
