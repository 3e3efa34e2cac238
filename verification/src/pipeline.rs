//! The handler as a whole: what it makes of a request, given what the file
//! system holds.
//!
//! [`HandlerView::serve`] says in one piece what the handling of a request
//! comes to. [`lemma_run_is_serve`] shows that the steps of the handler,
//! taken one after the other with the replies of the file system, come to
//! exactly that.

use crate::compression::{
    accepts, lemma_acceptable_first, lemma_acceptable_is_filter, variant_path,
};
use crate::compression_algorithm::CompressionAlgorithm;
use crate::handler::{child, lemma_handling_ends, EventView, HandlerView, StateView, StepView};
use crate::metadata::{FileInfo, MetadataView};
use crate::path::{confine_spec, resolve_uri_spec, FsError, PathError};
use crate::request::{Method, RequestView};
use vstd::prelude::*;
use vstd::utf8::encode_utf8;

verus! {

/// Index of the first of `candidates`, from `next` on, whose variant of
/// `path` exists as `is_file` says; the number of candidates where none does.
pub open spec fn first_existing(
    is_file: spec_fn(Seq<u8>) -> bool,
    path: Seq<u8>,
    candidates: Seq<CompressionAlgorithm>,
    next: int,
) -> int
    decreases candidates.len() - next,
{
    if next < 0 || next >= candidates.len() {
        candidates.len() as int
    } else if is_file(variant_path(path, candidates[next])) {
        next
    } else {
        first_existing(is_file, path, candidates, next + 1)
    }
}

/// Index of the first of the index file names, from `next` on, under which
/// the directory `dir` holds a regular file as `is_file` says; the number of
/// names where it holds none.
pub open spec fn first_index_file(
    is_file: spec_fn(Seq<u8>) -> bool,
    dir: Seq<u8>,
    names: Seq<Seq<char>>,
    next: int,
) -> int
    decreases names.len() - next,
{
    if next < 0 || next >= names.len() {
        names.len() as int
    } else if is_file(child(dir, names[next])) {
        next
    } else {
        first_index_file(is_file, dir, names, next + 1)
    }
}

/// What a file system holds, as far as the handler asks.
pub ghost struct FileSystem {
    /// The canonical path of the entry at a path and whether it is a
    /// directory, or why there is none to be had.
    pub resolve: spec_fn(Seq<u8>) -> Result<(Seq<u8>, bool), FsError>,
    /// Whether a regular file is at a path.
    pub is_file: spec_fn(Seq<u8>) -> bool,
    /// What is known of the entry at a path.
    pub stat: spec_fn(Seq<u8>) -> Result<FileInfo, FsError>,
}

impl FileSystem {
    /// The reply of the file system to a question.
    pub open spec fn reply(self, step: StepView) -> EventView {
        match step {
            StepView::Resolve(path) => EventView::Resolved((self.resolve)(path)),
            StepView::Stat(path) => EventView::Stated((self.stat)(path)),
            StepView::Probe(path) => EventView::Probed((self.is_file)(path)),
            _ => EventView::Probed(false),
        }
    }

    /// The entry that a URL path leads to within `root`: the canonical path
    /// and whether it is a directory.
    pub open spec fn find(self, uri_path: Seq<char>, root: Seq<u8>) -> Result<
        (Seq<u8>, bool),
        PathError,
    > {
        match resolve_uri_spec(encode_utf8(uri_path), root) {
            Err(e) => Err(e),
            Ok(path) => {
                let looked_up = match (self.resolve)(path) {
                    Ok(entry) => Ok(entry.0),
                    Err(e) => Err(e),
                };
                match confine_spec(looked_up, root) {
                    Err(e) => Err(e),
                    Ok(canonical) => Ok((canonical, (self.resolve)(path).unwrap().1)),
                }
            },
        }
    }
}

impl HandlerView {
    /// The answer that the handling comes to from `at` on, with the
    /// questions answered by `fs`.
    pub open spec fn run_from(
        self,
        req: RequestView,
        fs: FileSystem,
        at: (StateView, StepView),
    ) -> StepView
        decreases
            self.questions_left(req, at.0),
            (if at.1.is_question() {
                1int
            } else {
                0int
            }),
    {
        if at.1.is_question() {
            proof {
                lemma_handling_ends(self, req, at.0, fs.reply(at.1));
            }
            self.run_from(req, fs, self.advance(req, at.0, fs.reply(at.1)))
        } else {
            at.1
        }
    }

    /// The answer that the handling of a request comes to, with the
    /// questions answered by `fs`.
    pub open spec fn run(self, req: RequestView, fs: FileSystem) -> StepView {
        self.run_from(req, fs, self.begin(req))
    }

    /// The file that is served for an entry, and whether a variant of it
    /// may take its place: for a directory the first index file that
    /// exists, or the directory itself, which has no variants, where none
    /// does; else the entry, which has variants if it lies below the root.
    pub open spec fn file_for(self, fs: FileSystem, root: Seq<u8>, path: Seq<u8>, is_dir: bool) -> (
        Seq<u8>,
        bool,
    ) {
        if is_dir {
            let found = first_index_file(fs.is_file, path, self.index_file, 0);
            if found < self.index_file.len() {
                (child(path, self.index_file[found]), true)
            } else {
                (path, false)
            }
        } else {
            (path, path.len() > root.len())
        }
    }

    /// What is sent for the file at `file`: the first variant that the
    /// client accepts and that exists, if one may take the place of the
    /// file, else the file itself; 500 where its metadata cannot be read,
    /// and 403 where it is no regular file.
    pub open spec fn send_file(
        self,
        req: RequestView,
        fs: FileSystem,
        file: Seq<u8>,
        negotiate: bool,
        not_found: bool,
    ) -> StepView {
        let candidates = self.candidates(req);
        let found = if negotiate {
            first_existing(fs.is_file, file, candidates, 0)
        } else {
            candidates.len() as int
        };
        let (path, orig_path, active) = if found < candidates.len() {
            (variant_path(file, candidates[found]), Some(file), Some(candidates[found]))
        } else {
            (file, None::<Seq<u8>>, None::<CompressionAlgorithm>)
        };
        match (fs.stat)(path) {
            Err(_) => StepView::Error(500),
            Ok(info) => if info.is_file {
                StepView::Send(
                    self.respond(req, MetadataView::of(path, orig_path, info), active, not_found),
                )
            } else {
                StepView::Error(403)
            },
        }
    }

    /// The answer for the entry at `path`: a redirect to its canonical URL
    /// where that is called for, 405 for a method other than `GET` and
    /// `HEAD`, else what is sent for its file.
    pub open spec fn deliver(
        self,
        req: RequestView,
        fs: FileSystem,
        root: Seq<u8>,
        path: Seq<u8>,
        is_dir: bool,
        not_found: bool,
    ) -> StepView {
        match self.redirect(req, root, path, is_dir, not_found) {
            Some(to) => StepView::Redirect(to),
            None => if req.method == Method::Other {
                StepView::Error(405)
            } else {
                let (file, negotiate) = self.file_for(fs, root, path, is_dir);
                self.send_file(req, fs, file, negotiate, not_found)
            },
        }
    }

    /// The answer to a request, said in one piece: nothing where no root
    /// is configured; for an entry that is found, what [`Self::deliver`]
    /// says; for one that is not found, the same for the 404 page, with
    /// status 404, or the standard page for 404 where no such page is to be
    /// had; and for any other failure the standard page for its status.
    pub open spec fn serve(self, req: RequestView, fs: FileSystem) -> StepView {
        match self.root {
            None => StepView::Unhandled,
            Some(root) => match fs.find(req.path, root) {
                Ok(entry) => self.deliver(req, fs, root, entry.0, entry.1, false),
                Err(PathError::NotFound) => match self.page_404 {
                    Some(page) => match fs.find(page, root) {
                        Ok(entry) => self.deliver(req, fs, root, entry.0, entry.1, true),
                        Err(_) => StepView::Error(404),
                    },
                    None => StepView::Error(404),
                },
                Err(e) => StepView::Error(e.status_spec()),
            },
        }
    }
}

/// Once the metadata is asked for, the answer is what the handler makes
/// of it.
proof fn lemma_run_stat(
    handler: HandlerView,
    req: RequestView,
    fs: FileSystem,
    path: Seq<u8>,
    orig_path: Option<Seq<u8>>,
    active: Option<CompressionAlgorithm>,
    not_found: bool,
)
    ensures
        handler.run_from(
            req,
            fs,
            (
                StateView::ReadingMetadata { path, orig_path, active, not_found },
                StepView::Stat(path),
            ),
        ) == handler.stated(req, path, orig_path, active, not_found, (fs.stat)(path)).1,
{
    let at = (
        StateView::ReadingMetadata { path, orig_path, active, not_found },
        StepView::Stat(path),
    );
    let after = handler.advance(req, at.0, fs.reply(at.1));
    assert(after == handler.stated(req, path, orig_path, active, not_found, (fs.stat)(path)));
    assert(!after.1.is_question());
    assert(handler.run_from(req, fs, at) == handler.run_from(req, fs, after));
    assert(handler.run_from(req, fs, after) == after.1);
}

/// The search for a variant from the candidate number `next` on ends with
/// the first variant that exists, or with the file itself.
proof fn lemma_run_variants(
    handler: HandlerView,
    req: RequestView,
    fs: FileSystem,
    file: Seq<u8>,
    not_found: bool,
    next: int,
)
    requires
        0 <= next <= handler.candidates(req).len(),
    ensures
        handler.run_from(req, fs, handler.probe_variant(req, file, not_found, next)) == ({
            let candidates = handler.candidates(req);
            let found = first_existing(fs.is_file, file, candidates, next);
            if found < candidates.len() {
                handler.stated(
                    req,
                    variant_path(file, candidates[found]),
                    Some(file),
                    Some(candidates[found]),
                    not_found,
                    (fs.stat)(variant_path(file, candidates[found])),
                ).1
            } else {
                handler.stated(req, file, None, None, not_found, (fs.stat)(file)).1
            }
        }),
    decreases handler.candidates(req).len() - next,
{
    let candidates = handler.candidates(req);
    let at = handler.probe_variant(req, file, not_found, next);
    if next < candidates.len() {
        let variant = variant_path(file, candidates[next]);
        let after = handler.advance(req, at.0, fs.reply(at.1));
        assert(at.1.is_question());
        assert(handler.run_from(req, fs, at) == handler.run_from(req, fs, after));
        if (fs.is_file)(variant) {
            assert(after == (
                StateView::ReadingMetadata {
                    path: variant,
                    orig_path: Some(file),
                    active: Some(candidates[next]),
                    not_found,
                },
                StepView::Stat(variant),
            ));
            lemma_run_stat(
                handler,
                req,
                fs,
                variant,
                Some(file),
                Some(candidates[next]),
                not_found,
            );
        } else {
            assert(after == handler.probe_variant(req, file, not_found, next + 1));
            lemma_run_variants(handler, req, fs, file, not_found, next + 1);
        }
    } else {
        lemma_run_stat(handler, req, fs, file, None, None, not_found);
    }
}

/// Once the file to serve is settled, the answer is 405 for a method other
/// than `GET` and `HEAD`, and what is sent for the file else.
proof fn lemma_run_file(
    handler: HandlerView,
    req: RequestView,
    fs: FileSystem,
    file: Seq<u8>,
    negotiate: bool,
    not_found: bool,
)
    ensures
        handler.run_from(req, fs, handler.method_gate(req, file, not_found, negotiate)) == (
        if req.method == Method::Other {
            StepView::Error(405)
        } else {
            handler.send_file(req, fs, file, negotiate, not_found)
        }),
{
    let at = handler.method_gate(req, file, not_found, negotiate);
    if req.method == Method::Other {
        assert(!at.1.is_question());
    } else if negotiate {
        lemma_run_variants(handler, req, fs, file, not_found, 0);
    } else {
        lemma_run_stat(handler, req, fs, file, None, None, not_found);
    }
}

/// The search for an index file from the name number `next` on ends with
/// the first index file that exists, or with the directory itself.
proof fn lemma_run_index(
    handler: HandlerView,
    req: RequestView,
    fs: FileSystem,
    dir: Seq<u8>,
    not_found: bool,
    next: int,
)
    requires
        0 <= next <= handler.index_file.len(),
    ensures
        handler.run_from(req, fs, handler.probe_index(req, dir, not_found, next)) == ({
            let found = first_index_file(fs.is_file, dir, handler.index_file, next);
            if found < handler.index_file.len() {
                handler.run_from(
                    req,
                    fs,
                    handler.method_gate(
                        req,
                        child(dir, handler.index_file[found]),
                        not_found,
                        true,
                    ),
                )
            } else {
                handler.run_from(req, fs, handler.method_gate(req, dir, not_found, false))
            }
        }),
    decreases handler.index_file.len() - next,
{
    let names = handler.index_file;
    let at = handler.probe_index(req, dir, not_found, next);
    if next < names.len() {
        let after = handler.advance(req, at.0, fs.reply(at.1));
        assert(at.1.is_question());
        assert(handler.run_from(req, fs, at) == handler.run_from(req, fs, after));
        if (fs.is_file)(child(dir, names[next])) {
            assert(after == handler.method_gate(req, child(dir, names[next]), not_found, true));
        } else {
            assert(after == handler.probe_index(req, dir, not_found, next + 1));
            lemma_run_index(handler, req, fs, dir, not_found, next + 1);
        }
    }
}

/// Once the entry for a request is found, the answer is what
/// [`HandlerView::deliver`] says.
proof fn lemma_run_located(
    handler: HandlerView,
    req: RequestView,
    fs: FileSystem,
    root: Seq<u8>,
    path: Seq<u8>,
    is_dir: bool,
    not_found: bool,
)
    ensures
        handler.run_from(req, fs, handler.located(req, root, path, is_dir, not_found))
            == handler.deliver(req, fs, root, path, is_dir, not_found),
{
    let at = handler.located(req, root, path, is_dir, not_found);
    match handler.redirect(req, root, path, is_dir, not_found) {
        Some(to) => {
            assert(!at.1.is_question());
        },
        None => {
            let (file, negotiate) = handler.file_for(fs, root, path, is_dir);
            if is_dir {
                lemma_run_index(handler, req, fs, path, not_found, 0);
            }
            lemma_run_file(handler, req, fs, file, negotiate, not_found);
        },
    }
}

/// The answer to the lookup of the path `path`, which the URL path
/// `uri_path` asks for.
proof fn lemma_run_lookup(
    handler: HandlerView,
    req: RequestView,
    fs: FileSystem,
    root: Seq<u8>,
    uri_path: Seq<char>,
    path: Seq<u8>,
    fallback: bool,
)
    requires
        handler.root == Some(root),
        resolve_uri_spec(encode_utf8(uri_path), root) == Ok::<Seq<u8>, PathError>(path),
    ensures
        handler.run_from(req, fs, (StateView::Resolving { fallback }, StepView::Resolve(path)))
            == match fs.find(uri_path, root) {
            Ok(entry) => handler.deliver(req, fs, root, entry.0, entry.1, fallback),
            Err(e) => handler.run_from(req, fs, handler.failed(root, e, fallback)),
        },
{
    let at = (StateView::Resolving { fallback }, StepView::Resolve(path));
    let after = handler.advance(req, at.0, fs.reply(at.1));
    assert(handler.run_from(req, fs, at) == handler.run_from(req, fs, after));
    match fs.find(uri_path, root) {
        Ok(entry) => {
            assert(after == handler.located(req, root, entry.0, entry.1, fallback));
            lemma_run_located(handler, req, fs, root, entry.0, entry.1, fallback);
        },
        Err(e) => {
            assert(after == handler.failed(root, e, fallback));
        },
    }
}

/// The steps of the handler come to what [`HandlerView::serve`] says:
/// whatever the file system holds, asking it what the handler wants to
/// know and telling the handler the replies, one after the other, ends
/// with the answer that the request is owed.
pub proof fn lemma_run_is_serve(handler: HandlerView, req: RequestView, fs: FileSystem)
    ensures
        handler.run(req, fs) == handler.serve(req, fs),
        !handler.run(req, fs).is_question(),
{
    match handler.root {
        None => {
            assert(!handler.begin(req).1.is_question());
        },
        Some(root) => {
            match resolve_uri_spec(encode_utf8(req.path), root) {
                Ok(path) => {
                    lemma_run_lookup(handler, req, fs, root, req.path, path, false);
                },
                Err(e) => {},
            }
            match fs.find(req.path, root) {
                Ok(entry) => {},
                Err(e) => {
                    let at = handler.failed(root, e, false);
                    if e == PathError::NotFound {
                        match handler.page_404 {
                            Some(page) => match resolve_uri_spec(encode_utf8(page), root) {
                                Ok(path) => {
                                    lemma_run_lookup(handler, req, fs, root, page, path, true);
                                    match fs.find(page, root) {
                                        Ok(entry) => {},
                                        Err(e2) => {
                                            let end = handler.failed(root, e2, true);
                                            assert(!end.1.is_question());
                                        },
                                    }
                                },
                                Err(_) => {
                                    assert(!at.1.is_question());
                                },
                            },
                            None => {
                                assert(!at.1.is_question());
                            },
                        }
                    } else {
                        assert(!at.1.is_question());
                    }
                },
            }
        },
    }
    lemma_serve_answers(handler, req, fs);
}

/// What [`HandlerView::serve`] says is an answer, never a question.
proof fn lemma_serve_answers(handler: HandlerView, req: RequestView, fs: FileSystem)
    ensures
        !handler.serve(req, fs).is_question(),
{
}

/// What [`first_existing`] gives is the first: it is a candidate from
/// `next` on whose variant exists, before which no variant exists, or the
/// number of candidates where no variant exists from `next` on.
pub proof fn lemma_first_existing_is_first(
    is_file: spec_fn(Seq<u8>) -> bool,
    path: Seq<u8>,
    candidates: Seq<CompressionAlgorithm>,
    next: int,
)
    requires
        0 <= next <= candidates.len(),
    ensures
        next <= first_existing(is_file, path, candidates, next) <= candidates.len(),
        forall|k: int|
            next <= k < first_existing(is_file, path, candidates, next) ==> !is_file(
                variant_path(path, #[trigger] candidates[k]),
            ),
        first_existing(is_file, path, candidates, next) < candidates.len() ==> is_file(
            variant_path(path, candidates[first_existing(is_file, path, candidates, next)]),
        ),
    decreases candidates.len() - next,
{
    if next < candidates.len() && !is_file(variant_path(path, candidates[next])) {
        lemma_first_existing_is_first(is_file, path, candidates, next + 1);
    }
}

/// What [`first_index_file`] gives is the first: it is a name from `next`
/// on under which a regular file exists, before which none does, or the
/// number of names where none does from `next` on.
pub proof fn lemma_first_index_file_is_first(
    is_file: spec_fn(Seq<u8>) -> bool,
    dir: Seq<u8>,
    names: Seq<Seq<char>>,
    next: int,
)
    requires
        0 <= next <= names.len(),
    ensures
        next <= first_index_file(is_file, dir, names, next) <= names.len(),
        forall|k: int|
            next <= k < first_index_file(is_file, dir, names, next) ==> !is_file(
                child(dir, #[trigger] names[k]),
            ),
        first_index_file(is_file, dir, names, next) < names.len() ==> is_file(
            child(dir, names[first_index_file(is_file, dir, names, next)]),
        ),
    decreases names.len() - next,
{
    if next < names.len() && !is_file(child(dir, names[next])) {
        lemma_first_index_file_is_first(is_file, dir, names, next + 1);
    }
}

/// The choice of a variant goes by the order of the configuration alone:
/// the candidates are the configured algorithms that the client accepts, in
/// the order of the configuration, whatever the order and the weights in
/// which the client names them; and where the client accepts the algorithm
/// that is configured first and the variant for it exists, that variant is
/// what is sent, whichever other variants exist.
pub proof fn lemma_first_configured_wins(
    handler: HandlerView,
    req: RequestView,
    fs: FileSystem,
    file: Seq<u8>,
    not_found: bool,
)
    requires
        handler.precompressed.len() > 0,
        accepts(req.headers.accept_encoding, handler.precompressed[0].name_spec()),
        (fs.is_file)(variant_path(file, handler.precompressed[0])),
    ensures
        handler.candidates(req) == handler.precompressed.filter(
            |a: CompressionAlgorithm| accepts(req.headers.accept_encoding, a.name_spec()),
        ),
        handler.send_file(req, fs, file, true, not_found) == ({
            let first = handler.precompressed[0];
            match (fs.stat)(variant_path(file, first)) {
                Err(_) => StepView::Error(500),
                Ok(info) => if info.is_file {
                    StepView::Send(
                        handler.respond(
                            req,
                            MetadataView::of(variant_path(file, first), Some(file), info),
                            Some(first),
                            not_found,
                        ),
                    )
                } else {
                    StepView::Error(403)
                },
            }
        }),
{
    lemma_acceptable_is_filter(req.headers.accept_encoding, handler.precompressed);
    lemma_acceptable_first(req.headers.accept_encoding, handler.precompressed);
}

} // verus!
