//! What holds of the responses of the handler.

use crate::compression::transformed;
use crate::compression_algorithm::CompressionAlgorithm;
use crate::handler::{body_for, EventView, HandlerView, StateView, StepView};
use crate::metadata::{lists_etag, MetadataView};
use crate::range::{extract_range_spec, if_range_fails, Range};
use crate::request::{Method, RequestView};
use crate::response::{BodyView, ResponseHeaderView};
use crate::text::{lemma_first_index_is, lower, lower_seq};
use vstd::prelude::*;

verus! {

/// A request whose `If-Match` does not list the entity tag of the file is
/// answered with 412, whatever else it says: `If-None-Match` and the dates
/// do not count then.
pub proof fn lemma_failed_match_is_412(
    handler: HandlerView,
    req: RequestView,
    meta: MetadataView,
    active: Option<CompressionAlgorithm>,
    not_found: bool,
)
    requires
        req.headers.if_match matches Some(list) && !lists_etag(list, meta.etag),
    ensures
        handler.respond(req, meta, active, not_found).header.status == 412,
        handler.respond(req, meta, active, not_found).body == BodyView::Empty,
{
}

/// A request whose `If-None-Match` lists the entity tag of the file, and
/// whose preconditions hold, is answered with 304, whatever its
/// `If-Modified-Since` says: the validator wins over the date.
pub proof fn lemma_validator_wins_over_date(
    handler: HandlerView,
    req: RequestView,
    meta: MetadataView,
    active: Option<CompressionAlgorithm>,
    not_found: bool,
)
    requires
        req.headers.if_none_match matches Some(list) && lists_etag(list, meta.etag),
        !meta.has_failed_precondition(req.headers),
    ensures
        handler.respond(req, meta, active, not_found).header.status == 304,
        handler.respond(req, meta, active, not_found).body == BodyView::Empty,
{
}

/// A request whose `If-None-Match` does not list the entity tag of the file
/// is not answered with 304, whatever its `If-Modified-Since` says.
pub proof fn lemma_validator_mismatch_is_no_304(
    handler: HandlerView,
    req: RequestView,
    meta: MetadataView,
    active: Option<CompressionAlgorithm>,
    not_found: bool,
)
    requires
        req.headers.if_none_match matches Some(list) && !lists_etag(list, meta.etag),
    ensures
        handler.respond(req, meta, active, not_found).header.status != 304,
{
}

/// A `Range` header beside an `If-Range` that names neither the entity tag
/// nor the modification date of the file counts for nothing: the whole file
/// is sent with 200, as if no range had been asked for.
pub proof fn lemma_stale_if_range_is_200(
    handler: HandlerView,
    req: RequestView,
    meta: MetadataView,
    active: Option<CompressionAlgorithm>,
)
    requires
        if_range_fails(req.headers, meta),
        !meta.has_failed_precondition(req.headers),
        !meta.is_not_modified(req.headers),
    ensures
        handler.respond(req, meta, active, false).header == transformed(
            meta.response_header(handler.charset_for(meta.mime)),
            active,
        ),
        handler.respond(req, meta, active, false).header.status == 200,
        handler.respond(req, meta, active, false).body == if meta.size == 0 {
            BodyView::Empty
        } else {
            body_for(req.method, meta.path, 0, (meta.size - 1) as u64)
        },
{
}

/// The response to a `HEAD` request has no body, whatever its status.
pub proof fn lemma_head_has_no_body(
    handler: HandlerView,
    req: RequestView,
    meta: MetadataView,
    active: Option<CompressionAlgorithm>,
    not_found: bool,
)
    requires
        req.method == Method::Head,
    ensures
        handler.respond(req, meta, active, not_found).body == BodyView::Empty,
{
}

/// Whatever the file system replies, and in whatever state, a response that
/// the handler sends to a `HEAD` request has no body.
pub proof fn lemma_head_never_sends_a_body(
    handler: HandlerView,
    req: RequestView,
    state: StateView,
    event: EventView,
)
    requires
        req.method == Method::Head,
    ensures
        handler.advance(req, state, event).1 matches StepView::Send(response) ==> response.body
            == BodyView::Empty,
        handler.begin(req).1 matches StepView::Send(response) ==> response.body == BodyView::Empty,
{
}

/// The response to a `GET` request for a range that can be had carries
/// exactly the bytes of the range: `end - start + 1` of them, from `start`
/// on, with status 206 unless the file stands in for one that was not
/// found.
pub proof fn lemma_get_sends_the_range(
    handler: HandlerView,
    req: RequestView,
    meta: MetadataView,
    active: Option<CompressionAlgorithm>,
    not_found: bool,
    start: u64,
    end: u64,
)
    requires
        req.method == Method::Get,
        extract_range_spec(req.headers, meta) == Some(Range::Valid(start, end)),
        !meta.has_failed_precondition(req.headers),
        !meta.is_not_modified(req.headers),
    ensures
        handler.respond(req, meta, active, not_found).body == (BodyView::File {
            path: meta.path,
            start,
            end,
        }),
        handler.respond(req, meta, active, not_found).body.len() == end - start + 1,
        handler.respond(req, meta, active, not_found).header.status == if not_found {
            404u16
        } else {
            206u16
        },
{
}

/// Whether `name` is the name of a field that says something of the file:
/// none of these is `Vary`, in any letter case.
pub open spec fn is_file_field(name: Seq<char>) -> bool {
    ||| name == "Content-Length"@
    ||| name == "Content-Type"@
    ||| name == "Content-Range"@
    ||| name == "Content-Encoding"@
    ||| name == "ETag"@
    ||| name == "Last-Modified"@
    ||| name == "Accept-Ranges"@
}

/// The names of the fields of the file are told apart from each other and
/// from `Vary`, in any letter case.
proof fn lemma_field_names()
    ensures
        forall|name: Seq<char>| #[trigger] is_file_field(name) ==> lower_seq(name) != "vary"@,
        "Content-Length"@ != "Content-Type"@,
        "Content-Length"@ != "Content-Range"@,
        "Content-Length"@ != "Content-Encoding"@,
        "Content-Length"@ != "ETag"@,
        "Content-Length"@ != "Last-Modified"@,
        "Content-Length"@ != "Accept-Ranges"@,
        "Content-Length"@ != "Vary"@,
        "Content-Type"@ != "Content-Range"@,
        "Content-Type"@ != "Content-Encoding"@,
        "Content-Type"@ != "ETag"@,
        "Content-Type"@ != "Last-Modified"@,
        "Content-Type"@ != "Accept-Ranges"@,
        "Content-Type"@ != "Vary"@,
        "Content-Range"@ != "Content-Encoding"@,
        "Content-Range"@ != "ETag"@,
        "Content-Range"@ != "Last-Modified"@,
        "Content-Range"@ != "Accept-Ranges"@,
        "Content-Range"@ != "Vary"@,
        "Content-Encoding"@ != "ETag"@,
        "Content-Encoding"@ != "Last-Modified"@,
        "Content-Encoding"@ != "Accept-Ranges"@,
        "Content-Encoding"@ != "Vary"@,
        "ETag"@ != "Last-Modified"@,
        "ETag"@ != "Accept-Ranges"@,
        "ETag"@ != "Vary"@,
        "Last-Modified"@ != "Accept-Ranges"@,
        "Last-Modified"@ != "Vary"@,
        "Accept-Ranges"@ != "Vary"@,
{
    reveal_strlit("Content-Length");
    reveal_strlit("Content-Type");
    reveal_strlit("Content-Range");
    reveal_strlit("Content-Encoding");
    reveal_strlit("ETag");
    reveal_strlit("Last-Modified");
    reveal_strlit("Accept-Ranges");
    reveal_strlit("Vary");
    reveal_strlit("vary");
    assert("Content-Length"@.len() == 14);
    assert("Content-Type"@.len() == 12);
    assert("Content-Range"@.len() == 13);
    assert("Content-Encoding"@.len() == 16);
    assert("ETag"@.len() == 4);
    assert("Last-Modified"@.len() == 13);
    assert("Accept-Ranges"@.len() == 13);
    assert("Vary"@.len() == 4);
    assert("vary"@.len() == 4);
    assert("Content-Range"@[0] == 'C');
    assert("Last-Modified"@[0] == 'L');
    assert("Accept-Ranges"@[0] == 'A');
    assert("ETag"@[0] == 'E');
    assert("Vary"@[0] == 'V');
    assert("vary"@[0] == 'v');
    assert forall|name: Seq<char>| #[trigger] is_file_field(name) implies lower_seq(name)
        != "vary"@ by {
        assert(lower_seq(name).len() == name.len());
        if name == "ETag"@ {
            assert(lower_seq(name)[0] == lower(name[0]));
        }
    }
}

/// Whether all fields of a header are fields of the file.
pub open spec fn only_file_fields(header: ResponseHeaderView) -> bool {
    forall|i: int| 0 <= i < header.fields.len() ==> is_file_field((#[trigger] header.fields[i]).0)
}

/// A header that has only fields of the file has a `Vary` field added when
/// a variant is served, after the `Content-Encoding` field, and all its
/// fields kept as they are.
proof fn lemma_transformed_fields(header: ResponseHeaderView, algorithm: CompressionAlgorithm)
    requires
        only_file_fields(header),
    ensures
        transformed(header, Some(algorithm)) == header.with(
            "Content-Encoding"@,
            algorithm.name_spec(),
        ).with("Vary"@, "Accept-Encoding"@),
{
    lemma_field_names();
    let encoded = header.with("Content-Encoding"@, algorithm.name_spec());
    assert forall|j: int| 0 <= j < encoded.names().len() implies encoded.names()[j]
        != "vary"@ by {
        assert(is_file_field(encoded.fields[j].0));
    }
    lemma_first_index_is(encoded.names(), "vary"@, encoded.fields.len() as int);
}

/// The header fields of every response about a file: the entity tag and
/// `Accept-Ranges` always, the modification date where the file has one,
/// the length of the content except with 304 and 412, its type except with
/// 304, 412 and 416, and `Content-Encoding` and `Vary` exactly where a
/// variant is served.
pub proof fn lemma_fields_of_responses(
    handler: HandlerView,
    req: RequestView,
    meta: MetadataView,
    active: Option<CompressionAlgorithm>,
    not_found: bool,
)
    ensures
        ({
            let header = handler.respond(req, meta, active, not_found).header;
            &&& header.has("ETag"@)
            &&& header.has("Accept-Ranges"@)
            &&& header.has("Last-Modified"@) <==> meta.modified.is_some()
            &&& header.has("Content-Length"@) <==> header.status != 304 && header.status != 412
            &&& header.has("Content-Type"@) <==> header.status != 304 && header.status != 412
                && header.status != 416
            &&& header.has("Content-Encoding"@) <==> active.is_some()
            &&& header.has("Vary"@) <==> active.is_some()
        }),
{
    lemma_field_names();
    let charset = handler.charset_for(meta.mime);
    let plain = if meta.has_failed_precondition(req.headers) {
        meta.custom_header(412)
    } else if meta.is_not_modified(req.headers) {
        meta.custom_header(304)
    } else {
        match extract_range_spec(req.headers, meta) {
            Some(Range::Valid(start, end)) => meta.partial_content_header(charset, start, end),
            Some(Range::OutOfBounds) => meta.not_satisfiable_header(),
            None => meta.response_header(charset),
        }
    };
    assert(only_file_fields(plain));
    let header = handler.respond(req, meta, active, not_found).header;
    assert(header.fields == transformed(plain, active).fields);
    match active {
        Some(algorithm) => {
            lemma_transformed_fields(plain, algorithm);
        },
        None => {},
    }
    let n = plain.fields.len() as int;
    assert(plain.fields[n - 1].0 == "Accept-Ranges"@);
    assert(header.fields[n - 1].0 == "Accept-Ranges"@);
    if plain.status == 412 || plain.status == 304 {
        assert(header.fields[0].0 == "ETag"@);
    } else {
        assert(header.fields[0].0 == "Content-Length"@);
        if plain.status == 416 {
            assert(header.fields[2].0 == "ETag"@);
        } else if plain.status == 206 {
            assert(header.fields[2].0 == "Content-Type"@);
            assert(header.fields[3].0 == "ETag"@);
        } else {
            assert(header.fields[1].0 == "Content-Type"@);
            assert(header.fields[2].0 == "ETag"@);
        }
    }
    if meta.modified.is_some() {
        assert(header.fields[n - 2].0 == "Last-Modified"@);
    }
    if active.is_some() {
        assert(header.fields[n].0 == "Content-Encoding"@);
        assert(header.fields[n + 1].0 == "Vary"@);
    }
}

} // verus!
