//! What the handler reads of a request.

use crate::text::same_text;
use vstd::prelude::*;

verus! {

/// The request method, as far as the handler tells methods apart.
#[derive(Debug, Clone, Copy, PartialEq, Eq, Structural)]
pub enum Method {
    /// `GET`
    Get,
    /// `HEAD`
    Head,
    /// Any other method.
    Other,
}

impl Method {
    /// The method with the given name; names are case-sensitive.
    pub open spec fn of_name(name: Seq<char>) -> Method {
        if name == "GET"@ {
            Method::Get
        } else if name == "HEAD"@ {
            Method::Head
        } else {
            Method::Other
        }
    }

    /// The method with the given name; names are case-sensitive.
    pub fn from_name(name: &str) -> (r: Method)
        ensures
            r == Method::of_name(name@),
    {
        if same_text(name, "GET") {
            Method::Get
        } else if same_text(name, "HEAD") {
            Method::Head
        } else {
            Method::Other
        }
    }
}

/// The view of an optional string.
pub open spec fn text_of(s: Option<String>) -> Option<Seq<char>> {
    match s {
        Some(s) => Some(s@),
        None => None,
    }
}

/// The request header fields that the handler reads. A field that the
/// request lacks, or whose value is not text, is `None`.
#[derive(Debug, Clone, PartialEq, Eq)]
pub struct RequestHeaders {
    /// `If-Match`
    pub if_match: Option<String>,
    /// `If-None-Match`
    pub if_none_match: Option<String>,
    /// `If-Modified-Since`
    pub if_modified_since: Option<String>,
    /// `If-Unmodified-Since`
    pub if_unmodified_since: Option<String>,
    /// `If-Range`
    pub if_range: Option<String>,
    /// `Range`
    pub range: Option<String>,
    /// `Accept-Encoding`
    pub accept_encoding: Option<String>,
}

/// The request header fields as plain text.
pub ghost struct RequestHeadersView {
    pub if_match: Option<Seq<char>>,
    pub if_none_match: Option<Seq<char>>,
    pub if_modified_since: Option<Seq<char>>,
    pub if_unmodified_since: Option<Seq<char>>,
    pub if_range: Option<Seq<char>>,
    pub range: Option<Seq<char>>,
    pub accept_encoding: Option<Seq<char>>,
}

impl View for RequestHeaders {
    type V = RequestHeadersView;

    open spec fn view(&self) -> RequestHeadersView {
        RequestHeadersView {
            if_match: text_of(self.if_match),
            if_none_match: text_of(self.if_none_match),
            if_modified_since: text_of(self.if_modified_since),
            if_unmodified_since: text_of(self.if_unmodified_since),
            if_range: text_of(self.if_range),
            range: text_of(self.range),
            accept_encoding: text_of(self.accept_encoding),
        }
    }
}

impl RequestHeaders {
    /// No header fields at all.
    pub fn new() -> (r: RequestHeaders)
        ensures
            r@ == (RequestHeadersView {
                if_match: None,
                if_none_match: None,
                if_modified_since: None,
                if_unmodified_since: None,
                if_range: None,
                range: None,
                accept_encoding: None,
            }),
    {
        RequestHeaders {
            if_match: None,
            if_none_match: None,
            if_modified_since: None,
            if_unmodified_since: None,
            if_range: None,
            range: None,
            accept_encoding: None,
        }
    }
}

/// One request, as the handler sees it.
#[derive(Debug, Clone, PartialEq, Eq)]
pub struct Request {
    /// The request method.
    pub method: Method,
    /// The path of the request URL, as it stands when the handler runs.
    pub path: String,
    /// The query of the request URL, without the `?`.
    pub query: Option<String>,
    /// The path of the URL that the client asked for, before any stage
    /// ahead of the handler rewrote it.
    pub original_path: String,
    /// The header fields.
    pub headers: RequestHeaders,
}

/// One request as plain values.
pub ghost struct RequestView {
    pub method: Method,
    pub path: Seq<char>,
    pub query: Option<Seq<char>>,
    pub original_path: Seq<char>,
    pub headers: RequestHeadersView,
}

impl View for Request {
    type V = RequestView;

    open spec fn view(&self) -> RequestView {
        RequestView {
            method: self.method,
            path: self.path@,
            query: text_of(self.query),
            original_path: self.original_path@,
            headers: self.headers@,
        }
    }
}

} // verus!
