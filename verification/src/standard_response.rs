//! The standard pages for errors and redirects.

use crate::number::{decimal, push_decimal};
use crate::request::{text_of, Method};
use crate::response::{Body, BodyView, Response, ResponseHeader, ResponseHeaderView, ResponseView};
use crate::text::{append_str, chars_of, string_of};
use vstd::prelude::*;
use vstd::utf8::encode_utf8;

verus! {

/// The standard reason phrase of a status code, such as `Not Found` for
/// 404, where the code has one.
pub uninterp spec fn canonical_reason(status: u16) -> Option<Seq<char>>;

/// How one character is written in HTML text.
pub open spec fn escaped_char(c: char) -> Seq<char> {
    if c == '&' {
        seq!['&', 'a', 'm', 'p', ';']
    } else if c == '<' {
        seq!['&', 'l', 't', ';']
    } else if c == '>' {
        seq!['&', 'g', 't', ';']
    } else if c == '"' {
        seq!['&', 'q', 'u', 'o', 't', ';']
    } else {
        seq![c]
    }
}

/// How a text is written in HTML: `&`, `<`, `>` and `"` become entities,
/// all else stays.
pub open spec fn html_escaped(s: Seq<char>) -> Seq<char>
    decreases s.len(),
{
    if s.len() == 0 {
        Seq::empty()
    } else {
        html_escaped(s.drop_last()) + escaped_char(s.last())
    }
}

/// The digits of a status code.
///
/// Trusted: `http::StatusCode::from_u16` accepts the codes from 100 to 999
/// and no others, and `http::StatusCode::as_str` gives the three decimal
/// digits of the code.
#[verifier::external_body]
fn status_digits(status: u16) -> (r: Option<String>)
    ensures
        match r {
            Some(digits) => 100 <= status <= 999 && digits@ == decimal(status as nat),
            None => !(100 <= status <= 999),
        },
{
    match http::StatusCode::from_u16(status) {
        Ok(code) => Some(code.as_str().to_owned()),
        Err(_) => None,
    }
}

/// The standard reason phrase of a status code.
///
/// Trusted: `http::StatusCode::canonical_reason` gives the phrase that goes
/// with the code, the same for the same code, or nothing for a code without
/// one; a number that `http::StatusCode::from_u16` does not accept as a code
/// has none.
#[verifier::external_body]
fn reason_phrase(status: u16) -> (r: Option<String>)
    ensures
        text_of(r) == canonical_reason(status),
{
    match http::StatusCode::from_u16(status) {
        Ok(code) => code.canonical_reason().map(String::from),
        Err(_) => None,
    }
}

/// Writes a text as HTML.
///
/// Trusted: `maud::Render::render_to` for `str` appends the text to the
/// buffer with `&`, `<`, `>` and `"` replaced by `&amp;`, `&lt;`, `&gt;` and
/// `&quot;`, and every other character unchanged.
#[verifier::external_body]
fn escape_html(text: &str) -> (r: String)
    ensures
        r@ == html_escaped(text@),
{
    let mut out = String::new();
    maud::Render::render_to(text, &mut out);
    out
}

/// The heading of the standard page for a status: the code, a space and
/// the reason phrase, which is empty for a code without one.
pub open spec fn heading(status: u16) -> Seq<char> {
    html_escaped(decimal(status as nat)) + seq![' '] + html_escaped(
        match canonical_reason(status) {
            Some(phrase) => phrase,
            None => Seq::empty(),
        },
    )
}

/// The text of the standard page with the given heading, already written as
/// HTML.
pub open spec fn page(heading: Seq<char>) -> Seq<char> {
    "<!DOCTYPE html><html><head><title>"@ + heading + "</title></head><body><center><h1>"@ + heading
        + "</h1></center></body></html>"@
}

/// The text of the standard page for a status, given the reason phrase
/// that goes with it.
pub fn page_text(status: u16, reason: Option<&str>) -> (r: String)
    ensures
        r@ == page(
            html_escaped(decimal(status as nat)) + seq![' '] + html_escaped(
                match reason {
                    Some(phrase) => phrase@,
                    None => Seq::empty(),
                },
            ),
        ),
{
    let digits = match status_digits(status) {
        Some(digits) => digits,
        None => {
            let mut own: Vec<char> = Vec::new();
            push_decimal(&mut own, status as u64);
            string_of(own.as_slice())
        },
    };
    let mut head: Vec<char> = Vec::new();
    append_str(&mut head, escape_html(digits.as_str()).as_str());
    head.push(' ');
    match reason {
        Some(phrase) => {
            append_str(&mut head, escape_html(phrase).as_str());
        },
        None => {
            assert(html_escaped(Seq::<char>::empty()) == Seq::<char>::empty());
            assert(head@ + Seq::<char>::empty() == head@);
        },
    }
    let mut out: Vec<char> = Vec::new();
    append_str(&mut out, "<!DOCTYPE html><html><head><title>");
    crate::text::append(&mut out, head.as_slice());
    append_str(&mut out, "</title></head><body><center><h1>");
    crate::text::append(&mut out, head.as_slice());
    append_str(&mut out, "</h1></center></body></html>");
    string_of(out.as_slice())
}

/// Produces the text of the standard page for the given status code.
pub fn response_text(status: u16) -> (r: String)
    ensures
        r@ == page(heading(status)),
{
    match reason_phrase(status) {
        Some(phrase) => page_text(status, Some(phrase.as_str())),
        None => page_text(status, None),
    }
}

/// The standard response with the page `text`: its length and type, the
/// location and the cookie where they are given, and the page as the body
/// unless the request was a `HEAD`.
pub open spec fn standard_response(
    method: Method,
    status: u16,
    text: Seq<char>,
    location: Option<Seq<char>>,
    cookie: Option<Seq<char>>,
) -> ResponseView {
    let plain = ResponseHeaderView::empty(status).with(
        "Content-Length"@,
        decimal(encode_utf8(text).len()),
    ).with("Content-Type"@, "text/html;charset=utf-8"@);
    let located = match location {
        Some(to) => plain.with("Location"@, to),
        None => plain,
    };
    let header = match cookie {
        Some(value) => located.with("Set-Cookie"@, value),
        None => located,
    };
    ResponseView {
        header,
        body: if method == Method::Head {
            BodyView::Empty
        } else {
            BodyView::Text(text)
        },
    }
}

/// Builds the standard response for a status.
fn response(method: Method, status: u16, location: Option<&str>, cookie: Option<&str>) -> (r:
    Response)
    ensures
        r@ == standard_response(
            method,
            status,
            page(heading(status)),
            match location {
                Some(to) => Some(to@),
                None => None,
            },
            match cookie {
                Some(value) => Some(value@),
                None => None,
            },
        ),
{
    let text = response_text(status);
    let mut header = ResponseHeader::build(status);
    let mut length: Vec<char> = Vec::new();
    push_decimal(&mut length, text.as_str().as_bytes().len() as u64);
    header.append_header("Content-Length", length.as_slice());
    let kind = chars_of("text/html;charset=utf-8");
    header.append_header("Content-Type", kind.as_slice());
    match location {
        Some(to) => {
            let value = chars_of(to);
            header.append_header("Location", value.as_slice());
        },
        None => {},
    }
    match cookie {
        Some(cookie) => {
            let value = chars_of(cookie);
            header.append_header("Set-Cookie", value.as_slice());
        },
        None => {},
    }
    let body = match method {
        Method::Head => Body::Empty,
        _ => Body::Text(text),
    };
    Response { header, body }
}

/// The standard error page for the given status code, as the response to a
/// request with the given method.
pub fn error_response(method: Method, status: u16) -> (r: Response)
    ensures
        r@ == standard_response(method, status, page(heading(status)), None, None),
{
    response(method, status, None, None)
}

/// A redirect to the given location.
pub fn redirect_response(method: Method, status: u16, location: &str) -> (r: Response)
    ensures
        r@ == standard_response(method, status, page(heading(status)), Some(location@), None),
{
    response(method, status, Some(location), None)
}

/// A redirect to the given location that sets a cookie.
pub fn redirect_response_with_cookie(
    method: Method,
    status: u16,
    location: &str,
    cookie: &str,
) -> (r: Response)
    ensures
        r@ == standard_response(
            method,
            status,
            page(heading(status)),
            Some(location@),
            Some(cookie@),
        ),
{
    response(method, status, Some(location), Some(cookie))
}

/// The standard response to a `HEAD` request has no body, whatever its
/// status; to any other request it has the page, whose length in bytes the
/// header gives.
pub proof fn lemma_standard_body(
    method: Method,
    status: u16,
    text: Seq<char>,
    location: Option<Seq<char>>,
    cookie: Option<Seq<char>>,
)
    ensures
        method == Method::Head ==> standard_response(method, status, text, location, cookie).body
            == BodyView::Empty,
        method != Method::Head ==> standard_response(method, status, text, location, cookie).body
            == BodyView::Text(text),
        standard_response(method, status, text, location, cookie).header.fields[0] == (
            "Content-Length"@,
            decimal(BodyView::Text(text).len() as nat),
        ),
{
}

} // verus!
