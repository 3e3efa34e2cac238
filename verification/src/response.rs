//! What the handler decides to send.

use crate::text::{
    append_str, chars_of, first_index, lemma_first_index_is, lower_seq, same, split, split_all,
    string_of, to_lower_vec, trim, trimmed, views,
};
use vstd::prelude::*;

verus! {

/// One response header field.
#[derive(Debug, Clone, PartialEq, Eq)]
pub struct Header {
    /// The field name.
    pub name: String,
    /// The field value.
    pub value: String,
}

impl View for Header {
    type V = (Seq<char>, Seq<char>);

    open spec fn view(&self) -> (Seq<char>, Seq<char>) {
        (self.name@, self.value@)
    }
}

/// The status line and header fields of a response.
#[derive(Debug, Clone, PartialEq, Eq)]
pub struct ResponseHeader {
    /// The status code.
    pub status: u16,
    /// The header fields, in the order in which they are sent.
    pub headers: Vec<Header>,
}

/// A response header as plain values.
pub ghost struct ResponseHeaderView {
    pub status: u16,
    pub fields: Seq<(Seq<char>, Seq<char>)>,
}

impl ResponseHeaderView {
    /// The header with one more field at the end.
    pub open spec fn with(self, name: Seq<char>, value: Seq<char>) -> ResponseHeaderView {
        ResponseHeaderView { status: self.status, fields: self.fields.push((name, value)) }
    }

    /// The header with another status.
    pub open spec fn with_status(self, status: u16) -> ResponseHeaderView {
        ResponseHeaderView { status, fields: self.fields }
    }

    /// A header without fields.
    pub open spec fn empty(status: u16) -> ResponseHeaderView {
        ResponseHeaderView { status, fields: Seq::empty() }
    }

    /// The names of the fields, in lower case.
    pub open spec fn names(self) -> Seq<Seq<char>> {
        self.fields.map_values(|f: (Seq<char>, Seq<char>)| lower_seq(f.0))
    }

    /// Index of the first field whose name is `name` but for letter case, or
    /// the number of fields where there is none. `name` is in lower case.
    pub open spec fn index_of(self, name: Seq<char>) -> int {
        first_index(self.names(), name)
    }

    /// The header with `token` among the values of its `Vary` field: in a
    /// new field where it has none, at the end of the first one otherwise,
    /// unless that one names `token` or `*` already.
    pub open spec fn with_vary(self, token: Seq<char>) -> ResponseHeaderView {
        let i = self.index_of("vary"@);
        if i >= self.fields.len() {
            self.with("Vary"@, token)
        } else if lists_token(self.fields[i].1, lower_seq(token)) || lists_token(
            self.fields[i].1,
            seq!['*'],
        ) {
            self
        } else {
            ResponseHeaderView {
                status: self.status,
                fields: self.fields.update(i, (self.fields[i].0, self.fields[i].1 + ", "@ + token)),
            }
        }
    }

    /// Whether a field of this name is present.
    pub open spec fn has(self, name: Seq<char>) -> bool {
        exists|i: int| 0 <= i < self.fields.len() && (#[trigger] self.fields[i]).0 == name
    }
}

/// Whether one of the items of the comma-separated list `value` is `token`
/// but for letter case and white space around it. `token` is in lower case.
pub open spec fn lists_token(value: Seq<char>, token: Seq<char>) -> bool {
    exists|i: int|
        0 <= i < split(value, ',').len() && lower_seq(trim(#[trigger] split(value, ',')[i]))
            == token
}

/// Executable form of [`lists_token`].
fn token_listed(value: &[char], token: &[char]) -> (r: bool)
    ensures
        r == lists_token(value@, token@),
{
    let items = split_all(value, ',');
    let mut k: usize = 0;
    while k < items.len()
        invariant
            k <= items.len(),
            views(items@) == split(value@, ','),
            forall|j: int|
                0 <= j < k ==> lower_seq(trim(#[trigger] split(value@, ',')[j])) != token@,
        decreases items.len() - k,
    {
        assert(views(items@)[k as int] == items@[k as int]@);
        let item = to_lower_vec(trimmed(items[k].as_slice()));
        if same(item.as_slice(), token) {
            return true;
        }
        k += 1;
    }
    false
}

impl View for ResponseHeader {
    type V = ResponseHeaderView;

    open spec fn view(&self) -> ResponseHeaderView {
        ResponseHeaderView { status: self.status, fields: self.headers@.map_values(|h: Header| h@) }
    }
}

impl ResponseHeader {
    /// A header with the given status and no fields.
    pub fn build(status: u16) -> (r: ResponseHeader)
        ensures
            r@ == ResponseHeaderView::empty(status),
    {
        let r = ResponseHeader { status, headers: Vec::new() };
        assert(r@.fields =~= Seq::empty());
        r
    }

    /// Adds a field at the end.
    pub fn append_header(&mut self, name: &str, value: &[char])
        ensures
            final(self)@ == old(self)@.with(name@, value@),
    {
        let n = chars_of(name);
        let header = Header { name: string_of(n.as_slice()), value: string_of(value) };
        self.headers.push(header);
        assert(self@.fields =~= old(self)@.fields.push((name@, value@)));
    }

    /// Index of the first field whose name is `name` but for letter case, or
    /// the number of fields. `name` is in lower case.
    fn find_field(&self, name: &[char]) -> (i: usize)
        ensures
            i == self@.index_of(name@),
            i <= self.headers.len(),
    {
        let mut k: usize = 0;
        while k < self.headers.len()
            invariant
                k <= self.headers.len(),
                forall|j: int| 0 <= j < k ==> self@.names()[j] != name@,
            decreases self.headers.len() - k,
        {
            let field = chars_of(self.headers[k].name.as_str());
            let lowered = to_lower_vec(field.as_slice());
            assert(self@.names()[k as int] == lowered@);
            if same(lowered.as_slice(), name) {
                proof {
                    lemma_first_index_is(self@.names(), name@, k as int);
                }
                return k;
            }
            k += 1;
        }
        proof {
            lemma_first_index_is(self@.names(), name@, k as int);
        }
        k
    }

    /// Puts `token` among the values of the `Vary` field.
    pub fn add_vary(&mut self, token: &str)
        ensures
            final(self)@ == old(self)@.with_vary(token@),
    {
        let vary = chars_of("vary");
        let i = self.find_field(vary.as_slice());
        if i >= self.headers.len() {
            let t = chars_of(token);
            self.append_header("Vary", t.as_slice());
            return;
        }
        let mut value = chars_of(self.headers[i].value.as_str());
        let t = chars_of(token);
        let lowered = to_lower_vec(t.as_slice());
        let any = vec!['*'];
        assert(any@ == seq!['*']);
        if token_listed(value.as_slice(), lowered.as_slice()) || token_listed(
            value.as_slice(),
            any.as_slice(),
        ) {
            return;
        }
        append_str(&mut value, ", ");
        append_str(&mut value, token);
        let name = chars_of(self.headers[i].name.as_str());
        let field = Header { name: string_of(name.as_slice()), value: string_of(value.as_slice()) };
        self.headers.set(i, field);
        assert(self@.fields == old(self)@.fields.update(
            i as int,
            (old(self)@.fields[i as int].0, old(self)@.fields[i as int].1 + ", "@ + token@),
        ));
    }

    /// Replaces the status.
    pub fn set_status(&mut self, status: u16)
        ensures
            final(self)@ == old(self)@.with_status(status),
    {
        self.status = status;
    }
}

/// The body of a response.
#[derive(Debug, Clone, PartialEq, Eq)]
pub enum Body {
    /// No body is sent.
    Empty,
    /// The given text is the body.
    Text(String),
    /// The bytes of a file from offset `start` to offset `end`, both
    /// included, are the body.
    File { path: Vec<u8>, start: u64, end: u64 },
}

/// A response body as plain values.
pub ghost enum BodyView {
    Empty,
    Text(Seq<char>),
    File { path: Seq<u8>, start: u64, end: u64 },
}

impl View for Body {
    type V = BodyView;

    open spec fn view(&self) -> BodyView {
        match self {
            Body::Empty => BodyView::Empty,
            Body::Text(t) => BodyView::Text(t@),
            Body::File { path, start, end } => BodyView::File {
                path: path@,
                start: *start,
                end: *end,
            },
        }
    }
}

impl BodyView {
    /// The number of bytes that are sent as the body.
    pub open spec fn len(self) -> int {
        match self {
            BodyView::Empty => 0,
            BodyView::Text(t) => vstd::utf8::encode_utf8(t).len() as int,
            BodyView::File { path, start, end } => end - start + 1,
        }
    }
}

/// A whole response: header and body.
#[derive(Debug, Clone, PartialEq, Eq)]
pub struct Response {
    /// Status and header fields.
    pub header: ResponseHeader,
    /// The body.
    pub body: Body,
}

/// A response as plain values.
pub ghost struct ResponseView {
    pub header: ResponseHeaderView,
    pub body: BodyView,
}

impl View for Response {
    type V = ResponseView;

    open spec fn view(&self) -> ResponseView {
        ResponseView { header: self.header@, body: self.body@ }
    }
}

} // verus!
