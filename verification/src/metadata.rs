//! File metadata, conditional requests and the response headers built from
//! them.

use crate::http_date::{days_before_year, HttpDate};
use crate::mime_types::{media_type_for, media_type_of};
use crate::number::{
    decimal, hex, is_hex_digit, lemma_hex_digits, lemma_hex_is_one_to_one, push_decimal, push_hex,
};
use crate::request::{text_of, RequestHeaders, RequestHeadersView};
use crate::response::{ResponseHeader, ResponseHeaderView};
use crate::text::{
    append, append_str, chars_of, first_index, is_space, lemma_first_index_is, same, split,
    split_all, string_of, trim, trimmed, views,
};
use vstd::prelude::*;

verus! {

/// What the file system knows of one entry.
#[derive(Debug, Clone, Copy, PartialEq, Eq, Structural)]
pub struct FileInfo {
    /// Whether the entry is a regular file.
    pub is_file: bool,
    /// The length of the entry in bytes.
    pub size: u64,
    /// The time of the last modification in seconds since the start of 1970,
    /// where the file system has one.
    pub modified: Option<u64>,
}

/// Why no metadata can be had for a path.
#[derive(Debug, Clone, Copy, PartialEq, Eq, Structural)]
pub enum MetadataError {
    /// The entry is a directory, a device or anything else but a regular
    /// file, and is never served.
    NotAFile,
}

/// Metadata of the file that is served.
#[derive(Debug, Clone, PartialEq, Eq)]
pub struct Metadata {
    /// The path from which the bytes are read.
    pub path: Vec<u8>,
    /// The media type.
    pub mime: String,
    /// The file size in bytes.
    pub size: u64,
    /// The time of the last modification as an HTTP date, if known.
    pub modified: Option<String>,
    /// The entity tag, in double quotes.
    pub etag: String,
}

/// Metadata as plain values.
pub ghost struct MetadataView {
    pub path: Seq<u8>,
    pub mime: Seq<char>,
    pub size: u64,
    pub modified: Option<Seq<char>>,
    pub etag: Seq<char>,
}

impl View for Metadata {
    type V = MetadataView;

    open spec fn view(&self) -> MetadataView {
        MetadataView {
            path: self.path@,
            mime: self.mime@,
            size: self.size,
            modified: text_of(self.modified),
            etag: self.etag@,
        }
    }
}

/// The entity tag of a file with the given modification time and size: both
/// in hexadecimal, joined by `-`, in double quotes. A file without a
/// modification time has 0 in its place.
pub open spec fn etag_of(info: FileInfo) -> Seq<char> {
    seq!['"'] + hex(
        match info.modified {
            Some(secs) => secs as nat,
            None => 0,
        },
    ) + seq!['-'] + hex(info.size as nat) + seq!['"']
}

/// Whether the time `secs` can be written as an HTTP date, which has four
/// digits for the year.
pub open spec fn has_http_date(secs: u64) -> bool {
    secs / 86400 < days_before_year(10000)
}

/// The time of the last modification as an HTTP date, where the file system
/// has one that can be written so.
pub open spec fn modified_text(info: FileInfo) -> Option<Seq<char>> {
    match info.modified {
        Some(secs) => if has_http_date(secs) {
            Some(HttpDate::of_unix(secs).text())
        } else {
            None
        },
        None => None,
    }
}

/// Whether one of the entity tags listed in `list`, separated by commas, is
/// `etag`, or is `*`, which stands for any.
pub open spec fn lists_etag(list: Seq<char>, etag: Seq<char>) -> bool {
    exists|i: int|
        0 <= i < split(list, ',').len() && is_tag_or_any(#[trigger] split(list, ',')[i], etag)
}

/// Whether the list item `item` is `etag` or `*`.
pub open spec fn is_tag_or_any(item: Seq<char>, etag: Seq<char>) -> bool {
    trim(item) == etag || trim(item) == seq!['*']
}

/// Whether `a` and `b` are both HTTP dates and `a` comes before `b`.
pub open spec fn date_before(a: Seq<char>, b: Seq<char>) -> bool {
    match (HttpDate::parse_spec(a), HttpDate::parse_spec(b)) {
        (Some(x), Some(y)) => x.before(y),
        _ => false,
    }
}

/// Whether `a` and `b` are both HTTP dates and `a` does not come before
/// `b`.
pub open spec fn date_not_before(a: Seq<char>, b: Seq<char>) -> bool {
    match (HttpDate::parse_spec(a), HttpDate::parse_spec(b)) {
        (Some(x), Some(y)) => !x.before(y),
        _ => false,
    }
}

/// The value of `Content-Type`: the media type, with the character set
/// where one is declared.
pub open spec fn content_type(mime: Seq<char>, charset: Option<Seq<char>>) -> Seq<char> {
    match charset {
        Some(c) => mime + ";charset="@ + c,
        None => mime,
    }
}

/// The value of `Content-Range` for a part of a file.
pub open spec fn content_range(start: u64, end: u64, size: u64) -> Seq<char> {
    "bytes "@ + decimal(start as nat) + seq!['-'] + decimal(end as nat) + seq!['/'] + decimal(
        size as nat,
    )
}

/// The value of `Content-Range` where no part of the file can be sent.
pub open spec fn content_range_unsatisfied(size: u64) -> Seq<char> {
    "bytes */"@ + decimal(size as nat)
}

impl MetadataView {
    /// The metadata of the file at `path` of which the file system says
    /// `info`: path and size as given, the media type by the extension of
    /// `orig_path` or else of `path`, the entity tag of the modification time
    /// and the size, and the modification time as an HTTP date.
    pub open spec fn of(path: Seq<u8>, orig_path: Option<Seq<u8>>, info: FileInfo) -> MetadataView {
        MetadataView {
            path,
            mime: media_type_of(
                match orig_path {
                    Some(p) => p,
                    None => path,
                },
            ),
            size: info.size,
            modified: modified_text(info),
            etag: etag_of(info),
        }
    }

    /// Whether the modification time, if there is one, is a date in the
    /// format of HTTP.
    pub open spec fn is_dated(self) -> bool {
        self.modified matches Some(text) ==> exists|date: HttpDate|
            date.well_formed() && text == #[trigger] date.text()
    }

    /// Whether a precondition of the request fails: `If-Match` is present and
    /// does not list the entity tag, or `If-Unmodified-Since` is present and
    /// earlier than the last modification.
    pub open spec fn has_failed_precondition(self, headers: RequestHeadersView) -> bool {
        ||| (headers.if_match matches Some(list) && !lists_etag(list, self.etag))
        ||| (headers.if_unmodified_since matches Some(since) && self.modified matches Some(modified)
            && date_before(since, modified))
    }

    /// Whether the client's copy is still good: `If-None-Match` is present
    /// and lists the entity tag; or it is absent, and `If-Modified-Since` is
    /// present and not earlier than the last modification.
    pub open spec fn is_not_modified(self, headers: RequestHeadersView) -> bool {
        match headers.if_none_match {
            Some(list) => lists_etag(list, self.etag),
            None => headers.if_modified_since matches Some(since) && self.modified matches Some(
                modified,
            ) && date_not_before(since, modified),
        }
    }

    /// The fields that every response about the file carries.
    pub open spec fn with_validators(self, header: ResponseHeaderView) -> ResponseHeaderView {
        let tagged = header.with("ETag"@, self.etag);
        let dated = match self.modified {
            Some(modified) => tagged.with("Last-Modified"@, modified),
            None => tagged,
        };
        dated.with("Accept-Ranges"@, "bytes"@)
    }

    /// The header of a response with the whole file.
    pub open spec fn response_header(self, charset: Option<Seq<char>>) -> ResponseHeaderView {
        self.with_validators(
            ResponseHeaderView::empty(200).with("Content-Length"@, decimal(self.size as nat)).with(
                "Content-Type"@,
                content_type(self.mime, charset),
            ),
        )
    }

    /// The header of a response with the bytes from `start` to `end`.
    pub open spec fn partial_content_header(
        self,
        charset: Option<Seq<char>>,
        start: u64,
        end: u64,
    ) -> ResponseHeaderView {
        self.with_validators(
            ResponseHeaderView::empty(206).with(
                "Content-Length"@,
                decimal((end - start + 1) as nat),
            ).with("Content-Range"@, content_range(start, end, self.size)).with(
                "Content-Type"@,
                content_type(self.mime, charset),
            ),
        )
    }

    /// The header of the response to a range that cannot be satisfied.
    pub open spec fn not_satisfiable_header(self) -> ResponseHeaderView {
        self.with_validators(
            ResponseHeaderView::empty(416).with("Content-Length"@, seq!['0']).with(
                "Content-Range"@,
                content_range_unsatisfied(self.size),
            ),
        )
    }

    /// The header of a response without content, such as 304 and 412.
    pub open spec fn custom_header(self, status: u16) -> ResponseHeaderView {
        self.with_validators(ResponseHeaderView::empty(status))
    }
}

/// Whether `item`, an entry of a list of entity tags, is `etag` or `*`.
fn tag_or_any(item: &[char], etag: &[char]) -> (r: bool)
    ensures
        r == is_tag_or_any(item@, etag@),
{
    let t = trimmed(item);
    let any = t.len() == 1 && t[0] == '*';
    proof {
        if any {
            assert(t@ == seq!['*']);
        }
        if t@ == seq!['*'] {
            assert(t@.len() == 1 && t@[0] == '*');
        }
    }
    same(t, etag) || any
}

/// Executable form of [`lists_etag`].
pub fn etag_listed(list: &str, etag: &str) -> (r: bool)
    ensures
        r == lists_etag(list@, etag@),
{
    let chars = chars_of(list);
    let tag = chars_of(etag);
    let items = split_all(chars.as_slice(), ',');
    let mut k: usize = 0;
    while k < items.len()
        invariant
            k <= items.len(),
            tag@ == etag@,
            views(items@) == split(list@, ','),
            forall|j: int| 0 <= j < k ==> !is_tag_or_any(#[trigger] split(list@, ',')[j], etag@),
        decreases items.len() - k,
    {
        assert(views(items@)[k as int] == items@[k as int]@);
        if tag_or_any(items[k].as_slice(), tag.as_slice()) {
            return true;
        }
        k += 1;
    }
    false
}

/// Executable form of [`date_before`].
pub fn is_date_before(a: &str, b: &str) -> (r: bool)
    ensures
        r == date_before(a@, b@),
{
    match (HttpDate::parse(a), HttpDate::parse(b)) {
        (Some(x), Some(y)) => x.is_before(&y),
        _ => false,
    }
}

/// Executable form of [`date_not_before`].
pub fn is_date_not_before(a: &str, b: &str) -> (r: bool)
    ensures
        r == date_not_before(a@, b@),
{
    match (HttpDate::parse(a), HttpDate::parse(b)) {
        (Some(x), Some(y)) => !x.is_before(&y),
        _ => false,
    }
}

impl Metadata {
    /// Collects the metadata of the file at `path` from what the file system
    /// says of it. The media type goes by the extension of `orig_path` where
    /// one is given, as when `path` is a compressed variant of it, and by
    /// that of `path` otherwise.
    ///
    /// Fails for anything but a regular file.
    pub fn from_path(path: &[u8], orig_path: Option<&[u8]>, info: &FileInfo) -> (r: Result<
        Metadata,
        MetadataError,
    >)
        ensures
            match r {
                Ok(meta) => info.is_file && meta@ == MetadataView::of(
                    path@,
                    match orig_path {
                        Some(p) => Some(p@),
                        None => None,
                    },
                    *info,
                ) && meta@.is_dated(),
                Err(e) => !info.is_file && e == MetadataError::NotAFile,
            },
    {
        if !info.is_file {
            return Err(MetadataError::NotAFile);
        }
        let mime = match orig_path {
            Some(p) => media_type_for(p),
            None => media_type_for(path),
        };
        let modified = match info.modified {
            Some(secs) => match HttpDate::from_unix(secs) {
                Some(date) => {
                    let text = date.format();
                    assert(date.well_formed() && text@ == date.text());
                    Some(text)
                },
                None => None,
            },
            None => None,
        };
        let mut etag: Vec<char> = Vec::new();
        etag.push('"');
        push_hex(
            &mut etag,
            match info.modified {
                Some(secs) => secs,
                None => 0,
            },
        );
        etag.push('-');
        push_hex(&mut etag, info.size);
        etag.push('"');
        assert(etag@ == etag_of(*info));
        let mut own: Vec<u8> = Vec::new();
        append(&mut own, path);
        Ok(
            Metadata {
                path: own,
                mime: string_of(mime.as_slice()),
                size: info.size,
                modified,
                etag: string_of(etag.as_slice()),
            },
        )
    }

    /// Whether a precondition of the request fails, so that the answer is
    /// 412.
    pub fn has_failed_precondition(&self, headers: &RequestHeaders) -> (r: bool)
        ensures
            r == self@.has_failed_precondition(headers@),
    {
        let unmatched = match &headers.if_match {
            Some(list) => !etag_listed(list.as_str(), self.etag.as_str()),
            None => false,
        };
        if unmatched {
            return true;
        }
        match (&headers.if_unmodified_since, &self.modified) {
            (Some(since), Some(modified)) => is_date_before(since.as_str(), modified.as_str()),
            _ => false,
        }
    }

    /// Whether the client's copy is still good, so that the answer is 304.
    pub fn is_not_modified(&self, headers: &RequestHeaders) -> (r: bool)
        ensures
            r == self@.is_not_modified(headers@),
    {
        match &headers.if_none_match {
            Some(list) => etag_listed(list.as_str(), self.etag.as_str()),
            None => match (&headers.if_modified_since, &self.modified) {
                (Some(since), Some(modified)) => is_date_not_before(
                    since.as_str(),
                    modified.as_str(),
                ),
                _ => false,
            },
        }
    }

    /// Adds the fields that every response about the file carries.
    fn add_validators(&self, header: &mut ResponseHeader)
        ensures
            final(header)@ == self@.with_validators(old(header)@),
    {
        let etag = chars_of(self.etag.as_str());
        header.append_header("ETag", etag.as_slice());
        match &self.modified {
            Some(modified) => {
                let m = chars_of(modified.as_str());
                header.append_header("Last-Modified", m.as_slice());
            },
            None => {},
        }
        let bytes = chars_of("bytes");
        header.append_header("Accept-Ranges", bytes.as_slice());
    }

    /// The value of `Content-Type`.
    fn content_type_value(&self, charset: Option<&str>) -> (r: Vec<char>)
        ensures
            r@ == content_type(
                self@.mime,
                match charset {
                    Some(c) => Some(c@),
                    None => None,
                },
            ),
    {
        let mut value = chars_of(self.mime.as_str());
        match charset {
            Some(c) => {
                append_str(&mut value, ";charset=");
                append_str(&mut value, c);
            },
            None => {},
        }
        value
    }

    /// The header of a response with the whole file: status 200.
    pub fn to_response_header(&self, charset: Option<&str>) -> (r: ResponseHeader)
        ensures
            r@ == self@.response_header(
                match charset {
                    Some(c) => Some(c@),
                    None => None,
                },
            ),
    {
        let mut header = ResponseHeader::build(200);
        let mut length: Vec<char> = Vec::new();
        push_decimal(&mut length, self.size);
        header.append_header("Content-Length", length.as_slice());
        let value = self.content_type_value(charset);
        header.append_header("Content-Type", value.as_slice());
        self.add_validators(&mut header);
        header
    }

    /// The header of a response with the bytes from `start` to `end`, both
    /// included: status 206.
    pub fn to_partial_content_header(&self, charset: Option<&str>, start: u64, end: u64) -> (r:
        ResponseHeader)
        requires
            start <= end < self.size,
        ensures
            r@ == self@.partial_content_header(
                match charset {
                    Some(c) => Some(c@),
                    None => None,
                },
                start,
                end,
            ),
    {
        let mut header = ResponseHeader::build(206);
        let mut length: Vec<char> = Vec::new();
        push_decimal(&mut length, end - start + 1);
        header.append_header("Content-Length", length.as_slice());
        let mut range: Vec<char> = Vec::new();
        append_str(&mut range, "bytes ");
        push_decimal(&mut range, start);
        range.push('-');
        push_decimal(&mut range, end);
        range.push('/');
        push_decimal(&mut range, self.size);
        assert(range@ == content_range(start, end, self.size));
        header.append_header("Content-Range", range.as_slice());
        let value = self.content_type_value(charset);
        header.append_header("Content-Type", value.as_slice());
        self.add_validators(&mut header);
        header
    }

    /// The header of the response to a range that cannot be satisfied:
    /// status 416.
    pub fn to_not_satisfiable_header(&self) -> (r: ResponseHeader)
        ensures
            r@ == self@.not_satisfiable_header(),
    {
        let mut header = ResponseHeader::build(416);
        let zero = vec!['0'];
        assert(zero@ == seq!['0']);
        header.append_header("Content-Length", zero.as_slice());
        let mut range: Vec<char> = Vec::new();
        append_str(&mut range, "bytes */");
        push_decimal(&mut range, self.size);
        header.append_header("Content-Range", range.as_slice());
        self.add_validators(&mut header);
        header
    }

    /// The header of a response without content that still names the
    /// validators, as for 304 and 412.
    pub fn to_custom_header(&self, status: u16) -> (r: ResponseHeader)
        ensures
            r@ == self@.custom_header(status),
    {
        let mut header = ResponseHeader::build(status);
        self.add_validators(&mut header);
        header
    }
}

/// A client that sends the modification date that it was given, in
/// `If-Modified-Since` and without an `If-None-Match`, is told that its copy
/// is still good; and one that sends it in `If-Unmodified-Since` does not
/// fail that precondition.
pub proof fn lemma_own_date_is_not_modified(meta: MetadataView, headers: RequestHeadersView)
    requires
        meta.is_dated(),
        meta.modified.is_some(),
    ensures
        headers.if_none_match.is_none() && headers.if_modified_since == meta.modified
            ==> meta.is_not_modified(headers),
        headers.if_match.is_none() && headers.if_unmodified_since == meta.modified
            ==> !meta.has_failed_precondition(headers),
{
    let text = meta.modified.unwrap();
    let date = choose|date: HttpDate| date.well_formed() && text == #[trigger] date.text();
    crate::http_date::lemma_text_is_read_back(date);
}

/// A date after the modification date in `If-Modified-Since` says that the
/// copy is still good, and one before it that it is not; in
/// `If-Unmodified-Since`, a date before the modification date fails the
/// precondition, and one after it does not.
pub proof fn lemma_dates_decide(since: HttpDate, modified: HttpDate)
    requires
        since.well_formed(),
        modified.well_formed(),
    ensures
        date_before(since.text(), modified.text()) == since.before(modified),
        date_not_before(since.text(), modified.text()) == !since.before(modified),
{
    crate::http_date::lemma_text_is_read_back(since);
    crate::http_date::lemma_text_is_read_back(modified);
}

/// The time that the entity tag of a file is made of: that of its last
/// modification, or 0 where the file system has none.
pub open spec fn tagged_time(info: FileInfo) -> nat {
    match info.modified {
        Some(secs) => secs as nat,
        None => 0,
    }
}

/// The part of an entity tag between the quotes consists of hexadecimal
/// digits but for the `-` in it.
proof fn lemma_etag_shape(info: FileInfo)
    ensures
        etag_of(info).len() == hex(tagged_time(info)).len() + hex(info.size as nat).len() + 3,
        etag_of(info)[0] == '"',
        etag_of(info).last() == '"',
        forall|i: int|
            0 <= i < etag_of(info).len() ==> (#[trigger] etag_of(info)[i]) != ',' && !is_space(
                etag_of(info)[i],
            ),
        first_index(etag_of(info).skip(1), '-') == hex(tagged_time(info)).len(),
        etag_of(info).skip(1).take(hex(tagged_time(info)).len() as int) == hex(tagged_time(info)),
        etag_of(info).skip(hex(tagged_time(info)).len() as int + 2).drop_last() == hex(
            info.size as nat,
        ),
{
    let time = hex(tagged_time(info));
    let size = hex(info.size as nat);
    let tag = etag_of(info);
    lemma_hex_digits(tagged_time(info));
    lemma_hex_digits(info.size as nat);
    assert(tag == seq!['"'] + time + seq!['-'] + size + seq!['"']);
    assert forall|i: int| 0 <= i < tag.len() implies (#[trigger] tag[i]) != ',' && !is_space(
        tag[i],
    ) by {
        if 1 <= i < 1 + time.len() {
            assert(tag[i] == time[i - 1]);
            assert(is_hex_digit(time[i - 1]));
        } else if 2 + time.len() <= i < tag.len() - 1 {
            assert(tag[i] == size[i - 2 - time.len()]);
            assert(is_hex_digit(size[i - 2 - time.len()]));
        }
    }
    let rest = tag.skip(1);
    assert forall|j: int| 0 <= j < time.len() implies rest[j] != '-' by {
        assert(rest[j] == time[j]);
        assert(is_hex_digit(time[j]));
    }
    assert(rest[time.len() as int] == '-');
    lemma_first_index_is(rest, '-', time.len() as int);
    assert(rest.take(time.len() as int) == time);
    assert(tag.skip(time.len() as int + 2).drop_last() == size);
}

/// The entity tag tells files apart by modification time and size: two
/// files with the same tag have the same size and were modified in the same
/// second, so that the tag of a file changes whenever one of the two does.
pub proof fn lemma_etag_tells_apart(a: FileInfo, b: FileInfo)
    requires
        etag_of(a) == etag_of(b),
    ensures
        a.size == b.size,
        tagged_time(a) == tagged_time(b),
{
    lemma_etag_shape(a);
    lemma_etag_shape(b);
    lemma_hex_is_one_to_one(tagged_time(a), tagged_time(b));
    lemma_hex_is_one_to_one(a.size as nat, b.size as nat);
}

/// A list that consists of the entity tag of a file alone lists it: a
/// client that sends the tag that it was given, and no other, in
/// `If-None-Match` is told that its copy is still good, and one that sends
/// it in `If-Match` does not fail that precondition.
pub proof fn lemma_own_etag_is_listed(info: FileInfo)
    ensures
        lists_etag(etag_of(info), etag_of(info)),
{
    let tag = etag_of(info);
    lemma_etag_shape(info);
    lemma_first_index_is(tag, ',', tag.len() as int);
    assert(split(tag, ',') == seq![tag]);
    assert(tag.skip(0) == tag);
    assert(tag.take(tag.len() as int) == tag);
    assert(trim(tag) == tag);
    assert(is_tag_or_any(split(tag, ',')[0], tag));
}

} // verus!
