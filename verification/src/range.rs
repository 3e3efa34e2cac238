//! Byte range processing (`Range` HTTP header).

use crate::metadata::{Metadata, MetadataView};
use crate::number::{
    decimal, is_digit, lemma_decimal_value_of_decimal, lemma_parse_decimal_round_trip,
    parse_decimal, parse_u64,
};
use crate::request::{RequestHeaders, RequestHeadersView};
use crate::text::{
    chars_of, first_index, is_space, lemma_first_index, lemma_first_index_is, same, same_text,
    split_at_first, split_once, trim, trimmed,
};
use vstd::prelude::*;

verus! {

/// The outcome of reading a `Range` header against a file of known size.
#[derive(Debug, Clone, Copy, PartialEq, Eq, Structural)]
pub enum Range {
    /// A satisfiable range with inclusive start and end offsets.
    Valid(u64, u64),
    /// A range that lies outside of the file.
    OutOfBounds,
}

/// One byte range as the client wrote it, before the file size is known.
#[derive(Debug, Clone, Copy, PartialEq, Eq, Structural)]
pub enum ByteSpec {
    /// `-N`: the last `N` bytes.
    Suffix(u64),
    /// `N-`: everything from offset `N`.
    From(u64),
    /// `N-M`: offsets `N` to `M`, both included.
    Between(u64, u64),
}

/// The only range unit that is understood.
pub open spec fn unit_bytes() -> Seq<char> {
    seq!['b', 'y', 't', 'e', 's']
}

/// What the part of a `Range` header after `bytes=` asks for, if it has one
/// of the three supported forms.
pub open spec fn byte_spec_of(spec: Seq<char>) -> Option<ByteSpec> {
    match split_once(trim(spec), '-') {
        None => None,
        Some((first, last)) => {
            if first.len() == 0 {
                match parse_u64(trim(last)) {
                    Some(n) => Some(ByteSpec::Suffix(n)),
                    None => None,
                }
            } else if last.len() == 0 {
                match parse_u64(trim(first)) {
                    Some(n) => Some(ByteSpec::From(n)),
                    None => None,
                }
            } else {
                match (parse_u64(trim(first)), parse_u64(trim(last))) {
                    (Some(n), Some(m)) => Some(ByteSpec::Between(n, m)),
                    _ => None,
                }
            }
        },
    }
}

/// The interval `[start, end]` held against a file of `size` bytes.
pub open spec fn checked_interval(start: int, end: int, size: int) -> Range {
    if end >= size || start > end {
        Range::OutOfBounds
    } else {
        Range::Valid(start as u64, end as u64)
    }
}

impl ByteSpec {
    /// The range that is asked for in a file of `size` bytes.
    pub open spec fn resolve_spec(self, size: u64) -> Range {
        match self {
            ByteSpec::Suffix(n) => if n > size {
                Range::OutOfBounds
            } else {
                checked_interval(size - n, size - 1, size as int)
            },
            ByteSpec::From(n) => checked_interval(n as int, size - 1, size as int),
            ByteSpec::Between(n, m) => checked_interval(n as int, m as int, size as int),
        }
    }

    /// Reads the part of a `Range` header after `bytes=`.
    pub fn parse(spec: &[char]) -> (r: Option<ByteSpec>)
        ensures
            r == byte_spec_of(spec@),
    {
        let (first, last) = match split_at_first(trimmed(spec), '-') {
            Some(parts) => parts,
            None => {
                return None;
            },
        };
        if first.len() == 0 {
            match parse_decimal(trimmed(last)) {
                Some(n) => Some(ByteSpec::Suffix(n)),
                None => None,
            }
        } else if last.len() == 0 {
            match parse_decimal(trimmed(first)) {
                Some(n) => Some(ByteSpec::From(n)),
                None => None,
            }
        } else {
            let n = match parse_decimal(trimmed(first)) {
                Some(n) => n,
                None => {
                    return None;
                },
            };
            match parse_decimal(trimmed(last)) {
                Some(m) => Some(ByteSpec::Between(n, m)),
                None => None,
            }
        }
    }

    /// Holds what is asked for against a file of `size` bytes.
    pub fn resolve(self, size: u64) -> (r: Range)
        ensures
            r == self.resolve_spec(size),
            r matches Range::Valid(start, end) ==> start <= end < size,
    {
        let (start, end) = match self {
            ByteSpec::Suffix(n) => {
                if n > size || size == 0 {
                    return Range::OutOfBounds;
                }
                (size - n, size - 1)
            },
            ByteSpec::From(n) => {
                if size == 0 {
                    return Range::OutOfBounds;
                }
                (n, size - 1)
            },
            ByteSpec::Between(n, m) => (n, m),
        };
        if end >= size || start > end {
            Range::OutOfBounds
        } else {
            Range::Valid(start, end)
        }
    }
}

impl Range {
    /// What a `Range` header value means for a file of `file_size` bytes:
    /// `None` where the unit is not `bytes` or what follows it cannot be
    /// read, else the range that is asked for.
    pub open spec fn parse_spec(range: Seq<char>, file_size: u64) -> Option<Range> {
        match split_once(range, '=') {
            None => None,
            Some((units, spec)) => {
                if units == unit_bytes() {
                    match byte_spec_of(spec) {
                        Some(b) => Some(b.resolve_spec(file_size)),
                        None => None,
                    }
                } else {
                    None
                }
            },
        }
    }

    /// Parses the value of a `Range` HTTP header. The file size is needed to
    /// resolve ranges given relative to the end of the file and to recognise
    /// ranges that are out of bounds. A value in an unexpected format gives
    /// `None`.
    pub fn parse(range: &str, file_size: u64) -> (r: Option<Range>)
        ensures
            r == Range::parse_spec(range@, file_size),
            r matches Some(Range::Valid(start, end)) ==> start <= end < file_size,
    {
        let chars = chars_of(range);
        let (units, spec) = match split_at_first(chars.as_slice(), '=') {
            Some(parts) => parts,
            None => {
                return None;
            },
        };
        let bytes = vec!['b', 'y', 't', 'e', 's'];
        assert(bytes@ == unit_bytes());
        if !same(units, bytes.as_slice()) {
            return None;
        }
        match ByteSpec::parse(spec) {
            Some(b) => Some(b.resolve(file_size)),
            None => None,
        }
    }
}

/// Whether an `If-Range` header stands in the way of a range request: it is
/// present and is neither the entity tag nor the modification date of the
/// file.
pub open spec fn if_range_fails(headers: RequestHeadersView, meta: MetadataView) -> bool {
    headers.if_range matches Some(value) && value != meta.etag && meta.modified != Some(value)
}

/// The byte range that a request asks for, if any: `None` where `If-Range`
/// stands in the way, where there is no `Range` header, and where it cannot
/// be read.
pub open spec fn extract_range_spec(headers: RequestHeadersView, meta: MetadataView) -> Option<
    Range,
> {
    if if_range_fails(headers, meta) {
        None
    } else {
        match headers.range {
            Some(value) => Range::parse_spec(value, meta.size),
            None => None,
        }
    }
}

/// Reads the `Range` and `If-Range` request headers to give the requested
/// byte range, if any.
///
/// A `Range` header that is missing, in an unsupported format or overruled
/// by `If-Range` gives `None`. Lists of several ranges are not supported.
pub fn extract_range(headers: &RequestHeaders, meta: &Metadata) -> (r: Option<Range>)
    ensures
        r == extract_range_spec(headers@, meta@),
        r matches Some(Range::Valid(start, end)) ==> start <= end < meta.size,
{
    match &headers.if_range {
        Some(value) => {
            let is_date = match &meta.modified {
                Some(modified) => same_text(modified.as_str(), value.as_str()),
                None => false,
            };
            if !same_text(value.as_str(), meta.etag.as_str()) && !is_date {
                return None;
            }
        },
        None => {},
    }
    match &headers.range {
        Some(value) => Range::parse(value.as_str(), meta.size),
        None => None,
    }
}

/// A text that neither starts nor ends with white space is its own
/// trimmed form.
proof fn lemma_trim_nothing(s: Seq<char>)
    requires
        s.len() > 0,
        !is_space(s[0]),
        !is_space(s.last()),
    ensures
        trim(s) == s,
{
    assert(s.skip(0) == s);
    assert(s.take(s.len() as int) == s);
}

/// The digits of a number are their own trimmed form and hold no `-`.
proof fn lemma_digits_are_plain(n: nat)
    ensures
        decimal(n).len() > 0,
        trim(decimal(n)) == decimal(n),
        first_index(decimal(n), '-') == decimal(n).len(),
{
    let d = decimal(n);
    lemma_decimal_value_of_decimal(n);
    assert(is_digit(d[0]));
    assert(is_digit(d[d.len() - 1]));
    lemma_trim_nothing(d);
    assert forall|j: int| 0 <= j < d.len() implies d[j] != '-' by {
        assert(is_digit(d[j]));
    }
    lemma_first_index_is(d, '-', d.len() as int);
}

/// What follows `bytes=` in a header value is split off as it stands.
proof fn lemma_unit_is_split_off(spec: Seq<char>)
    ensures
        split_once(unit_bytes() + seq!['='] + spec, '=') == Some((unit_bytes(), spec)),
{
    let value = unit_bytes() + seq!['='] + spec;
    assert forall|j: int| 0 <= j < 5 implies value[j] != '=' by {
        assert(value[j] == unit_bytes()[j]);
    }
    assert(value[5] == '=');
    lemma_first_index_is(value, '=', 5);
    assert(value.take(5) == unit_bytes());
    assert(value.skip(6) == spec);
}

/// A range with both bounds written out in decimal is read as written:
/// `bytes=N-M` asks for the bytes from `N` to `M`, whatever the numbers, and
/// is satisfiable exactly where `N <= M < size`.
pub proof fn lemma_parse_explicit_range(n: u64, m: u64, size: u64)
    ensures
        Range::parse_spec(
            unit_bytes() + seq!['='] + (decimal(n as nat) + seq!['-'] + decimal(m as nat)),
            size,
        ) == Some(checked_interval(n as int, m as int, size as int)),
        byte_spec_of(decimal(n as nat) + seq!['-'] + decimal(m as nat)) == Some(
            ByteSpec::Between(n, m),
        ),
{
    let first = decimal(n as nat);
    let last = decimal(m as nat);
    let spec = first + seq!['-'] + last;
    lemma_unit_is_split_off(spec);
    lemma_digits_are_plain(n as nat);
    lemma_digits_are_plain(m as nat);
    lemma_parse_decimal_round_trip(n);
    lemma_parse_decimal_round_trip(m);
    assert(spec[0] == first[0]);
    assert(spec.last() == last.last());
    lemma_decimal_value_of_decimal(n as nat);
    lemma_decimal_value_of_decimal(m as nat);
    assert(is_digit(first[0]));
    assert(is_digit(last[last.len() - 1]));
    lemma_trim_nothing(spec);
    lemma_first_index(first, '-');
    assert forall|j: int| 0 <= j < first.len() implies spec[j] != '-' by {
        assert(spec[j] == first[j]);
    }
    assert(spec[first.len() as int] == '-');
    lemma_first_index_is(spec, '-', first.len() as int);
    assert(spec.take(first.len() as int) == first);
    assert(spec.skip(first.len() as int + 1) == last);
}

/// A range with only its start written out is read as written: `bytes=N-`
/// asks for the bytes from `N` to the end of the file.
pub proof fn lemma_parse_open_range(n: u64, size: u64)
    ensures
        Range::parse_spec(unit_bytes() + seq!['='] + (decimal(n as nat) + seq!['-']), size)
            == Some(checked_interval(n as int, size - 1, size as int)),
        byte_spec_of(decimal(n as nat) + seq!['-']) == Some(ByteSpec::From(n)),
{
    let first = decimal(n as nat);
    let spec = first + seq!['-'];
    lemma_unit_is_split_off(spec);
    lemma_digits_are_plain(n as nat);
    lemma_parse_decimal_round_trip(n);
    lemma_decimal_value_of_decimal(n as nat);
    assert(spec[0] == first[0]);
    assert(is_digit(first[0]));
    assert(spec.last() == '-');
    lemma_trim_nothing(spec);
    assert forall|j: int| 0 <= j < first.len() implies spec[j] != '-' by {
        assert(spec[j] == first[j]);
    }
    assert(spec[first.len() as int] == '-');
    lemma_first_index_is(spec, '-', first.len() as int);
    assert(spec.take(first.len() as int) == first);
    assert(spec.skip(first.len() as int + 1) == Seq::<char>::empty());
}

/// A suffix range written out in decimal is read as written: `bytes=-N`
/// asks for the last `N` bytes of the file, and is out of bounds where the
/// file is shorter than that or `N` is 0.
pub proof fn lemma_parse_suffix_range(n: u64, size: u64)
    ensures
        Range::parse_spec(unit_bytes() + seq!['='] + (seq!['-'] + decimal(n as nat)), size)
            == Some(
            if n > size {
                Range::OutOfBounds
            } else {
                checked_interval(size - n, size - 1, size as int)
            },
        ),
        byte_spec_of(seq!['-'] + decimal(n as nat)) == Some(ByteSpec::Suffix(n)),
{
    let last = decimal(n as nat);
    let spec = seq!['-'] + last;
    lemma_unit_is_split_off(spec);
    lemma_digits_are_plain(n as nat);
    lemma_parse_decimal_round_trip(n);
    lemma_decimal_value_of_decimal(n as nat);
    assert(spec[0] == '-');
    assert(spec.last() == last.last());
    assert(is_digit(last[last.len() - 1]));
    lemma_trim_nothing(spec);
    lemma_first_index_is(spec, '-', 0);
    assert(spec.take(0) == Seq::<char>::empty());
    assert(spec.skip(1) == last);
}

/// A value whose unit is not `bytes` asks for no range.
pub proof fn lemma_other_unit_is_absent(value: Seq<char>, size: u64)
    requires
        value.take(first_index(value, '=')) != unit_bytes(),
    ensures
        Range::parse_spec(value, size).is_none(),
{
}

} // verus!
