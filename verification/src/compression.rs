//! Choosing a pre-compressed variant of a file.
//!
//! A variant is a file beside the file itself, with the extension of a
//! compression algorithm added to the name. Among the configured algorithms that the
//! client accepts, the first in the order of the configuration whose variant
//! exists is served; the client's preferences among them do not count.

use crate::compression_algorithm::CompressionAlgorithm;
use crate::response::{ResponseHeader, ResponseHeaderView};
use crate::text::{
    append, chars_of, find, first_index, lower_seq, same, split, split_all, to_lower_vec, trim,
    trimmed, views,
};
use vstd::prelude::*;
use vstd::slice::slice_subrange;

verus! {

/// The content coding that an item of `Accept-Encoding` names, in lower
/// case.
pub open spec fn coding_name(item: Seq<char>) -> Seq<char> {
    lower_seq(trim(item.take(first_index(item, ';'))))
}

/// Whether a parameter, given trimmed and in lower case, is a quality of
/// zero: `q=0`, with or without a decimal point and further zeros.
pub open spec fn is_zero_quality(param: Seq<char>) -> bool {
    &&& param.len() >= 3
    &&& param[0] == 'q'
    &&& param[1] == '='
    &&& param[2] == '0'
    &&& (param.len() == 3 || param[3] == '.')
    &&& forall|i: int| 4 <= i < param.len() ==> param[i] == '0'
}

/// Whether an item of `Accept-Encoding` refuses its coding, by a quality of
/// zero.
pub open spec fn is_refused(item: Seq<char>) -> bool {
    let i = first_index(item, ';');
    i < item.len() && is_zero_quality(lower_seq(trim(item.skip(i + 1))))
}

/// What the first of `items` that names `coding` says of it: `Some(true)`
/// where it accepts it, `Some(false)` where it refuses it, `None` where no
/// item names it.
pub open spec fn verdict(items: Seq<Seq<char>>, coding: Seq<char>) -> Option<bool>
    decreases items.len(),
{
    if items.len() == 0 {
        None
    } else if coding_name(items[0]) == coding {
        Some(!is_refused(items[0]))
    } else {
        verdict(items.skip(1), coding)
    }
}

/// Whether a client that sent `accept_encoding` accepts the content coding
/// `coding`: by what the header says of the coding itself, else by what it
/// says of `*`; a client that says neither, or sent no header, does not.
pub open spec fn accepts(accept_encoding: Option<Seq<char>>, coding: Seq<char>) -> bool {
    match accept_encoding {
        None => false,
        Some(header) => {
            let items = split(header, ',');
            match verdict(items, coding) {
                Some(accepted) => accepted,
                None => verdict(items, seq!['*']) == Some(true),
            }
        },
    }
}

/// Those of the `configured` algorithms that the client accepts, in the
/// order of the configuration.
pub open spec fn acceptable(
    accept_encoding: Option<Seq<char>>,
    configured: Seq<CompressionAlgorithm>,
) -> Seq<CompressionAlgorithm>
    decreases configured.len(),
{
    if configured.len() == 0 {
        Seq::empty()
    } else {
        let before = acceptable(accept_encoding, configured.drop_last());
        if accepts(accept_encoding, configured.last().name_spec()) {
            before.push(configured.last())
        } else {
            before
        }
    }
}

/// The bytes of the file extension of an algorithm.
pub open spec fn ext_bytes(algorithm: CompressionAlgorithm) -> Seq<u8> {
    match algorithm {
        CompressionAlgorithm::Gzip => seq![0x67u8, 0x7au8],
        CompressionAlgorithm::Deflate => seq![0x7au8, 0x7au8],
        CompressionAlgorithm::Brotli => seq![0x62u8, 0x72u8],
        CompressionAlgorithm::Zstd => seq![0x7au8, 0x73u8, 0x74u8],
    }
}

/// The path of the variant of `path` for `algorithm`: `path`, a `.` and the
/// extension of the algorithm.
pub open spec fn variant_path(path: Seq<u8>, algorithm: CompressionAlgorithm) -> Seq<u8> {
    path + seq![0x2eu8] + ext_bytes(algorithm)
}

/// The header of a response that carries the variant for `active`, or the
/// header unchanged where no variant is served.
pub open spec fn transformed(
    header: ResponseHeaderView,
    active: Option<CompressionAlgorithm>,
) -> ResponseHeaderView {
    match active {
        Some(algorithm) => header.with("Content-Encoding"@, algorithm.name_spec()).with_vary(
            "Accept-Encoding"@,
        ),
        None => header,
    }
}

/// Executable form of [`is_zero_quality`].
fn zero_quality(param: &[char]) -> (r: bool)
    ensures
        r == is_zero_quality(param@),
{
    if !(param.len() >= 3 && param[0] == 'q' && param[1] == '=' && param[2] == '0' && (param.len()
        == 3 || param[3] == '.')) {
        return false;
    }
    let mut i: usize = 4;
    while i < param.len()
        invariant
            4 <= i,
            forall|j: int| 4 <= j < i && j < param.len() ==> param@[j] == '0',
        decreases param.len() - i,
    {
        if param[i] != '0' {
            return false;
        }
        i += 1;
    }
    true
}

/// Executable form of [`is_refused`].
fn refused(item: &[char]) -> (r: bool)
    ensures
        r == is_refused(item@),
{
    let i = find(item, ';');
    if i < item.len() {
        let param = slice_subrange(item, i + 1, item.len());
        assert(param@ == item@.skip(i + 1));
        let p = to_lower_vec(trimmed(param));
        zero_quality(p.as_slice())
    } else {
        false
    }
}

/// Executable form of [`verdict`].
fn verdict_of(items: &Vec<Vec<char>>, coding: &[char]) -> (r: Option<bool>)
    ensures
        r == verdict(views(items@), coding@),
{
    let mut k: usize = 0;
    assert(views(items@).skip(0) == views(items@));
    while k < items.len()
        invariant
            k <= items.len(),
            verdict(views(items@), coding@) == verdict(views(items@).skip(k as int), coding@),
        decreases items.len() - k,
    {
        let item = items[k].as_slice();
        let ghost rest = views(items@).skip(k as int);
        assert(rest[0] == item@);
        assert(rest.skip(1) == views(items@).skip(k + 1));
        let end = find(item, ';');
        let head = slice_subrange(item, 0, end);
        assert(head@ == item@.take(end as int));
        let name = to_lower_vec(trimmed(head));
        if same(name.as_slice(), coding) {
            return Some(!refused(item));
        }
        k += 1;
    }
    None
}

/// Executable form of [`accepts`], on the items of the header.
fn accepted(items: &Vec<Vec<char>>, coding: &str) -> (r: bool)
    ensures
        r == match verdict(views(items@), coding@) {
            Some(accepted) => accepted,
            None => verdict(views(items@), seq!['*']) == Some(true),
        },
{
    let name = chars_of(coding);
    match verdict_of(items, name.as_slice()) {
        Some(b) => b,
        None => {
            let any = vec!['*'];
            assert(any@ == seq!['*']);
            match verdict_of(items, any.as_slice()) {
                Some(b) => b,
                None => false,
            }
        },
    }
}

/// The negotiation of a pre-compressed variant for one request.
#[derive(Debug, Clone, PartialEq, Eq)]
pub struct Compression {
    /// The configured algorithms that the client accepts, in the order of
    /// the configuration.
    pub acceptable: Vec<CompressionAlgorithm>,
    /// The algorithm of the variant that is served, if one is.
    pub active: Option<CompressionAlgorithm>,
}

impl Compression {
    /// Starts the negotiation for a request with the given
    /// `Accept-Encoding` header, with the algorithms in `precompressed`
    /// configured. No variant is chosen yet.
    pub fn new(accept_encoding: Option<&str>, precompressed: &[CompressionAlgorithm]) -> (r:
        Compression)
        ensures
            r.acceptable@ == acceptable(
                match accept_encoding {
                    Some(h) => Some(h@),
                    None => None,
                },
                precompressed@,
            ),
            r.active.is_none(),
    {
        let ghost header = match accept_encoding {
            Some(h) => Some(h@),
            None => None,
        };
        let mut list: Vec<CompressionAlgorithm> = Vec::new();
        let value = match accept_encoding {
            Some(h) => h,
            None => {
                proof {
                    lemma_none_acceptable(precompressed@);
                }
                return Compression { acceptable: list, active: None };
            },
        };
        let chars = chars_of(value);
        let items = split_all(chars.as_slice(), ',');
        let mut k: usize = 0;
        assert(precompressed@.take(0) == Seq::<CompressionAlgorithm>::empty());
        while k < precompressed.len()
            invariant
                k <= precompressed.len(),
                header == Some(value@),
                views(items@) == split(value@, ','),
                list@ == acceptable(header, precompressed@.take(k as int)),
            decreases precompressed.len() - k,
        {
            let algorithm = precompressed[k];
            proof {
                let t = precompressed@.take(k + 1);
                assert(t.drop_last() == precompressed@.take(k as int));
                assert(t.last() == algorithm);
            }
            if accepted(&items, algorithm.name()) {
                list.push(algorithm);
            }
            k += 1;
        }
        assert(precompressed@.take(precompressed.len() as int) == precompressed@);
        Compression { acceptable: list, active: None }
    }

    /// The path of the variant of `path` for `algorithm`.
    pub fn variant(path: &[u8], algorithm: CompressionAlgorithm) -> (r: Vec<u8>)
        ensures
            r@ == variant_path(path@, algorithm),
    {
        let mut out: Vec<u8> = Vec::new();
        append(&mut out, path);
        out.push(0x2e);
        match algorithm {
            CompressionAlgorithm::Gzip => {
                out.push(0x67);
                out.push(0x7a);
            },
            CompressionAlgorithm::Deflate => {
                out.push(0x7a);
                out.push(0x7a);
            },
            CompressionAlgorithm::Brotli => {
                out.push(0x62);
                out.push(0x72);
            },
            CompressionAlgorithm::Zstd => {
                out.push(0x7a);
                out.push(0x73);
                out.push(0x74);
            },
        }
        assert(out@ == variant_path(path@, algorithm));
        out
    }

    /// Adjusts the header of a response to the variant that is served: adds
    /// `Content-Encoding` with the name of the algorithm, and
    /// `Accept-Encoding` to `Vary`. Without a variant the header stays as it
    /// is.
    pub fn transform_header(&self, header: ResponseHeader) -> (r: ResponseHeader)
        ensures
            r@ == transformed(header@, self.active),
    {
        match self.active {
            Some(algorithm) => {
                let mut header = header;
                let name = chars_of(algorithm.name());
                header.append_header("Content-Encoding", name.as_slice());
                header.add_vary("Accept-Encoding");
                header
            },
            None => header,
        }
    }
}

/// A client that sent no `Accept-Encoding` accepts no algorithm.
proof fn lemma_none_acceptable(configured: Seq<CompressionAlgorithm>)
    ensures
        acceptable(None, configured) == Seq::<CompressionAlgorithm>::empty(),
    decreases configured.len(),
{
    if configured.len() > 0 {
        lemma_none_acceptable(configured.drop_last());
    }
}

/// The acceptable algorithms are the configured ones without those that
/// the client does not accept, in the same order.
pub proof fn lemma_acceptable_is_filter(
    accept_encoding: Option<Seq<char>>,
    configured: Seq<CompressionAlgorithm>,
)
    ensures
        acceptable(accept_encoding, configured) == configured.filter(
            |a: CompressionAlgorithm| accepts(accept_encoding, a.name_spec()),
        ),
    decreases configured.len(),
{
    reveal(Seq::filter);
    if configured.len() > 0 {
        lemma_acceptable_is_filter(accept_encoding, configured.drop_last());
    }
}

/// Where the client accepts the algorithm that is configured first, it is
/// the first acceptable one.
pub proof fn lemma_acceptable_first(
    accept_encoding: Option<Seq<char>>,
    configured: Seq<CompressionAlgorithm>,
)
    requires
        configured.len() > 0,
        accepts(accept_encoding, configured[0].name_spec()),
    ensures
        acceptable(accept_encoding, configured).len() > 0,
        acceptable(accept_encoding, configured)[0] == configured[0],
    decreases configured.len(),
{
    if configured.len() > 1 {
        lemma_acceptable_first(accept_encoding, configured.drop_last());
    } else {
        assert(acceptable(accept_encoding, configured.drop_last()).len() == 0);
    }
}

} // verus!
