//! The compression algorithms of pre-compressed files.

use crate::text::{same_text, string_of, chars_of};
use vstd::prelude::*;

verus! {

/// A compression algorithm for which pre-compressed files may be kept.
#[derive(Debug, Clone, Copy, PartialEq, Eq, Structural)]
pub enum CompressionAlgorithm {
    /// gzip, in files ending in `.gz`
    Gzip,
    /// deflate (zlib), in files ending in `.zz`
    Deflate,
    /// Brotli, in files ending in `.br`
    Brotli,
    /// Zstandard, in files ending in `.zst`
    Zstd,
}

/// The error for a name that stands for no supported algorithm.
#[derive(Debug, Clone, PartialEq, Eq)]
pub struct UnsupportedCompressionAlgorithm(pub String);

impl CompressionAlgorithm {
    /// The name of the algorithm in `Accept-Encoding` and
    /// `Content-Encoding`.
    pub open spec fn name_spec(self) -> Seq<char> {
        match self {
            CompressionAlgorithm::Gzip => "gzip"@,
            CompressionAlgorithm::Deflate => "deflate"@,
            CompressionAlgorithm::Brotli => "br"@,
            CompressionAlgorithm::Zstd => "zstd"@,
        }
    }

    /// The file extension of files compressed with the algorithm.
    pub open spec fn ext_spec(self) -> Seq<char> {
        match self {
            CompressionAlgorithm::Gzip => "gz"@,
            CompressionAlgorithm::Deflate => "zz"@,
            CompressionAlgorithm::Brotli => "br"@,
            CompressionAlgorithm::Zstd => "zst"@,
        }
    }

    /// The algorithm that `s` names, by its encoding name or by its file
    /// extension.
    pub open spec fn named(s: Seq<char>) -> Option<CompressionAlgorithm> {
        if s == "gzip"@ || s == "gz"@ {
            Some(CompressionAlgorithm::Gzip)
        } else if s == "deflate"@ || s == "zz"@ {
            Some(CompressionAlgorithm::Deflate)
        } else if s == "br"@ {
            Some(CompressionAlgorithm::Brotli)
        } else if s == "zstd"@ || s == "zst"@ {
            Some(CompressionAlgorithm::Zstd)
        } else {
            None
        }
    }

    /// The name of the algorithm in `Accept-Encoding` and
    /// `Content-Encoding`.
    pub fn name(&self) -> (r: &'static str)
        ensures
            r@ == self.name_spec(),
    {
        match self {
            CompressionAlgorithm::Gzip => "gzip",
            CompressionAlgorithm::Deflate => "deflate",
            CompressionAlgorithm::Brotli => "br",
            CompressionAlgorithm::Zstd => "zstd",
        }
    }

    /// The file extension of files compressed with the algorithm.
    pub fn ext(&self) -> (r: &'static str)
        ensures
            r@ == self.ext_spec(),
    {
        match self {
            CompressionAlgorithm::Gzip => "gz",
            CompressionAlgorithm::Deflate => "zz",
            CompressionAlgorithm::Brotli => "br",
            CompressionAlgorithm::Zstd => "zst",
        }
    }

    /// The algorithm that `s` names, by its encoding name or by its file
    /// extension; names are case-sensitive. Any other name is handed back in
    /// the error.
    pub fn from_str(s: &str) -> (r: Result<CompressionAlgorithm, UnsupportedCompressionAlgorithm>)
        ensures
            match r {
                Ok(algorithm) => CompressionAlgorithm::named(s@) == Some(algorithm),
                Err(e) => CompressionAlgorithm::named(s@).is_none() && e.0@ == s@,
            },
    {
        if same_text(s, "gzip") || same_text(s, "gz") {
            Ok(CompressionAlgorithm::Gzip)
        } else if same_text(s, "deflate") || same_text(s, "zz") {
            Ok(CompressionAlgorithm::Deflate)
        } else if same_text(s, "br") {
            Ok(CompressionAlgorithm::Brotli)
        } else if same_text(s, "zstd") || same_text(s, "zst") {
            Ok(CompressionAlgorithm::Zstd)
        } else {
            let chars = chars_of(s);
            Err(UnsupportedCompressionAlgorithm(string_of(chars.as_slice())))
        }
    }
}

impl UnsupportedCompressionAlgorithm {
    /// The message of the error.
    pub open spec fn message_spec(&self) -> Seq<char> {
        "Unsupported compression algorithm: "@ + self.0@
    }

    /// The message of the error.
    pub fn message(&self) -> (r: String)
        ensures
            r@ == self.message_spec(),
    {
        let mut out = chars_of("Unsupported compression algorithm: ");
        crate::text::append_str(&mut out, self.0.as_str());
        string_of(out.as_slice())
    }
}

} // verus!
