//! The settings of the handler.

use crate::compression_algorithm::CompressionAlgorithm;
use crate::request::text_of;
use crate::text::{chars_of, string_of};
use vstd::prelude::*;

verus! {

/// The settings of the static files handler.
#[derive(Debug, Clone, PartialEq, Eq)]
pub struct StaticFilesConf {
    /// The directory that is served. Without one the handler leaves every
    /// request alone.
    pub root: Option<Vec<u8>>,
    /// Whether requests for anything but the canonical URL of a file are
    /// redirected to it.
    pub canonicalize_uri: bool,
    /// The names of the files that stand for a directory, in the order in
    /// which they are tried.
    pub index_file: Vec<String>,
    /// The URL path of the page that is sent, with status 404, where nothing
    /// is found.
    pub page_404: Option<String>,
    /// The algorithms for which pre-compressed files are kept, in the order
    /// in which they are preferred.
    pub precompressed: Vec<CompressionAlgorithm>,
    /// The character set that is declared for text.
    pub declare_charset: String,
    /// The media type patterns of what counts as text; where there is none,
    /// a built-in list is used.
    pub declare_charset_types: Vec<String>,
}

/// The settings as plain values.
pub ghost struct StaticFilesConfView {
    pub root: Option<Seq<u8>>,
    pub canonicalize_uri: bool,
    pub index_file: Seq<Seq<char>>,
    pub page_404: Option<Seq<char>>,
    pub precompressed: Seq<CompressionAlgorithm>,
    pub declare_charset: Seq<char>,
    pub declare_charset_types: Seq<Seq<char>>,
}

/// The views of a vector of strings.
pub open spec fn texts(v: Seq<String>) -> Seq<Seq<char>> {
    v.map_values(|s: String| s@)
}

/// The view of an optional byte vector.
pub open spec fn bytes_of(v: Option<Vec<u8>>) -> Option<Seq<u8>> {
    match v {
        Some(v) => Some(v@),
        None => None,
    }
}

impl View for StaticFilesConf {
    type V = StaticFilesConfView;

    open spec fn view(&self) -> StaticFilesConfView {
        StaticFilesConfView {
            root: bytes_of(self.root),
            canonicalize_uri: self.canonicalize_uri,
            index_file: texts(self.index_file@),
            page_404: text_of(self.page_404),
            precompressed: self.precompressed@,
            declare_charset: self.declare_charset@,
            declare_charset_types: texts(self.declare_charset_types@),
        }
    }
}

impl StaticFilesConf {
    /// The settings of a handler that is switched off: no root, canonical
    /// URLs enforced, no index files, no 404 page, no pre-compressed files,
    /// and `utf-8` declared for the built-in list of text types.
    pub fn new() -> (r: StaticFilesConf)
        ensures
            r@ == (StaticFilesConfView {
                root: None,
                canonicalize_uri: true,
                index_file: Seq::empty(),
                page_404: None,
                precompressed: Seq::empty(),
                declare_charset: "utf-8"@,
                declare_charset_types: Seq::empty(),
            }),
    {
        let charset = chars_of("utf-8");
        let r = StaticFilesConf {
            root: None,
            canonicalize_uri: true,
            index_file: Vec::new(),
            page_404: None,
            precompressed: Vec::new(),
            declare_charset: string_of(charset.as_slice()),
            declare_charset_types: Vec::new(),
        };
        assert(r@.index_file == Seq::<Seq<char>>::empty());
        assert(r@.declare_charset_types == Seq::<Seq<char>>::empty());
        r
    }
}

impl Default for StaticFilesConf {
    fn default() -> (r: StaticFilesConf)
        ensures
            r@ == (StaticFilesConfView {
                root: None,
                canonicalize_uri: true,
                index_file: Seq::empty(),
                page_404: None,
                precompressed: Seq::empty(),
                declare_charset: "utf-8"@,
                declare_charset_types: Seq::empty(),
            }),
    {
        StaticFilesConf::new()
    }
}

} // verus!
