//! The decisions of a static file server.
//!
//! For one request at a time, the [`StaticFilesHandler`] maps the URL path
//! to a file below a root directory without ever leaving that directory,
//! holds conditional and range requests against the metadata of the file,
//! picks a pre-compressed variant that the client accepts, and says which
//! status, header fields and bytes make up the response.
//!
//! The library touches neither the file system nor the network. The handler
//! is a state machine: its caller asks the file system what the handler
//! wants to know, comes back with the reply, and sends what the handler
//! decides on. See [`handler`].
//!
//! Every function has a contract that says what it computes, stated over
//! the plain values that the types stand for, and is proved to meet it. The
//! proof functions named `lemma_...` state what follows for the library as a
//! whole:
//!
//! - [`pipeline`]: the steps of the handler, taken one after the other,
//!   come to the answer that [`handler::HandlerView::serve`] gives in one
//!   piece, and they come to an end;
//! - [`confinement`]: no path outside the root is ever asked for or
//!   served, and the canonical URL of a file is not redirected again;
//! - [`answers`]: which of several conditions of a request decides, what
//!   a `HEAD` request gets, and which header fields go with which status;
//! - [`round_trip`], [`range`], [`metadata`], [`http_date`]: what is
//!   written is read back as it was written.

pub mod answers;
pub mod bytes;
pub mod compression;
pub mod compression_algorithm;
pub mod configuration;
pub mod confinement;
pub mod handler;
pub mod http_date;
pub mod metadata;
pub mod mime_matcher;
pub mod mime_types;
pub mod number;
pub mod path;
pub mod pipeline;
pub mod range;
pub mod request;
pub mod request_filter;
pub mod response;
pub mod round_trip;
pub mod standard_response;
pub mod text;

pub use compression_algorithm::{CompressionAlgorithm, UnsupportedCompressionAlgorithm};
pub use configuration::StaticFilesConf;
pub use handler::StaticFilesHandler;
pub use range::Range;
pub use request_filter::RequestFilterResult;
