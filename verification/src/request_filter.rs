//! What a request filter reports back to the pipeline that runs it.

use vstd::prelude::*;

verus! {

/// How the pipeline is to go on with the request after a filter has run.
#[derive(Debug, Clone, Copy, PartialEq, Eq, Structural)]
pub enum RequestFilterResult {
    /// The response has been sent: nothing more is to happen with the
    /// request.
    ResponseSent,
    /// The request has been handled and no further filter is to run, but the
    /// response is still to be sent by a later stage.
    Handled,
    /// The filter could not handle the request: the next filter, if any, is
    /// to run.
    Unhandled,
}

impl Default for RequestFilterResult {
    fn default() -> (r: RequestFilterResult)
        ensures
            r == RequestFilterResult::Unhandled,
    {
        RequestFilterResult::Unhandled
    }
}

} // verus!
