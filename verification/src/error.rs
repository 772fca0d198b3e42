use vstd::prelude::*;

verus! {

/// Failure taxonomy of the fetch/convert/parse engine.
///
/// Every error is returned to the immediate caller unchanged: the pagination
/// loop aborts on the first page-level error, and a split aborts on the first
/// per-value failure.
#[derive(Debug)]
pub enum Error {
    /// Network or IO failure reported by the transport layer.
    TransportError(String),
    /// HTTP 429: the source asked us to back off; never retried automatically.
    RateLimited,
    /// Any non-200, non-429 HTTP status, carrying the numeric code.
    UnexpectedStatus(u16),
    /// Document conversion failed: the raw text is not well-formed for the format.
    DecodeError,
    /// A parser rejected the content of a well-formed document.
    RecordParseError(String),
    /// The aggregated item count hit the configured cap, a sign of an
    /// under-filtered query against a source with a hard page-size limit.
    TooManyItems(usize),
}

impl Clone for Error {
    fn clone(&self) -> (res: Self)
        ensures
            res == *self,
    {
        match self {
            Error::TransportError(s) => Error::TransportError(s.clone()),
            Error::RateLimited => Error::RateLimited,
            Error::UnexpectedStatus(code) => Error::UnexpectedStatus(*code),
            Error::DecodeError => Error::DecodeError,
            Error::RecordParseError(s) => Error::RecordParseError(s.clone()),
            Error::TooManyItems(n) => Error::TooManyItems(*n),
        }
    }
}

} // verus!
