//! The error taxonomy of the client.

use vstd::prelude::*;

verus! {

/// Everything that can go wrong while fetching or caching.
///
/// - `HttpStatus`: a response carried a non-success status code.
/// - `Decode`: a response body did not match the expected record shape.
/// - `PaginationParse`: the navigation-link header was present but no page
///   number could be extracted from it.
/// - `CacheCorrupt`: the stored cache payload does not deserialize.
/// - `CachePersist`: the store rejected the cache write.
#[derive(Clone, Copy, Debug, PartialEq, Eq)]
pub enum ClientError {
    HttpStatus(u16),
    Decode,
    PaginationParse,
    CacheCorrupt,
    CachePersist,
}

impl ClientError {
    /// A short human-readable description of the error kind.
    pub fn describe(&self) -> (r: &'static str)
        ensures
            match self {
                ClientError::HttpStatus(_) => r@ == "request failed with a non-success status"@,
                ClientError::Decode => r@ == "response body did not match the expected shape"@,
                ClientError::PaginationParse => r@ == "could not parse pagination header"@,
                ClientError::CacheCorrupt => r@ == "stored payload does not deserialize"@,
                ClientError::CachePersist => r@ == "store rejected the cache write"@,
            },
    {
        match self {
            ClientError::HttpStatus(_) => "request failed with a non-success status",
            ClientError::Decode => "response body did not match the expected shape",
            ClientError::PaginationParse => "could not parse pagination header",
            ClientError::CacheCorrupt => "stored payload does not deserialize",
            ClientError::CachePersist => "store rejected the cache write",
        }
    }
}

} // verus!
