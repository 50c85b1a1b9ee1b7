//! A paginated, authenticated fetch client for a REST code-hosting API,
//! with a read-through persistent cache.
//!
//! The library holds the logic of the client: building requests, resolving
//! a resource's page count from the navigation-link response header, driving
//! the page-by-page collection of one resource, settling the per-user fan-out
//! with partial-failure tolerance, and the cache layer with its serialized
//! payload. All network and storage I/O stays outside; callers hand the
//! library the response data (header values, decoded records) as plain
//! values and perform the requests the library describes.

pub mod cache;
pub mod codec;
pub mod collector;
pub mod errors;
pub mod pagination;
pub mod request;
pub mod records;
pub mod text;
