//! A minimal synchronous HTTP/1.1 client core.
//!
//! The verified library covers the pure logic of the client: parsing a URL
//! into host, path and socket address, formatting an HTTP/1.1 request with a
//! fixed header set and an optional body, and splitting a raw response into a
//! header mapping and a body.  The socket and TLS plumbing that carries those
//! bytes lives outside the library and hands it plain strings.

pub mod error;
pub mod request;
pub mod response;
pub mod text;
pub mod url;

pub use error::HttpError;
pub use request::populate_get_request;
pub use response::{ApiResponse, parse_resp, parse_response};
pub use url::{ParsedUrl, parse_url};
