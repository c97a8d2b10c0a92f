//! Decoding of an HTTP/1.x request head out of a reusable byte buffer, and a
//! bounded reader for the request body that shares the same buffer.
pub mod body;
pub mod buffer;
pub mod content_length;
pub mod request;

pub use body::BodyReader;
pub use content_length::parse_decimal;
pub use request::{decode, Header, Request, RequestError, MAX_HEADERS};
