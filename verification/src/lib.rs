//! A streaming HTTP/1.1 request reader.
//!
//! Given the bytes received on a connection, the library extracts a request
//! line, a header block, and a message body (sized by `Content-Length` or
//! framed by chunked `Transfer-Encoding`), validates the result, and produces
//! either an immutable request value or a structured parse error.

pub mod headers;
pub mod parser;
pub mod request;
pub mod stream;
