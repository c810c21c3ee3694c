//! HTTP/1.1 message handling: the streaming request parser and the response
//! types.

pub mod request;
pub mod respond;
pub mod version;
