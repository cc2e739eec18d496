//! Recognition of single-line requests of the form `GET target CRLF`
//! in a byte buffer that grows as bytes arrive.
pub mod parser;
pub mod server;
