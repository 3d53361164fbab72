//! Fetches a binary resource from an HTTP server and reassembles it into one
//! contiguous byte buffer, using the length that the server declares and
//! byte-range requests where a single response does not deliver everything.
//!
//! The library holds the protocol: how a URL resolves to host, port and path,
//! what is written as a request, how the bytes of a response are read, and
//! which request follows which response. It opens no socket itself. The
//! functions that talk to a server take a transport: a function that carries a
//! request text to a host and port and hands back every byte that arrived
//! before the server closed the connection.
pub mod config;
pub mod digest;
pub mod downloader;
pub mod http;
pub mod text;
