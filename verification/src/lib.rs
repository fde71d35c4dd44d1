//! A local-network media catalogue library: it models a directory tree of
//! video files with sidecar metadata as an immutable catalogue, derives the
//! set of files a client may request, and computes byte-range responses for
//! HTTP `Range` requests per the RFC 7233 `byte-ranges-specifier` grammar.
//!
//! All I/O (directory walking, sockets, streaming) lives outside this crate;
//! the library works on plain values and is verified.
pub mod byte_range;
pub mod scanner;
pub mod serving;
pub mod text;
