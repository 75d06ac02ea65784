//! phd is a small Gopher server core: it maps a client-supplied selector to
//! filesystem content and renders raw files, directory listings and `.gph`
//! menu ("gophermap") templates as RFC 1436 wire lines.
//!
//! This crate holds the verified resolution and rendering engine: selector
//! parsing and path sanitization, the gophermap templating language,
//! natural-order directory sorting, content classification and response
//! dispatch. The network accept loop and all filesystem access live outside
//! and hand the engine plain values.

pub mod dispatch;
pub mod gopher;
pub mod gophermap;
pub mod listing;
pub mod request;
pub mod strutil;

pub use crate::request::Request;
