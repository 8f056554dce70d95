//! A verified core for a local static-file HTTP server: request-line parsing
//! and URI normalization, root-containment checking for resolved paths,
//! page selection, directory listings, and HTTP response serialization.

pub mod codec;
pub mod config;
pub mod page;
pub mod request;
pub mod response;
pub mod router;
pub mod status;
pub mod util;
