//! Per-user web content service core: a directory-service resolver that turns
//! a username into a home-directory path, a sandboxed router that composes and
//! validates the filesystem path for a request and decides the response shape,
//! and a deterministic renderer for directory listings.

pub mod listing;
pub mod resolver;
pub mod sandbox;
