//! Static-file route logic: resolving a requested path safely beneath a fixed
//! base directory and turning the outcome of a file read into an HTTP
//! response.
//!
//! The routes themselves are two: the root, answered with a fixed index
//! document, and a catch-all beneath `/static`, answered with the file that
//! the request's path segments name once they are checked against parent-
//! directory traversal and joined onto the base directory. Reading a file is
//! the caller's part; everything decided here is decided from plain values.

pub mod handlers;
pub mod media;
pub mod paths;

pub use handlers::index_path;
pub use handlers::index_response;
pub use handlers::not_found;
pub use handlers::static_response;
pub use handlers::Response;
pub use paths::resolve_static;
