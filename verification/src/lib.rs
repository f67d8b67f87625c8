//! Verified core of a static site generator for Typst-based blogs.
//!
//! The library decides where every source file of a site goes, which command
//! compiles it, how watched changes are sorted, how the preview server answers
//! a request, and when a copied file has settled.  Reading and writing files,
//! running processes and serving sockets is left to the caller.

pub mod cli;
pub mod log;
pub mod path;
pub mod server;
pub mod text;
pub mod utils;
pub mod watcher;
