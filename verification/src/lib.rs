//! A filesystem resolution and traversal core: lexical path normalization
//! and rendering, executable discovery on a search path, and a configurable
//! directory-walk engine with filtering.
//!
//! The library itself never touches the filesystem: callers hand it the
//! current directory, directory listings and metadata as plain values, and
//! it decides what to emit, where to descend and how to display results.

pub mod errors;
pub mod path;
pub mod probe;
pub mod render;
pub mod strutil;
pub mod tree;
pub mod walk;
pub mod which;
