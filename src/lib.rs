//! Directory listing and thumbnail resolution for a file browser served over HTTP.
//!
//! The library turns request path segments into a root-contained relative path,
//! assembles directory listings from what the filesystem reported, derives the
//! preview-image path of each entry from the `.th` cache convention, and orders
//! entries by name. Reading the filesystem is left to the caller, which hands the
//! results over as plain values.
pub mod text;
pub mod pathbuf;
pub mod thumb;
pub mod dir;
pub mod sort;
pub mod config;

pub use config::Config;
pub use dir::{get_dir, route, Dir, DirEntry, DirError, DirScan, PathTarget, RawEntry, Response};
pub use pathbuf::{CustomPathBuf, SegmentError};
pub use thumb::{file_path_to_thumb, ThumbPathError};
