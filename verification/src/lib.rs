//! A shell-navigation helper library: resolves favourite directories by name,
//! keeps a file-persisted history stack of visited directories, and renders
//! directory subtrees either decorated (terminal) or as plain path lists (pipe).
//!
//! All path and line data is carried as `Vec<char>`; the surrounding binary
//! converts to and from `String` and performs the actual file and terminal I/O.

pub mod chars;
pub mod config;
pub mod favs;
pub mod history;
pub mod lines;
pub mod paths;
pub mod tree;
