//! The unencrypted variant of the file system's nodes.

pub mod file;

pub use file::PublicFile;
