//! The encrypted variant of the file system: keys, sharded content, and the
//! nodes that are stored through them.

pub mod content;
pub mod directory;
pub mod file;
pub mod keys;
pub mod node;
pub mod walk;

pub use file::PrivateFile;
