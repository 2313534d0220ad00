//! The store as a mounted filesystem.
//!
//! Every path is a regular file with the content of its latest version;
//! directories are implied by the slashes in paths. Where a path is a file and
//! has paths below it, the directory takes precedence and the file is reached
//! under its name with an underscore in front.

pub mod backing;
pub mod basics;
pub mod dir;
pub mod endings;
pub mod failures;
pub mod file;
pub mod find;
pub mod handles;
pub mod laws;
pub mod state;
pub mod versions;
