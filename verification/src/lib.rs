//! A content-addressable store with versioned paths.

pub mod add;
pub mod basics;
pub mod cli;
pub mod cli_laws;
pub mod command_laws;
pub mod endings;
pub mod error;
pub mod failures;
pub mod get;
pub mod hash;
pub mod index;
pub mod insertion;
pub mod laws;
pub mod list;
pub mod moments;
pub mod mounted;
pub mod node;
pub mod path;
pub mod pathset;
pub mod reader;
pub mod removal_laws;
pub mod remove;
pub mod rows;
pub mod store;
pub mod store_laws;
pub mod talk;
pub mod text;
pub mod tree;
pub mod utf8;
pub mod uuid;
pub mod world;
