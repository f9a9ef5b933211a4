//! Search and edit YAML documents by dotted key path, keeping the layout of
//! the file wherever an edit does not touch it.

pub mod cli;
pub mod commands;
pub mod diff;
pub mod display;
pub mod keyed;
pub mod lines;
pub mod patch;
pub mod path;
pub mod search;
pub mod text;
pub mod tree;
pub mod updates;
pub mod yaml;
