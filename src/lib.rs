//! Line editing, completion and file indexing for an interactive
//! directory-navigation shell.

pub mod text;
pub mod state;
pub mod completion;
pub mod editor;
pub mod sorting;
pub mod index;
pub mod favorites;
pub mod search;
pub mod parser;
