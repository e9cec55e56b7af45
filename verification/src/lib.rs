//! File access for a markdown editor, without the I/O: what to ask of the file
//! system next, what to make of its answers, and when to hand a file named at
//! launch over to the user interface.

pub mod commands;
pub mod document;
pub mod error;
pub mod listing;
pub mod path;
pub mod startup;
pub mod text;
