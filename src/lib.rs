//! Counting code, comment and blank lines in source files.

pub mod count;
pub mod lines;
pub mod text;
pub mod classify;
pub mod language;
pub mod pipeline;
pub mod sort;
