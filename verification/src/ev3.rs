//! Program files and projects.
pub mod grammar;
pub mod laws;
pub mod parser;
pub mod project;
pub mod tags;
