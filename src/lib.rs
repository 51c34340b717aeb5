//! Path templates for organising files.
//!
//! A template such as `/{year:created}/{month:created}/` is parsed into
//! components of literal text and variables, and then rendered against the
//! metadata of one file into a relative destination path.

pub mod text;
pub mod vocabulary;
pub mod template;
pub mod parser;
pub mod threshold;
pub mod item;
pub mod error;
pub mod render;
pub mod mediainfo;
pub mod job;
pub mod theorems;
