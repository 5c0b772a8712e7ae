//! `flip`: an offline document converter. Every input format is read into one
//! document model (`ir`), and every output format is written from it.
//! Parsers live in `parse`, writers in `render`, the command-line decisions
//! in `cli`, and properties that span functions in `laws`.
pub mod ir;
pub mod strutil;
pub mod paths;
pub mod error;
pub mod archive;
pub mod parse;
pub mod cli;
pub mod render;
pub mod laws;
