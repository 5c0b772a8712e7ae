//! Readers: each turns one input format into a [`crate::ir::Document`].
pub mod html;
pub mod docx;
pub mod office;
pub mod plain;
pub mod markdown;
pub mod data;
pub mod media;
pub mod file;
