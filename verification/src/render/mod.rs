//! Writers: each turns a [`crate::ir::Document`] into one output format.
pub mod html;
pub mod text;
pub mod markdown;
pub mod latex;
pub mod svg;
pub mod data;
pub mod csv;
pub mod office;
pub mod sheet;
pub mod package;
pub mod word;
pub mod raster;
pub mod output;
pub mod pdf_text;
