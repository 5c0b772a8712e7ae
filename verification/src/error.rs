//! Errors of the conversion library.
use vstd::prelude::*;
use crate::ir::Format;

verus! {

/// Why a document could not be read or written.
#[derive(Debug, Clone, Copy, PartialEq, Eq, Structural)]
pub enum FlipError {
    /// The format cannot be read.
    UnsupportedInput(Format),
    /// The format cannot be written (or not as bytes).
    UnsupportedOutput(Format),
    /// A text file is not valid UTF-8.
    InvalidUtf8,
    /// A zip container could not be opened or read.
    Archive,
    /// CSV input or output failed.
    Csv,
    /// JSON input could not be parsed.
    Json,
    /// YAML input could not be parsed, or output could not be written.
    Yaml,
    /// A PDF could not be opened.
    Pdf,
    /// An image could not be decoded.
    Image,
    /// A Word document could not be built.
    Docx,
    /// An EPUB could not be built.
    Epub,
}

} // verus!
