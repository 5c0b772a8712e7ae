//! Properties of the library that hold across its functions.
use vstd::prelude::*;
use crate::ir::{
    blocks_text, format_of_extension, format_of_name, format_of_path, inlines_text, lemma_extension_letters, text_paragraph, BlockView,
    Format, InlineView,
};
use crate::parse::data::{csv_blocks, text_cell, text_cells};
use crate::parse::office::sorted_arrangement;
use crate::parse::markdown::{md_blocks, md_initial, md_run, md_step, MdEventView, MdState};
use crate::render::csv::csv_records;
use crate::render::text::cell_texts;
use crate::render::html::{escape_html, html_block, html_cells, html_char, html_inlines, html_rows};
use crate::render::latex::{escape_latex, latex_char};
use crate::render::office::{escape_markup, slide_char};
use crate::render::pdf_text::{
    break_at, last_space, pdf_char, sanitized, wrap_line, wrap_pieces, wrap_rest, wrapped,
};
use crate::render::raster::byte_take;
use crate::strutil::{
    decimal, join,
    ascii_lower, ascii_upper, byte_len, char_width, is_ascii, lemma_ascii_round, lemma_byte_len_take,
    lemma_trim_end_len, lowercase, seq_lt, sorted_seqs, trim, trim_end,
};
use crate::render::sheet::col_letters;
use crate::paths::{last_dot, last_segment, name_start, path_extension, plain_file_name};
use crate::render::svg::{escape_xml, xml_char};

verus! {

/// The extension written for a format names that format again, both as a
/// file extension and as a `--from`/`--to` name.
pub proof fn law_extension_names_format(f: Format)
    ensures
        format_of_extension(f.spec_extension()) == Some(f),
        format_of_name(f.spec_extension()) == Some(f),
{
    reveal_strlit("pdf");
    reveal_strlit("docx");
    reveal_strlit("doc");
    reveal_strlit("xlsx");
    reveal_strlit("xls");
    reveal_strlit("pptx");
    reveal_strlit("ppt");
    reveal_strlit("html");
    reveal_strlit("htm");
    reveal_strlit("md");
    reveal_strlit("markdown");
    reveal_strlit("mdown");
    reveal_strlit("mkd");
    reveal_strlit("csv");
    reveal_strlit("tsv");
    reveal_strlit("txt");
    reveal_strlit("text");
    reveal_strlit("log");
    reveal_strlit("epub");
    reveal_strlit("odt");
    reveal_strlit("ods");
    reveal_strlit("odp");
    reveal_strlit("rtf");
    reveal_strlit("svg");
    reveal_strlit("json");
    reveal_strlit("jsonl");
    reveal_strlit("yaml");
    reveal_strlit("yml");
    reveal_strlit("tex");
    reveal_strlit("latex");
    reveal_strlit("png");
    reveal_strlit("jpg");
    reveal_strlit("jpeg");
    reveal_strlit("webp");
    reveal_strlit("gif");
    reveal_strlit("bmp");
    reveal_strlit("tiff");
    reveal_strlit("tif");
    match f {
        Format::Pdf => {
            assert(format_of_extension("pdf"@) == Some(Format::Pdf));
            assert(format_of_name("pdf"@) == Some(Format::Pdf));
        },
        Format::Docx => {
            assert("docx"@.len() != "pdf"@.len());
            assert(format_of_extension("docx"@) == Some(Format::Docx));
            assert(format_of_name("docx"@) == Some(Format::Docx));
        },
        Format::Xlsx => {
            assert("xlsx"@.len() != "pdf"@.len());
            assert("xlsx"@[0] != "docx"@[0]);
            assert("xlsx"@.len() != "doc"@.len());
            assert(format_of_extension("xlsx"@) == Some(Format::Xlsx));
            assert(format_of_name("xlsx"@) == Some(Format::Xlsx));
        },
        Format::Pptx => {
            assert("pptx"@.len() != "pdf"@.len());
            assert("pptx"@[0] != "docx"@[0]);
            assert("pptx"@[0] != "xlsx"@[0]);
            assert("pptx"@.len() != "xls"@.len());
            assert("pptx"@.len() != "doc"@.len());
            assert(format_of_extension("pptx"@) == Some(Format::Pptx));
            assert(format_of_name("pptx"@) == Some(Format::Pptx));
        },
        Format::Html => {
            assert("html"@.len() != "pdf"@.len());
            assert("html"@[0] != "docx"@[0]);
            assert("html"@[0] != "xlsx"@[0]);
            assert("html"@.len() != "xls"@.len());
            assert("html"@[0] != "pptx"@[0]);
            assert("html"@.len() != "ppt"@.len());
            assert("html"@.len() != "doc"@.len());
            assert(format_of_extension("html"@) == Some(Format::Html));
            assert(format_of_name("html"@) == Some(Format::Html));
        },
        Format::Markdown => {
            assert("md"@.len() != "pdf"@.len());
            assert("md"@.len() != "docx"@.len());
            assert("md"@.len() != "xlsx"@.len());
            assert("md"@.len() != "xls"@.len());
            assert("md"@.len() != "pptx"@.len());
            assert("md"@.len() != "ppt"@.len());
            assert("md"@.len() != "html"@.len());
            assert("md"@.len() != "htm"@.len());
            assert("md"@.len() != "doc"@.len());
            assert(format_of_extension("md"@) == Some(Format::Markdown));
            assert(format_of_name("md"@) == Some(Format::Markdown));
        },
        Format::Csv => {
            assert("csv"@[0] != "pdf"@[0]);
            assert("csv"@.len() != "docx"@.len());
            assert("csv"@.len() != "xlsx"@.len());
            assert("csv"@[0] != "xls"@[0]);
            assert("csv"@.len() != "pptx"@.len());
            assert("csv"@[0] != "ppt"@[0]);
            assert("csv"@.len() != "html"@.len());
            assert("csv"@[0] != "htm"@[0]);
            assert("csv"@.len() != "md"@.len());
            assert("csv"@.len() != "markdown"@.len());
            assert("csv"@.len() != "mdown"@.len());
            assert("csv"@[0] != "mkd"@[0]);
            assert("csv"@[0] != "doc"@[0]);
            assert(format_of_extension("csv"@) == Some(Format::Csv));
            assert(format_of_name("csv"@) == Some(Format::Csv));
        },
        Format::Text => {
            assert("txt"@[0] != "pdf"@[0]);
            assert("txt"@.len() != "docx"@.len());
            assert("txt"@.len() != "xlsx"@.len());
            assert("txt"@[0] != "xls"@[0]);
            assert("txt"@.len() != "pptx"@.len());
            assert("txt"@[0] != "ppt"@[0]);
            assert("txt"@.len() != "html"@.len());
            assert("txt"@[0] != "htm"@[0]);
            assert("txt"@.len() != "md"@.len());
            assert("txt"@.len() != "markdown"@.len());
            assert("txt"@.len() != "mdown"@.len());
            assert("txt"@[0] != "mkd"@[0]);
            assert("txt"@[0] != "csv"@[0]);
            assert("txt"@[1] != "tsv"@[1]);
            assert("txt"@[0] != "doc"@[0]);
            assert(format_of_extension("txt"@) == Some(Format::Text));
            assert(format_of_name("txt"@) == Some(Format::Text));
        },
        Format::Epub => {
            assert("epub"@.len() != "pdf"@.len());
            assert("epub"@[0] != "docx"@[0]);
            assert("epub"@[0] != "xlsx"@[0]);
            assert("epub"@.len() != "xls"@.len());
            assert("epub"@[0] != "pptx"@[0]);
            assert("epub"@.len() != "ppt"@.len());
            assert("epub"@[0] != "html"@[0]);
            assert("epub"@.len() != "htm"@.len());
            assert("epub"@.len() != "md"@.len());
            assert("epub"@.len() != "markdown"@.len());
            assert("epub"@.len() != "mdown"@.len());
            assert("epub"@.len() != "mkd"@.len());
            assert("epub"@.len() != "csv"@.len());
            assert("epub"@.len() != "tsv"@.len());
            assert("epub"@.len() != "txt"@.len());
            assert("epub"@[0] != "text"@[0]);
            assert("epub"@.len() != "log"@.len());
            assert("epub"@.len() != "doc"@.len());
            assert(format_of_extension("epub"@) == Some(Format::Epub));
            assert(format_of_name("epub"@) == Some(Format::Epub));
        },
        Format::Odt => {
            assert("odt"@[0] != "pdf"@[0]);
            assert("odt"@.len() != "docx"@.len());
            assert("odt"@.len() != "xlsx"@.len());
            assert("odt"@[0] != "xls"@[0]);
            assert("odt"@.len() != "pptx"@.len());
            assert("odt"@[0] != "ppt"@[0]);
            assert("odt"@.len() != "html"@.len());
            assert("odt"@[0] != "htm"@[0]);
            assert("odt"@.len() != "md"@.len());
            assert("odt"@.len() != "markdown"@.len());
            assert("odt"@.len() != "mdown"@.len());
            assert("odt"@[0] != "mkd"@[0]);
            assert("odt"@[0] != "csv"@[0]);
            assert("odt"@[0] != "tsv"@[0]);
            assert("odt"@[0] != "txt"@[0]);
            assert("odt"@.len() != "text"@.len());
            assert("odt"@[0] != "log"@[0]);
            assert("odt"@.len() != "epub"@.len());
            assert("odt"@[0] != "doc"@[0]);
            assert(format_of_extension("odt"@) == Some(Format::Odt));
            assert(format_of_name("odt"@) == Some(Format::Odt));
        },
        Format::Ods => {
            assert("ods"@[0] != "pdf"@[0]);
            assert("ods"@.len() != "docx"@.len());
            assert("ods"@.len() != "xlsx"@.len());
            assert("ods"@[0] != "xls"@[0]);
            assert("ods"@.len() != "pptx"@.len());
            assert("ods"@[0] != "ppt"@[0]);
            assert("ods"@.len() != "html"@.len());
            assert("ods"@[0] != "htm"@[0]);
            assert("ods"@.len() != "md"@.len());
            assert("ods"@.len() != "markdown"@.len());
            assert("ods"@.len() != "mdown"@.len());
            assert("ods"@[0] != "mkd"@[0]);
            assert("ods"@[0] != "csv"@[0]);
            assert("ods"@[0] != "tsv"@[0]);
            assert("ods"@[0] != "txt"@[0]);
            assert("ods"@.len() != "text"@.len());
            assert("ods"@[0] != "log"@[0]);
            assert("ods"@.len() != "epub"@.len());
            assert("ods"@[2] != "odt"@[2]);
            assert("ods"@[0] != "doc"@[0]);
            assert(format_of_extension("ods"@) == Some(Format::Ods));
            assert(format_of_name("ods"@) == Some(Format::Ods));
        },
        Format::Odp => {
            assert("odp"@[0] != "pdf"@[0]);
            assert("odp"@.len() != "docx"@.len());
            assert("odp"@.len() != "xlsx"@.len());
            assert("odp"@[0] != "xls"@[0]);
            assert("odp"@.len() != "pptx"@.len());
            assert("odp"@[0] != "ppt"@[0]);
            assert("odp"@.len() != "html"@.len());
            assert("odp"@[0] != "htm"@[0]);
            assert("odp"@.len() != "md"@.len());
            assert("odp"@.len() != "markdown"@.len());
            assert("odp"@.len() != "mdown"@.len());
            assert("odp"@[0] != "mkd"@[0]);
            assert("odp"@[0] != "csv"@[0]);
            assert("odp"@[0] != "tsv"@[0]);
            assert("odp"@[0] != "txt"@[0]);
            assert("odp"@.len() != "text"@.len());
            assert("odp"@[0] != "log"@[0]);
            assert("odp"@.len() != "epub"@.len());
            assert("odp"@[2] != "odt"@[2]);
            assert("odp"@[2] != "ods"@[2]);
            assert("odp"@[0] != "doc"@[0]);
            assert(format_of_extension("odp"@) == Some(Format::Odp));
            assert(format_of_name("odp"@) == Some(Format::Odp));
        },
        Format::Rtf => {
            assert("rtf"@[0] != "pdf"@[0]);
            assert("rtf"@.len() != "docx"@.len());
            assert("rtf"@.len() != "xlsx"@.len());
            assert("rtf"@[0] != "xls"@[0]);
            assert("rtf"@.len() != "pptx"@.len());
            assert("rtf"@[0] != "ppt"@[0]);
            assert("rtf"@.len() != "html"@.len());
            assert("rtf"@[0] != "htm"@[0]);
            assert("rtf"@.len() != "md"@.len());
            assert("rtf"@.len() != "markdown"@.len());
            assert("rtf"@.len() != "mdown"@.len());
            assert("rtf"@[0] != "mkd"@[0]);
            assert("rtf"@[0] != "csv"@[0]);
            assert("rtf"@[0] != "tsv"@[0]);
            assert("rtf"@[0] != "txt"@[0]);
            assert("rtf"@.len() != "text"@.len());
            assert("rtf"@[0] != "log"@[0]);
            assert("rtf"@.len() != "epub"@.len());
            assert("rtf"@[0] != "odt"@[0]);
            assert("rtf"@[0] != "ods"@[0]);
            assert("rtf"@[0] != "odp"@[0]);
            assert("rtf"@[0] != "doc"@[0]);
            assert(format_of_extension("rtf"@) == Some(Format::Rtf));
            assert(format_of_name("rtf"@) == Some(Format::Rtf));
        },
        Format::Svg => {
            assert("svg"@[0] != "pdf"@[0]);
            assert("svg"@.len() != "docx"@.len());
            assert("svg"@.len() != "xlsx"@.len());
            assert("svg"@[0] != "xls"@[0]);
            assert("svg"@.len() != "pptx"@.len());
            assert("svg"@[0] != "ppt"@[0]);
            assert("svg"@.len() != "html"@.len());
            assert("svg"@[0] != "htm"@[0]);
            assert("svg"@.len() != "md"@.len());
            assert("svg"@.len() != "markdown"@.len());
            assert("svg"@.len() != "mdown"@.len());
            assert("svg"@[0] != "mkd"@[0]);
            assert("svg"@[0] != "csv"@[0]);
            assert("svg"@[0] != "tsv"@[0]);
            assert("svg"@[0] != "txt"@[0]);
            assert("svg"@.len() != "text"@.len());
            assert("svg"@[0] != "log"@[0]);
            assert("svg"@.len() != "epub"@.len());
            assert("svg"@[0] != "odt"@[0]);
            assert("svg"@[0] != "ods"@[0]);
            assert("svg"@[0] != "odp"@[0]);
            assert("svg"@[0] != "rtf"@[0]);
            assert("svg"@[0] != "doc"@[0]);
            assert(format_of_extension("svg"@) == Some(Format::Svg));
            assert(format_of_name("svg"@) == Some(Format::Svg));
        },
        Format::Json => {
            assert("json"@.len() != "pdf"@.len());
            assert("json"@[0] != "docx"@[0]);
            assert("json"@[0] != "xlsx"@[0]);
            assert("json"@.len() != "xls"@.len());
            assert("json"@[0] != "pptx"@[0]);
            assert("json"@.len() != "ppt"@.len());
            assert("json"@[0] != "html"@[0]);
            assert("json"@.len() != "htm"@.len());
            assert("json"@.len() != "md"@.len());
            assert("json"@.len() != "markdown"@.len());
            assert("json"@.len() != "mdown"@.len());
            assert("json"@.len() != "mkd"@.len());
            assert("json"@.len() != "csv"@.len());
            assert("json"@.len() != "tsv"@.len());
            assert("json"@.len() != "txt"@.len());
            assert("json"@[0] != "text"@[0]);
            assert("json"@.len() != "log"@.len());
            assert("json"@[0] != "epub"@[0]);
            assert("json"@.len() != "odt"@.len());
            assert("json"@.len() != "ods"@.len());
            assert("json"@.len() != "odp"@.len());
            assert("json"@.len() != "rtf"@.len());
            assert("json"@.len() != "svg"@.len());
            assert("json"@.len() != "doc"@.len());
            assert(format_of_extension("json"@) == Some(Format::Json));
            assert(format_of_name("json"@) == Some(Format::Json));
        },
        Format::Yaml => {
            assert("yaml"@.len() != "pdf"@.len());
            assert("yaml"@[0] != "docx"@[0]);
            assert("yaml"@[0] != "xlsx"@[0]);
            assert("yaml"@.len() != "xls"@.len());
            assert("yaml"@[0] != "pptx"@[0]);
            assert("yaml"@.len() != "ppt"@.len());
            assert("yaml"@[0] != "html"@[0]);
            assert("yaml"@.len() != "htm"@.len());
            assert("yaml"@.len() != "md"@.len());
            assert("yaml"@.len() != "markdown"@.len());
            assert("yaml"@.len() != "mdown"@.len());
            assert("yaml"@.len() != "mkd"@.len());
            assert("yaml"@.len() != "csv"@.len());
            assert("yaml"@.len() != "tsv"@.len());
            assert("yaml"@.len() != "txt"@.len());
            assert("yaml"@[0] != "text"@[0]);
            assert("yaml"@.len() != "log"@.len());
            assert("yaml"@[0] != "epub"@[0]);
            assert("yaml"@.len() != "odt"@.len());
            assert("yaml"@.len() != "ods"@.len());
            assert("yaml"@.len() != "odp"@.len());
            assert("yaml"@.len() != "rtf"@.len());
            assert("yaml"@.len() != "svg"@.len());
            assert("yaml"@[0] != "json"@[0]);
            assert("yaml"@.len() != "jsonl"@.len());
            assert("yaml"@.len() != "doc"@.len());
            assert(format_of_extension("yaml"@) == Some(Format::Yaml));
            assert(format_of_name("yaml"@) == Some(Format::Yaml));
        },
        Format::Latex => {
            assert("tex"@[0] != "pdf"@[0]);
            assert("tex"@.len() != "docx"@.len());
            assert("tex"@.len() != "xlsx"@.len());
            assert("tex"@[0] != "xls"@[0]);
            assert("tex"@.len() != "pptx"@.len());
            assert("tex"@[0] != "ppt"@[0]);
            assert("tex"@.len() != "html"@.len());
            assert("tex"@[0] != "htm"@[0]);
            assert("tex"@.len() != "md"@.len());
            assert("tex"@.len() != "markdown"@.len());
            assert("tex"@.len() != "mdown"@.len());
            assert("tex"@[0] != "mkd"@[0]);
            assert("tex"@[0] != "csv"@[0]);
            assert("tex"@[1] != "tsv"@[1]);
            assert("tex"@[1] != "txt"@[1]);
            assert("tex"@.len() != "text"@.len());
            assert("tex"@[0] != "log"@[0]);
            assert("tex"@.len() != "epub"@.len());
            assert("tex"@[0] != "odt"@[0]);
            assert("tex"@[0] != "ods"@[0]);
            assert("tex"@[0] != "odp"@[0]);
            assert("tex"@[0] != "rtf"@[0]);
            assert("tex"@[0] != "svg"@[0]);
            assert("tex"@.len() != "json"@.len());
            assert("tex"@.len() != "jsonl"@.len());
            assert("tex"@.len() != "yaml"@.len());
            assert("tex"@[0] != "yml"@[0]);
            assert("tex"@[0] != "doc"@[0]);
            assert(format_of_extension("tex"@) == Some(Format::Latex));
            assert(format_of_name("tex"@) == Some(Format::Latex));
        },
        Format::Png => {
            assert("png"@[1] != "pdf"@[1]);
            assert("png"@.len() != "docx"@.len());
            assert("png"@.len() != "xlsx"@.len());
            assert("png"@[0] != "xls"@[0]);
            assert("png"@.len() != "pptx"@.len());
            assert("png"@[1] != "ppt"@[1]);
            assert("png"@.len() != "html"@.len());
            assert("png"@[0] != "htm"@[0]);
            assert("png"@.len() != "md"@.len());
            assert("png"@.len() != "markdown"@.len());
            assert("png"@.len() != "mdown"@.len());
            assert("png"@[0] != "mkd"@[0]);
            assert("png"@[0] != "csv"@[0]);
            assert("png"@[0] != "tsv"@[0]);
            assert("png"@[0] != "txt"@[0]);
            assert("png"@.len() != "text"@.len());
            assert("png"@[0] != "log"@[0]);
            assert("png"@.len() != "epub"@.len());
            assert("png"@[0] != "odt"@[0]);
            assert("png"@[0] != "ods"@[0]);
            assert("png"@[0] != "odp"@[0]);
            assert("png"@[0] != "rtf"@[0]);
            assert("png"@[0] != "svg"@[0]);
            assert("png"@.len() != "json"@.len());
            assert("png"@.len() != "jsonl"@.len());
            assert("png"@.len() != "yaml"@.len());
            assert("png"@[0] != "yml"@[0]);
            assert("png"@[0] != "tex"@[0]);
            assert("png"@.len() != "latex"@.len());
            assert("png"@[0] != "doc"@[0]);
            assert(format_of_extension("png"@) == Some(Format::Png));
            assert(format_of_name("png"@) == Some(Format::Png));
        },
        Format::Jpeg => {
            assert("jpg"@[0] != "pdf"@[0]);
            assert("jpg"@.len() != "docx"@.len());
            assert("jpg"@.len() != "xlsx"@.len());
            assert("jpg"@[0] != "xls"@[0]);
            assert("jpg"@.len() != "pptx"@.len());
            assert("jpg"@[0] != "ppt"@[0]);
            assert("jpg"@.len() != "html"@.len());
            assert("jpg"@[0] != "htm"@[0]);
            assert("jpg"@.len() != "md"@.len());
            assert("jpg"@.len() != "markdown"@.len());
            assert("jpg"@.len() != "mdown"@.len());
            assert("jpg"@[0] != "mkd"@[0]);
            assert("jpg"@[0] != "csv"@[0]);
            assert("jpg"@[0] != "tsv"@[0]);
            assert("jpg"@[0] != "txt"@[0]);
            assert("jpg"@.len() != "text"@.len());
            assert("jpg"@[0] != "log"@[0]);
            assert("jpg"@.len() != "epub"@.len());
            assert("jpg"@[0] != "odt"@[0]);
            assert("jpg"@[0] != "ods"@[0]);
            assert("jpg"@[0] != "odp"@[0]);
            assert("jpg"@[0] != "rtf"@[0]);
            assert("jpg"@[0] != "svg"@[0]);
            assert("jpg"@.len() != "json"@.len());
            assert("jpg"@.len() != "jsonl"@.len());
            assert("jpg"@.len() != "yaml"@.len());
            assert("jpg"@[0] != "yml"@[0]);
            assert("jpg"@[0] != "tex"@[0]);
            assert("jpg"@.len() != "latex"@.len());
            assert("jpg"@[0] != "png"@[0]);
            assert("jpg"@[0] != "doc"@[0]);
            assert(format_of_extension("jpg"@) == Some(Format::Jpeg));
            assert(format_of_name("jpg"@) == Some(Format::Jpeg));
        },
        Format::Webp => {
            assert("webp"@.len() != "pdf"@.len());
            assert("webp"@[0] != "docx"@[0]);
            assert("webp"@[0] != "xlsx"@[0]);
            assert("webp"@.len() != "xls"@.len());
            assert("webp"@[0] != "pptx"@[0]);
            assert("webp"@.len() != "ppt"@.len());
            assert("webp"@[0] != "html"@[0]);
            assert("webp"@.len() != "htm"@.len());
            assert("webp"@.len() != "md"@.len());
            assert("webp"@.len() != "markdown"@.len());
            assert("webp"@.len() != "mdown"@.len());
            assert("webp"@.len() != "mkd"@.len());
            assert("webp"@.len() != "csv"@.len());
            assert("webp"@.len() != "tsv"@.len());
            assert("webp"@.len() != "txt"@.len());
            assert("webp"@[0] != "text"@[0]);
            assert("webp"@.len() != "log"@.len());
            assert("webp"@[0] != "epub"@[0]);
            assert("webp"@.len() != "odt"@.len());
            assert("webp"@.len() != "ods"@.len());
            assert("webp"@.len() != "odp"@.len());
            assert("webp"@.len() != "rtf"@.len());
            assert("webp"@.len() != "svg"@.len());
            assert("webp"@[0] != "json"@[0]);
            assert("webp"@.len() != "jsonl"@.len());
            assert("webp"@[0] != "yaml"@[0]);
            assert("webp"@.len() != "yml"@.len());
            assert("webp"@.len() != "tex"@.len());
            assert("webp"@.len() != "latex"@.len());
            assert("webp"@.len() != "png"@.len());
            assert("webp"@.len() != "jpg"@.len());
            assert("webp"@[0] != "jpeg"@[0]);
            assert("webp"@.len() != "doc"@.len());
            assert(format_of_extension("webp"@) == Some(Format::Webp));
            assert(format_of_name("webp"@) == Some(Format::Webp));
        },
        Format::Gif => {
            assert("gif"@[0] != "pdf"@[0]);
            assert("gif"@.len() != "docx"@.len());
            assert("gif"@.len() != "xlsx"@.len());
            assert("gif"@[0] != "xls"@[0]);
            assert("gif"@.len() != "pptx"@.len());
            assert("gif"@[0] != "ppt"@[0]);
            assert("gif"@.len() != "html"@.len());
            assert("gif"@[0] != "htm"@[0]);
            assert("gif"@.len() != "md"@.len());
            assert("gif"@.len() != "markdown"@.len());
            assert("gif"@.len() != "mdown"@.len());
            assert("gif"@[0] != "mkd"@[0]);
            assert("gif"@[0] != "csv"@[0]);
            assert("gif"@[0] != "tsv"@[0]);
            assert("gif"@[0] != "txt"@[0]);
            assert("gif"@.len() != "text"@.len());
            assert("gif"@[0] != "log"@[0]);
            assert("gif"@.len() != "epub"@.len());
            assert("gif"@[0] != "odt"@[0]);
            assert("gif"@[0] != "ods"@[0]);
            assert("gif"@[0] != "odp"@[0]);
            assert("gif"@[0] != "rtf"@[0]);
            assert("gif"@[0] != "svg"@[0]);
            assert("gif"@.len() != "json"@.len());
            assert("gif"@.len() != "jsonl"@.len());
            assert("gif"@.len() != "yaml"@.len());
            assert("gif"@[0] != "yml"@[0]);
            assert("gif"@[0] != "tex"@[0]);
            assert("gif"@.len() != "latex"@.len());
            assert("gif"@[0] != "png"@[0]);
            assert("gif"@[0] != "jpg"@[0]);
            assert("gif"@.len() != "jpeg"@.len());
            assert("gif"@.len() != "webp"@.len());
            assert("gif"@[0] != "doc"@[0]);
            assert(format_of_extension("gif"@) == Some(Format::Gif));
            assert(format_of_name("gif"@) == Some(Format::Gif));
        },
        Format::Bmp => {
            assert("bmp"@[0] != "pdf"@[0]);
            assert("bmp"@.len() != "docx"@.len());
            assert("bmp"@.len() != "xlsx"@.len());
            assert("bmp"@[0] != "xls"@[0]);
            assert("bmp"@.len() != "pptx"@.len());
            assert("bmp"@[0] != "ppt"@[0]);
            assert("bmp"@.len() != "html"@.len());
            assert("bmp"@[0] != "htm"@[0]);
            assert("bmp"@.len() != "md"@.len());
            assert("bmp"@.len() != "markdown"@.len());
            assert("bmp"@.len() != "mdown"@.len());
            assert("bmp"@[0] != "mkd"@[0]);
            assert("bmp"@[0] != "csv"@[0]);
            assert("bmp"@[0] != "tsv"@[0]);
            assert("bmp"@[0] != "txt"@[0]);
            assert("bmp"@.len() != "text"@.len());
            assert("bmp"@[0] != "log"@[0]);
            assert("bmp"@.len() != "epub"@.len());
            assert("bmp"@[0] != "odt"@[0]);
            assert("bmp"@[0] != "ods"@[0]);
            assert("bmp"@[0] != "odp"@[0]);
            assert("bmp"@[0] != "rtf"@[0]);
            assert("bmp"@[0] != "svg"@[0]);
            assert("bmp"@.len() != "json"@.len());
            assert("bmp"@.len() != "jsonl"@.len());
            assert("bmp"@.len() != "yaml"@.len());
            assert("bmp"@[0] != "yml"@[0]);
            assert("bmp"@[0] != "tex"@[0]);
            assert("bmp"@.len() != "latex"@.len());
            assert("bmp"@[0] != "png"@[0]);
            assert("bmp"@[0] != "jpg"@[0]);
            assert("bmp"@.len() != "jpeg"@.len());
            assert("bmp"@.len() != "webp"@.len());
            assert("bmp"@[0] != "gif"@[0]);
            assert("bmp"@[0] != "doc"@[0]);
            assert(format_of_extension("bmp"@) == Some(Format::Bmp));
            assert(format_of_name("bmp"@) == Some(Format::Bmp));
        },
        Format::Tiff => {
            assert("tiff"@.len() != "pdf"@.len());
            assert("tiff"@[0] != "docx"@[0]);
            assert("tiff"@[0] != "xlsx"@[0]);
            assert("tiff"@.len() != "xls"@.len());
            assert("tiff"@[0] != "pptx"@[0]);
            assert("tiff"@.len() != "ppt"@.len());
            assert("tiff"@[0] != "html"@[0]);
            assert("tiff"@.len() != "htm"@.len());
            assert("tiff"@.len() != "md"@.len());
            assert("tiff"@.len() != "markdown"@.len());
            assert("tiff"@.len() != "mdown"@.len());
            assert("tiff"@.len() != "mkd"@.len());
            assert("tiff"@.len() != "csv"@.len());
            assert("tiff"@.len() != "tsv"@.len());
            assert("tiff"@.len() != "txt"@.len());
            assert("tiff"@[1] != "text"@[1]);
            assert("tiff"@.len() != "log"@.len());
            assert("tiff"@[0] != "epub"@[0]);
            assert("tiff"@.len() != "odt"@.len());
            assert("tiff"@.len() != "ods"@.len());
            assert("tiff"@.len() != "odp"@.len());
            assert("tiff"@.len() != "rtf"@.len());
            assert("tiff"@.len() != "svg"@.len());
            assert("tiff"@[0] != "json"@[0]);
            assert("tiff"@.len() != "jsonl"@.len());
            assert("tiff"@[0] != "yaml"@[0]);
            assert("tiff"@.len() != "yml"@.len());
            assert("tiff"@.len() != "tex"@.len());
            assert("tiff"@.len() != "latex"@.len());
            assert("tiff"@.len() != "png"@.len());
            assert("tiff"@.len() != "jpg"@.len());
            assert("tiff"@[0] != "jpeg"@[0]);
            assert("tiff"@[0] != "webp"@[0]);
            assert("tiff"@.len() != "gif"@.len());
            assert("tiff"@.len() != "bmp"@.len());
            assert("tiff"@.len() != "doc"@.len());
            assert(format_of_extension("tiff"@) == Some(Format::Tiff));
            assert(format_of_name("tiff"@) == Some(Format::Tiff));
        },
    }
}

/// A format's extension written in capitals names the format too, as a
/// `--from`/`--to` name: names are read without regard to case.
pub proof fn law_upper_extension_names_format(f: Format)
    ensures
        format_of_name(lowercase(f.spec_extension().map_values(|c: char| ascii_upper(c)))) == Some(f),
{
    let e = f.spec_extension();
    let u = e.map_values(|c: char| ascii_upper(c));
    lemma_extension_letters(f);
    assert forall|i: int| 0 <= i < u.len() implies (#[trigger] u[i] as int) < 128 by {
        lemma_ascii_round(e[i]);
    }
    assert(is_ascii(u));
    let l = u.map_values(|c: char| ascii_lower(c));
    assert forall|i: int| 0 <= i < e.len() implies #[trigger] l[i] == e[i] by {
        lemma_ascii_round(e[i]);
    }
    assert(l =~= e);
    assert(lowercase(u) == l);
    law_extension_names_format(f);
}

/// Appending characters with no `/` leaves where the last component starts.
proof fn lemma_name_start_append(x: Seq<char>, n: Seq<char>)
    requires
        forall|i: int| 0 <= i < n.len() ==> #[trigger] n[i] != '/',
    ensures
        name_start(x + n) == name_start(x),
    decreases n.len(),
{
    if n.len() > 0 {
        assert((x + n).drop_last() =~= x + n.drop_last());
        assert((x + n).last() == n[n.len() - 1]);
        lemma_name_start_append(x, n.drop_last());
    } else {
        assert(x + n =~= x);
    }
}

/// Appending characters with no `.` leaves the last dot where it was.
proof fn lemma_last_dot_append(x: Seq<char>, n: Seq<char>)
    requires
        forall|i: int| 0 <= i < n.len() ==> #[trigger] n[i] != '.',
    ensures
        last_dot(x + n) == last_dot(x),
    decreases n.len(),
{
    if n.len() > 0 {
        assert((x + n).drop_last() =~= x + n.drop_last());
        assert((x + n).last() == n[n.len() - 1]);
        lemma_last_dot_append(x, n.drop_last());
    } else {
        assert(x + n =~= x);
    }
}

/// The extension of a file name made of a stem, a dot and letters is those
/// letters, in a directory or not.
proof fn lemma_named_extension(dir: Seq<char>, stem: Seq<char>, e: Seq<char>)
    requires
        stem.len() > 0,
        e.len() > 0,
        forall|i: int| 0 <= i < stem.len() ==> #[trigger] stem[i] != '/',
        forall|i: int| 0 <= i < e.len() ==> #[trigger] e[i] != '/' && e[i] != '.',
    ensures
        path_extension(dir + "/"@ + stem + "."@ + e) == Some(e),
        path_extension(stem + "."@ + e) == Some(e),
{
    reveal_strlit("/");
    reveal_strlit(".");
    reveal_strlit("..");
    let n = stem + "."@ + e;
    assert forall|i: int| 0 <= i < n.len() implies #[trigger] n[i] != '/' by {
        if i < stem.len() {
            assert(n[i] == stem[i]);
        } else if i > stem.len() {
            assert(n[i] == e[i - stem.len() - 1]);
        }
    }
    assert(n.len() != "."@.len() && n.len() != ".."@.len());
    assert(plain_file_name(n));
    let d = dir + "/"@;
    assert(d.drop_last() =~= dir);
    assert(name_start(d) == d.len());
    lemma_name_start_append(d, n);
    let p = dir + "/"@ + stem + "."@ + e;
    assert(p =~= d + n);
    assert(last_segment(p) =~= n);
    lemma_name_start_append(Seq::<char>::empty(), n);
    assert(Seq::<char>::empty() + n =~= n);
    assert(last_segment(n) =~= n);
    let sd = stem + "."@;
    assert(sd.drop_last() =~= stem);
    assert(last_dot(sd) == stem.len());
    lemma_last_dot_append(sd, e);
    assert(n =~= sd + e);
    assert(last_dot(n) == stem.len());
    assert(n.skip(last_dot(n) + 1) =~= e);
}

/// A path whose last component is a stem, a dot and a format's extension,
/// in lower case or in capitals, is detected as that format, whether or not
/// a directory stands before it.
pub proof fn law_path_extension_detects_format(f: Format, dir: Seq<char>, stem: Seq<char>, upper: bool)
    requires
        stem.len() > 0,
        forall|i: int| 0 <= i < stem.len() ==> #[trigger] stem[i] != '/',
    ensures
        ({
            let e = if upper {
                f.spec_extension().map_values(|c: char| ascii_upper(c))
            } else {
                f.spec_extension()
            };
            &&& format_of_path(dir + "/"@ + stem + "."@ + e) == Some(f)
            &&& format_of_path(stem + "."@ + e) == Some(f)
        }),
{
    let x = f.spec_extension();
    let u = x.map_values(|c: char| ascii_upper(c));
    let e = if upper { u } else { x };
    lemma_extension_letters(f);
    law_extension_names_format(f);
    assert forall|i: int| 0 <= i < e.len() implies #[trigger] e[i] != '/' && e[i] != '.' by {
        lemma_ascii_round(x[i]);
    }
    lemma_named_extension(dir, stem, e);
    assert forall|i: int| 0 <= i < e.len() implies (#[trigger] e[i] as int) < 128 by {
        lemma_ascii_round(x[i]);
    }
    assert(is_ascii(e));
    let l = e.map_values(|c: char| ascii_lower(c));
    assert forall|i: int| 0 <= i < x.len() implies #[trigger] l[i] == x[i] by {
        lemma_ascii_round(x[i]);
    }
    assert(l =~= x);
    assert(lowercase(e) == x);
}

/// The format list holds every format exactly once.
pub proof fn law_all_formats_once(f: Format)
    ensures
        Format::spec_all().contains(f),
        Format::spec_all().no_duplicates(),
{
    let a = Format::spec_all();
    match f {
        Format::Pdf => assert(a[0] == f),
        Format::Docx => assert(a[1] == f),
        Format::Xlsx => assert(a[2] == f),
        Format::Pptx => assert(a[3] == f),
        Format::Html => assert(a[4] == f),
        Format::Markdown => assert(a[5] == f),
        Format::Csv => assert(a[6] == f),
        Format::Text => assert(a[7] == f),
        Format::Epub => assert(a[8] == f),
        Format::Odt => assert(a[9] == f),
        Format::Ods => assert(a[10] == f),
        Format::Odp => assert(a[11] == f),
        Format::Rtf => assert(a[12] == f),
        Format::Svg => assert(a[13] == f),
        Format::Json => assert(a[14] == f),
        Format::Yaml => assert(a[15] == f),
        Format::Latex => assert(a[16] == f),
        Format::Png => assert(a[17] == f),
        Format::Jpeg => assert(a[18] == f),
        Format::Webp => assert(a[19] == f),
        Format::Gif => assert(a[20] == f),
        Format::Bmp => assert(a[21] == f),
        Format::Tiff => assert(a[22] == f),
    }
}

/// The length and first character of a format's display name.
spec fn display_key(f: Format) -> (nat, char) {
    match f {
        Format::Pdf => (3, 'P'),
        Format::Docx => (11, 'W'),
        Format::Xlsx => (12, 'E'),
        Format::Pptx => (17, 'P'),
        Format::Html => (4, 'H'),
        Format::Markdown => (8, 'M'),
        Format::Csv => (3, 'C'),
        Format::Text => (10, 'P'),
        Format::Epub => (4, 'E'),
        Format::Odt => (23, 'O'),
        Format::Ods => (30, 'O'),
        Format::Odp => (31, 'O'),
        Format::Rtf => (3, 'R'),
        Format::Svg => (3, 'S'),
        Format::Json => (4, 'J'),
        Format::Yaml => (4, 'Y'),
        Format::Latex => (5, 'L'),
        Format::Png => (9, 'P'),
        Format::Jpeg => (10, 'J'),
        Format::Webp => (10, 'W'),
        Format::Gif => (9, 'G'),
        Format::Bmp => (9, 'B'),
        Format::Tiff => (10, 'T'),
    }
}

/// A display name has the length and first character of its key.
proof fn lemma_display_key(f: Format)
    ensures
        f.spec_display_name().len() == display_key(f).0,
        f.spec_display_name()[0] == display_key(f).1,
{
    reveal_strlit("PDF");
    reveal_strlit("Word (DOCX)");
    reveal_strlit("Excel (XLSX)");
    reveal_strlit("PowerPoint (PPTX)");
    reveal_strlit("HTML");
    reveal_strlit("Markdown");
    reveal_strlit("CSV");
    reveal_strlit("Plain Text");
    reveal_strlit("EPUB");
    reveal_strlit("OpenDocument Text (ODT)");
    reveal_strlit("OpenDocument Spreadsheet (ODS)");
    reveal_strlit("OpenDocument Presentation (ODP)");
    reveal_strlit("RTF");
    reveal_strlit("SVG");
    reveal_strlit("JSON");
    reveal_strlit("YAML");
    reveal_strlit("LaTeX");
    reveal_strlit("PNG Image");
    reveal_strlit("JPEG Image");
    reveal_strlit("WebP Image");
    reveal_strlit("GIF Image");
    reveal_strlit("BMP Image");
    reveal_strlit("TIFF Image");
}

/// Every format has a non-empty display name, and different formats have
/// different display names.
pub proof fn law_display_names(f: Format, g: Format)
    ensures
        f.spec_display_name().len() > 0,
        f != g ==> f.spec_display_name() != g.spec_display_name(),
{
    lemma_display_key(f);
    lemma_display_key(g);
    if f != g && f.spec_display_name() == g.spec_display_name() {
        assert(display_key(f) == display_key(g));
        match f {
        Format::Pdf => {},
        Format::Docx => {},
        Format::Xlsx => {},
        Format::Pptx => {},
        Format::Html => {},
        Format::Markdown => {},
        Format::Csv => {},
        Format::Text => {},
        Format::Epub => {},
        Format::Odt => {},
        Format::Ods => {},
        Format::Odp => {},
        Format::Rtf => {},
        Format::Svg => {},
        Format::Json => {},
        Format::Yaml => {},
        Format::Latex => {},
        Format::Png => {},
        Format::Jpeg => {},
        Format::Webp => {},
        Format::Gif => {},
        Format::Bmp => {},
        Format::Tiff => {},
        }
    }
}

/// No format is both a raster image and an office document.
pub proof fn law_image_not_office(f: Format)
    ensures
        f.spec_is_image() ==> !f.spec_is_office(),
{
}

/// HTML-escaped text holds no `<`, `>`, `"` or `'`.
pub proof fn law_escape_html_safe(s: Seq<char>)
    ensures
        forall|i: int|
            0 <= i < escape_html(s).len() ==> escape_html(s)[i] != '<' && escape_html(s)[i] != '>'
                && escape_html(s)[i] != '"' && escape_html(s)[i] != '\'',
    decreases s.len(),
{
    if s.len() > 0 {
        law_escape_html_safe(s.drop_last());
        let c = s.last();
        reveal_strlit("&amp;");
        reveal_strlit("&lt;");
        reveal_strlit("&gt;");
        reveal_strlit("&quot;");
        reveal_strlit("&#39;");
        let p = escape_html(s.drop_last());
        assert forall|i: int| 0 <= i < escape_html(s).len() implies escape_html(s)[i] != '<'
            && escape_html(s)[i] != '>' && escape_html(s)[i] != '"' && escape_html(s)[i] != '\'' by {
            if i >= p.len() {
                assert(escape_html(s)[i] == html_char(c)[i - p.len()]);
            } else {
                assert(escape_html(s)[i] == p[i]);
            }
        }
    }
}

/// The characters LaTeX treats as commands or markup when they stand alone.
pub open spec fn latex_special(c: char) -> bool {
    c == '#' || c == '$' || c == '%' || c == '&' || c == '_' || c == '^' || c == '~'
}

/// In LaTeX-escaped text every `#`, `$`, `%`, `&`, `_`, `^` and `~` follows a
/// backslash, so none of them acts as markup.
pub proof fn law_escape_latex_specials(s: Seq<char>)
    ensures
        forall|i: int|
            0 <= i < escape_latex(s).len() && latex_special(#[trigger] escape_latex(s)[i]) ==> i > 0
                && escape_latex(s)[i - 1] == '\\',
    decreases s.len(),
{
    if s.len() > 0 {
        law_escape_latex_specials(s.drop_last());
        let c = s.last();
        let p = escape_latex(s.drop_last());
        let lc = latex_char(c);
        reveal_strlit("\\textbackslash\\{\\}");
        reveal_strlit("\\{");
        reveal_strlit("\\}");
        reveal_strlit("\\_");
        reveal_strlit("\\#");
        reveal_strlit("\\$");
        reveal_strlit("\\%");
        reveal_strlit("\\&");
        reveal_strlit("\\^{}");
        reveal_strlit("\\~{}");
        assert(lc.len() > 0 ==> lc[0] == '\\' || !latex_special(lc[0]));
        assert forall|k: int| 0 < k < lc.len() && latex_special(#[trigger] lc[k]) implies lc[k - 1]
            == '\\' by {}
        assert forall|i: int|
            0 <= i < escape_latex(s).len() && latex_special(
                #[trigger] escape_latex(s)[i],
            ) implies i > 0 && escape_latex(s)[i - 1] == '\\' by {
            if i >= p.len() {
                let k = i - p.len();
                assert(escape_latex(s)[i] == lc[k]);
                if k > 0 {
                    assert(escape_latex(s)[i - 1] == lc[k - 1]);
                }
            } else {
                assert(escape_latex(s)[i] == p[i]);
                assert(escape_latex(s)[i - 1] == p[i - 1]);
            }
        }
    }
}

/// XML-escaped text (as SVG and OpenDocument output write it) holds no `<`,
/// `>` or `"`.
pub proof fn law_escape_xml_safe(s: Seq<char>)
    ensures
        forall|i: int|
            0 <= i < escape_xml(s).len() ==> escape_xml(s)[i] != '<' && escape_xml(s)[i] != '>'
                && escape_xml(s)[i] != '"',
    decreases s.len(),
{
    if s.len() > 0 {
        law_escape_xml_safe(s.drop_last());
        let c = s.last();
        reveal_strlit("&amp;");
        reveal_strlit("&lt;");
        reveal_strlit("&gt;");
        reveal_strlit("&quot;");
        let p = escape_xml(s.drop_last());
        assert forall|i: int| 0 <= i < escape_xml(s).len() implies escape_xml(s)[i] != '<'
            && escape_xml(s)[i] != '>' && escape_xml(s)[i] != '"' by {
            if i >= p.len() {
                assert(escape_xml(s)[i] == xml_char(c)[i - p.len()]);
            } else {
                assert(escape_xml(s)[i] == p[i]);
            }
        }
    }
}

/// Slide and EPUB code text, once escaped, holds no `<` or `>`.
pub proof fn law_escape_markup_safe(s: Seq<char>)
    ensures
        forall|i: int|
            0 <= i < escape_markup(s).len() ==> escape_markup(s)[i] != '<' && escape_markup(s)[i]
                != '>',
    decreases s.len(),
{
    if s.len() > 0 {
        law_escape_markup_safe(s.drop_last());
        let c = s.last();
        reveal_strlit("&amp;");
        reveal_strlit("&lt;");
        reveal_strlit("&gt;");
        let p = escape_markup(s.drop_last());
        assert forall|i: int| 0 <= i < escape_markup(s).len() implies escape_markup(s)[i] != '<'
            && escape_markup(s)[i] != '>' by {
            if i >= p.len() {
                assert(escape_markup(s)[i] == slide_char(c)[i - p.len()]);
            } else {
                assert(escape_markup(s)[i] == p[i]);
            }
        }
    }
}

/// Sanitised text holds Latin-1 characters only, and none of the control
/// range 0x80 to 0x9F: the text shows in the built-in fonts.
pub proof fn law_sanitized_latin1(s: Seq<char>)
    ensures
        forall|i: int|
            0 <= i < sanitized(s).len() ==> (#[trigger] sanitized(s)[i] as u32) <= 0xFF && !(0x80
                <= (sanitized(s)[i] as u32) <= 0x9F),
    decreases s.len(),
{
    if s.len() > 0 {
        law_sanitized_latin1(s.drop_last());
        let c = s.last();
        reveal_strlit("--");
        reveal_strlit("...");
        let p = sanitized(s.drop_last());
        assert forall|i: int| 0 <= i < sanitized(s).len() implies (#[trigger] sanitized(s)[i] as u32)
            <= 0xFF && !(0x80 <= (sanitized(s)[i] as u32) <= 0x9F) by {
            if i >= p.len() {
                assert(sanitized(s)[i] == pdf_char(c)[i - p.len()]);
            } else {
                assert(sanitized(s)[i] == p[i]);
            }
        }
    }
}

/// Every column number from 1 on has a non-empty name of capital letters.
pub proof fn law_column_names(c: nat)
    ensures
        c >= 1 ==> col_letters(c).len() >= 1,
        forall|i: int| 0 <= i < col_letters(c).len() ==> 'A' <= #[trigger] col_letters(c)[i] <= 'Z',
    decreases c,
{
    if c >= 1 {
        law_column_names(((c - 1) / 26) as nat);
        let d = (c - 1) % 26;
        let ch = ((65 + d) as u8) as char;
        assert(65 <= 65 + d <= 90);
        assert(ch == col_letters(c).last());
        assert('A' <= ch <= 'Z') by {
            assert((65 + d) as u8 == 65 + d);
        }
        assert(col_letters(c).drop_last() == col_letters(((c - 1) / 26) as nat));
    }
}

/// Distinct column numbers get distinct column names, so no two columns of
/// a spreadsheet share a cell address.
pub proof fn law_column_names_distinct(a: nat, b: nat)
    ensures
        col_letters(a) == col_letters(b) ==> a == b,
    decreases a + b,
{
    if col_letters(a) == col_letters(b) {
        law_column_names(a);
        law_column_names(b);
        if a > 0 && b > 0 {
            let qa = ((a - 1) / 26) as nat;
            let qb = ((b - 1) / 26) as nat;
            let da = (a - 1) % 26;
            let db = (b - 1) % 26;
            assert(col_letters(a).drop_last() == col_letters(qa));
            assert(col_letters(b).drop_last() == col_letters(qb));
            law_column_names_distinct(qa, qb);
            let ca = ((65 + da) as u8) as char;
            let cb = ((65 + db) as u8) as char;
            assert(ca == col_letters(a).last());
            assert(cb == col_letters(b).last());
            assert((65 + da) as u8 == 65 + da);
            assert((65 + db) as u8 == 65 + db);
            assert(ca as int == 65 + da);
            assert(cb as int == 65 + db);
            assert(da == db);
        }
    }
}

/// The text of a cell read from a CSV field is that field.
proof fn lemma_text_cells_round(r: Seq<Seq<char>>)
    ensures
        cell_texts(text_cells(r)) == r,
{
    assert forall|k: int| 0 <= k < r.len() implies #[trigger] cell_texts(text_cells(r))[k] == r[k] by {
        let c = text_cell(r[k]);
        assert(c.drop_last() =~= Seq::<InlineView>::empty());
        assert(c.last() == InlineView::Text(r[k]));
        assert(crate::ir::inline_text(c.last()) == r[k]);
        assert(inlines_text(c) == inlines_text(c.drop_last()) + r[k]);
        assert(inlines_text(Seq::<InlineView>::empty()) =~= Seq::<char>::empty());
        assert(inlines_text(c) =~= r[k]);
    }
    assert(cell_texts(text_cells(r)) =~= r);
}

/// A CSV table read into a document gives the CSV writer back the same
/// records: the header (when it has fields) followed by every record.
pub proof fn law_csv_records_kept(header: Seq<Seq<char>>, records: Seq<Seq<Seq<char>>>)
    ensures
        csv_records(csv_blocks(header, records)) == (if header.len() == 0 {
            Seq::<Seq<Seq<char>>>::empty()
        } else {
            seq![header]
        }) + records,
{
    lemma_text_cells_round(header);
    let rows = records.map_values(|r: Seq<Seq<char>>| text_cells(r));
    let back = rows.map_values(|r: Seq<Seq<InlineView>>| cell_texts(r));
    assert forall|k: int| 0 <= k < records.len() implies #[trigger] back[k] == records[k] by {
        lemma_text_cells_round(records[k]);
    }
    let bs = csv_blocks(header, records);
    if bs.len() > 0 {
        assert(bs.drop_last() =~= Seq::<BlockView>::empty());
        let hs: Seq<Seq<Seq<InlineView>>> = if header.len() == 0 {
            seq![]
        } else {
            seq![text_cells(header)]
        };
        assert(hs.map_values(|r: Seq<Seq<InlineView>>| cell_texts(r)) =~= (if header.len() == 0 {
            Seq::<Seq<Seq<char>>>::empty()
        } else {
            seq![header]
        }));
        assert(back =~= records);
        assert(csv_records(Seq::<BlockView>::empty()) =~= Seq::<Seq<Seq<char>>>::empty());
        assert(bs.last() == BlockView::Table { headers: hs, rows });
        assert(csv_records(bs) == csv_records(bs.drop_last()) + hs.map_values(
            |r: Seq<Seq<InlineView>>| cell_texts(r),
        ) + back);
    }
    assert(csv_records(bs) =~= (if header.len() == 0 {
        Seq::<Seq<Seq<char>>>::empty()
    } else {
        seq![header]
    }) + records);
}

/// Text pushed onto a document is what its plain text gains: the text and a
/// line end.
pub proof fn law_plain_text_of_pushed_text(blocks: Seq<BlockView>, t: Seq<char>)
    ensures
        blocks_text(blocks.push(text_paragraph(t))) == blocks_text(blocks) + t + seq!['\n'],
{
    assert(blocks.push(text_paragraph(t)).drop_last() =~= blocks);
    assert(seq![InlineView::Text(t)].drop_last() =~= Seq::<InlineView>::empty());
    let one = seq![InlineView::Text(t)];
    assert(one.last() == InlineView::Text(t));
    assert(crate::ir::inline_text(InlineView::Text(t)) == t);
    assert(inlines_text(one.drop_last()) == Seq::<char>::empty());
    assert(inlines_text(one) =~= t);
}

/// The texts of plain text events.
pub open spec fn text_events(ts: Seq<Seq<char>>) -> Seq<MdEventView> {
    ts.map_values(|t: Seq<char>| MdEventView::Text(t))
}

proof fn lemma_text_run(ts: Seq<Seq<char>>)
    ensures
        md_run(text_events(ts)) == (MdState {
            para: ts.map_values(|t: Seq<char>| InlineView::Text(t)),
            ..md_initial()
        }),
    decreases ts.len(),
{
    if ts.len() > 0 {
        lemma_text_run(ts.drop_last());
        assert(text_events(ts).drop_last() =~= text_events(ts.drop_last()));
        assert(ts.map_values(|t: Seq<char>| InlineView::Text(t)) =~= ts.drop_last().map_values(
            |t: Seq<char>| InlineView::Text(t),
        ).push(InlineView::Text(ts.last())));
    } else {
        assert(text_events(ts) =~= Seq::<MdEventView>::empty());
        assert(ts.map_values(|t: Seq<char>| InlineView::Text(t)) =~= Seq::<InlineView>::empty());
    }
}

/// Markdown made only of text nodes reads as one paragraph holding them in
/// order, and an empty event stream reads as no block at all.
pub proof fn law_markdown_text_paragraph(ts: Seq<Seq<char>>)
    ensures
        md_blocks(text_events(ts)) == if ts.len() == 0 {
            Seq::<BlockView>::empty()
        } else {
            seq![BlockView::Paragraph(ts.map_values(|t: Seq<char>| InlineView::Text(t)))]
        },
{
    lemma_text_run(ts);
    if ts.len() == 0 {
        assert(ts.map_values(|t: Seq<char>| InlineView::Text(t)) =~= Seq::<InlineView>::empty());
    }
    assert(md_blocks(text_events(ts)) =~= if ts.len() == 0 {
        Seq::<BlockView>::empty()
    } else {
        seq![BlockView::Paragraph(ts.map_values(|t: Seq<char>| InlineView::Text(t)))]
    });
}

/// One character put in front adds its width to the byte length.
proof fn lemma_byte_len_prepend(c: char, x: Seq<char>)
    ensures
        byte_len(seq![c] + x) == char_width(c) + byte_len(x),
    decreases x.len(),
{
    if x.len() > 0 {
        assert((seq![c] + x).drop_last() =~= seq![c] + x.drop_last());
        assert((seq![c] + x).last() == x.last());
        lemma_byte_len_prepend(c, x.drop_last());
    } else {
        assert(seq![c] + x =~= seq![c]);
        assert(seq![c].drop_last() =~= Seq::<char>::empty());
        assert(byte_len(Seq::<char>::empty()) == 0);
        assert(byte_len(seq![c]) == byte_len(seq![c].drop_last()) + char_width(c));
    }
}

/// The first `n` bytes of `s` are a prefix of it holding at most `n` bytes.
proof fn lemma_byte_take_prefix(s: Seq<char>, n: nat)
    ensures
        byte_len(byte_take(s, n)) <= n,
        byte_take(s, n).len() <= s.len(),
        byte_take(s, n) =~= s.take(byte_take(s, n).len() as int),
    decreases s.len(),
{
    if s.len() == 0 || char_width(s[0]) > n {
        assert(byte_take(s, n) =~= Seq::<char>::empty());
    } else {
        let m = (n - char_width(s[0])) as nat;
        let rest = byte_take(s.drop_first(), m);
        lemma_byte_take_prefix(s.drop_first(), m);
        lemma_byte_len_prepend(s[0], rest);
        assert(seq![s[0]] + s.drop_first().take(rest.len() as int) =~= s.take(rest.len() + 1int));
    }
}

/// The last space before `k` lies before `k`.
proof fn lemma_last_space_below(s: Seq<char>, k: int)
    ensures
        last_space(s, k) matches Some(j) ==> 0 <= j < k,
    decreases k,
{
    if k > 0 && s[k - 1] != ' ' {
        lemma_last_space_below(s, k - 1);
    }
}

/// Every piece a line is wrapped into holds at most `max` bytes.
proof fn lemma_wrap_line_fits(rem: Seq<char>, max: nat)
    ensures
        forall|i: int|
            0 <= i < wrap_line(rem, max).len() ==> byte_len(#[trigger] wrap_line(rem, max)[i]) <= max,
    decreases rem.len(),
{
    if rem.len() > 0 && byte_len(rem) > max {
        let k = byte_take(rem, max).len() as int;
        lemma_byte_take_prefix(rem, max);
        lemma_last_space_below(rem, k);
        let b = break_at(rem, max);
        let piece = rem.take(b);
        lemma_trim_end_len(piece);
        lemma_byte_len_take(piece, trim_end(piece).len() as int);
        assert(piece =~= rem.take(k).take(b));
        lemma_byte_len_take(rem.take(k), b);
        let first = trim_end(piece);
        assert(byte_len(first) <= max);
        if wrap_rest(rem, max).len() < rem.len() {
            lemma_wrap_line_fits(wrap_rest(rem, max), max);
            let tail = wrap_line(wrap_rest(rem, max), max);
            assert forall|i: int| 0 <= i < wrap_line(rem, max).len() implies byte_len(
                #[trigger] wrap_line(rem, max)[i],
            ) <= max by {
                if i > 0 {
                    assert(wrap_line(rem, max)[i] == tail[i - 1]);
                }
            }
        } else {
            assert(wrap_line(rem, max) =~= seq![first]);
        }
    }
}

/// Every wrapped line of pieces holds at most `max` bytes.
proof fn lemma_wrap_pieces_fit(ps: Seq<Seq<char>>, max: nat)
    ensures
        forall|i: int|
            0 <= i < wrap_pieces(ps, max).len() ==> byte_len(#[trigger] wrap_pieces(ps, max)[i])
                <= max,
    decreases ps.len(),
{
    if ps.len() > 0 {
        lemma_wrap_pieces_fit(ps.drop_last(), max);
        lemma_wrap_line_fits(ps.last(), max);
        let front = wrap_pieces(ps.drop_last(), max);
        let back = if trim(ps.last()).len() == 0 {
            seq![Seq::<char>::empty()]
        } else {
            wrap_line(ps.last(), max)
        };
        assert(wrap_pieces(ps, max) =~= front + back);
        assert forall|i: int| 0 <= i < wrap_pieces(ps, max).len() implies byte_len(
            #[trigger] wrap_pieces(ps, max)[i],
        ) <= max by {
            if i >= front.len() {
                assert(wrap_pieces(ps, max)[i] == back[i - front.len()]);
                assert(byte_len(Seq::<char>::empty()) == 0);
            }
        }
    }
}

/// Text wrapped for PDF output at `max` bytes a line gives lines of at most
/// `max` bytes each.
pub proof fn law_wrapped_lines_fit(text: Seq<char>, max: nat)
    ensures
        forall|i: int|
            0 <= i < wrapped(text, max).len() ==> byte_len(#[trigger] wrapped(text, max)[i]) <= max,
{
    lemma_wrap_pieces_fit(crate::render::pdf_text::split_lines(text), max);
    assert(byte_len(Seq::<char>::empty()) == 0);
}

/// Of two different texts exactly one comes first in lexicographic order,
/// and no text comes before itself.
proof fn lemma_seq_lt_total(x: Seq<char>, y: Seq<char>)
    ensures
        x != y ==> (seq_lt(x, y) || seq_lt(y, x)),
        !(seq_lt(x, y) && seq_lt(y, x)),
    decreases x.len(),
{
    if x.len() > 0 && y.len() > 0 && x[0] == y[0] {
        lemma_seq_lt_total(x.drop_first(), y.drop_first());
        if x.drop_first() == y.drop_first() {
            assert forall|i: int| 0 <= i < x.len() implies x[i] == y[i] by {
                if i > 0 {
                    assert(x[i] == x.drop_first()[i - 1]);
                    assert(y[i] == y.drop_first()[i - 1]);
                }
            }
            assert(x =~= y);
        }
    } else if x.len() == 0 && y.len() == 0 {
        assert(x =~= y);
    } else if x.len() > 0 && y.len() > 0 {
        assert((x[0] as int) != (y[0] as int));
    }
}

/// Sorted sequences with the same elements are equal.
proof fn lemma_sorted_unique(a: Seq<Seq<char>>, b: Seq<Seq<char>>)
    requires
        sorted_seqs(a),
        sorted_seqs(b),
        a.to_multiset() == b.to_multiset(),
    ensures
        a == b,
    decreases a.len(),
{
    broadcast use vstd::seq_lib::group_to_multiset_ensures;

    assert(a.len() == a.to_multiset().len());
    assert(b.len() == b.to_multiset().len());
    if a.len() > 0 {
        assert(a.contains(a[0]));
        assert(a.to_multiset().count(a[0]) > 0);
        assert(b.contains(a[0]));
        let j = choose|j: int| 0 <= j < b.len() && b[j] == a[0];
        assert(b.contains(b[0]));
        assert(b.to_multiset().count(b[0]) > 0);
        assert(a.contains(b[0]));
        let i = choose|i: int| 0 <= i < a.len() && a[i] == b[0];
        lemma_seq_lt_total(a[0], b[0]);
        lemma_seq_lt_total(a[0], a[0]);
        if i > 0 {
            assert(!seq_lt(a[i], a[0]));
        }
        if j > 0 {
            assert(!seq_lt(b[j], b[0]));
        }
        assert(a[0] == b[0]);
        assert(a.remove(0) =~= a.drop_first());
        assert(b.remove(0) =~= b.drop_first());
        assert(a.remove(0).to_multiset() == a.to_multiset().remove(a[0]));
        assert(b.remove(0).to_multiset() == b.to_multiset().remove(b[0]));
        assert forall|x: int, y: int| 0 <= x < y < a.drop_first().len() implies !seq_lt(
            #[trigger] a.drop_first()[y],
            #[trigger] a.drop_first()[x],
        ) by {
            assert(a.drop_first()[y] == a[y + 1]);
            assert(a.drop_first()[x] == a[x + 1]);
        }
        assert forall|x: int, y: int| 0 <= x < y < b.drop_first().len() implies !seq_lt(
            #[trigger] b.drop_first()[y],
            #[trigger] b.drop_first()[x],
        ) by {
            assert(b.drop_first()[y] == b[y + 1]);
            assert(b.drop_first()[x] == b[x + 1]);
        }
        lemma_sorted_unique(a.drop_first(), b.drop_first());
        assert forall|k: int| 0 <= k < a.len() implies a[k] == b[k] by {
            if k > 0 {
                assert(a[k] == a.drop_first()[k - 1]);
                assert(b[k] == b.drop_first()[k - 1]);
            }
        }
        assert(a =~= b);
    } else {
        assert(a =~= b);
    }
}

/// The slides of a deck and the chapters of a book are read in one order
/// only: two sorted arrangements of the same part names are the same.
pub proof fn law_sorted_arrangement_unique(
    a: Seq<Seq<char>>,
    b: Seq<Seq<char>>,
    names: Seq<Seq<char>>,
)
    requires
        sorted_arrangement(a, names),
        sorted_arrangement(b, names),
    ensures
        a == b,
{
    lemma_sorted_unique(a, b);
}

/// `t` stands somewhere in `s` as a contiguous piece.
pub open spec fn occurs_in(t: Seq<char>, s: Seq<char>) -> bool {
    exists|i: int| 0 <= i && i + t.len() <= s.len() && #[trigger] s.subrange(i, i + t.len()) == t
}

proof fn lemma_occurs_self(t: Seq<char>)
    ensures
        occurs_in(t, t),
{
    let i: int = 0;
    assert(t.subrange(i, i + t.len()) =~= t);
}

proof fn lemma_occurs_concat(t: Seq<char>, a: Seq<char>, b: Seq<char>)
    ensures
        occurs_in(t, a) ==> occurs_in(t, a + b),
        occurs_in(t, b) ==> occurs_in(t, a + b),
{
    if occurs_in(t, a) {
        let i = choose|i: int| 0 <= i && i + t.len() <= a.len() && #[trigger] a.subrange(i, i + t.len()) == t;
        assert((a + b).subrange(i, i + t.len()) =~= a.subrange(i, i + t.len()));
    }
    if occurs_in(t, b) {
        let i = choose|i: int| 0 <= i && i + t.len() <= b.len() && #[trigger] b.subrange(i, i + t.len()) == t;
        let j = a.len() + i;
        assert((a + b).subrange(j, j + t.len()) =~= b.subrange(i, i + t.len()));
    }
}

proof fn lemma_occurs_trans(t: Seq<char>, u: Seq<char>, s: Seq<char>)
    requires
        occurs_in(t, u),
        occurs_in(u, s),
    ensures
        occurs_in(t, s),
{
    let i = choose|i: int| 0 <= i && i + t.len() <= u.len() && #[trigger] u.subrange(i, i + t.len()) == t;
    let j = choose|j: int| 0 <= j && j + u.len() <= s.len() && #[trigger] s.subrange(j, j + u.len()) == u;
    assert(s.subrange(j + i, j + i + t.len()) =~= u.subrange(i, i + t.len()));
}

/// Each cell of a row stands in the row's HTML as an element of the tag.
proof fn lemma_html_cell_occurs(cells: Seq<Seq<InlineView>>, tag: Seq<char>, c: int)
    requires
        0 <= c < cells.len(),
    ensures
        occurs_in(
            "<"@ + tag + ">"@ + html_inlines(cells[c]) + "</"@ + tag + ">\n"@,
            html_cells(cells, tag),
        ),
    decreases cells.len(),
{
    let e = "<"@ + tag + ">"@ + html_inlines(cells[c]) + "</"@ + tag + ">\n"@;
    let h = html_cells(cells.drop_last(), tag);
    if c == cells.len() - 1 {
        assert(html_cells(cells, tag) =~= h + e);
        lemma_occurs_self(e);
        lemma_occurs_concat(e, h, e);
    } else {
        lemma_html_cell_occurs(cells.drop_last(), tag, c);
        assert(cells.drop_last()[c] == cells[c]);
        let rest = "<"@ + tag + ">"@ + html_inlines(cells.last()) + "</"@ + tag + ">\n"@;
        assert(html_cells(cells, tag) =~= h + rest);
        lemma_occurs_concat(e, h, rest);
    }
}

/// Each row stands in the rows' HTML as a `tr` element of its cells.
proof fn lemma_html_row_occurs(rows: Seq<Seq<Seq<InlineView>>>, tag: Seq<char>, r: int)
    requires
        0 <= r < rows.len(),
    ensures
        occurs_in(html_cells(rows[r], tag), html_rows(rows, tag)),
    decreases rows.len(),
{
    let e = html_cells(rows[r], tag);
    let h = html_rows(rows.drop_last(), tag);
    if r == rows.len() - 1 {
        let rest = "<tr>\n"@ + e + "</tr>\n"@;
        assert(html_rows(rows, tag) =~= h + rest);
        lemma_occurs_self(e);
        lemma_occurs_concat(e, "<tr>\n"@, e);
        lemma_occurs_concat(e, "<tr>\n"@ + e, "</tr>\n"@);
        lemma_occurs_concat(e, h, rest);
    } else {
        lemma_html_row_occurs(rows.drop_last(), tag, r);
        assert(rows.drop_last()[r] == rows[r]);
        let rest = "<tr>\n"@ + html_cells(rows.last(), tag) + "</tr>\n"@;
        assert(html_rows(rows, tag) =~= h + rest);
        lemma_occurs_concat(e, h, rest);
    }
}

/// In the HTML of a table every header cell is written as a `th` element and
/// every body cell as a `td` element, each holding the cell's HTML.
pub proof fn law_html_table_cells(
    headers: Seq<Seq<Seq<InlineView>>>,
    rows: Seq<Seq<Seq<InlineView>>>,
    r: int,
    c: int,
)
    ensures
        0 <= r < headers.len() && 0 <= c < headers[r].len() ==> occurs_in(
            "<th>"@ + html_inlines(headers[r][c]) + "</th>\n"@,
            html_block(BlockView::Table { headers, rows }),
        ),
        0 <= r < rows.len() && 0 <= c < rows[r].len() ==> occurs_in(
            "<td>"@ + html_inlines(rows[r][c]) + "</td>\n"@,
            html_block(BlockView::Table { headers, rows }),
        ),
{
    reveal_strlit("<th>");
    reveal_strlit("</th>\n");
    reveal_strlit("<td>");
    reveal_strlit("</td>\n");
    reveal_strlit("<");
    reveal_strlit(">");
    reveal_strlit("</");
    reveal_strlit(">\n");
    reveal_strlit("th");
    reveal_strlit("td");
    let out = html_block(BlockView::Table { headers, rows });
    let head = if headers.len() > 0 {
        "<thead>\n"@ + html_rows(headers, "th"@) + "</thead>\n"@
    } else {
        seq![]
    };
    let body = if rows.len() > 0 {
        "<tbody>\n"@ + html_rows(rows, "td"@) + "</tbody>\n"@
    } else {
        seq![]
    };
    assert(out =~= "<table>\n"@ + head + body + "</table>\n"@);
    if 0 <= r < headers.len() && 0 <= c < headers[r].len() {
        let e = "<th>"@ + html_inlines(headers[r][c]) + "</th>\n"@;
        assert(e =~= "<"@ + "th"@ + ">"@ + html_inlines(headers[r][c]) + "</"@ + "th"@ + ">\n"@);
        lemma_html_cell_occurs(headers[r], "th"@, c);
        lemma_html_row_occurs(headers, "th"@, r);
        lemma_occurs_trans(e, html_cells(headers[r], "th"@), html_rows(headers, "th"@));
        lemma_occurs_concat(e, "<thead>\n"@, html_rows(headers, "th"@));
        lemma_occurs_concat(e, "<thead>\n"@ + html_rows(headers, "th"@), "</thead>\n"@);
        lemma_occurs_concat(e, "<table>\n"@, head);
        lemma_occurs_concat(e, "<table>\n"@ + head, body);
        lemma_occurs_concat(e, "<table>\n"@ + head + body, "</table>\n"@);
    }
    if 0 <= r < rows.len() && 0 <= c < rows[r].len() {
        let e = "<td>"@ + html_inlines(rows[r][c]) + "</td>\n"@;
        assert(e =~= "<"@ + "td"@ + ">"@ + html_inlines(rows[r][c]) + "</"@ + "td"@ + ">\n"@);
        lemma_html_cell_occurs(rows[r], "td"@, c);
        lemma_html_row_occurs(rows, "td"@, r);
        lemma_occurs_trans(e, html_cells(rows[r], "td"@), html_rows(rows, "td"@));
        lemma_occurs_concat(e, "<tbody>\n"@, html_rows(rows, "td"@));
        lemma_occurs_concat(e, "<tbody>\n"@ + html_rows(rows, "td"@), "</tbody>\n"@);
        lemma_occurs_concat(e, "<table>\n"@ + head, body);
        lemma_occurs_concat(e, "<table>\n"@ + head + body, "</table>\n"@);
    }
}

/// Each inline of a run stands in the run's Markdown.
proof fn lemma_md_inline_occurs(is: Seq<InlineView>, k: int)
    requires
        0 <= k < is.len(),
    ensures
        occurs_in(crate::render::markdown::md_inline(is[k]), crate::render::markdown::md_inlines(is)),
    decreases is.len(),
{
    let e = crate::render::markdown::md_inline(is[k]);
    let h = crate::render::markdown::md_inlines(is.drop_last());
    let last = crate::render::markdown::md_inline(is.last());
    assert(crate::render::markdown::md_inlines(is) == h + last);
    if k == is.len() - 1 {
        lemma_occurs_self(e);
        lemma_occurs_concat(e, h, e);
    } else {
        lemma_md_inline_occurs(is.drop_last(), k);
        assert(is.drop_last()[k] == is[k]);
        lemma_occurs_concat(e, h, last);
    }
}

/// The Markdown of a paragraph holds each of its links as `[text](url)`:
/// the link's text as Markdown and its destination verbatim.
pub proof fn law_markdown_links_kept(is: Seq<InlineView>, k: int)
    requires
        0 <= k < is.len(),
        is[k] is Link,
    ensures
        occurs_in(
            "["@ + crate::render::markdown::md_inlines(is[k]->Link_text) + "]("@ + is[k]->Link_url
                + ")"@,
            crate::render::markdown::md_block(BlockView::Paragraph(is)),
        ),
        occurs_in(is[k]->Link_url, crate::render::markdown::md_block(BlockView::Paragraph(is))),
{
    let text = is[k]->Link_text;
    let url = is[k]->Link_url;
    let l = "["@ + crate::render::markdown::md_inlines(text) + "]("@ + url + ")"@;
    let out = crate::render::markdown::md_block(BlockView::Paragraph(is));
    let body = crate::render::markdown::md_inlines(is);
    assert(crate::render::markdown::md_inline(is[k]) == l);
    lemma_md_inline_occurs(is, k);
    assert(out == body + seq!['\n']);
    lemma_occurs_concat(l, body, seq!['\n']);
    lemma_occurs_self(url);
    let a = "["@ + crate::render::markdown::md_inlines(text) + "]("@;
    assert(l =~= a + url + ")"@);
    lemma_occurs_concat(url, a, url);
    lemma_occurs_concat(url, a + url, ")"@);
    lemma_occurs_trans(url, l, out);
}

/// A LaTeX list is an `enumerate` environment exactly when it is ordered,
/// and an `itemize` environment when it is not: its output opens and closes
/// that environment.
pub proof fn law_latex_list_environment(ordered: bool, items: Seq<Seq<InlineView>>)
    ensures
        ({
            let env = if ordered {
                "enumerate"@
            } else {
                "itemize"@
            };
            let out = crate::render::latex::latex_block(BlockView::List { ordered, items });
            let open = "\\begin{"@ + env + "}\n"@;
            let close = "\\end{"@ + env + "}\n\n"@;
            &&& out.len() >= open.len() + close.len()
            &&& out.take(open.len() as int) == open
            &&& out.skip(out.len() - close.len()) == close
        }),
{
    let env = if ordered {
        "enumerate"@
    } else {
        "itemize"@
    };
    let out = crate::render::latex::latex_block(BlockView::List { ordered, items });
    let open = "\\begin{"@ + env + "}\n"@;
    let close = "\\end{"@ + env + "}\n\n"@;
    let mid = crate::render::latex::latex_items(items);
    assert(out =~= open + mid + close);
    assert(out.take(open.len() as int) =~= open);
    assert(out.skip(out.len() - close.len()) =~= close);
}

/// Each part stands in the parts joined by a separator.
proof fn lemma_join_occurs(ts: Seq<Seq<char>>, sep: Seq<char>, c: int)
    requires
        0 <= c < ts.len(),
    ensures
        occurs_in(ts[c], join(ts, sep)),
    decreases ts.len(),
{
    lemma_occurs_self(ts[c]);
    if ts.len() == 1 {
    } else {
        let h = join(ts.drop_last(), sep);
        assert(join(ts, sep) == h + sep + ts.last());
        if c == ts.len() - 1 {
            lemma_occurs_concat(ts[c], h + sep, ts[c]);
        } else {
            lemma_join_occurs(ts.drop_last(), sep, c);
            assert(ts.drop_last()[c] == ts[c]);
            lemma_occurs_concat(ts[c], h, sep);
            lemma_occurs_concat(ts[c], h + sep, ts.last());
        }
    }
}

/// Each row's line, its cell texts joined by tabs, stands in the rows' text.
proof fn lemma_tab_line_occurs(rows: Seq<Seq<Seq<InlineView>>>, r: int)
    requires
        0 <= r < rows.len(),
    ensures
        occurs_in(join(cell_texts(rows[r]), "\t"@) + seq!['\n'], crate::render::text::tab_lines(rows)),
    decreases rows.len(),
{
    let e = join(cell_texts(rows[r]), "\t"@) + seq!['\n'];
    let h = crate::render::text::tab_lines(rows.drop_last());
    let last = join(cell_texts(rows.last()), "\t"@) + seq!['\n'];
    assert(crate::render::text::tab_lines(rows) =~= h + last);
    if r == rows.len() - 1 {
        lemma_occurs_self(e);
        lemma_occurs_concat(e, h, e);
    } else {
        lemma_tab_line_occurs(rows.drop_last(), r);
        assert(rows.drop_last()[r] == rows[r]);
        lemma_occurs_concat(e, h, last);
    }
}

/// The text of a table holds, after its header lines, each body row as a
/// line of its cell texts joined by tabs; so every body cell's text occurs
/// in it.
pub proof fn law_text_table_rows(
    headers: Seq<Seq<Seq<InlineView>>>,
    rows: Seq<Seq<Seq<InlineView>>>,
    r: int,
    c: int,
)
    requires
        0 <= r < rows.len(),
    ensures
        ({
            let out = crate::render::text::text_block(BlockView::Table { headers, rows });
            let after = out.skip(crate::render::text::tab_lines(headers).len() as int);
            &&& occurs_in(join(cell_texts(rows[r]), "\t"@) + seq!['\n'], after)
            &&& 0 <= c < rows[r].len() ==> occurs_in(inlines_text(rows[r][c]), after)
            &&& 0 <= c < rows[r].len() ==> occurs_in(inlines_text(rows[r][c]), out)
        }),
{
    let out = crate::render::text::text_block(BlockView::Table { headers, rows });
    let th = crate::render::text::tab_lines(headers);
    let dash = if headers.len() > 0 {
        crate::render::text::repeat('-', 40) + seq!['\n']
    } else {
        seq![]
    };
    let tb = crate::render::text::tab_lines(rows);
    let after = out.skip(th.len() as int);
    assert(out =~= th + dash + tb + seq!['\n']);
    assert(after =~= dash + tb + seq!['\n']);
    let e = join(cell_texts(rows[r]), "\t"@) + seq!['\n'];
    lemma_tab_line_occurs(rows, r);
    lemma_occurs_concat(e, dash, tb);
    lemma_occurs_concat(e, dash + tb, seq!['\n']);
    if 0 <= c < rows[r].len() {
        let t = inlines_text(rows[r][c]);
        let j = join(cell_texts(rows[r]), "\t"@);
        assert(cell_texts(rows[r])[c] == t);
        lemma_join_occurs(cell_texts(rows[r]), "\t"@, c);
        lemma_occurs_concat(t, j, seq!['\n']);
        lemma_occurs_trans(t, e, after);
        lemma_occurs_trans(t, e, out.skip(th.len() as int));
        lemma_occurs_concat(t, th, after);
        assert(th + after =~= out);
    }
}

/// Text read between the start and the end of an emphasis is wrapped in the
/// inline that the tag names: `Strong` gives bold, `Emphasis` italic,
/// `Strikethrough` struck-through text. The run it was read into stays,
/// emptied, before it, and what the paragraph held before is kept.
pub proof fn law_markdown_emphasis_wraps(s: MdState, t: Seq<char>)
    requires
        !s.in_code,
        !s.in_table,
    ensures
        md_step(md_step(s, MdEventView::Text(t)), MdEventView::Other("End(Strong)"@)).para
            == s.para.push(InlineView::Text(seq![])).push(InlineView::Bold(seq![InlineView::Text(t)])),
        md_step(md_step(s, MdEventView::Text(t)), MdEventView::Other("End(Emphasis)"@)).para
            == s.para.push(InlineView::Text(seq![])).push(InlineView::Italic(seq![InlineView::Text(t)])),
        md_step(md_step(s, MdEventView::Text(t)), MdEventView::Other("End(Strikethrough)"@)).para
            == s.para.push(InlineView::Text(seq![])).push(
            InlineView::Strikethrough(seq![InlineView::Text(t)]),
        ),
{
    reveal_strlit("End(Strong)");
    reveal_strlit("End(Emphasis)");
    reveal_strlit("End(Strikethrough)");
    reveal_strlit("End(");
    reveal_strlit("Strong");
    reveal_strlit("Emphasis");
    reveal_strlit("Strikethrough");
    reveal_strlit("Heading(");
    reveal_strlit("Paragraph");
    reveal_strlit("CodeBlock");
    reveal_strlit("List(");
    reveal_strlit("Item");
    reveal_strlit("TableHead");
    reveal_strlit("TableRow");
    reveal_strlit("Table");
    reveal_strlit("BlockQuote");
    let s1 = md_step(s, MdEventView::Text(t));
    assert(s1.para == s.para.push(InlineView::Text(t)));
    let n1 = "End(Strong)"@;
    assert(n1.take(4) =~= "End("@);
    assert(n1.subrange(4, n1.len() - 1) =~= "Strong"@);
    assert(!crate::strutil::starts_with("Strong"@, "Heading("@));
    assert("Strong"@ != "Paragraph"@);
    assert("Strong"@ != "CodeBlock"@);
    assert("Strong"@.subrange(0, 5) != "List("@) by {
        assert("Strong"@.subrange(0, 5)[0] != "List("@[0]);
    }
    assert("Strong"@ != "Item"@);
    assert("Strong"@ != "TableHead"@);
    assert("Strong"@ != "TableRow"@);
    assert("Strong"@ != "Table"@);
    assert("Strong"@ != "Emphasis"@);
    assert(s1.para.update(s1.para.len() - 1, InlineView::Text(seq![])) =~= s.para.push(
        InlineView::Text(seq![]),
    ));
    let n2 = "End(Emphasis)"@;
    assert(n2.take(4) =~= "End("@);
    assert(n2.subrange(4, n2.len() - 1) =~= "Emphasis"@);
    assert("Emphasis"@.subrange(0, 8) != "Heading("@) by {
        assert("Emphasis"@.subrange(0, 8)[0] != "Heading("@[0]);
    }
    assert("Emphasis"@ != "Paragraph"@);
    assert("Emphasis"@ != "CodeBlock"@);
    assert("Emphasis"@.subrange(0, 5) != "List("@) by {
        assert("Emphasis"@.subrange(0, 5)[0] != "List("@[0]);
    }
    assert("Emphasis"@ != "Item"@);
    assert("Emphasis"@ != "TableHead"@);
    assert("Emphasis"@ != "TableRow"@) by {
        assert("Emphasis"@[0] != "TableRow"@[0]);
    }
    assert("Emphasis"@ != "Table"@);
    let n3 = "End(Strikethrough)"@;
    assert(n3.take(4) =~= "End("@);
    assert(n3.subrange(4, n3.len() - 1) =~= "Strikethrough"@);
    assert("Strikethrough"@.subrange(0, 8) != "Heading("@) by {
        assert("Strikethrough"@.subrange(0, 8)[0] != "Heading("@[0]);
    }
    assert("Strikethrough"@ != "Paragraph"@);
    assert("Strikethrough"@ != "CodeBlock"@);
    assert("Strikethrough"@.subrange(0, 5) != "List("@) by {
        assert("Strikethrough"@.subrange(0, 5)[0] != "List("@[0]);
    }
    assert("Strikethrough"@ != "Item"@);
    assert("Strikethrough"@ != "TableHead"@);
    assert("Strikethrough"@ != "TableRow"@);
    assert("Strikethrough"@ != "Table"@);
    assert("Strikethrough"@.subrange(0, 10) != "BlockQuote"@) by {
        assert("Strikethrough"@.subrange(0, 10)[0] != "BlockQuote"@[0]);
    }
    assert("Strikethrough"@ != "Emphasis"@);
    assert("Strikethrough"@ != "Strong"@);
}

/// Each list item stands in the items' HTML as an `li` element.
proof fn lemma_html_item_occurs(items: Seq<Seq<InlineView>>, k: int)
    requires
        0 <= k < items.len(),
    ensures
        occurs_in(
            "<li>"@ + html_inlines(items[k]) + "</li>\n"@,
            crate::render::html::html_items(items),
        ),
    decreases items.len(),
{
    let e = "<li>"@ + html_inlines(items[k]) + "</li>\n"@;
    let h = crate::render::html::html_items(items.drop_last());
    let last = "<li>"@ + html_inlines(items.last()) + "</li>\n"@;
    assert(crate::render::html::html_items(items) =~= h + last);
    if k == items.len() - 1 {
        lemma_occurs_self(e);
        lemma_occurs_concat(e, h, e);
    } else {
        lemma_html_item_occurs(items.drop_last(), k);
        assert(items.drop_last()[k] == items[k]);
        lemma_occurs_concat(e, h, last);
    }
}

/// The HTML of a list is an `ol` element exactly when the list is ordered,
/// and a `ul` element when it is not, with each item as an `li` element.
pub proof fn law_html_list(ordered: bool, items: Seq<Seq<InlineView>>, k: int)
    ensures
        ({
            let tag = if ordered {
                "ol"@
            } else {
                "ul"@
            };
            let out = html_block(BlockView::List { ordered, items });
            let open = "<"@ + tag + ">\n"@;
            let close = "</"@ + tag + ">\n"@;
            &&& out.len() >= open.len() + close.len()
            &&& out.take(open.len() as int) == open
            &&& out.skip(out.len() - close.len()) == close
            &&& 0 <= k < items.len() ==> occurs_in("<li>"@ + html_inlines(items[k]) + "</li>\n"@, out)
        }),
{
    let tag = if ordered {
        "ol"@
    } else {
        "ul"@
    };
    let out = html_block(BlockView::List { ordered, items });
    let open = "<"@ + tag + ">\n"@;
    let close = "</"@ + tag + ">\n"@;
    let mid = crate::render::html::html_items(items);
    assert(out =~= open + mid + close);
    assert(out.take(open.len() as int) =~= open);
    assert(out.skip(out.len() - close.len()) =~= close);
    if 0 <= k < items.len() {
        let e = "<li>"@ + html_inlines(items[k]) + "</li>\n"@;
        lemma_html_item_occurs(items, k);
        lemma_occurs_concat(e, open, mid);
        lemma_occurs_concat(e, open + mid, close);
    }
}

/// Each list item stands in the items' LaTeX as an `\item` line.
proof fn lemma_latex_item_occurs(items: Seq<Seq<InlineView>>, k: int)
    requires
        0 <= k < items.len(),
    ensures
        occurs_in(
            "\\item "@ + escape_latex(inlines_text(items[k])) + seq!['\n'],
            crate::render::latex::latex_items(items),
        ),
    decreases items.len(),
{
    let e = "\\item "@ + escape_latex(inlines_text(items[k])) + seq!['\n'];
    let h = crate::render::latex::latex_items(items.drop_last());
    let last = "\\item "@ + escape_latex(inlines_text(items.last())) + seq!['\n'];
    assert(crate::render::latex::latex_items(items) =~= h + last);
    if k == items.len() - 1 {
        lemma_occurs_self(e);
        lemma_occurs_concat(e, h, e);
    } else {
        lemma_latex_item_occurs(items.drop_last(), k);
        assert(items.drop_last()[k] == items[k]);
        lemma_occurs_concat(e, h, last);
    }
}

/// In a LaTeX list each item is an `\item` line holding its escaped text.
pub proof fn law_latex_list_items(ordered: bool, items: Seq<Seq<InlineView>>, k: int)
    requires
        0 <= k < items.len(),
    ensures
        occurs_in(
            "\\item "@ + escape_latex(inlines_text(items[k])) + seq!['\n'],
            crate::render::latex::latex_block(BlockView::List { ordered, items }),
        ),
{
    let env = if ordered {
        "enumerate"@
    } else {
        "itemize"@
    };
    let open = "\\begin{"@ + env + "}\n"@;
    let close = "\\end{"@ + env + "}\n\n"@;
    let mid = crate::render::latex::latex_items(items);
    let e = "\\item "@ + escape_latex(inlines_text(items[k])) + seq!['\n'];
    assert(crate::render::latex::latex_block(BlockView::List { ordered, items }) =~= open + mid
        + close);
    lemma_latex_item_occurs(items, k);
    lemma_occurs_concat(e, open, mid);
    lemma_occurs_concat(e, open + mid, close);
}

/// Each item stands in the list's text on a line of its own: numbered from
/// 1 in an ordered list, after a dash otherwise.
proof fn lemma_item_line_occurs(items: Seq<Seq<InlineView>>, ordered: bool, k: int)
    requires
        0 <= k < items.len(),
    ensures
        occurs_in(
            (if ordered {
                decimal((k + 1) as nat) + ". "@
            } else {
                "- "@
            }) + inlines_text(items[k]) + seq!['\n'],
            crate::render::text::item_lines(items, ordered),
        ),
    decreases items.len(),
{
    let e = (if ordered {
        decimal((k + 1) as nat) + ". "@
    } else {
        "- "@
    }) + inlines_text(items[k]) + seq!['\n'];
    let h = crate::render::text::item_lines(items.drop_last(), ordered);
    let last = (if ordered {
        decimal(items.len()) + ". "@
    } else {
        "- "@
    }) + inlines_text(items.last()) + seq!['\n'];
    assert(crate::render::text::item_lines(items, ordered) =~= h + last);
    if k == items.len() - 1 {
        lemma_occurs_self(e);
        lemma_occurs_concat(e, h, e);
    } else {
        lemma_item_line_occurs(items.drop_last(), ordered, k);
        assert(items.drop_last()[k] == items[k]);
        lemma_occurs_concat(e, h, last);
    }
}

/// The text of a list holds each item on a line of its own: the `k`-th item
/// (from 0) after `k + 1` and `. ` in an ordered list, after `- ` otherwise.
pub proof fn law_text_list_items(ordered: bool, items: Seq<Seq<InlineView>>, k: int)
    requires
        0 <= k < items.len(),
    ensures
        occurs_in(
            (if ordered {
                decimal((k + 1) as nat) + ". "@
            } else {
                "- "@
            }) + inlines_text(items[k]) + seq!['\n'],
            crate::render::text::text_block(BlockView::List { ordered, items }),
        ),
{
    let e = (if ordered {
        decimal((k + 1) as nat) + ". "@
    } else {
        "- "@
    }) + inlines_text(items[k]) + seq!['\n'];
    let mid = crate::render::text::item_lines(items, ordered);
    assert(crate::render::text::text_block(BlockView::List { ordered, items }) == mid + seq!['\n']);
    lemma_item_line_occurs(items, ordered, k);
    lemma_occurs_concat(e, mid, seq!['\n']);
}

/// A Markdown heading starts with as many `#` as its level, then a space,
/// and holds its content's Markdown.
pub proof fn law_markdown_heading(level: u8, content: Seq<InlineView>)
    ensures
        ({
            let out = crate::render::markdown::md_block(BlockView::Heading { level, content });
            &&& out.len() > level
            &&& forall|i: int| 0 <= i < level ==> #[trigger] out[i] == '#'
            &&& out[level as int] == ' '
            &&& occurs_in(crate::render::markdown::md_inlines(content), out)
        }),
{
    let out = crate::render::markdown::md_block(BlockView::Heading { level, content });
    let hashes = crate::render::text::repeat('#', level as nat);
    let body = crate::render::markdown::md_inlines(content);
    assert(out =~= hashes + seq![' '] + body + seq!['\n']);
    lemma_occurs_self(body);
    lemma_occurs_concat(body, hashes + seq![' '], body);
    lemma_occurs_concat(body, hashes + seq![' '] + body, seq!['\n']);
}

/// Each inline of a run stands in the run's HTML.
proof fn lemma_html_inline_occurs(is: Seq<InlineView>, k: int)
    requires
        0 <= k < is.len(),
    ensures
        occurs_in(crate::render::html::html_inline(is[k]), html_inlines(is)),
    decreases is.len(),
{
    let e = crate::render::html::html_inline(is[k]);
    let h = html_inlines(is.drop_last());
    let last = crate::render::html::html_inline(is.last());
    assert(html_inlines(is) == h + last);
    if k == is.len() - 1 {
        lemma_occurs_self(e);
        lemma_occurs_concat(e, h, e);
    } else {
        lemma_html_inline_occurs(is.drop_last(), k);
        assert(is.drop_last()[k] == is[k]);
        lemma_occurs_concat(e, h, last);
    }
}

/// In the HTML of a paragraph, bold text is a `strong` element, italic text
/// an `em` element, struck-through text a `del` element, code a `code`
/// element with its text escaped, and a link an `a` element whose `href` is
/// its escaped destination.
pub proof fn law_html_inline_elements(is: Seq<InlineView>, k: int)
    requires
        0 <= k < is.len(),
    ensures
        ({
            let out = html_block(BlockView::Paragraph(is));
            &&& is[k] is Bold ==> occurs_in(
                "<strong>"@ + html_inlines(is[k]->Bold_0) + "</strong>"@,
                out,
            )
            &&& is[k] is Italic ==> occurs_in("<em>"@ + html_inlines(is[k]->Italic_0) + "</em>"@, out)
            &&& is[k] is Strikethrough ==> occurs_in(
                "<del>"@ + html_inlines(is[k]->Strikethrough_0) + "</del>"@,
                out,
            )
            &&& is[k] is Code ==> occurs_in("<code>"@ + escape_html(is[k]->Code_0) + "</code>"@, out)
            &&& is[k] is Link ==> occurs_in(
                "<a href=\""@ + escape_html(is[k]->Link_url) + "\">"@ + html_inlines(
                    is[k]->Link_text,
                ) + "</a>"@,
                out,
            )
        }),
{
    let e = crate::render::html::html_inline(is[k]);
    let body = html_inlines(is);
    let out = html_block(BlockView::Paragraph(is));
    assert(out == "<p>"@ + body + "</p>\n"@);
    lemma_html_inline_occurs(is, k);
    lemma_occurs_concat(e, "<p>"@, body);
    lemma_occurs_concat(e, "<p>"@ + body, "</p>\n"@);
}

/// In the Markdown of a paragraph, bold text stands between `**` marks,
/// italic text between `*` marks, struck-through text between `~~` marks and
/// code between backticks.
pub proof fn law_markdown_inline_marks(is: Seq<InlineView>, k: int)
    requires
        0 <= k < is.len(),
    ensures
        ({
            let out = crate::render::markdown::md_block(BlockView::Paragraph(is));
            &&& is[k] is Bold ==> occurs_in(
                "**"@ + crate::render::markdown::md_inlines(is[k]->Bold_0) + "**"@,
                out,
            )
            &&& is[k] is Italic ==> occurs_in(
                "*"@ + crate::render::markdown::md_inlines(is[k]->Italic_0) + "*"@,
                out,
            )
            &&& is[k] is Strikethrough ==> occurs_in(
                "~~"@ + crate::render::markdown::md_inlines(is[k]->Strikethrough_0) + "~~"@,
                out,
            )
            &&& is[k] is Code ==> occurs_in("`"@ + is[k]->Code_0 + "`"@, out)
        }),
{
    let e = crate::render::markdown::md_inline(is[k]);
    let body = crate::render::markdown::md_inlines(is);
    let out = crate::render::markdown::md_block(BlockView::Paragraph(is));
    assert(out == body + seq!['\n']);
    lemma_md_inline_occurs(is, k);
    lemma_occurs_concat(e, body, seq!['\n']);
}

} // verus!
