//! Reading a file's content in a given format.
use vstd::prelude::*;
use crate::error::FlipError;
use crate::ir::{Document, Format};
use crate::parse::data::{csv_blocks, csv_table, json_reformatted, parse_csv_str, parse_json_str, parse_yaml_str, yaml_reformatted};
use crate::parse::docx::{docx_blocks, parse_docx};
use crate::parse::html::{html_blocks, parse_html_str, line_paragraphs};
use crate::parse::markdown::{md_blocks, md_events, parse_markdown_str, MARKDOWN_OPTIONS};
use crate::parse::media::{image_blocks, image_size, parse_image_bytes, parse_pdf_bytes, pdf_blocks, pdf_readable, pdf_texts};
use crate::parse::office::{
    odp_blocks, odt_blocks, parse_epub, parse_odp, parse_odt, parse_pptx, parse_xlsx, parts_outcome,
    xlsx_blocks, PartKind,
};
use crate::parse::plain::{parse_rtf_str, parse_svg_str, parse_text_str, rtf_blocks, svg_blocks, text_blocks};
use crate::strutil::{from_utf8, nonblank_lines_of};

verus! {

/// Whether a format is read as UTF-8 text.
pub open spec fn is_text_format(f: Format) -> bool {
    match f {
        Format::Html | Format::Markdown | Format::Csv | Format::Text | Format::Json
        | Format::Yaml | Format::Svg | Format::Rtf => true,
        _ => false,
    }
}

/// The blocks of a read document, or the error.
pub open spec fn blocks_result(r: Result<Document, FlipError>) -> Result<Seq<crate::ir::BlockView>, FlipError> {
    match r {
        Ok(d) => Ok(d.blocks_view()),
        Err(e) => Err(e),
    }
}

/// Reads the content of the file at `path` in the given format. Text formats
/// must be UTF-8; LaTeX cannot be read; images are decoded in the format
/// their path names.
pub fn parse_file(path: &str, bytes: Vec<u8>, format: Format) -> (r: Result<Document, FlipError>)
    ensures
        format == Format::Latex ==> r == Err::<Document, FlipError>(FlipError::UnsupportedInput(Format::Latex)),
        format == Format::Ods ==> r == Err::<Document, FlipError>(FlipError::UnsupportedInput(Format::Ods)),
        is_text_format(format) && !vstd::utf8::valid_utf8(bytes@) ==> r == Err::<Document, FlipError>(FlipError::InvalidUtf8),
        is_text_format(format) && vstd::utf8::valid_utf8(bytes@) ==> ({
            let s = vstd::utf8::decode_utf8(bytes@);
            match format {
                Format::Html => r matches Ok(d) && d.blocks_view() == html_blocks(s),
                Format::Markdown => r matches Ok(d) && d.blocks_view() == md_blocks(md_events(s, MARKDOWN_OPTIONS)),
                Format::Text => r matches Ok(d) && d.blocks_view() == text_blocks(s),
                Format::Svg => r matches Ok(d) && d.blocks_view() == svg_blocks(s),
                Format::Rtf => r matches Ok(d) && d.blocks_view() == rtf_blocks(s),
                Format::Csv => match csv_table(s) {
                    Some((h, rows)) => r matches Ok(d) && d.blocks_view() == csv_blocks(h, rows),
                    None => r == Err::<Document, FlipError>(FlipError::Csv),
                },
                Format::Json => match json_reformatted(s) {
                    Some(t) => r matches Ok(d) && d.blocks_view() == line_paragraphs(nonblank_lines_of(t)),
                    None => r == Err::<Document, FlipError>(FlipError::Json),
                },
                _ => match yaml_reformatted(s) {
                    Some(t) => r matches Ok(d) && d.blocks_view() == line_paragraphs(nonblank_lines_of(t)),
                    None => r == Err::<Document, FlipError>(FlipError::Yaml),
                },
            }
        }),
        format == Format::Docx ==> match docx_blocks(bytes@) {
            Ok(bs) => r matches Ok(d) && d.blocks_view() == bs,
            Err(e) => r == Err::<Document, FlipError>(e),
        },
        format == Format::Odt ==> match odt_blocks(bytes@) {
            Ok(bs) => r matches Ok(d) && d.blocks_view() == bs,
            Err(e) => r == Err::<Document, FlipError>(e),
        },
        format == Format::Odp ==> match odp_blocks(bytes@) {
            Ok(bs) => r matches Ok(d) && d.blocks_view() == bs,
            Err(e) => r == Err::<Document, FlipError>(e),
        },
        format == Format::Pptx ==> parts_outcome(PartKind::Slides, bytes@, blocks_result(r)),
        format == Format::Epub ==> parts_outcome(PartKind::Chapters, bytes@, blocks_result(r)),
        format == Format::Xlsx ==> match xlsx_blocks(bytes@) {
            Ok(bs) => r matches Ok(d) && d.blocks_view() == bs,
            Err(e) => r == Err::<Document, FlipError>(e),
        },
        format.spec_is_image() ==> match image_size(bytes@, path@) {
            Some((w, h)) => r matches Ok(d) && d.blocks_view() == image_blocks(path@, w, h),
            None => r == Err::<Document, FlipError>(FlipError::Image),
        },
        format == Format::Pdf ==> (r is Ok <==> pdf_readable(bytes@)),
        format == Format::Pdf ==> (r matches Ok(d) ==> d.blocks_view() == pdf_blocks(pdf_texts(bytes@))),
        format == Format::Pdf ==> (r matches Err(e) ==> e == FlipError::Pdf),
{
    match format {
        Format::Pdf => parse_pdf_bytes(bytes.as_slice()),
        Format::Docx => parse_docx(bytes.as_slice()),
        Format::Xlsx => parse_xlsx(bytes.as_slice()),
        Format::Pptx => parse_pptx(bytes.as_slice()),
        Format::Odp => parse_odp(bytes.as_slice()),
        Format::Epub => parse_epub(bytes.as_slice()),
        Format::Odt => parse_odt(bytes.as_slice()),
        Format::Ods => Err(FlipError::UnsupportedInput(Format::Ods)),
        Format::Latex => Err(FlipError::UnsupportedInput(Format::Latex)),
        Format::Png | Format::Jpeg | Format::Webp | Format::Gif | Format::Bmp | Format::Tiff => {
            parse_image_bytes(bytes.as_slice(), path)
        },
        _ => {
            let text = match from_utf8(bytes) {
                Some(t) => t,
                None => return Err(FlipError::InvalidUtf8),
            };
            match format {
                Format::Html => parse_html_str(text.as_str()),
                Format::Markdown => parse_markdown_str(text.as_str()),
                Format::Csv => parse_csv_str(text.as_str()),
                Format::Text => parse_text_str(text.as_str()),
                Format::Json => parse_json_str(text.as_str()),
                Format::Yaml => parse_yaml_str(text.as_str()),
                Format::Svg => parse_svg_str(text.as_str()),
                _ => parse_rtf_str(text.as_str()),
            }
        },
    }
}

} // verus!
