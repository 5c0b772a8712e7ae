//! Choosing the writer for an output format.
use vstd::prelude::*;
use crate::error::FlipError;
use crate::ir::{opt_view, Document, Format};
use crate::render::csv::{csv_records, csv_text, render_csv_bytes};
use crate::render::data::{json_document, json_pretty, render_json_bytes, render_yaml_bytes, yaml_document, yaml_text};
use crate::render::html::{html_page, render_html_bytes};
use crate::render::latex::{latex_output, latex_page};
use crate::render::markdown::{md_page, render_markdown_bytes};
use crate::render::office::{
    epub_chapter, epub_chapter_html, ods_content, ods_content_xml, odt_content, odt_content_xml, parts_view, pptx_parts,
    pptx_parts_of, slide_texts,
};
use crate::render::package::{
    epub_book, epub_chapters_of, epub_metadata_of, epub_written, sheet1_sets, xlsx_fits, xlsx_workbook, xlsx_written,
    zip_parts_fit, zip_text_parts, zip_written,
};
use crate::render::raster::{canvas, image_encoded, page_drawable, page_glyphs, render_image_bytes};
use crate::render::sheet::{sheet_addresses, sheet_cells, sheet_cells_of, sheet_fits};
use crate::render::svg::{render_svg_bytes, svg_fits, svg_page};
use crate::render::text::{render_text_bytes, text_page};
use crate::render::word::{docx_fits, docx_written, render_docx_bytes, word_blocks, word_parts};
use crate::strutil::{byte_len, into_bytes};

verus! {

/// The style sheet of HTML output.
pub const HTML_STYLE: &'static str = "";

/// What a document must satisfy for the in-memory writer of a format not to
/// overflow: a title whose length fits `usize` for text, and heights that
/// stay within `i32` for SVG.
pub open spec fn bytes_renderable(doc: Document, format: Format) -> bool {
    &&& format == Format::Text ==> (doc.metadata.title matches Some(t) ==> byte_len(t@) <= usize::MAX)
    &&& format == Format::Svg ==> svg_fits(doc.blocks_view())
}

/// What a document must satisfy for the writer of a format to a file not to
/// overflow or panic: what the in-memory writers ask, a sheet whose rows and
/// columns fit `u32` for Excel with addresses the workbook writer reads, and,
/// for images, lines that can be cut at byte 90 and heights within `i32`.
pub open spec fn renderable(doc: Document, format: Format) -> bool {
    &&& bytes_renderable(doc, format)
    &&& format == Format::Xlsx ==> sheet_fits(doc.blocks_view()) && sheet_addresses(
        sheet_cells(doc.blocks_view(), 1),
    )
    &&& format.spec_is_image() ==> page_drawable(doc.blocks_view(), 40)
}

/// The bytes of a document in one of the formats written to memory: HTML,
/// Markdown, text, JSON, YAML, CSV, SVG and Word. Other formats give
/// `UnsupportedOutput`, PDF among them: PDF output is written by the
/// command-line program, which lays pages out in floating point with the
/// text helpers of `render::pdf_text`.
pub fn render_bytes(doc: &Document, format: Format) -> (r: Result<Vec<u8>, FlipError>)
    requires
        bytes_renderable(*doc, format),
    ensures
        format == Format::Html ==> (r matches Ok(b) && b@ == vstd::utf8::encode_utf8(
            html_page(opt_view(doc.metadata.title), HTML_STYLE@, doc.blocks_view()),
        )),
        format == Format::Markdown ==> (r matches Ok(b) && b@ == vstd::utf8::encode_utf8(
            md_page(opt_view(doc.metadata.title), doc.blocks_view()),
        )),
        format == Format::Text ==> (r matches Ok(b) && b@ == vstd::utf8::encode_utf8(
            text_page(opt_view(doc.metadata.title), doc.blocks_view()),
        )),
        format == Format::Svg ==> (r matches Ok(b) && b@ == vstd::utf8::encode_utf8(
            svg_page(doc.blocks_view()),
        )),
        format == Format::Json ==> ({
            let d = json_document(
                opt_view(doc.metadata.title),
                opt_view(doc.metadata.author),
                opt_view(doc.metadata.source_format),
                doc.blocks_view(),
            );
            r is Ok && match r {
                Ok(b) => json_pretty(d) matches Some(t) && b@ == vstd::utf8::encode_utf8(t),
                Err(e) => e == FlipError::Json && json_pretty(d) is None,
            }
        }),
        format == Format::Yaml ==> ({
            let d = yaml_document(
                opt_view(doc.metadata.title),
                opt_view(doc.metadata.author),
                opt_view(doc.metadata.source_format),
                doc.blocks_view(),
            );
            r is Ok && match r {
                Ok(b) => yaml_text(d) matches Some(t) && b@ == vstd::utf8::encode_utf8(t),
                Err(e) => e == FlipError::Yaml && yaml_text(d) is None,
            }
        }),
        format == Format::Csv ==> (r matches Ok(b) && b@ == csv_text(
            csv_records(doc.blocks_view()),
        )),
        format == Format::Docx && docx_fits(word_parts(word_blocks(doc.blocks_view()))) ==> r is Ok,
        format == Format::Docx ==> (r matches Ok(b) ==> docx_written(
            word_parts(word_blocks(doc.blocks_view())),
            b@,
        )),
        format == Format::Docx ==> (r matches Err(e) ==> e == FlipError::Docx),
        !(format == Format::Html || format == Format::Markdown || format == Format::Text || format
            == Format::Svg || format == Format::Json || format == Format::Yaml || format
            == Format::Csv || format == Format::Docx) ==> r == Err::<Vec<u8>, FlipError>(
            FlipError::UnsupportedOutput(format),
        ),
{
    match format {
        Format::Docx => render_docx_bytes(doc),
        Format::Html => Ok(render_html_bytes(doc, HTML_STYLE)),
        Format::Markdown => Ok(render_markdown_bytes(doc)),
        Format::Text => Ok(render_text_bytes(doc)),
        Format::Json => render_json_bytes(doc),
        Format::Yaml => render_yaml_bytes(doc),
        Format::Csv => render_csv_bytes(doc),
        Format::Svg => Ok(render_svg_bytes(doc)),
        _ => Err(FlipError::UnsupportedOutput(format)),
    }
}

/// Packs text parts into a zip archive, or gives the archive error.
fn zip_or_error(parts: &Vec<(String, String)>) -> (r: Result<Vec<u8>, FlipError>)
    ensures
        zip_parts_fit(parts_view(parts@)) ==> r is Ok,
        r matches Ok(b) ==> zip_written(parts_view(parts@), b@),
        r matches Err(e) ==> e == FlipError::Archive,
{
    match zip_text_parts(parts) {
        Some(b) => Ok(b),
        None => Err(FlipError::Archive),
    }
}

/// The bytes of the file a document is written to at `path` in a format.
/// RTF cannot be written; ODP has no writer; PDF output is written by the
/// command-line program (see `render_bytes`). Images are encoded in the format the path's extension names.
pub fn render_file(doc: &Document, path: &str, format: Format) -> (r: Result<Vec<u8>, FlipError>)
    requires
        renderable(*doc, format),
    ensures
        format == Format::Html ==> (r matches Ok(b) && b@ == vstd::utf8::encode_utf8(
            html_page(opt_view(doc.metadata.title), HTML_STYLE@, doc.blocks_view()),
        )),
        format == Format::Markdown ==> (r matches Ok(b) && b@ == vstd::utf8::encode_utf8(
            md_page(opt_view(doc.metadata.title), doc.blocks_view()),
        )),
        format == Format::Text ==> (r matches Ok(b) && b@ == vstd::utf8::encode_utf8(
            text_page(opt_view(doc.metadata.title), doc.blocks_view()),
        )),
        format == Format::Svg ==> (r matches Ok(b) && b@ == vstd::utf8::encode_utf8(
            svg_page(doc.blocks_view()),
        )),
        format == Format::Latex ==> (r matches Ok(b) && b@ == vstd::utf8::encode_utf8(
            latex_page(
                opt_view(doc.metadata.title),
                opt_view(doc.metadata.author),
                doc.blocks_view(),
            ),
        )),
        format.spec_is_image() ==> match image_encoded(
            canvas(page_glyphs(doc.blocks_view(), 40)),
            path@,
        ) {
            Some(b) => r matches Ok(x) && x@ == b,
            None => r == Err::<Vec<u8>, FlipError>(FlipError::Image),
        },
        format == Format::Rtf || format == Format::Odp || format == Format::Pdf ==> r == Err::<
            Vec<u8>,
            FlipError,
        >(FlipError::UnsupportedOutput(format)),
        (format == Format::Xlsx || format == Format::Pptx || format == Format::Odt || format
            == Format::Ods) ==> (r matches Err(e) ==> e == FlipError::Archive),
        format == Format::Json ==> ({
            let d = json_document(
                opt_view(doc.metadata.title),
                opt_view(doc.metadata.author),
                opt_view(doc.metadata.source_format),
                doc.blocks_view(),
            );
            r is Ok && match r {
                Ok(b) => json_pretty(d) matches Some(t) && b@ == vstd::utf8::encode_utf8(t),
                Err(e) => e == FlipError::Json && json_pretty(d) is None,
            }
        }),
        format == Format::Yaml ==> ({
            let d = yaml_document(
                opt_view(doc.metadata.title),
                opt_view(doc.metadata.author),
                opt_view(doc.metadata.source_format),
                doc.blocks_view(),
            );
            r is Ok && match r {
                Ok(b) => yaml_text(d) matches Some(t) && b@ == vstd::utf8::encode_utf8(t),
                Err(e) => e == FlipError::Yaml && yaml_text(d) is None,
            }
        }),
        format == Format::Csv ==> (r matches Ok(b) && b@ == csv_text(
            csv_records(doc.blocks_view()),
        )),
        format == Format::Docx && docx_fits(word_parts(word_blocks(doc.blocks_view()))) ==> r is Ok,
        format == Format::Docx ==> (r matches Ok(b) ==> docx_written(
            word_parts(word_blocks(doc.blocks_view())),
            b@,
        )),
        format == Format::Docx ==> (r matches Err(e) ==> e == FlipError::Docx),
        format == Format::Xlsx && xlsx_fits(sheet1_sets(sheet_cells(doc.blocks_view(), 1))) ==> r is Ok,
        format == Format::Xlsx ==> (r matches Ok(b) ==> xlsx_written(
            sheet1_sets(sheet_cells(doc.blocks_view(), 1)),
            b@,
        )),
        format == Format::Pptx && zip_parts_fit(pptx_parts(slide_texts(doc.blocks_view()))) ==> r is Ok,
        format == Format::Pptx ==> (r matches Ok(b) ==> zip_written(
            pptx_parts(slide_texts(doc.blocks_view())),
            b@,
        )),
        format == Format::Odt && zip_parts_fit(
            seq![
                ("mimetype"@, "application/vnd.oasis.opendocument.text"@),
                ("content.xml"@, odt_content(doc.blocks_view())),
            ],
        ) ==> r is Ok,
        format == Format::Odt ==> (r matches Ok(b) ==> zip_written(
            seq![
                ("mimetype"@, "application/vnd.oasis.opendocument.text"@),
                ("content.xml"@, odt_content(doc.blocks_view())),
            ],
            b@,
        )),
        format == Format::Ods && zip_parts_fit(
            seq![
                ("mimetype"@, "application/vnd.oasis.opendocument.spreadsheet"@),
                ("content.xml"@, ods_content(doc.blocks_view())),
            ],
        ) ==> r is Ok,
        format == Format::Ods ==> (r matches Ok(b) ==> zip_written(
            seq![
                ("mimetype"@, "application/vnd.oasis.opendocument.spreadsheet"@),
                ("content.xml"@, ods_content(doc.blocks_view())),
            ],
            b@,
        )),
        format == Format::Epub ==> (r matches Ok(b) ==> epub_written(
            epub_metadata_of(
                match doc.metadata.title {
                    Some(t) => t@,
                    None => "flip output"@,
                },
                opt_view(doc.metadata.author),
            ),
            epub_chapters_of(epub_chapter(doc.blocks_view())),
            b@,
        )),
        format == Format::Epub ==> (r matches Err(e) ==> e == FlipError::Epub),
        format == Format::Epub && byte_len(
            match doc.metadata.title {
                Some(t) => t@,
                None => "flip output"@,
            },
        ) < 0x1000_0000 && (match doc.metadata.author {
            Some(a) => byte_len(a@) < 0x1000_0000,
            None => true,
        }) && byte_len(epub_chapter(doc.blocks_view())) < 0xFFFF_FFFF ==> r is Ok,
{
    match format {
        Format::Xlsx => {
            let cells = sheet_cells_of(doc);
            match xlsx_workbook(&cells) {
                Some(b) => Ok(b),
                None => Err(FlipError::Archive),
            }
        },
        Format::Pptx => zip_or_error(&pptx_parts_of(doc)),
        Format::Epub => {
            let chapter = epub_chapter_html(doc);
            let title = match &doc.metadata.title {
                Some(t) => t.as_str(),
                None => "flip output",
            };
            let author = match &doc.metadata.author {
                Some(a) => Some(a.as_str()),
                None => None,
            };
            match epub_book(title, author, chapter.as_str()) {
                Some(b) => Ok(b),
                None => Err(FlipError::Epub),
            }
        },
        Format::Latex => Ok(into_bytes(latex_output(doc))),
        Format::Odt => {
            let mut parts: Vec<(String, String)> = Vec::new();
            parts.push(("mimetype".to_owned(), "application/vnd.oasis.opendocument.text".to_owned()));
            parts.push(("content.xml".to_owned(), odt_content_xml(doc)));
            assert(parts_view(parts@) =~= seq![
                ("mimetype"@, "application/vnd.oasis.opendocument.text"@),
                ("content.xml"@, odt_content(doc.blocks_view())),
            ]);
            zip_or_error(&parts)
        },
        Format::Ods => {
            let mut parts: Vec<(String, String)> = Vec::new();
            parts.push((
                "mimetype".to_owned(),
                "application/vnd.oasis.opendocument.spreadsheet".to_owned(),
            ));
            parts.push(("content.xml".to_owned(), ods_content_xml(doc)));
            assert(parts_view(parts@) =~= seq![
                ("mimetype"@, "application/vnd.oasis.opendocument.spreadsheet"@),
                ("content.xml"@, ods_content(doc.blocks_view())),
            ]);
            zip_or_error(&parts)
        },
        Format::Png | Format::Jpeg | Format::Webp | Format::Gif | Format::Bmp | Format::Tiff => {
            render_image_bytes(doc, path)
        },
        Format::Rtf | Format::Odp | Format::Pdf => Err(FlipError::UnsupportedOutput(format)),
        _ => render_bytes(doc, format),
    }
}

} // verus!
