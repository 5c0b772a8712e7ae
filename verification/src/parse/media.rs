//! PDF and image input.
use vstd::prelude::*;
use std::collections::HashMap;
use crate::error::FlipError;
use crate::ir::{text_paragraph, Block, BlockView, Document, Metadata};
use crate::parse::html::{line_paragraphs, push_line_paragraphs};
use crate::paths::{file_name, path_file_name};
use crate::strutil::{chars_of, decimal, nonblank_lines, nonblank_lines_of, push_decimal, push_str};

verus! {

#[verifier::external_type_specification]
#[verifier::external_body]
pub struct ExPdfDocument(pdf_oxide::PdfDocument);

/// Whether `pdf_oxide::PdfDocument::from_bytes` opens the bytes.
pub uninterp spec fn pdf_readable(bytes: Seq<u8>) -> bool;

/// The bytes a PDF document was opened from.
pub uninterp spec fn pdf_source(p: pdf_oxide::PdfDocument) -> Seq<u8>;

/// What `PdfDocument::page_count` gives for the document opened from the
/// bytes: its number of pages, or nothing when counting fails.
pub uninterp spec fn pdf_page_total(bytes: Seq<u8>) -> Option<usize>;

/// What `PdfDocument::extract_text` gives for a page of the document opened
/// from the bytes: its text, or nothing when extraction fails.
pub uninterp spec fn pdf_page_text_of(bytes: Seq<u8>, page: usize) -> Option<Seq<char>>;

/// `PdfDocument::from_bytes` on a copy of the bytes; nothing when the bytes
/// are not a PDF the crate can open (named `pdf_readable`).
#[verifier::external_body]
fn pdf_open(bytes: &[u8]) -> (r: Option<pdf_oxide::PdfDocument>)
    ensures
        r is Some <==> pdf_readable(bytes@),
        r matches Some(p) ==> pdf_source(p) == bytes@,
{
    pdf_oxide::PdfDocument::from_bytes(bytes.to_vec()).ok()
}

/// `PdfDocument::page_count`, named `pdf_page_total`; nothing when it fails.
#[verifier::external_body]
fn pdf_page_count(pdf: &pdf_oxide::PdfDocument) -> (r: Option<usize>)
    ensures
        r == pdf_page_total(pdf_source(*pdf)),
{
    pdf.page_count().ok()
}

/// `PdfDocument::extract_text` of one page, named `pdf_page_text_of`;
/// nothing when it fails.
#[verifier::external_body]
fn pdf_page_text(pdf: &pdf_oxide::PdfDocument, page: usize) -> (r: Option<String>)
    ensures
        crate::ir::opt_view(r) == pdf_page_text_of(pdf_source(*pdf), page),
{
    pdf.extract_text(page).ok()
}

/// The texts of the pages of the PDF in the bytes, one per page counted (none
/// when counting fails).
pub open spec fn pdf_texts(bytes: Seq<u8>) -> Seq<Option<Seq<char>>> {
    let n: nat = match pdf_page_total(bytes) {
        Some(n) => n as nat,
        None => 0,
    };
    Seq::new(n, |i: int| pdf_page_text_of(bytes, i as usize))
}

/// Opens the PDF, counts its pages and extracts the text of each page
/// counted (none when counting failed).
fn read_pdf(bytes: &[u8]) -> (r: Option<(Option<usize>, Vec<Option<String>>)>)
    ensures
        r is Some <==> pdf_readable(bytes@),
        r matches Some((c, texts)) ==> c == pdf_page_total(bytes@) && page_texts(texts@) == pdf_texts(
            bytes@,
        ),
{
    let pdf = match pdf_open(bytes) {
        Some(p) => p,
        None => {
            return None;
        },
    };
    let count = pdf_page_count(&pdf);
    let n: usize = match count {
        Some(n) => n,
        None => 0,
    };
    let mut texts: Vec<Option<String>> = Vec::new();
    let mut i: usize = 0;
    while i < n
        invariant
            i <= n,
            pdf_source(pdf) == bytes@,
            n as nat == pdf_texts(bytes@).len(),
            page_texts(texts@) == pdf_texts(bytes@).take(i as int),
        decreases n - i,
    {
        let t = pdf_page_text(&pdf, i);
        let ghost t0 = texts@;
        texts.push(t);
        proof {
            assert(page_texts(texts@) =~= page_texts(t0).push(crate::ir::opt_view(t)));
            assert(pdf_texts(bytes@).take(i + 1) =~= pdf_texts(bytes@).take(i as int).push(
                pdf_texts(bytes@)[i as int],
            ));
        }
        i = i + 1;
    }
    assert(pdf_texts(bytes@).take(i as int) =~= pdf_texts(bytes@));
    Some((count, texts))
}

/// The values of the page texts.
pub open spec fn page_texts(v: Seq<Option<String>>) -> Seq<Option<Seq<char>>> {
    v.map_values(|t: Option<String>| crate::ir::opt_view(t))
}

/// The paragraphs of the pages whose text could be read: one per non-blank
/// trimmed line.
pub open spec fn pdf_page_blocks(texts: Seq<Option<Seq<char>>>) -> Seq<BlockView>
    decreases texts.len(),
{
    if texts.len() == 0 {
        seq![]
    } else {
        pdf_page_blocks(texts.drop_last()) + match texts.last() {
            Some(t) => line_paragraphs(nonblank_lines_of(t)),
            None => seq![],
        }
    }
}

/// The blocks of a PDF: the page paragraphs, or a note that no text was found.
pub open spec fn pdf_blocks(texts: Seq<Option<Seq<char>>>) -> Seq<BlockView> {
    if pdf_page_blocks(texts).len() == 0 {
        seq![text_paragraph("(No text content could be extracted from this PDF)"@)]
    } else {
        pdf_page_blocks(texts)
    }
}

/// Metadata that records a source format and a page count, and nothing else.
pub open spec fn source_with_pages(m: Metadata, src: Seq<char>, pages: u32) -> bool {
    &&& m.title is None
    &&& m.author is None
    &&& m.subject is None
    &&& m.creator is None
    &&& m.producer is None
    &&& m.date is None
    &&& m.page_count == Some(pages)
    &&& m.word_count is None
    &&& m.char_count is None
    &&& crate::ir::opt_view(m.source_format) == Some(src)
    &&& m.custom@ == Map::<String, String>::empty()
}

/// Builds the document of a PDF from its page count (absent when it could not
/// be read, which counts as 0) and the texts of its pages. The page count is
/// stored as a `u32`, truncated.
pub fn pdf_document(count: Option<usize>, texts: &Vec<Option<String>>) -> (d: Document)
    ensures
        source_with_pages(d.metadata, "pdf"@, match count {
            Some(n) => n as u32,
            None => 0,
        }),
        d.blocks_view() == pdf_blocks(page_texts(texts@)),
{
    let mut doc = Document::new();
    let n: usize = match count {
        Some(n) => n,
        None => 0,
    };
    let mut m = Metadata::with_source("pdf");
    m.page_count = Some(#[verifier::truncate] (n as u32));
    doc.metadata = m;
    let mut k: usize = 0;
    while k < texts.len()
        invariant
            k <= texts@.len(),
            source_with_pages(doc.metadata, "pdf"@, n as u32),
            doc.blocks_view() == pdf_page_blocks(page_texts(texts@.take(k as int))),
        decreases texts.len() - k,
    {
        proof {
            assert(page_texts(texts@.take(k + 1)).drop_last() =~= page_texts(texts@.take(k as int)));
            assert(page_texts(texts@.take(k + 1)).last() == crate::ir::opt_view(texts@[k as int]));
        }
        match &texts[k] {
            Some(t) => {
                let cs = chars_of(t.as_str());
                let lines = nonblank_lines(&cs);
                push_line_paragraphs(&mut doc, &lines);
            },
            None => {
                assert(doc.blocks_view() =~= doc.blocks_view() + Seq::<BlockView>::empty());
            },
        }
        k = k + 1;
    }
    assert(texts@.take(k as int) =~= texts@);
    if doc.blocks.len() == 0 {
        doc.push_block(Block::paragraph("(No text content could be extracted from this PDF)"));
    }
    doc
}

/// Reads a PDF held in bytes. When the crate opens it, the document is built
/// by [`pdf_document`] from its page count and page texts.
pub fn parse_pdf_bytes(bytes: &[u8]) -> (r: Result<Document, FlipError>)
    ensures
        r is Ok <==> pdf_readable(bytes@),
        r matches Ok(d) ==> source_with_pages(d.metadata, "pdf"@, match pdf_page_total(bytes@) {
            Some(n) => n as u32,
            None => 0,
        }) && d.blocks_view() == pdf_blocks(pdf_texts(bytes@)),
        r matches Ok(d) ==> d.blocks_view().len() > 0 && d.metadata.page_count is Some,
        r matches Err(e) ==> e == FlipError::Pdf,
{
    match read_pdf(bytes) {
        Some((count, texts)) => {
            let d = pdf_document(count, &texts);
            assert(d.blocks_view().len() > 0);
            Ok(d)
        },
        None => Err(FlipError::Pdf),
    }
}

/// The width and height of the image decoded from `bytes` in the format that
/// the path's extension names, or nothing when there is no such format or the
/// bytes do not decode.
pub uninterp spec fn image_size(bytes: Seq<u8>, path: Seq<char>) -> Option<(u32, u32)>;

/// Picks the format with `image::ImageFormat::from_path` and decodes with
/// `image::load_from_memory_with_format`, as `image::open` does for a file.
/// The result is named `image_size`.
#[verifier::external_body]
fn decode_image_size(bytes: &[u8], path: &str) -> (r: Option<(u32, u32)>)
    ensures
        r == image_size(bytes@, path@),
{
    let format = image::ImageFormat::from_path(path).ok()?;
    let img = image::load_from_memory_with_format(bytes, format).ok()?;
    Some(image::GenericImageView::dimensions(&img))
}

/// The blocks of an image: the image itself, named by its path and file name,
/// and a line that gives its size.
pub open spec fn image_blocks(path: Seq<char>, w: u32, h: u32) -> Seq<BlockView> {
    seq![
        BlockView::Image {
            src: path,
            alt: match path_file_name(path) {
                Some(n) => n,
                None => seq![],
            },
            width: Some(w),
            height: Some(h),
        },
        text_paragraph("Image: "@ + decimal(w as nat) + seq!['x'] + decimal(h as nat) + " pixels"@),
    ]
}

/// Builds the document of an image of the given size read from `path`. Its
/// metadata names the `image` format and, where `String` keys behave as
/// `HashMap` keys should, holds the width and height in decimal.
pub fn image_document(path: &str, w: u32, h: u32) -> (d: Document)
    ensures
        d.blocks_view() == image_blocks(path@, w, h),
        opt_view_eq(d.metadata.source_format, "image"@),
        d.metadata.title is None && d.metadata.author is None && d.metadata.page_count is None,
        vstd::std_specs::hash::obeys_key_model::<String>()
            && vstd::std_specs::hash::builds_valid_hashers::<std::hash::RandomState>() ==> {
            &&& d.metadata.custom@.dom().len() == 2
            &&& exists|kw: String, kh: String|
                kw@ == "width"@ && kh@ == "height"@ && d.metadata.custom@.contains_key(kw)
                    && d.metadata.custom@[kw]@ == decimal(w as nat)
                    && d.metadata.custom@.contains_key(kh) && d.metadata.custom@[kh]@ == decimal(
                    h as nat,
                )
        },
{
    let mut doc = Document::new();
    let mut m = Metadata::with_source("image");
    let mut ws = String::new();
    push_decimal(&mut ws, w as u64);
    let mut hs = String::new();
    push_decimal(&mut hs, h as u64);
    let kw = "width".to_owned();
    let kh = "height".to_owned();
    proof {
        reveal_strlit("width");
        reveal_strlit("height");
        assert(kw@ != kh@) by {
            assert(kw@.len() != kh@.len());
        }
    }
    let ghost kw0 = kw;
    let ghost kh0 = kh;
    let ghost ws0 = ws;
    let ghost hs0 = hs;
    m.custom.insert(kw, ws);
    m.custom.insert(kh, hs);
    proof {
        if vstd::std_specs::hash::obeys_key_model::<String>()
            && vstd::std_specs::hash::builds_valid_hashers::<std::hash::RandomState>() {
            assert(kw0 != kh0);
            assert(m.custom@ == Map::<String, String>::empty().insert(kw0, ws0).insert(kh0, hs0));
            assert(m.custom@.dom() =~= Set::<String>::empty().insert(kw0).insert(kh0));
            assert(Set::<String>::empty().insert(kw0).len() == 1);
            assert(!Set::<String>::empty().insert(kw0).contains(kh0));
            assert(m.custom@.dom().len() == 2);
            assert(m.custom@.contains_key(kw0) && m.custom@[kw0] == ws0);
            assert(m.custom@.contains_key(kh0) && m.custom@[kh0] == hs0);
        }
    }
    doc.metadata = m;
    let alt = match file_name(path) {
        Some(n) => n,
        None => String::new(),
    };
    doc.push_block(Block::Image { src: path.to_owned(), alt, width: Some(w), height: Some(h) });
    let mut line = String::new();
    push_str(&mut line, "Image: ");
    push_decimal(&mut line, w as u64);
    push_str(&mut line, "x");
    push_decimal(&mut line, h as u64);
    push_str(&mut line, " pixels");
    proof {
        reveal_strlit("x");
    }
    doc.push_text(line.as_str());
    assert(line@ =~= "Image: "@ + decimal(w as nat) + seq!['x'] + decimal(h as nat) + " pixels"@);
    assert(doc.blocks_view() =~= image_blocks(path@, w, h));
    proof {
        if vstd::std_specs::hash::obeys_key_model::<String>()
            && vstd::std_specs::hash::builds_valid_hashers::<std::hash::RandomState>() {
            assert(doc.metadata.custom@.contains_key(kw0) && doc.metadata.custom@.contains_key(kh0));
            assert(doc.metadata.custom@[kw0]@ == decimal(w as nat));
            assert(doc.metadata.custom@[kh0]@ == decimal(h as nat));
        }
    }
    doc
}

/// Whether an optional string holds `s`.
pub open spec fn opt_view_eq(o: Option<String>, s: Seq<char>) -> bool {
    crate::ir::opt_view(o) == Some(s)
}

/// Reads an image held in bytes, with the format its path names.
pub fn parse_image_bytes(bytes: &[u8], path: &str) -> (r: Result<Document, FlipError>)
    ensures
        match image_size(bytes@, path@) {
            Some((w, h)) => r matches Ok(d) && d.blocks_view() == image_blocks(path@, w, h),
            None => r == Err::<Document, FlipError>(FlipError::Image),
        },
{
    match decode_image_size(bytes, path) {
        Some((w, h)) => Ok(image_document(path, w, h)),
        None => Err(FlipError::Image),
    }
}

} // verus!
