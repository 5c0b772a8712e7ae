//! The XML parts of OpenDocument and PowerPoint output, the cells of an Excel
//! sheet and the chapter of an EPUB book.
use vstd::prelude::*;
use crate::ir::{
    blocks_view, cells_view, inlines_plain_text, inlines_text, inlines_view, push_inlines_text,
    rows_view, Block, BlockView, Document, Inline, InlineView,
};
use crate::render::svg::{escape_xml, push_escaped_xml, push_escaped_xml_chars};
use crate::render::text::cell_texts;
use crate::strutil::{chars_of, decimal, join, push_char, push_decimal, push_str, trim, trim_bounds};

verus! {

/// The text of a paragraph or heading for ODT output.
pub open spec fn odt_block(b: BlockView) -> Seq<char> {
    match b {
        BlockView::Paragraph(c) => "<text:p>"@ + escape_xml(inlines_text(c)) + "</text:p>\n"@,
        BlockView::Heading { level, content } => "<text:heading text:outline-level=\""@ + decimal(
            level as nat,
        ) + "\">"@ + escape_xml(inlines_text(content)) + "</text:heading>\n"@,
        _ => seq![],
    }
}

/// The ODT body of a sequence of blocks: paragraphs and headings only.
pub open spec fn odt_body(bs: Seq<BlockView>) -> Seq<char>
    decreases bs.len(),
{
    if bs.len() == 0 {
        seq![]
    } else {
        odt_body(bs.drop_last()) + odt_block(bs.last())
    }
}

/// The `content.xml` of the ODT output for a sequence of blocks.
pub open spec fn odt_content(bs: Seq<BlockView>) -> Seq<char> {
    "<?xml version=\"1.0\" encoding=\"UTF-8\"?>\n"@
        + "<office:document-content xmlns:office=\"urn:oasis:names:tc:opendocument:xmlns:office:1.0\" xmlns:text=\"urn:oasis:names:tc:opendocument:xmlns:text:1.0\">\n"@
        + "<office:body>\n<office:text>\n"@ + odt_body(bs)
        + "</office:text>\n</office:body>\n</office:document-content>"@
}

/// The `content.xml` of the ODT output of a document.
pub fn odt_content_xml(doc: &Document) -> (r: String)
    ensures
        r@ == odt_content(doc.blocks_view()),
{
    let mut out = String::new();
    push_str(&mut out, "<?xml version=\"1.0\" encoding=\"UTF-8\"?>\n");
    push_str(
        &mut out,
        "<office:document-content xmlns:office=\"urn:oasis:names:tc:opendocument:xmlns:office:1.0\" xmlns:text=\"urn:oasis:names:tc:opendocument:xmlns:text:1.0\">\n",
    );
    push_str(&mut out, "<office:body>\n<office:text>\n");
    let ghost head = out@;
    let mut k: usize = 0;
    while k < doc.blocks.len()
        invariant
            k <= doc.blocks@.len(),
            out@ == head + odt_body(blocks_view(doc.blocks@.take(k as int))),
        decreases doc.blocks.len() - k,
    {
        let ghost before = out@;
        match &doc.blocks[k] {
            Block::Paragraph(c) => {
                push_str(&mut out, "<text:p>");
                let t = inlines_plain_text(c);
                push_escaped_xml(&mut out, t.as_str());
                push_str(&mut out, "</text:p>\n");
            },
            Block::Heading { level, content } => {
                push_str(&mut out, "<text:heading text:outline-level=\"");
                push_decimal(&mut out, *level as u64);
                push_str(&mut out, "\">");
                let t = inlines_plain_text(content);
                push_escaped_xml(&mut out, t.as_str());
                push_str(&mut out, "</text:heading>\n");
            },
            _ => {},
        }
        proof {
            let now = blocks_view(doc.blocks@.take(k + 1));
            assert(now.drop_last() =~= blocks_view(doc.blocks@.take(k as int)));
            assert(now.last() == doc.blocks@[k as int]@);
            assert(out@ =~= before + odt_block(doc.blocks@[k as int]@));
            assert(out@ =~= head + odt_body(now));
        }
        k = k + 1;
    }
    assert(doc.blocks@.take(k as int) =~= doc.blocks@);
    push_str(&mut out, "</office:text>\n</office:body>\n</office:document-content>");
    assert(out@ =~= odt_content(doc.blocks_view()));
    out
}

/// One spreadsheet cell holding escaped text.
pub open spec fn ods_cell(t: Seq<char>) -> Seq<char> {
    "<table:table-cell><text:p>"@ + escape_xml(t) + "</text:p></table:table-cell>\n"@
}

/// Spreadsheet rows of cell texts.
pub open spec fn ods_rows(rows: Seq<Seq<Seq<InlineView>>>) -> Seq<char>
    decreases rows.len(),
{
    if rows.len() == 0 {
        seq![]
    } else {
        ods_rows(rows.drop_last()) + "<table:table-row>\n"@ + ods_cells(cell_texts(rows.last()))
            + "</table:table-row>\n"@
    }
}

/// Spreadsheet cells.
pub open spec fn ods_cells(texts: Seq<Seq<char>>) -> Seq<char>
    decreases texts.len(),
{
    if texts.len() == 0 {
        seq![]
    } else {
        ods_cells(texts.drop_last()) + ods_cell(texts.last())
    }
}

/// The text of a non-table block for ODS output: paragraphs, headings and
/// code; nothing for other blocks.
pub open spec fn ods_block_text(b: BlockView) -> Seq<char> {
    match b {
        BlockView::Paragraph(c) => inlines_text(c),
        BlockView::Heading { level: _, content } => inlines_text(content),
        BlockView::Code { language: _, content } => content,
        _ => seq![],
    }
}

/// The ODS part of a block: a table becomes a sheet table; another block with
/// non-blank text becomes a one-cell table.
pub open spec fn ods_block(b: BlockView) -> Seq<char> {
    match b {
        BlockView::Table { headers, rows } => "<table:table table:name=\"Sheet1\">\n"@ + ods_rows(
            headers,
        ) + ods_rows(rows) + "</table:table>\n"@,
        _ => if trim(ods_block_text(b)).len() > 0 {
            "<table:table table:name=\"Sheet1\"><table:table-row>\n"@ + ods_cell(ods_block_text(b))
                + "</table:table-row></table:table>\n"@
        } else {
            seq![]
        },
    }
}

/// The ODS body of a sequence of blocks.
pub open spec fn ods_body(bs: Seq<BlockView>) -> Seq<char>
    decreases bs.len(),
{
    if bs.len() == 0 {
        seq![]
    } else {
        ods_body(bs.drop_last()) + ods_block(bs.last())
    }
}

/// The `content.xml` of the ODS output for a sequence of blocks.
pub open spec fn ods_content(bs: Seq<BlockView>) -> Seq<char> {
    "<?xml version=\"1.0\" encoding=\"UTF-8\"?>\n"@
        + "<office:document-content xmlns:office=\"urn:oasis:names:tc:opendocument:xmlns:office:1.0\" xmlns:text=\"urn:oasis:names:tc:opendocument:xmlns:text:1.0\" xmlns:table=\"urn:oasis:names:tc:opendocument:xmlns:table:1.0\">\n"@
        + "<office:body>\n<office:spreadsheet>\n"@ + ods_body(bs)
        + "</office:spreadsheet>\n</office:body>\n</office:document-content>"@
}

fn push_ods_rows(out: &mut String, rows: &Vec<Vec<Vec<Inline>>>)
    ensures
        final(out)@ == old(out)@ + ods_rows(rows_view(rows@)),
{
    let mut k: usize = 0;
    while k < rows.len()
        invariant
            k <= rows@.len(),
            out@ == old(out)@ + ods_rows(rows_view(rows@.take(k as int))),
        decreases rows.len() - k,
    {
        let row = &rows[k];
        let ghost before = out@;
        push_str(out, "<table:table-row>\n");
        let ghost mid = out@;
        let ghost texts = cell_texts(cells_view(row@));
        let mut j: usize = 0;
        while j < row.len()
            invariant
                j <= row@.len(),
                texts == cell_texts(cells_view(row@)),
                out@ == mid + ods_cells(texts.take(j as int)),
            decreases row.len() - j,
        {
            push_str(out, "<table:table-cell><text:p>");
            let t = inlines_plain_text(&row[j]);
            push_escaped_xml(out, t.as_str());
            push_str(out, "</text:p></table:table-cell>\n");
            proof {
                assert(texts.take(j + 1).drop_last() =~= texts.take(j as int));
                assert(texts.take(j + 1).last() == inlines_text(inlines_view(row@[j as int]@)));
                assert(out@ =~= mid + ods_cells(texts.take(j + 1)));
            }
            j = j + 1;
        }
        assert(texts.take(j as int) =~= texts);
        push_str(out, "</table:table-row>\n");
        proof {
            let now = rows_view(rows@.take(k + 1));
            assert(now.drop_last() =~= rows_view(rows@.take(k as int)));
            assert(now.last() == cells_view(row@));
            assert(out@ =~= old(out)@ + ods_rows(now));
        }
        k = k + 1;
    }
    assert(rows@.take(k as int) =~= rows@);
}

fn ods_text_of(b: &Block) -> (r: String)
    ensures
        r@ == ods_block_text(b@),
{
    match b {
        Block::Paragraph(c) => inlines_plain_text(c),
        Block::Heading { content, .. } => inlines_plain_text(content),
        Block::Code { content, .. } => content.clone(),
        _ => String::new(),
    }
}

/// Whether the characters of `s` are not all white space.
fn has_text(s: &str) -> (r: bool)
    ensures
        r == (trim(s@).len() > 0),
{
    let cs = chars_of(s);
    let (lo, hi) = trim_bounds(&cs, 0, cs.len());
    assert(cs@.subrange(0, cs@.len() as int) =~= cs@);
    lo < hi
}

/// The `content.xml` of the ODS output of a document.
pub fn ods_content_xml(doc: &Document) -> (r: String)
    ensures
        r@ == ods_content(doc.blocks_view()),
{
    let mut out = String::new();
    push_str(&mut out, "<?xml version=\"1.0\" encoding=\"UTF-8\"?>\n");
    push_str(
        &mut out,
        "<office:document-content xmlns:office=\"urn:oasis:names:tc:opendocument:xmlns:office:1.0\" xmlns:text=\"urn:oasis:names:tc:opendocument:xmlns:text:1.0\" xmlns:table=\"urn:oasis:names:tc:opendocument:xmlns:table:1.0\">\n",
    );
    push_str(&mut out, "<office:body>\n<office:spreadsheet>\n");
    let ghost head = out@;
    let mut k: usize = 0;
    while k < doc.blocks.len()
        invariant
            k <= doc.blocks@.len(),
            out@ == head + ods_body(blocks_view(doc.blocks@.take(k as int))),
        decreases doc.blocks.len() - k,
    {
        let ghost before = out@;
        match &doc.blocks[k] {
            Block::Table { headers, rows } => {
                push_str(&mut out, "<table:table table:name=\"Sheet1\">\n");
                push_ods_rows(&mut out, headers);
                push_ods_rows(&mut out, rows);
                push_str(&mut out, "</table:table>\n");
            },
            b => {
                let t = ods_text_of(b);
                if has_text(t.as_str()) {
                    push_str(&mut out, "<table:table table:name=\"Sheet1\"><table:table-row>\n");
                    push_str(&mut out, "<table:table-cell><text:p>");
                    push_escaped_xml(&mut out, t.as_str());
                    push_str(&mut out, "</text:p></table:table-cell>\n");
                    push_str(&mut out, "</table:table-row></table:table>\n");
                }
            },
        }
        proof {
            let now = blocks_view(doc.blocks@.take(k + 1));
            assert(now.drop_last() =~= blocks_view(doc.blocks@.take(k as int)));
            assert(now.last() == doc.blocks@[k as int]@);
            assert(out@ =~= before + ods_block(doc.blocks@[k as int]@));
            assert(out@ =~= head + ods_body(now));
        }
        k = k + 1;
    }
    assert(doc.blocks@.take(k as int) =~= doc.blocks@);
    push_str(&mut out, "</office:spreadsheet>\n</office:body>\n</office:document-content>");
    assert(out@ =~= ods_content(doc.blocks_view()));
    out
}

/// The `[Content_Types].xml` part of the PowerPoint output.
pub const PPTX_CONTENT_TYPES: &'static str = "<?xml version=\"1.0\" encoding=\"UTF-8\" standalone=\"yes\"?>\n<Types xmlns=\"http://schemas.openxmlformats.org/package/2006/content-types\">\n  <Default Extension=\"rels\" ContentType=\"application/vnd.openxmlformats-package.relationships+xml\"/>\n  <Default Extension=\"xml\" ContentType=\"application/xml\"/>\n  <Override PartName=\"/ppt/presentation.xml\" ContentType=\"application/vnd.openxmlformats-officedocument.presentationml.presentation.main+xml\"/>\n  <Override PartName=\"/ppt/slides/slide1.xml\" ContentType=\"application/vnd.openxmlformats-officedocument.presentationml.slide+xml\"/>\n</Types>";

/// The `_rels/.rels` part of the PowerPoint output.
pub const PPTX_RELS: &'static str = "<?xml version=\"1.0\" encoding=\"UTF-8\" standalone=\"yes\"?>\n<Relationships xmlns=\"http://schemas.openxmlformats.org/package/2006/relationships\">\n  <Relationship Id=\"rId1\" Type=\"http://schemas.openxmlformats.org/officeDocument/2006/relationships/officeDocument\" Target=\"ppt/presentation.xml\"/>\n</Relationships>";

/// The `ppt/presentation.xml` part of the PowerPoint output.
pub const PPTX_PRESENTATION: &'static str = "<?xml version=\"1.0\" encoding=\"UTF-8\" standalone=\"yes\"?>\n<p:presentation xmlns:a=\"http://schemas.openxmlformats.org/drawingml/2006/main\" xmlns:p=\"http://schemas.openxmlformats.org/presentationml/2006/main\" xmlns:r=\"http://schemas.openxmlformats.org/officeDocument/2006/relationships\">\n  <p:sldMasterIdLst/>\n  <p:sldIdLst/>\n  <p:sldSz cx=\"9144000\" cy=\"6858000\"/>\n  <p:notesSz cx=\"6858000\" cy=\"9144000\"/>\n</p:presentation>";

/// The start of `ppt/_rels/presentation.xml.rels`.
pub const PPTX_PRESENTATION_RELS_HEAD: &'static str = "<?xml version=\"1.0\" encoding=\"UTF-8\" standalone=\"yes\"?>\n<Relationships xmlns=\"http://schemas.openxmlformats.org/package/2006/relationships\">";

/// The part of a slide before its text.
pub const PPTX_SLIDE_HEAD: &'static str = "<?xml version=\"1.0\" encoding=\"UTF-8\" standalone=\"yes\"?>\n<p:sld xmlns:a=\"http://schemas.openxmlformats.org/drawingml/2006/main\" xmlns:p=\"http://schemas.openxmlformats.org/presentationml/2006/main\" xmlns:r=\"http://schemas.openxmlformats.org/officeDocument/2006/relationships\">\n  <p:cSld>\n    <p:spTree>\n      <p:nvGrpSpPr><p:cNvPr id=\"1\" name=\"\"/><p:cNvGrpSpPr/><p:nvPr/></p:nvGrpSpPr>\n      <p:grpSpPr/>\n      <p:sp>\n        <p:nvSpPr><p:cNvPr id=\"2\" name=\"\"/><p:cNvSpPr><a:spLocks noGrp=\"1\"/></p:cNvSpPr><p:nvPr/></p:nvSpPr>\n        <p:spPr>\n          <a:xfrm><a:off x=\"457200\" y=\"274638\"/><a:ext cx=\"8229600\" cy=\"4114800\"/></a:xfrm>\n        </p:spPr>\n        <p:txBody>\n          <a:bodyPr/>\n          <a:lstStyle/>\n          <a:p><a:r><a:rPr lang=\"en-US\" sz=\"2400\"/><a:t>";

/// The part of a slide after its text.
pub const PPTX_SLIDE_TAIL: &'static str = "</a:t></a:r></a:p>\n        </p:txBody>\n      </p:sp>\n    </p:spTree>\n  </p:cSld>\n</p:sld>";

/// The relationships part of a slide.
pub const PPTX_SLIDE_RELS: &'static str = "<?xml version=\"1.0\" encoding=\"UTF-8\" standalone=\"yes\"?>\n<Relationships xmlns=\"http://schemas.openxmlformats.org/package/2006/relationships\">\n</Relationships>";

/// The escape of one character in slide text.
pub open spec fn slide_char(c: char) -> Seq<char> {
    if c == '&' {
        "&amp;"@
    } else if c == '<' {
        "&lt;"@
    } else if c == '>' {
        "&gt;"@
    } else {
        seq![c]
    }
}

/// `s` with `&`, `<` and `>` replaced by their entities.
pub open spec fn escape_markup(s: Seq<char>) -> Seq<char>
    decreases s.len(),
{
    if s.len() == 0 {
        seq![]
    } else {
        escape_markup(s.drop_last()) + slide_char(s.last())
    }
}

/// Appends the escape of `s` (`&`, `<`, `>`).
pub fn push_escaped_markup(out: &mut String, s: &str)
    ensures
        final(out)@ == old(out)@ + escape_markup(s@),
{
    let cs = chars_of(s);
    let mut i: usize = 0;
    while i < cs.len()
        invariant
            i <= cs@.len(),
            cs@ == s@,
            out@ == old(out)@ + escape_markup(cs@.take(i as int)),
        decreases cs.len() - i,
    {
        let c = cs[i];
        if c == '&' {
            push_str(out, "&amp;");
        } else if c == '<' {
            push_str(out, "&lt;");
        } else if c == '>' {
            push_str(out, "&gt;");
        } else {
            push_char(out, c);
        }
        proof {
            assert(cs@.take(i + 1).drop_last() =~= cs@.take(i as int));
            assert(cs@.take(i + 1).last() == c);
        }
        i = i + 1;
    }
    assert(cs@.take(i as int) =~= cs@);
}

/// The list items of a slide, each after a bullet.
pub open spec fn bulleted(items: Seq<Seq<InlineView>>) -> Seq<Seq<char>> {
    items.map_values(|i: Seq<InlineView>| "\u{2022} "@ + inlines_text(i))
}

/// The text a block puts on a slide: inline text, bulleted list items on
/// lines of their own, code, or a quote in double quotes; nothing for other
/// blocks.
pub open spec fn slide_text(b: BlockView) -> Option<Seq<char>> {
    match b {
        BlockView::Paragraph(c) => Some(inlines_text(c)),
        BlockView::Heading { level: _, content } => Some(inlines_text(content)),
        BlockView::List { ordered: _, items } => Some(join(bulleted(items), "\n"@)),
        BlockView::Code { language: _, content } => Some(content),
        BlockView::Blockquote(c) => Some("\""@ + inlines_text(c) + "\""@),
        _ => None,
    }
}

/// The slide texts of a sequence of blocks: those that are not blank.
pub open spec fn slide_texts(bs: Seq<BlockView>) -> Seq<Seq<char>>
    decreases bs.len(),
{
    if bs.len() == 0 {
        seq![]
    } else {
        match slide_text(bs.last()) {
            Some(t) => if trim(t).len() > 0 {
                slide_texts(bs.drop_last()).push(t)
            } else {
                slide_texts(bs.drop_last())
            },
            None => slide_texts(bs.drop_last()),
        }
    }
}

fn slide_text_of(b: &Block) -> (r: Option<String>)
    ensures
        crate::ir::opt_view(r) == slide_text(b@),
{
    match b {
        Block::Paragraph(c) => Some(inlines_plain_text(c)),
        Block::Heading { content, .. } => Some(inlines_plain_text(content)),
        Block::List { items, .. } => {
            let mut out = String::new();
            let ghost parts = bulleted(cells_view(items@));
            let mut k: usize = 0;
            while k < items.len()
                invariant
                    k <= items@.len(),
                    parts == bulleted(cells_view(items@)),
                    out@ == join(parts.take(k as int), "\n"@),
                decreases items.len() - k,
            {
                if k > 0 {
                    push_str(&mut out, "\n");
                }
                push_str(&mut out, "\u{2022} ");
                push_inlines_text(&mut out, &items[k]);
                proof {
                    assert(parts.take(k + 1).drop_last() =~= parts.take(k as int));
                    assert(parts.take(k + 1).last() == "\u{2022} "@ + inlines_text(
                        inlines_view(items@[k as int]@),
                    ));
                    if k == 0 {
                        assert(parts.take(1) =~= seq![parts[0]]);
                    }
                    assert(out@ =~= join(parts.take(k + 1), "\n"@));
                }
                k = k + 1;
            }
            assert(parts.take(k as int) =~= parts);
            Some(out)
        },
        Block::Code { content, .. } => Some(content.clone()),
        Block::Blockquote(c) => {
            let mut out = String::new();
            push_str(&mut out, "\"");
            push_inlines_text(&mut out, c);
            push_str(&mut out, "\"");
            Some(out)
        },
        _ => None,
    }
}

/// The texts of the slides of a document.
pub fn slide_texts_of(doc: &Document) -> (r: Vec<String>)
    ensures
        crate::strutil::strings_view(r@) == slide_texts(doc.blocks_view()),
{
    let mut out: Vec<String> = Vec::new();
    let mut k: usize = 0;
    while k < doc.blocks.len()
        invariant
            k <= doc.blocks@.len(),
            crate::strutil::strings_view(out@) == slide_texts(blocks_view(doc.blocks@.take(k as int))),
        decreases doc.blocks.len() - k,
    {
        proof {
            assert(blocks_view(doc.blocks@.take(k + 1)).drop_last() =~= blocks_view(
                doc.blocks@.take(k as int),
            ));
            assert(blocks_view(doc.blocks@.take(k + 1)).last() == doc.blocks@[k as int]@);
        }
        match slide_text_of(&doc.blocks[k]) {
            Some(t) => {
                if has_text(t.as_str()) {
                    let ghost o0 = out@;
                    out.push(t);
                    assert(crate::strutil::strings_view(out@) =~= crate::strutil::strings_view(o0).push(t@));
                }
            },
            None => {},
        }
        k = k + 1;
    }
    assert(doc.blocks@.take(k as int) =~= doc.blocks@);
    out
}

/// The XML of a slide showing `text`.
pub open spec fn slide_xml(text: Seq<char>) -> Seq<char> {
    PPTX_SLIDE_HEAD@ + escape_markup(text) + PPTX_SLIDE_TAIL@
}

/// The two parts of slide `n`: its XML and its relationships.
pub open spec fn slide_parts(n: nat, text: Seq<char>) -> Seq<(Seq<char>, Seq<char>)> {
    seq![
        ("ppt/slides/slide"@ + decimal(n) + ".xml"@, slide_xml(text)),
        ("ppt/slides/_rels/slide"@ + decimal(n) + ".xml.rels"@, PPTX_SLIDE_RELS@),
    ]
}

/// The parts of the slides, numbered from 1.
pub open spec fn slides_parts(texts: Seq<Seq<char>>) -> Seq<(Seq<char>, Seq<char>)>
    decreases texts.len(),
{
    if texts.len() == 0 {
        seq![]
    } else {
        slides_parts(texts.drop_last()) + slide_parts(texts.len(), texts.last())
    }
}

/// The relationship lines of slides 1 to `n`.
pub open spec fn slide_rels(n: nat) -> Seq<char>
    decreases n,
{
    if n == 0 {
        seq![]
    } else {
        slide_rels((n - 1) as nat) + "\n  <Relationship Id=\"rId"@ + decimal(n)
            + "\" Type=\"http://schemas.openxmlformats.org/officeDocument/2006/relationships/slide\" Target=\"slides/slide"@
            + decimal(n) + ".xml\"/>"@
    }
}

/// The parts of the PowerPoint output for slide texts, in the order they are
/// written. Without any slide, one slide says `flip output`, and the
/// presentation's relationships list no slide.
pub open spec fn pptx_parts(texts: Seq<Seq<char>>) -> Seq<(Seq<char>, Seq<char>)> {
    seq![
        ("[Content_Types].xml"@, PPTX_CONTENT_TYPES@),
        ("_rels/.rels"@, PPTX_RELS@),
        ("ppt/presentation.xml"@, PPTX_PRESENTATION@),
    ] + (if texts.len() == 0 {
        slide_parts(1, "flip output"@)
    } else {
        slides_parts(texts)
    }) + seq![
        (
            "ppt/_rels/presentation.xml.rels"@,
            PPTX_PRESENTATION_RELS_HEAD@ + slide_rels(texts.len()) + "\n</Relationships>"@,
        ),
    ]
}

/// The values of text parts.
pub open spec fn parts_view(v: Seq<(String, String)>) -> Seq<(Seq<char>, Seq<char>)> {
    v.map_values(|p: (String, String)| (p.0@, p.1@))
}

fn push_part(v: &mut Vec<(String, String)>, name: String, content: String)
    ensures
        parts_view(final(v)@) == parts_view(old(v)@).push((name@, content@)),
{
    let ghost v0 = v@;
    v.push((name, content));
    assert(parts_view(v@) =~= parts_view(v0).push((name@, content@)));
}

fn push_slide_parts(v: &mut Vec<(String, String)>, n: u64, text: &str)
    ensures
        parts_view(final(v)@) == parts_view(old(v)@) + slide_parts(n as nat, text@),
{
    let mut name = String::new();
    push_str(&mut name, "ppt/slides/slide");
    push_decimal(&mut name, n);
    push_str(&mut name, ".xml");
    let mut xml = String::new();
    push_str(&mut xml, PPTX_SLIDE_HEAD);
    push_escaped_markup(&mut xml, text);
    push_str(&mut xml, PPTX_SLIDE_TAIL);
    let mut rels = String::new();
    push_str(&mut rels, "ppt/slides/_rels/slide");
    push_decimal(&mut rels, n);
    push_str(&mut rels, ".xml.rels");
    push_part(v, name, xml);
    push_part(v, rels, PPTX_SLIDE_RELS.to_owned());
    assert(parts_view(v@) =~= parts_view(old(v)@) + slide_parts(n as nat, text@));
}

/// The parts of the PowerPoint output of a document, in the order they are
/// written.
pub fn pptx_parts_of(doc: &Document) -> (r: Vec<(String, String)>)
    ensures
        parts_view(r@) == pptx_parts(slide_texts(doc.blocks_view())),
{
    let texts = slide_texts_of(doc);
    let ghost tv = crate::strutil::strings_view(texts@);
    let mut v: Vec<(String, String)> = Vec::new();
    push_part(&mut v, "[Content_Types].xml".to_owned(), PPTX_CONTENT_TYPES.to_owned());
    push_part(&mut v, "_rels/.rels".to_owned(), PPTX_RELS.to_owned());
    push_part(&mut v, "ppt/presentation.xml".to_owned(), PPTX_PRESENTATION.to_owned());
    let ghost head = parts_view(v@);
    if texts.len() == 0 {
        push_slide_parts(&mut v, 1, "flip output");
    } else {
        let mut k: usize = 0;
        while k < texts.len()
            invariant
                k <= texts@.len(),
                tv == crate::strutil::strings_view(texts@),
                parts_view(v@) == head + slides_parts(tv.take(k as int)),
            decreases texts.len() - k,
        {
            push_slide_parts(&mut v, (k + 1) as u64, texts[k].as_str());
            proof {
                assert(tv.take(k + 1).drop_last() =~= tv.take(k as int));
                assert(tv.take(k + 1).last() == texts@[k as int]@);
                assert(tv.take(k + 1).len() == k + 1);
                assert(parts_view(v@) =~= head + slides_parts(tv.take(k + 1)));
            }
            k = k + 1;
        }
        assert(tv.take(k as int) =~= tv);
    }
    let ghost mid = parts_view(v@);
    let mut rels = String::new();
    push_str(&mut rels, PPTX_PRESENTATION_RELS_HEAD);
    let ghost rhead = rels@;
    let mut i: usize = 0;
    while i < texts.len()
        invariant
            i <= texts@.len(),
            rels@ == rhead + slide_rels(i as nat),
        decreases texts.len() - i,
    {
        push_str(&mut rels, "\n  <Relationship Id=\"rId");
        push_decimal(&mut rels, (i + 1) as u64);
        push_str(
            &mut rels,
            "\" Type=\"http://schemas.openxmlformats.org/officeDocument/2006/relationships/slide\" Target=\"slides/slide",
        );
        push_decimal(&mut rels, (i + 1) as u64);
        push_str(&mut rels, ".xml\"/>");
        i = i + 1;
        assert(rels@ =~= rhead + slide_rels(i as nat));
    }
    push_str(&mut rels, "\n</Relationships>");
    push_part(&mut v, "ppt/_rels/presentation.xml.rels".to_owned(), rels);
    assert(parts_view(v@) =~= pptx_parts(tv));
    v
}

/// The chapter HTML of a block in EPUB output: text is written without
/// escaping, except in code.
pub open spec fn epub_block(b: BlockView) -> Seq<char> {
    match b {
        BlockView::Paragraph(c) => "<p>"@ + inlines_text(c) + "</p>\n"@,
        BlockView::Heading { level, content } => "<h"@ + decimal(level as nat) + ">"@
            + inlines_text(content) + "</h"@ + decimal(level as nat) + ">\n"@,
        BlockView::Code { language: _, content } => "<pre><code>"@ + escape_markup(content)
            + "</code></pre>\n"@,
        BlockView::List { ordered: _, items } => "<ul>\n"@ + epub_items(items) + "</ul>\n"@,
        BlockView::Blockquote(c) => "<blockquote>"@ + inlines_text(c) + "</blockquote>\n"@,
        _ => seq![],
    }
}

/// List items of the EPUB chapter.
pub open spec fn epub_items(items: Seq<Seq<InlineView>>) -> Seq<char>
    decreases items.len(),
{
    if items.len() == 0 {
        seq![]
    } else {
        epub_items(items.drop_last()) + "<li>"@ + inlines_text(items.last()) + "</li>\n"@
    }
}

/// The chapter HTML of blocks.
pub open spec fn epub_body(bs: Seq<BlockView>) -> Seq<char>
    decreases bs.len(),
{
    if bs.len() == 0 {
        seq![]
    } else {
        epub_body(bs.drop_last()) + epub_block(bs.last())
    }
}

/// The one chapter of the EPUB output.
pub open spec fn epub_chapter(bs: Seq<BlockView>) -> Seq<char> {
    "<html><body>\n"@ + epub_body(bs) + "</body></html>"@
}

/// The chapter of the EPUB output of a document.
pub fn epub_chapter_html(doc: &Document) -> (r: String)
    ensures
        r@ == epub_chapter(doc.blocks_view()),
{
    let mut out = String::new();
    push_str(&mut out, "<html><body>\n");
    let ghost head = out@;
    let mut k: usize = 0;
    while k < doc.blocks.len()
        invariant
            k <= doc.blocks@.len(),
            out@ == head + epub_body(blocks_view(doc.blocks@.take(k as int))),
        decreases doc.blocks.len() - k,
    {
        let ghost before = out@;
        match &doc.blocks[k] {
            Block::Paragraph(c) => {
                push_str(&mut out, "<p>");
                push_inlines_text(&mut out, c);
                push_str(&mut out, "</p>\n");
            },
            Block::Heading { level, content } => {
                push_str(&mut out, "<h");
                push_decimal(&mut out, *level as u64);
                push_str(&mut out, ">");
                push_inlines_text(&mut out, content);
                push_str(&mut out, "</h");
                push_decimal(&mut out, *level as u64);
                push_str(&mut out, ">\n");
            },
            Block::Code { content, .. } => {
                push_str(&mut out, "<pre><code>");
                push_escaped_markup(&mut out, content.as_str());
                push_str(&mut out, "</code></pre>\n");
            },
            Block::List { items, .. } => {
                push_str(&mut out, "<ul>\n");
                let ghost mid = out@;
                let mut j: usize = 0;
                while j < items.len()
                    invariant
                        j <= items@.len(),
                        out@ == mid + epub_items(cells_view(items@.take(j as int))),
                    decreases items.len() - j,
                {
                    push_str(&mut out, "<li>");
                    push_inlines_text(&mut out, &items[j]);
                    push_str(&mut out, "</li>\n");
                    proof {
                        let now = cells_view(items@.take(j + 1));
                        assert(now.drop_last() =~= cells_view(items@.take(j as int)));
                        assert(now.last() == inlines_view(items@[j as int]@));
                        assert(out@ =~= mid + epub_items(now));
                    }
                    j = j + 1;
                }
                assert(items@.take(j as int) =~= items@);
                push_str(&mut out, "</ul>\n");
            },
            Block::Blockquote(c) => {
                push_str(&mut out, "<blockquote>");
                push_inlines_text(&mut out, c);
                push_str(&mut out, "</blockquote>\n");
            },
            _ => {},
        }
        proof {
            let now = blocks_view(doc.blocks@.take(k + 1));
            assert(now.drop_last() =~= blocks_view(doc.blocks@.take(k as int)));
            assert(now.last() == doc.blocks@[k as int]@);
            assert(out@ =~= before + epub_block(doc.blocks@[k as int]@));
            assert(out@ =~= head + epub_body(now));
        }
        k = k + 1;
    }
    assert(doc.blocks@.take(k as int) =~= doc.blocks@);
    push_str(&mut out, "</body></html>");
    assert(out@ =~= epub_chapter(doc.blocks_view()));
    out
}

} // verus!
