//! Word output: the document as paragraphs of styled runs and tables of
//! texts, then written with `docx-rs`.
use vstd::prelude::*;
use crate::error::FlipError;
use crate::ir::{
    blocks_view, cells_view, inline_text, inlines_plain_text, inlines_text, inlines_view,
    rows_view, Block, BlockView, Document, Inline, InlineView, push_inline_text,
};
use crate::render::text::{cell_texts, push_repeat, repeat};
use crate::strutil::{push_str, strings_view};

verus! {

/// The emphasis of a run.
#[derive(Clone, Copy, PartialEq, Eq, Structural)]
pub enum RunStyle {
    Plain,
    Bold,
    Italic,
}

/// A run of text with its emphasis and font.
pub struct WordRun {
    pub text: String,
    pub style: RunStyle,
    pub font: Option<String>,
}

/// A paragraph: an optional paragraph style and its runs.
pub struct WordPara {
    pub style: Option<String>,
    pub runs: Vec<WordRun>,
}

/// A block of the Word document.
pub enum WordBlock {
    Para(WordPara),
    /// Rows of cell texts; each cell holds one paragraph of one run.
    Table(Vec<Vec<String>>),
}

/// The value of a run.
pub struct RunView {
    pub text: Seq<char>,
    pub style: RunStyle,
    pub font: Option<Seq<char>>,
}

/// The value of a paragraph.
pub struct ParaView {
    pub style: Option<Seq<char>>,
    pub runs: Seq<RunView>,
}

/// The value of a Word block.
pub enum WordView {
    Para(ParaView),
    Table(Seq<Seq<Seq<char>>>),
}

pub open spec fn run_view(r: WordRun) -> RunView {
    RunView { text: r.text@, style: r.style, font: crate::ir::opt_view(r.font) }
}

pub open spec fn runs_view(v: Seq<WordRun>) -> Seq<RunView> {
    v.map_values(|r: WordRun| run_view(r))
}

pub open spec fn para_view(p: WordPara) -> ParaView {
    ParaView { style: crate::ir::opt_view(p.style), runs: runs_view(p.runs@) }
}

pub open spec fn word_view(b: WordBlock) -> WordView {
    match b {
        WordBlock::Para(p) => WordView::Para(para_view(p)),
        WordBlock::Table(rows) => WordView::Table(
            rows@.map_values(|r: Vec<String>| strings_view(r@)),
        ),
    }
}

pub open spec fn words_view(v: Seq<WordBlock>) -> Seq<WordView> {
    v.map_values(|b: WordBlock| word_view(b))
}

/// A plain run in the default font.
pub open spec fn plain_run(t: Seq<char>) -> RunView {
    RunView { text: t, style: RunStyle::Plain, font: None }
}

/// The runs of an inline: text as it is; bold and italic text in Arial; code
/// in Courier New; a link's text; the plain text of any other inline unless
/// it is empty.
pub open spec fn inline_runs(i: InlineView) -> Seq<RunView> {
    match i {
        InlineView::Text(t) => seq![plain_run(t)],
        InlineView::Bold(c) => seq![RunView { text: inlines_text(c), style: RunStyle::Bold, font: Some("Arial"@) }],
        InlineView::Italic(c) => seq![RunView { text: inlines_text(c), style: RunStyle::Italic, font: Some("Arial"@) }],
        InlineView::Code(t) => seq![RunView { text: t, style: RunStyle::Plain, font: Some("Courier New"@) }],
        InlineView::Link { text, url: _ } => seq![plain_run(inlines_text(text))],
        _ => if inline_text(i).len() > 0 {
            seq![plain_run(inline_text(i))]
        } else {
            seq![]
        },
    }
}

/// The runs of a sequence of inlines.
pub open spec fn word_runs(s: Seq<InlineView>) -> Seq<RunView>
    decreases s.len(),
{
    if s.len() == 0 {
        seq![]
    } else {
        word_runs(s.drop_last()) + inline_runs(s.last())
    }
}

/// The paragraph style of a heading level.
pub open spec fn heading_style(level: u8) -> Seq<char> {
    if level == 1 {
        "Heading1"@
    } else if level == 2 {
        "Heading2"@
    } else if level == 3 {
        "Heading3"@
    } else if level == 4 {
        "Heading4"@
    } else if level == 5 {
        "Heading5"@
    } else {
        "Heading6"@
    }
}

/// A paragraph of one plain run.
pub open spec fn text_para(t: Seq<char>) -> WordView {
    WordView::Para(ParaView { style: None, runs: seq![plain_run(t)] })
}

/// The Word blocks of a document block. A list gives one paragraph per item;
/// a rule is a line of 50 box-drawing characters.
pub open spec fn word_block(b: BlockView) -> Seq<WordView> {
    match b {
        BlockView::Paragraph(c) => seq![WordView::Para(ParaView { style: None, runs: word_runs(c) })],
        BlockView::Heading { level, content } => seq![
            WordView::Para(ParaView { style: Some(heading_style(level)), runs: word_runs(content) }),
        ],
        BlockView::List { ordered: _, items } => items.map_values(
            |i: Seq<InlineView>| text_para(inlines_text(i)),
        ),
        BlockView::Code { language: _, content } => seq![
            WordView::Para(
                ParaView {
                    style: None,
                    runs: seq![RunView { text: content, style: RunStyle::Plain, font: Some("Courier New"@) }],
                },
            ),
        ],
        BlockView::Blockquote(c) => seq![WordView::Para(ParaView { style: None, runs: word_runs(c) })],
        BlockView::Table { headers, rows } => seq![
            WordView::Table((headers + rows).map_values(|r: Seq<Seq<InlineView>>| cell_texts(r))),
        ],
        BlockView::HorizontalRule => seq![text_para(repeat('\u{2500}', 50))],
        BlockView::Image { src, alt, width: _, height: _ } => seq![
            text_para("[Image: "@ + alt + " - "@ + src + "]"@),
        ],
        BlockView::TableFromCsv(t) => seq![text_para(t)],
    }
}

/// The Word blocks of a sequence of blocks.
pub open spec fn word_blocks(bs: Seq<BlockView>) -> Seq<WordView>
    decreases bs.len(),
{
    if bs.len() == 0 {
        seq![]
    } else {
        word_blocks(bs.drop_last()) + word_block(bs.last())
    }
}

fn push_run(v: &mut Vec<WordRun>, r: WordRun)
    ensures
        runs_view(final(v)@) == runs_view(old(v)@).push(run_view(r)),
{
    let ghost v0 = v@;
    v.push(r);
    assert(runs_view(v@) =~= runs_view(v0).push(run_view(r)));
}

fn font_run(text: String, style: RunStyle, font: &str) -> (r: WordRun)
    ensures
        run_view(r) == (RunView { text: text@, style, font: Some(font@) }),
{
    WordRun { text, style, font: Some(font.to_owned()) }
}

/// The runs of a sequence of inlines.
pub fn inline_word_runs(v: &Vec<Inline>) -> (r: Vec<WordRun>)
    ensures
        runs_view(r@) == word_runs(inlines_view(v@)),
{
    let mut out: Vec<WordRun> = Vec::new();
    let mut k: usize = 0;
    while k < v.len()
        invariant
            k <= v@.len(),
            runs_view(out@) == word_runs(inlines_view(v@.take(k as int))),
        decreases v.len() - k,
    {
        let ghost before = runs_view(out@);
        match &v[k] {
            Inline::Text(t) => push_run(&mut out, WordRun { text: t.clone(), style: RunStyle::Plain, font: None }),
            Inline::Bold(c) => push_run(&mut out, font_run(inlines_plain_text(c), RunStyle::Bold, "Arial")),
            Inline::Italic(c) => push_run(&mut out, font_run(inlines_plain_text(c), RunStyle::Italic, "Arial")),
            Inline::Code(t) => push_run(&mut out, font_run(t.clone(), RunStyle::Plain, "Courier New")),
            Inline::Link { text, .. } => push_run(
                &mut out,
                WordRun { text: inlines_plain_text(text), style: RunStyle::Plain, font: None },
            ),
            other => {
                let mut t = String::new();
                push_inline_text(&mut t, other);
                if t.as_str().is_empty() {
                } else {
                    push_run(&mut out, WordRun { text: t, style: RunStyle::Plain, font: None });
                }
            },
        }
        proof {
            let pre = v@.take(k as int);
            assert(v@.take(k + 1).drop_last() =~= pre);
            assert(inlines_view(v@.take(k + 1)) == inlines_view(pre).push(v@[k as int]@));
            assert(inlines_view(pre).push(v@[k as int]@).drop_last() =~= inlines_view(pre));
            assert(runs_view(out@) =~= before + inline_runs(v@[k as int]@));
        }
        k = k + 1;
    }
    assert(v@.take(k as int) =~= v@);
    out
}

fn push_word(v: &mut Vec<WordBlock>, b: WordBlock)
    ensures
        words_view(final(v)@) == words_view(old(v)@).push(word_view(b)),
{
    let ghost v0 = v@;
    v.push(b);
    assert(words_view(v@) =~= words_view(v0).push(word_view(b)));
}

fn push_text_para(v: &mut Vec<WordBlock>, t: String)
    ensures
        words_view(final(v)@) == words_view(old(v)@).push(text_para(t@)),
{
    let mut runs: Vec<WordRun> = Vec::new();
    push_run(&mut runs, WordRun { text: t, style: RunStyle::Plain, font: None });
    assert(runs_view(runs@) =~= seq![plain_run(t@)]);
    push_word(v, WordBlock::Para(WordPara { style: None, runs }));
}

fn table_texts(rows: &Vec<Vec<Vec<Inline>>>, out: &mut Vec<Vec<String>>)
    ensures
        final(out)@.map_values(|r: Vec<String>| strings_view(r@)) == old(out)@.map_values(
            |r: Vec<String>| strings_view(r@),
        ) + rows_view(rows@).map_values(|r: Seq<Seq<InlineView>>| cell_texts(r)),
{
    let ghost o0 = old(out)@.map_values(|r: Vec<String>| strings_view(r@));
    let mut k: usize = 0;
    while k < rows.len()
        invariant
            k <= rows@.len(),
            out@.map_values(|r: Vec<String>| strings_view(r@)) == o0 + rows_view(
                rows@.take(k as int),
            ).map_values(|r: Seq<Seq<InlineView>>| cell_texts(r)),
        decreases rows.len() - k,
    {
        let row = &rows[k];
        let mut rec: Vec<String> = Vec::new();
        let mut j: usize = 0;
        while j < row.len()
            invariant
                j <= row@.len(),
                strings_view(rec@) == cell_texts(cells_view(row@.take(j as int))),
            decreases row.len() - j,
        {
            let t = inlines_plain_text(&row[j]);
            let ghost r0 = rec@;
            rec.push(t);
            proof {
                assert(strings_view(rec@) =~= strings_view(r0).push(t@));
                assert(cell_texts(cells_view(row@.take(j + 1))) =~= cell_texts(
                    cells_view(row@.take(j as int)),
                ).push(inlines_text(inlines_view(row@[j as int]@))));
            }
            j = j + 1;
        }
        assert(row@.take(j as int) =~= row@);
        let ghost before = out@;
        out.push(rec);
        proof {
            assert(out@.map_values(|r: Vec<String>| strings_view(r@)) =~= before.map_values(
                |r: Vec<String>| strings_view(r@),
            ).push(strings_view(rec@)));
            assert(rows_view(rows@.take(k + 1)).map_values(|r: Seq<Seq<InlineView>>| cell_texts(r))
                =~= rows_view(rows@.take(k as int)).map_values(
                |r: Seq<Seq<InlineView>>| cell_texts(r),
            ).push(cell_texts(cells_view(row@))));
        }
        k = k + 1;
    }
    assert(rows@.take(k as int) =~= rows@);
}

/// The Word blocks of a document.
pub fn word_blocks_of(doc: &Document) -> (r: Vec<WordBlock>)
    ensures
        words_view(r@) == word_blocks(doc.blocks_view()),
{
    let mut out: Vec<WordBlock> = Vec::new();
    let mut k: usize = 0;
    while k < doc.blocks.len()
        invariant
            k <= doc.blocks@.len(),
            words_view(out@) == word_blocks(blocks_view(doc.blocks@.take(k as int))),
        decreases doc.blocks.len() - k,
    {
        let ghost before = words_view(out@);
        match &doc.blocks[k] {
            Block::Paragraph(c) => {
                let runs = inline_word_runs(c);
                push_word(&mut out, WordBlock::Para(WordPara { style: None, runs }));
            },
            Block::Heading { level, content } => {
                let style = if *level == 1 {
                    "Heading1"
                } else if *level == 2 {
                    "Heading2"
                } else if *level == 3 {
                    "Heading3"
                } else if *level == 4 {
                    "Heading4"
                } else if *level == 5 {
                    "Heading5"
                } else {
                    "Heading6"
                };
                let runs = inline_word_runs(content);
                push_word(&mut out, WordBlock::Para(WordPara { style: Some(style.to_owned()), runs }));
                assert(words_view(out@) =~= before + word_block(doc.blocks@[k as int]@));
            },
            Block::List { items, .. } => {
                let mut j: usize = 0;
                while j < items.len()
                    invariant
                        j <= items@.len(),
                        words_view(out@) == before + cells_view(items@.take(j as int)).map_values(
                            |i: Seq<InlineView>| text_para(inlines_text(i)),
                        ),
                    decreases items.len() - j,
                {
                    push_text_para(&mut out, inlines_plain_text(&items[j]));
                    proof {
                        assert(cells_view(items@.take(j + 1)).map_values(
                            |i: Seq<InlineView>| text_para(inlines_text(i)),
                        ) =~= cells_view(items@.take(j as int)).map_values(
                            |i: Seq<InlineView>| text_para(inlines_text(i)),
                        ).push(text_para(inlines_text(inlines_view(items@[j as int]@)))));
                    }
                    j = j + 1;
                }
                assert(items@.take(j as int) =~= items@);
            },
            Block::Code { content, .. } => {
                let mut runs: Vec<WordRun> = Vec::new();
                push_run(&mut runs, font_run(content.clone(), RunStyle::Plain, "Courier New"));
                assert(runs_view(runs@) =~= seq![
                    RunView { text: content@, style: RunStyle::Plain, font: Some("Courier New"@) },
                ]);
                push_word(&mut out, WordBlock::Para(WordPara { style: None, runs }));
            },
            Block::Blockquote(c) => {
                let runs = inline_word_runs(c);
                push_word(&mut out, WordBlock::Para(WordPara { style: None, runs }));
            },
            Block::Table { headers, rows } => {
                let mut t: Vec<Vec<String>> = Vec::new();
                table_texts(headers, &mut t);
                table_texts(rows, &mut t);
                proof {
                    let hv = rows_view(headers@);
                    let rv = rows_view(rows@);
                    assert((hv + rv).map_values(|r: Seq<Seq<InlineView>>| cell_texts(r)) =~= hv.map_values(
                        |r: Seq<Seq<InlineView>>| cell_texts(r),
                    ) + rv.map_values(|r: Seq<Seq<InlineView>>| cell_texts(r)));
                }
                push_word(&mut out, WordBlock::Table(t));
            },
            Block::HorizontalRule => {
                let mut t = String::new();
                push_repeat(&mut t, '\u{2500}', 50);
                push_text_para(&mut out, t);
                assert(words_view(out@) =~= before + word_block(doc.blocks@[k as int]@));
            },
            Block::Image { src, alt, .. } => {
                let mut t = String::new();
                push_str(&mut t, "[Image: ");
                push_str(&mut t, alt.as_str());
                push_str(&mut t, " - ");
                push_str(&mut t, src.as_str());
                push_str(&mut t, "]");
                push_text_para(&mut out, t);
                assert(words_view(out@) =~= before + word_block(doc.blocks@[k as int]@));
            },
            Block::TableFromCsv(text) => push_text_para(&mut out, text.clone()),
        }
        proof {
            let now = blocks_view(doc.blocks@.take(k + 1));
            assert(now.drop_last() =~= blocks_view(doc.blocks@.take(k as int)));
            assert(now.last() == doc.blocks@[k as int]@);
            assert(words_view(out@) =~= before + word_block(doc.blocks@[k as int]@));
        }
        k = k + 1;
    }
    assert(doc.blocks@.take(k as int) =~= doc.blocks@);
    out
}

#[verifier::external_type_specification]
#[verifier::external_body]
pub struct ExDocxRun(docx_rs::Run);

#[verifier::external_type_specification]
#[verifier::external_body]
pub struct ExDocxParagraph(docx_rs::Paragraph);

#[verifier::external_type_specification]
#[verifier::external_body]
pub struct ExDocxTableCell(docx_rs::TableCell);

#[verifier::external_type_specification]
#[verifier::external_body]
pub struct ExDocxTableRow(docx_rs::TableRow);

#[verifier::external_type_specification]
#[verifier::external_body]
pub struct ExDocxTable(docx_rs::Table);

#[verifier::external_type_specification]
#[verifier::external_body]
pub struct ExDocx(docx_rs::Docx);

/// A part of a `docx_rs::Docx` as far as this library builds it: a paragraph,
/// or a table whose rows hold cells of paragraphs.
pub enum DocxPart {
    Para(ParaView),
    Table(Seq<Seq<Seq<ParaView>>>),
}

/// What a `docx_rs::Run` holds: its text, emphasis and font.
pub uninterp spec fn docx_run_model(r: docx_rs::Run) -> RunView;

/// What a `docx_rs::Paragraph` holds: its style and runs.
pub uninterp spec fn docx_para_model(p: docx_rs::Paragraph) -> ParaView;

/// The paragraphs a `docx_rs::TableCell` holds.
pub uninterp spec fn docx_cell_model(c: docx_rs::TableCell) -> Seq<ParaView>;

/// The cells a `docx_rs::TableRow` holds.
pub uninterp spec fn docx_row_model(r: docx_rs::TableRow) -> Seq<Seq<ParaView>>;

/// The rows a `docx_rs::Table` holds.
pub uninterp spec fn docx_table_model(t: docx_rs::Table) -> Seq<Seq<Seq<ParaView>>>;

/// The parts a `docx_rs::Docx` body holds, in order.
pub uninterp spec fn docx_model(d: docx_rs::Docx) -> Seq<DocxPart>;

/// Whether `bytes` is a package `docx_rs` packs for a document with these
/// parts. Paragraph identifiers come from a counter that lives for the whole
/// thread, so the parts do not determine the bytes; this says only that the
/// bytes are such a package.
pub uninterp spec fn docx_written(parts: Seq<DocxPart>, bytes: Seq<u8>) -> bool;

/// The bytes of an optional text.
pub open spec fn opt_bytes(o: Option<Seq<char>>) -> nat {
    match o {
        Some(t) => crate::strutil::byte_len(t),
        None => 0,
    }
}

/// A bound on the XML bytes of runs: a text escaped at most six-fold, a font
/// written four times escaped, and a thousand bytes of markup for each run.
pub open spec fn runs_size(rs: Seq<RunView>) -> nat
    decreases rs.len(),
{
    if rs.len() == 0 {
        0
    } else {
        runs_size(rs.drop_last()) + 6 * crate::strutil::byte_len(rs.last().text) + 24 * opt_bytes(
            rs.last().font,
        ) + 1000
    }
}

/// A bound on the XML bytes of paragraphs: each one's style escaped, its
/// runs, and a thousand bytes of markup.
pub open spec fn paras_size(ps: Seq<ParaView>) -> nat
    decreases ps.len(),
{
    if ps.len() == 0 {
        0
    } else {
        paras_size(ps.drop_last()) + 6 * opt_bytes(ps.last().style) + runs_size(ps.last().runs) + 1000
    }
}

/// A bound on the XML bytes of table rows: their cells, and a thousand bytes
/// of markup for each row.
pub open spec fn rows_size(rows: Seq<Seq<Seq<ParaView>>>) -> nat
    decreases rows.len(),
{
    if rows.len() == 0 {
        0
    } else {
        rows_size(rows.drop_last()) + cells_size(rows.last()) + 1000
    }
}

/// A bound on the XML bytes of the cells of a row: their paragraphs, and a
/// thousand bytes of markup for each cell.
pub open spec fn cells_size(cells: Seq<Seq<ParaView>>) -> nat
    decreases cells.len(),
{
    if cells.len() == 0 {
        0
    } else {
        cells_size(cells.drop_last()) + paras_size(cells.last()) + 1000
    }
}

/// A bound on the XML bytes of a document's parts, escaping and markup
/// included.
pub open spec fn docx_size(parts: Seq<DocxPart>) -> nat
    decreases parts.len(),
{
    if parts.len() == 0 {
        0
    } else {
        docx_size(parts.drop_last()) + match parts.last() {
            DocxPart::Para(p) => paras_size(seq![p]),
            DocxPart::Table(rows) => rows_size(rows) + 1000,
        }
    }
}

/// A document small enough to pack: its body XML, with the fixed markup
/// around it, stays below the 4 GiB that a zip entry written without the
/// large-file option may hold.
pub open spec fn docx_fits(parts: Seq<DocxPart>) -> bool {
    docx_size(parts) < 0xF000_0000
}

/// `Run::new`: a run with no text, no emphasis and no font.
#[verifier::external_body]
fn run_new() -> (r: docx_rs::Run)
    ensures
        docx_run_model(r) == (RunView { text: Seq::<char>::empty(), style: RunStyle::Plain, font: None }),
{
    docx_rs::Run::new()
}

/// `Run::add_text`: the run's text grows by the text.
#[verifier::external_body]
fn run_add_text(r: docx_rs::Run, text: &str) -> (out: docx_rs::Run)
    ensures
        docx_run_model(out) == (RunView { text: docx_run_model(r).text + text@, ..docx_run_model(r) }),
{
    r.add_text(text)
}

/// `Run::bold` on a run without emphasis: the run is bold.
#[verifier::external_body]
fn run_bold(r: docx_rs::Run) -> (out: docx_rs::Run)
    requires
        docx_run_model(r).style == RunStyle::Plain,
    ensures
        docx_run_model(out) == (RunView { style: RunStyle::Bold, ..docx_run_model(r) }),
{
    r.bold()
}

/// `Run::italic` on a run without emphasis: the run is italic.
#[verifier::external_body]
fn run_italic(r: docx_rs::Run) -> (out: docx_rs::Run)
    requires
        docx_run_model(r).style == RunStyle::Plain,
    ensures
        docx_run_model(out) == (RunView { style: RunStyle::Italic, ..docx_run_model(r) }),
{
    r.italic()
}

/// `Run::fonts` with `RunFonts` naming `font` for ASCII and high ANSI text:
/// the run's font is `font`.
#[verifier::external_body]
fn run_fonts(r: docx_rs::Run, font: &str) -> (out: docx_rs::Run)
    ensures
        docx_run_model(out) == (RunView { font: Some(font@), ..docx_run_model(r) }),
{
    r.fonts(docx_rs::RunFonts::new().ascii(font).hi_ansi(font))
}

/// `Paragraph::new`: a paragraph with no style and no run.
#[verifier::external_body]
fn paragraph_new() -> (p: docx_rs::Paragraph)
    ensures
        docx_para_model(p) == (ParaView { style: None, runs: Seq::<RunView>::empty() }),
{
    docx_rs::Paragraph::new()
}

/// `Paragraph::style`: the paragraph's style is `style`.
#[verifier::external_body]
fn paragraph_style(p: docx_rs::Paragraph, style: &str) -> (out: docx_rs::Paragraph)
    ensures
        docx_para_model(out) == (ParaView { style: Some(style@), ..docx_para_model(p) }),
{
    p.style(style)
}

/// `Paragraph::add_run`: the paragraph holds one more run.
#[verifier::external_body]
fn paragraph_add_run(p: docx_rs::Paragraph, r: docx_rs::Run) -> (out: docx_rs::Paragraph)
    ensures
        docx_para_model(out) == (ParaView {
            runs: docx_para_model(p).runs.push(docx_run_model(r)),
            ..docx_para_model(p)
        }),
{
    p.add_run(r)
}

/// `TableCell::new().add_paragraph(p)`: a cell holding the paragraph.
#[verifier::external_body]
fn table_cell(p: docx_rs::Paragraph) -> (c: docx_rs::TableCell)
    ensures
        docx_cell_model(c) == seq![docx_para_model(p)],
{
    docx_rs::TableCell::new().add_paragraph(p)
}

/// `TableRow::new`: a row holding the cells in order.
#[verifier::external_body]
fn table_row(cells: Vec<docx_rs::TableCell>) -> (r: docx_rs::TableRow)
    ensures
        docx_row_model(r) == cells@.map_values(|c: docx_rs::TableCell| docx_cell_model(c)),
{
    docx_rs::TableRow::new(cells)
}

/// `Table::new` with no rows.
#[verifier::external_body]
fn table_new() -> (t: docx_rs::Table)
    ensures
        docx_table_model(t) == Seq::<Seq<Seq<ParaView>>>::empty(),
{
    docx_rs::Table::new(vec![])
}

/// `Table::add_row`: the table holds one more row.
#[verifier::external_body]
fn table_add_row(t: docx_rs::Table, row: docx_rs::TableRow) -> (out: docx_rs::Table)
    ensures
        docx_table_model(out) == docx_table_model(t).push(docx_row_model(row)),
{
    t.add_row(row)
}

/// `Docx::new`: a document with an empty body.
#[verifier::external_body]
fn docx_new() -> (d: docx_rs::Docx)
    ensures
        docx_model(d) == Seq::<DocxPart>::empty(),
{
    docx_rs::Docx::new()
}

/// `Docx::add_paragraph`: the body holds one more part, the paragraph.
#[verifier::external_body]
fn docx_add_paragraph(d: docx_rs::Docx, p: docx_rs::Paragraph) -> (out: docx_rs::Docx)
    ensures
        docx_model(out) == docx_model(d).push(DocxPart::Para(docx_para_model(p))),
{
    d.add_paragraph(p)
}

/// `Docx::add_table`: the body holds one more part, the table.
#[verifier::external_body]
fn docx_add_table(d: docx_rs::Docx, t: docx_rs::Table) -> (out: docx_rs::Docx)
    ensures
        docx_model(out) == docx_model(d).push(DocxPart::Table(docx_table_model(t))),
{
    d.add_table(t)
}

/// `Docx::build` then `XMLDocx::pack` into memory: a package of the
/// document's parts (`docx_written`), or nothing when packing fails. Packing
/// writes XML into fixed, distinct zip entries of a `Cursor<Vec<u8>>`; the one
/// failure left is an entry over 4 GiB, which a document that fits does not
/// reach.
#[verifier::external_body]
fn docx_pack(d: docx_rs::Docx) -> (r: Option<Vec<u8>>)
    ensures
        docx_fits(docx_model(d)) ==> r is Some,
        r matches Some(b) ==> docx_written(docx_model(d), b@),
{
    let mut cursor = std::io::Cursor::new(Vec::new());
    d.build().pack(&mut cursor).ok()?;
    Some(cursor.into_inner())
}

/// A paragraph of one plain run of the text.
pub open spec fn text_para_view(t: Seq<char>) -> ParaView {
    ParaView { style: None, runs: seq![plain_run(t)] }
}

/// The rows of a table of texts: each cell one paragraph of one plain run.
pub open spec fn table_parts(rows: Seq<Seq<Seq<char>>>) -> Seq<Seq<Seq<ParaView>>> {
    rows.map_values(|r: Seq<Seq<char>>| r.map_values(|t: Seq<char>| seq![text_para_view(t)]))
}

/// The document part of a Word block.
pub open spec fn word_part(w: WordView) -> DocxPart {
    match w {
        WordView::Para(p) => DocxPart::Para(p),
        WordView::Table(rows) => DocxPart::Table(table_parts(rows)),
    }
}

/// The document parts of Word blocks.
pub open spec fn word_parts(ws: Seq<WordView>) -> Seq<DocxPart> {
    ws.map_values(|w: WordView| word_part(w))
}

/// The `docx_rs::Run` of a run: its text, then bold or italic, then its font.
fn docx_run(r: &WordRun) -> (out: docx_rs::Run)
    ensures
        docx_run_model(out) == run_view(*r),
{
    let run = run_add_text(run_new(), r.text.as_str());
    assert(Seq::<char>::empty() + r.text@ =~= r.text@);
    let run = match r.style {
        RunStyle::Plain => run,
        RunStyle::Bold => run_bold(run),
        RunStyle::Italic => run_italic(run),
    };
    match &r.font {
        Some(f) => run_fonts(run, f.as_str()),
        None => run,
    }
}

/// The `docx_rs::Paragraph` of a paragraph: its style, then its runs in order.
fn docx_paragraph(p: &WordPara) -> (out: docx_rs::Paragraph)
    ensures
        docx_para_model(out) == para_view(*p),
{
    let mut para = paragraph_new();
    if let Some(s) = &p.style {
        para = paragraph_style(para, s.as_str());
    }
    let ghost rv = runs_view(p.runs@);
    assert(rv.take(0) =~= Seq::<RunView>::empty());
    let mut k: usize = 0;
    while k < p.runs.len()
        invariant
            k <= p.runs@.len(),
            rv == runs_view(p.runs@),
            docx_para_model(para) == (ParaView {
                style: crate::ir::opt_view(p.style),
                runs: rv.take(k as int),
            }),
        decreases p.runs.len() - k,
    {
        para = paragraph_add_run(para, docx_run(&p.runs[k]));
        proof {
            assert(rv.take(k + 1) =~= rv.take(k as int).push(run_view(p.runs@[k as int])));
        }
        k = k + 1;
    }
    assert(rv.take(k as int) =~= rv);
    para
}

/// The `docx_rs::Table` of rows of texts, one paragraph of one plain run per
/// cell.
fn docx_table(rows: &Vec<Vec<String>>) -> (out: docx_rs::Table)
    ensures
        docx_table_model(out) == table_parts(rows@.map_values(|r: Vec<String>| strings_view(r@))),
{
    let ghost all = rows@.map_values(|r: Vec<String>| strings_view(r@));
    let mut t = table_new();
    let mut k: usize = 0;
    while k < rows.len()
        invariant
            k <= rows@.len(),
            all == rows@.map_values(|r: Vec<String>| strings_view(r@)),
            docx_table_model(t) == table_parts(all.take(k as int)),
        decreases rows.len() - k,
    {
        let row = &rows[k];
        let ghost texts = strings_view(row@);
        let mut cells: Vec<docx_rs::TableCell> = Vec::new();
        let mut j: usize = 0;
        while j < row.len()
            invariant
                j <= row@.len(),
                texts == strings_view(row@),
                cells@.map_values(|c: docx_rs::TableCell| docx_cell_model(c)) == texts.take(
                    j as int,
                ).map_values(|x: Seq<char>| seq![text_para_view(x)]),
            decreases row.len() - j,
        {
            let run = run_add_text(run_new(), row[j].as_str());
            let para = paragraph_add_run(paragraph_new(), run);
            let cell = table_cell(para);
            let ghost c0 = cells@;
            cells.push(cell);
            proof {
                assert(Seq::<char>::empty() + row@[j as int]@ =~= row@[j as int]@);
                assert(docx_para_model(para) == text_para_view(texts[j as int]));
                assert(cells@.map_values(|c: docx_rs::TableCell| docx_cell_model(c)) =~= c0.map_values(
                    |c: docx_rs::TableCell| docx_cell_model(c),
                ).push(seq![text_para_view(texts[j as int])]));
                assert(texts.take(j + 1).map_values(|x: Seq<char>| seq![text_para_view(x)])
                    =~= texts.take(j as int).map_values(|x: Seq<char>| seq![text_para_view(x)]).push(
                    seq![text_para_view(texts[j as int])],
                ));
            }
            j = j + 1;
        }
        assert(texts.take(j as int) =~= texts);
        let r = table_row(cells);
        t = table_add_row(t, r);
        proof {
            assert(all[k as int] == texts);
            assert(table_parts(all.take(k + 1)) =~= table_parts(all.take(k as int)).push(
                texts.map_values(|x: Seq<char>| seq![text_para_view(x)]),
            ));
        }
        k = k + 1;
    }
    assert(all.take(k as int) =~= all);
    t
}

/// Adds the blocks, in order, to a new `docx_rs::Docx` and packs it into
/// memory; nothing when packing fails.
fn docx_package(blocks: &Vec<WordBlock>) -> (r: Option<Vec<u8>>)
    ensures
        docx_fits(word_parts(words_view(blocks@))) ==> r is Some,
        r matches Some(b) ==> docx_written(word_parts(words_view(blocks@)), b@),
{
    let ghost wv = words_view(blocks@);
    let mut d = docx_new();
    let mut k: usize = 0;
    while k < blocks.len()
        invariant
            k <= blocks@.len(),
            wv == words_view(blocks@),
            docx_model(d) == word_parts(wv.take(k as int)),
        decreases blocks.len() - k,
    {
        d = match &blocks[k] {
            WordBlock::Para(p) => docx_add_paragraph(d, docx_paragraph(p)),
            WordBlock::Table(rows) => docx_add_table(d, docx_table(rows)),
        };
        proof {
            assert(wv[k as int] == word_view(blocks@[k as int]));
            assert(word_parts(wv.take(k + 1)) =~= word_parts(wv.take(k as int)).push(
                word_part(wv[k as int]),
            ));
        }
        k = k + 1;
    }
    assert(wv.take(k as int) =~= wv);
    docx_pack(d)
}

/// The Word output of a document, or the Word error when packing fails.
pub fn render_docx_bytes(doc: &Document) -> (r: Result<Vec<u8>, FlipError>)
    ensures
        docx_fits(word_parts(word_blocks(doc.blocks_view()))) ==> r is Ok,
        r matches Ok(b) ==> docx_written(word_parts(word_blocks(doc.blocks_view())), b@),
        r matches Err(e) ==> e == FlipError::Docx,
{
    let blocks = word_blocks_of(doc);
    match docx_package(&blocks) {
        Some(b) => Ok(b),
        None => Err(FlipError::Docx),
    }
}

} // verus!
