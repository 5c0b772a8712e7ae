//! CSV output: table rows become records, other blocks one-field records.
use vstd::prelude::*;
use crate::error::FlipError;
use crate::ir::{
    blocks_view, cells_view, inlines_plain_text, inlines_text, inlines_view, push_inlines_text,
    push_rows_tabbed, rows_tabbed, rows_view, Block, BlockView, Document, Inline, InlineView,
};
use crate::render::text::cell_texts;
use crate::strutil::{chars_of, push_str, strings_view, trim, trim_bounds};

verus! {

/// The item texts of a list, run together.
pub open spec fn items_concat(items: Seq<Seq<InlineView>>) -> Seq<char>
    decreases items.len(),
{
    if items.len() == 0 {
        seq![]
    } else {
        items_concat(items.drop_last()) + inlines_text(items.last())
    }
}

/// The plain text of a block as the CSV writer takes it: inline text, list
/// items run together, code and CSV text as they are, table cells each
/// followed by a tab and rows by a line end, an image's alternative text.
pub open spec fn csv_block_text(b: BlockView) -> Seq<char> {
    match b {
        BlockView::Paragraph(c) => inlines_text(c),
        BlockView::Heading { level: _, content } => inlines_text(content),
        BlockView::List { ordered: _, items } => items_concat(items),
        BlockView::Code { language: _, content } => content,
        BlockView::Table { headers, rows } => rows_tabbed(headers) + rows_tabbed(rows),
        BlockView::Image { src: _, alt, width: _, height: _ } => alt,
        BlockView::Blockquote(c) => inlines_text(c),
        BlockView::HorizontalRule => seq![],
        BlockView::TableFromCsv(t) => t,
    }
}

/// The plain text of a block for the CSV writer.
pub fn csv_block_plain_text(b: &Block) -> (r: String)
    ensures
        r@ == csv_block_text(b@),
{
    let mut out = String::new();
    match b {
        Block::Paragraph(c) => push_inlines_text(&mut out, c),
        Block::Heading { content, .. } => push_inlines_text(&mut out, content),
        Block::List { items, .. } => {
            let mut k: usize = 0;
            while k < items.len()
                invariant
                    k <= items@.len(),
                    out@ == items_concat(cells_view(items@.take(k as int))),
                decreases items.len() - k,
            {
                push_inlines_text(&mut out, &items[k]);
                proof {
                    let now = cells_view(items@.take(k + 1));
                    assert(now.drop_last() =~= cells_view(items@.take(k as int)));
                    assert(now.last() == inlines_view(items@[k as int]@));
                }
                k = k + 1;
            }
            assert(items@.take(k as int) =~= items@);
        },
        Block::Code { content, .. } => push_str(&mut out, content.as_str()),
        Block::Table { headers, rows } => {
            push_rows_tabbed(&mut out, headers);
            push_rows_tabbed(&mut out, rows);
        },
        Block::Image { alt, .. } => push_str(&mut out, alt.as_str()),
        Block::Blockquote(c) => push_inlines_text(&mut out, c),
        Block::HorizontalRule => {},
        Block::TableFromCsv(t) => push_str(&mut out, t.as_str()),
    }
    assert(out@ =~= csv_block_text(b@));
    out
}

/// The records written for a sequence of blocks: every header and body row
/// of a table as a record of cell texts; any other block as a one-field
/// record of its text, unless that text is blank.
pub open spec fn csv_records(bs: Seq<BlockView>) -> Seq<Seq<Seq<char>>>
    decreases bs.len(),
{
    if bs.len() == 0 {
        seq![]
    } else {
        let prev = csv_records(bs.drop_last());
        match bs.last() {
            BlockView::Table { headers, rows } => prev + headers.map_values(
                |r: Seq<Seq<InlineView>>| cell_texts(r),
            ) + rows.map_values(|r: Seq<Seq<InlineView>>| cell_texts(r)),
            b => if trim(csv_block_text(b)).len() > 0 {
                prev.push(seq![csv_block_text(b)])
            } else {
                prev
            },
        }
    }
}

/// The values of records of strings.
pub open spec fn records_view(v: Seq<Vec<String>>) -> Seq<Seq<Seq<char>>> {
    v.map_values(|r: Vec<String>| strings_view(r@))
}

fn push_table_records(out: &mut Vec<Vec<String>>, rows: &Vec<Vec<Vec<Inline>>>)
    ensures
        records_view(final(out)@) == records_view(old(out)@) + rows_view(rows@).map_values(
            |r: Seq<Seq<InlineView>>| cell_texts(r),
        ),
{
    let ghost o0 = records_view(out@);
    let mut k: usize = 0;
    while k < rows.len()
        invariant
            k <= rows@.len(),
            records_view(out@) == o0 + rows_view(rows@.take(k as int)).map_values(
                |r: Seq<Seq<InlineView>>| cell_texts(r),
            ),
        decreases rows.len() - k,
    {
        let row = &rows[k];
        let mut rec: Vec<String> = Vec::new();
        let mut j: usize = 0;
        while j < row.len()
            invariant
                j <= row@.len(),
                strings_view(rec@) == cell_texts(cells_view(row@.take(j as int))),
            decreases row.len() - j,
        {
            let t = inlines_plain_text(&row[j]);
            let ghost r0 = rec@;
            rec.push(t);
            proof {
                assert(strings_view(rec@) =~= strings_view(r0).push(t@));
                assert(cell_texts(cells_view(row@.take(j + 1))) =~= cell_texts(
                    cells_view(row@.take(j as int)),
                ).push(inlines_text(inlines_view(row@[j as int]@))));
            }
            j = j + 1;
        }
        assert(row@.take(j as int) =~= row@);
        let ghost before = out@;
        out.push(rec);
        proof {
            assert(records_view(out@) =~= records_view(before).push(strings_view(rec@)));
            assert(rows_view(rows@.take(k + 1)).map_values(|r: Seq<Seq<InlineView>>| cell_texts(r))
                =~= rows_view(rows@.take(k as int)).map_values(
                |r: Seq<Seq<InlineView>>| cell_texts(r),
            ).push(cell_texts(cells_view(row@))));
        }
        k = k + 1;
    }
    assert(rows@.take(k as int) =~= rows@);
}

/// The records for the blocks of a document.
pub fn csv_records_of(doc: &Document) -> (r: Vec<Vec<String>>)
    ensures
        records_view(r@) == csv_records(doc.blocks_view()),
{
    let mut out: Vec<Vec<String>> = Vec::new();
    let mut k: usize = 0;
    while k < doc.blocks.len()
        invariant
            k <= doc.blocks@.len(),
            records_view(out@) == csv_records(blocks_view(doc.blocks@.take(k as int))),
        decreases doc.blocks.len() - k,
    {
        proof {
            assert(blocks_view(doc.blocks@.take(k + 1)).drop_last() =~= blocks_view(
                doc.blocks@.take(k as int),
            ));
            assert(blocks_view(doc.blocks@.take(k + 1)).last() == doc.blocks@[k as int]@);
        }
        match &doc.blocks[k] {
            Block::Table { headers, rows } => {
                push_table_records(&mut out, headers);
                push_table_records(&mut out, rows);
            },
            b => {
                let t = csv_block_plain_text(b);
                let cs = chars_of(t.as_str());
                let (lo, hi) = trim_bounds(&cs, 0, cs.len());
                proof {
                    assert(cs@.subrange(0, cs@.len() as int) =~= cs@);
                }
                if lo < hi {
                    let mut rec: Vec<String> = Vec::new();
                    rec.push(t);
                    let ghost before = out@;
                    out.push(rec);
                    proof {
                        assert(strings_view(rec@) =~= seq![t@]);
                        assert(records_view(out@) =~= records_view(before).push(strings_view(rec@)));
                    }
                }
            },
        }
        k = k + 1;
    }
    assert(doc.blocks@.take(k as int) =~= doc.blocks@);
    out
}

/// A `csv::Writer` into memory. (Verus does not take a declaration of the
/// writer type, whose parameter is bound by `std::io::Write`.)
#[verifier::external_body]
pub struct CsvOut {
    w: csv::Writer<Vec<u8>>,
}

/// The records a CSV writer into memory has been given so far.
pub uninterp spec fn csv_writer_records(w: CsvOut) -> Seq<Seq<Seq<char>>>;

/// The bytes a flexible `csv::Writer` with default settings writes for
/// records of strings.
pub uninterp spec fn csv_text(records: Seq<Seq<Seq<char>>>) -> Seq<u8>;

/// `WriterBuilder::new().flexible(true).from_writer(Vec::new())`: a writer into
/// memory that takes records of any length, holding no record yet.
#[verifier::external_body]
fn csv_writer() -> (w: CsvOut)
    ensures
        csv_writer_records(w) == Seq::<Seq<Seq<char>>>::empty(),
{
    CsvOut { w: csv::WriterBuilder::new().flexible(true).from_writer(Vec::new()) }
}

/// `Writer::write_record`: the writer holds one more record. A flexible
/// writer checks no field count, so its only failures are those of the
/// `Vec<u8>` it writes into, which takes every write.
#[verifier::external_body]
fn csv_write_record(w: &mut CsvOut, rec: &Vec<String>) -> (ok: bool)
    ensures
        ok,
        csv_writer_records(*final(w)) == csv_writer_records(*old(w)).push(strings_view(rec@)),
{
    w.w.write_record(rec).is_ok()
}

/// `Writer::into_inner`: the bytes written for the writer's records, named
/// `csv_text`. Flushing into a `Vec<u8>` does not fail.
#[verifier::external_body]
fn csv_finish(w: CsvOut) -> (r: Option<Vec<u8>>)
    ensures
        r is Some,
        r matches Some(b) ==> b@ == csv_text(csv_writer_records(w)),
{
    w.w.into_inner().ok()
}

/// Writes the records one after another into memory; nothing when the writer
/// reports a failure, which writing into memory never does.
fn write_csv(records: &Vec<Vec<String>>) -> (r: Option<Vec<u8>>)
    ensures
        r matches Some(b) && b@ == csv_text(records_view(records@)),
{
    let mut w = csv_writer();
    let mut k: usize = 0;
    while k < records.len()
        invariant
            k <= records@.len(),
            csv_writer_records(w) == records_view(records@.take(k as int)),
        decreases records.len() - k,
    {
        if !csv_write_record(&mut w, &records[k]) {
            return None;
        }
        proof {
            assert(records_view(records@.take(k + 1)) =~= records_view(records@.take(k as int)).push(
                strings_view(records@[k as int]@),
            ));
        }
        k = k + 1;
    }
    assert(records@.take(k as int) =~= records@);
    csv_finish(w)
}

/// The CSV output of a document: the records written by a flexible CSV
/// writer.
pub fn render_csv_bytes(doc: &Document) -> (r: Result<Vec<u8>, FlipError>)
    ensures
        r matches Ok(b) && b@ == csv_text(csv_records(doc.blocks_view())),
{
    let records = csv_records_of(doc);
    match write_csv(&records) {
        Some(b) => Ok(b),
        None => Err(FlipError::Csv),
    }
}

} // verus!
