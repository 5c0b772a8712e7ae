//! The cells of the Excel output: table rows fill rows from column A, any
//! other block with text takes one cell in column A.
use vstd::prelude::*;
use crate::ir::{
    blocks_view, cells_view, inlines_plain_text, inlines_text, inlines_view, push_inlines_text,
    rows_view, Block, BlockView, Document, Inline, InlineView,
};
use crate::render::text::cell_texts;
use crate::strutil::{chars_of, decimal, join, push_char, push_decimal, push_str, trim, trim_bounds};

verus! {

/// The column name of a 1-based column number: A to Z, then AA, AB, ...
pub open spec fn col_letters(c: nat) -> Seq<char>
    decreases c,
{
    if c == 0 {
        seq![]
    } else {
        col_letters(((c - 1) / 26) as nat).push(((65 + (c - 1) % 26) as u8) as char)
    }
}

/// The column name of a 1-based column number.
pub fn col_to_letter(col: u32) -> (r: String)
    ensures
        r@ == col_letters(col as nat),
    decreases col,
{
    if col == 0 {
        return String::new();
    }
    let mut s = col_to_letter((col - 1) / 26);
    let d: u8 = ((col - 1) % 26) as u8;
    push_char(&mut s, (65u8 + d) as char);
    s
}

/// The address of a cell.
pub open spec fn cell_addr(col: nat, row: nat) -> Seq<char> {
    col_letters(col) + decimal(row)
}

/// An address the workbook writer reads without failing: the name of a column
/// from 1 to 18278 (one to three letters) and a row from 1 to `u32::MAX`.
pub open spec fn sheet_address(a: Seq<char>) -> bool {
    exists|c: nat, r: nat| 1 <= c <= 18278 && 1 <= r <= u32::MAX && a == cell_addr(c, r)
}

/// Every cell has such an address.
pub open spec fn sheet_addresses(cells: Seq<(Seq<char>, Seq<char>)>) -> bool {
    forall|i: int| 0 <= i < cells.len() ==> sheet_address(#[trigger] cells[i].0)
}

/// The cells of one row of texts at sheet row `row`, from column A.
pub open spec fn row_cells(texts: Seq<Seq<char>>, row: nat) -> Seq<(Seq<char>, Seq<char>)> {
    Seq::new(texts.len(), |j: int| (cell_addr((j + 1) as nat, row), texts[j]))
}

/// The cells of table rows from sheet row `row` down.
pub open spec fn table_cells(rows: Seq<Seq<Seq<InlineView>>>, row: nat) -> Seq<(Seq<char>, Seq<char>)>
    decreases rows.len(),
{
    if rows.len() == 0 {
        seq![]
    } else {
        row_cells(cell_texts(rows[0]), row) + table_cells(rows.drop_first(), row + 1)
    }
}

/// The text of a non-table block in the sheet: inline text, list items on
/// lines of their own, code; nothing for other blocks.
pub open spec fn sheet_text(b: BlockView) -> Seq<char> {
    match b {
        BlockView::Paragraph(c) => inlines_text(c),
        BlockView::Heading { level: _, content } => inlines_text(content),
        BlockView::List { ordered: _, items } => join(cell_texts(items), "\n"@),
        BlockView::Code { language: _, content } => content,
        BlockView::Blockquote(c) => inlines_text(c),
        _ => seq![],
    }
}

/// The cells written for blocks from sheet row `row` down.
pub open spec fn sheet_cells(bs: Seq<BlockView>, row: nat) -> Seq<(Seq<char>, Seq<char>)>
    decreases bs.len(),
{
    if bs.len() == 0 {
        seq![]
    } else {
        match bs[0] {
            BlockView::Table { headers, rows } => table_cells(headers, row) + table_cells(
                rows,
                row + headers.len(),
            ) + sheet_cells(bs.drop_first(), row + headers.len() + rows.len()),
            b => if trim(sheet_text(b)).len() > 0 {
                seq![(seq!['A'] + decimal(row), sheet_text(b))] + sheet_cells(
                    bs.drop_first(),
                    row + 1,
                )
            } else {
                sheet_cells(bs.drop_first(), row)
            },
        }
    }
}

/// The number of sheet rows that blocks may take, at most.
pub open spec fn sheet_rows(bs: Seq<BlockView>) -> nat
    decreases bs.len(),
{
    if bs.len() == 0 {
        0
    } else {
        sheet_rows(bs.drop_last()) + match bs.last() {
            BlockView::Table { headers, rows } => headers.len() + rows.len(),
            _ => 1,
        }
    }
}

/// The values of cells.
pub open spec fn cells_of_view(v: Seq<(String, String)>) -> Seq<(Seq<char>, Seq<char>)> {
    v.map_values(|p: (String, String)| (p.0@, p.1@))
}

fn sheet_text_of(b: &Block) -> (r: String)
    ensures
        r@ == sheet_text(b@),
{
    match b {
        Block::Paragraph(c) => inlines_plain_text(c),
        Block::Heading { content, .. } => inlines_plain_text(content),
        Block::List { items, .. } => {
            let mut out = String::new();
            crate::render::text::push_cells_joined(&mut out, items, "\n");
            out
        },
        Block::Code { content, .. } => content.clone(),
        Block::Blockquote(c) => inlines_plain_text(c),
        _ => String::new(),
    }
}

fn push_cell(v: &mut Vec<(String, String)>, a: String, t: String)
    ensures
        cells_of_view(final(v)@) == cells_of_view(old(v)@).push((a@, t@)),
{
    let ghost v0 = v@;
    v.push((a, t));
    assert(cells_of_view(v@) =~= cells_of_view(v0).push((a@, t@)));
}

fn push_table_cells(v: &mut Vec<(String, String)>, rows: &Vec<Vec<Vec<Inline>>>, row: u32)
    requires
        row + rows@.len() <= u32::MAX,
        forall|i: int| 0 <= i < rows@.len() ==> #[trigger] rows@[i]@.len() < u32::MAX,
    ensures
        cells_of_view(final(v)@) == cells_of_view(old(v)@) + table_cells(rows_view(rows@), row as nat),
{
    let ghost rv = rows_view(rows@);
    let ghost total = cells_of_view(old(v)@) + table_cells(rv, row as nat);
    let mut k: usize = 0;
    let mut r: u32 = row;
    assert(rv.skip(0) =~= rv);
    while k < rows.len()
        invariant
            k <= rows@.len(),
            rv == rows_view(rows@),
            r == row + k,
            row + rows@.len() <= u32::MAX,
            forall|i: int| 0 <= i < rows@.len() ==> #[trigger] rows@[i]@.len() < u32::MAX,
            total == cells_of_view(v@) + table_cells(rv.skip(k as int), r as nat),
        decreases rows.len() - k,
    {
        let cells = &rows[k];
        let ghost texts = cell_texts(cells_view(cells@));
        let ghost before = cells_of_view(v@);
        let mut j: usize = 0;
        while j < cells.len()
            invariant
                j <= cells@.len(),
                cells@.len() < u32::MAX,
                texts == cell_texts(cells_view(cells@)),
                cells_of_view(v@) == before + row_cells(texts, r as nat).take(j as int),
            decreases cells.len() - j,
        {
            let mut a = col_to_letter((j + 1) as u32);
            push_decimal(&mut a, r as u64);
            let t = inlines_plain_text(&cells[j]);
            push_cell(v, a, t);
            proof {
                assert(row_cells(texts, r as nat).take(j + 1) =~= row_cells(texts, r as nat).take(
                    j as int,
                ).push((cell_addr((j + 1) as nat, r as nat), texts[j as int])));
            }
            j = j + 1;
        }
        proof {
            assert(row_cells(texts, r as nat).take(j as int) =~= row_cells(texts, r as nat));
            let rest = rv.skip(k as int);
            assert(rest[0] == cells_view(cells@));
            assert(rest.drop_first() =~= rv.skip(k + 1));
        }
        k = k + 1;
        r = r + 1;
    }
    assert(rv.skip(k as int).len() == 0);
}

/// A prefix of blocks takes no more rows than the whole.
proof fn lemma_sheet_rows_take(bs: Seq<BlockView>, k: int)
    requires
        0 <= k <= bs.len(),
    ensures
        sheet_rows(bs.take(k)) <= sheet_rows(bs),
    decreases bs.len() - k,
{
    if k < bs.len() {
        lemma_sheet_rows_take(bs, k + 1);
        assert(bs.take(k + 1).drop_last() =~= bs.take(k));
    } else {
        assert(bs.take(k) =~= bs);
    }
}

/// The sheet fits `u32` row and column numbers.
pub open spec fn sheet_fits(bs: Seq<BlockView>) -> bool {
    &&& sheet_rows(bs) < u32::MAX
    &&& forall|i: int|
        0 <= i < bs.len() ==> (#[trigger] bs[i] matches BlockView::Table { headers, rows } ==> (
        forall|j: int| 0 <= j < headers.len() ==> #[trigger] headers[j].len() < u32::MAX) && (
        forall|j: int| 0 <= j < rows.len() ==> #[trigger] rows[j].len() < u32::MAX))
}

/// The cells of the Excel output of a document, in the order they are set,
/// each with its address.
pub fn sheet_cells_of(doc: &Document) -> (r: Vec<(String, String)>)
    requires
        sheet_fits(doc.blocks_view()),
    ensures
        cells_of_view(r@) == sheet_cells(doc.blocks_view(), 1),
{
    let ghost bs = doc.blocks_view();
    let mut v: Vec<(String, String)> = Vec::new();
    let mut row: u32 = 1;
    let mut k: usize = 0;
    assert(bs.skip(0) =~= bs);
    assert(bs.take(0) =~= Seq::<BlockView>::empty());
    while k < doc.blocks.len()
        invariant
            k <= doc.blocks@.len(),
            bs == doc.blocks_view(),
            bs.len() == doc.blocks@.len(),
            sheet_fits(bs),
            row as nat <= 1 + sheet_rows(bs.take(k as int)),
            sheet_cells(bs, 1) == cells_of_view(v@) + sheet_cells(bs.skip(k as int), row as nat),
        decreases doc.blocks.len() - k,
    {
        proof {
            assert(bs[k as int] == doc.blocks@[k as int]@);
            let rest = bs.skip(k as int);
            assert(rest[0] == bs[k as int]);
            assert(rest.drop_first() =~= bs.skip(k + 1));
            assert(bs.take(k + 1).drop_last() =~= bs.take(k as int));
            assert(bs.take(k + 1).last() == bs[k as int]);
            lemma_sheet_rows_take(bs, k + 1);
        }
        match &doc.blocks[k] {
            Block::Table { headers, rows } => {
                proof {
                    assert forall|i: int| 0 <= i < headers@.len() implies #[trigger] headers@[i]@.len()
                        < u32::MAX by {
                        assert(rows_view(headers@)[i] == cells_view(headers@[i]@));
                    }
                    assert forall|i: int| 0 <= i < rows@.len() implies #[trigger] rows@[i]@.len()
                        < u32::MAX by {
                        assert(rows_view(rows@)[i] == cells_view(rows@[i]@));
                    }
                }
                push_table_cells(&mut v, headers, row);
                let r2 = row + headers.len() as u32;
                push_table_cells(&mut v, rows, r2);
                row = r2 + rows.len() as u32;
                assert(cells_of_view(v@) + sheet_cells(bs.skip(k + 1), row as nat) =~= sheet_cells(
                    bs,
                    1,
                ));
            },
            b => {
                let t = sheet_text_of(b);
                let cs = chars_of(t.as_str());
                let (lo, hi) = trim_bounds(&cs, 0, cs.len());
                assert(cs@.subrange(0, cs@.len() as int) =~= cs@);
                if lo < hi {
                    let mut a = String::new();
                    push_char(&mut a, 'A');
                    push_decimal(&mut a, row as u64);
                    push_cell(&mut v, a, t);
                    row = row + 1;
                }
                assert(cells_of_view(v@) + sheet_cells(bs.skip(k + 1), row as nat) =~= sheet_cells(
                    bs,
                    1,
                ));
            },
        }
        k = k + 1;
    }
    assert(bs.skip(k as int).len() == 0);
    assert(cells_of_view(v@) =~= sheet_cells(bs, 1));
    v
}

} // verus!
