//! Plain text output, and the pieces of text that several writers share.
use vstd::prelude::*;
use crate::ir::{
    blocks_view, cells_view, inlines_text, inlines_view, opt_view, rows_view, Block, BlockView,
    Document, Inline, InlineView,
};
use crate::strutil::{
    byte_len, char_len_utf8, lemma_byte_len_take, chars_of, decimal, into_bytes, join, push_char, push_decimal,
    push_str,
};
use crate::ir::push_inlines_text;

verus! {

/// `n` copies of `c` (`str::repeat` on a one-character string).
pub open spec fn repeat(c: char, n: nat) -> Seq<char> {
    Seq::new(n, |_i: int| c)
}

/// Appends `n` copies of `c`.
pub fn push_repeat(out: &mut String, c: char, n: usize)
    ensures
        final(out)@ == old(out)@ + repeat(c, n as nat),
{
    let mut k: usize = 0;
    while k < n
        invariant
            k <= n,
            out@ == old(out)@ + repeat(c, k as nat),
        decreases n - k,
    {
        push_char(out, c);
        k = k + 1;
        assert(out@ =~= old(out)@ + repeat(c, k as nat));
    }
}

/// The number of UTF-8 bytes of `s` (`str::len`).
pub fn utf8_len(s: &str) -> (r: usize)
    requires
        byte_len(s@) <= usize::MAX,
    ensures
        r == byte_len(s@),
{
    let cs = chars_of(s);
    let mut n: usize = 0;
    let mut i: usize = 0;
    while i < cs.len()
        invariant
            i <= cs@.len(),
            cs@ == s@,
            n == byte_len(cs@.take(i as int)),
            byte_len(s@) <= usize::MAX,
        decreases cs.len() - i,
    {
        proof {
            assert(cs@.take(i + 1).drop_last() =~= cs@.take(i as int));
            lemma_byte_len_take(cs@, i + 1);
        }
        n = n + char_len_utf8(cs[i]);
        i = i + 1;
    }
    assert(cs@.take(i as int) =~= cs@);
    n
}

/// The plain texts of table cells.
pub open spec fn cell_texts(cells: Seq<Seq<InlineView>>) -> Seq<Seq<char>> {
    cells.map_values(|c: Seq<InlineView>| inlines_text(c))
}

/// Appends the plain texts of the cells joined by `sep`.
pub fn push_cells_joined(out: &mut String, cells: &Vec<Vec<Inline>>, sep: &str)
    ensures
        final(out)@ == old(out)@ + join(cell_texts(cells_view(cells@)), sep@),
{
    let ghost texts = cell_texts(cells_view(cells@));
    let mut k: usize = 0;
    while k < cells.len()
        invariant
            k <= cells@.len(),
            texts == cell_texts(cells_view(cells@)),
            out@ == old(out)@ + join(texts.take(k as int), sep@),
        decreases cells.len() - k,
    {
        if k > 0 {
            push_str(out, sep);
        }
        push_inlines_text(out, &cells[k]);
        proof {
            assert(texts.take(k + 1).drop_last() =~= texts.take(k as int));
            assert(texts.take(k + 1).last() == inlines_text(inlines_view(cells@[k as int]@)));
            if k == 0 {
                assert(texts.take(1) =~= seq![texts[0]]);
            }
            assert(out@ =~= old(out)@ + join(texts.take(k + 1), sep@));
        }
        k = k + 1;
    }
    assert(texts.take(k as int) =~= texts);
}

/// Rows of cells, each joined by tabs on a line of its own.
pub open spec fn tab_lines(rows: Seq<Seq<Seq<InlineView>>>) -> Seq<char>
    decreases rows.len(),
{
    if rows.len() == 0 {
        seq![]
    } else {
        tab_lines(rows.drop_last()) + join(cell_texts(rows.last()), "\t"@) + seq!['\n']
    }
}

fn push_tab_lines(out: &mut String, rows: &Vec<Vec<Vec<Inline>>>)
    ensures
        final(out)@ == old(out)@ + tab_lines(rows_view(rows@)),
{
    let mut k: usize = 0;
    while k < rows.len()
        invariant
            k <= rows@.len(),
            out@ == old(out)@ + tab_lines(rows_view(rows@.take(k as int))),
        decreases rows.len() - k,
    {
        push_cells_joined(out, &rows[k], "\t");
        push_char(out, '\n');
        proof {
            let now = rows_view(rows@.take(k + 1));
            assert(now.drop_last() =~= rows_view(rows@.take(k as int)));
            assert(now.last() == cells_view(rows@[k as int]@));
            assert(out@ =~= old(out)@ + tab_lines(now));
        }
        k = k + 1;
    }
    assert(rows@.take(k as int) =~= rows@);
}

/// List items as text lines: numbered from 1 (`1. `) or bulleted (`- `).
pub open spec fn item_lines(items: Seq<Seq<InlineView>>, ordered: bool) -> Seq<char>
    decreases items.len(),
{
    if items.len() == 0 {
        seq![]
    } else {
        item_lines(items.drop_last(), ordered) + (if ordered {
            decimal(items.len()) + ". "@
        } else {
            "- "@
        }) + inlines_text(items.last()) + seq!['\n']
    }
}

fn push_item_lines(out: &mut String, items: &Vec<Vec<Inline>>, ordered: bool)
    ensures
        final(out)@ == old(out)@ + item_lines(cells_view(items@), ordered),
{
    let mut k: usize = 0;
    while k < items.len()
        invariant
            k <= items@.len(),
            out@ == old(out)@ + item_lines(cells_view(items@.take(k as int)), ordered),
        decreases items.len() - k,
    {
        if ordered {
            push_decimal(out, (k + 1) as u64);
            push_str(out, ". ");
        } else {
            push_str(out, "- ");
        }
        push_inlines_text(out, &items[k]);
        push_char(out, '\n');
        proof {
            let now = cells_view(items@.take(k + 1));
            assert(now.drop_last() =~= cells_view(items@.take(k as int)));
            assert(now.last() == inlines_view(items@[k as int]@));
            assert(now.len() == k + 1);
            assert(out@ =~= old(out)@ + item_lines(now, ordered));
        }
        k = k + 1;
    }
    assert(items@.take(k as int) =~= items@);
}

/// The text of a block.
pub open spec fn text_block(b: BlockView) -> Seq<char> {
    match b {
        BlockView::Paragraph(c) => inlines_text(c) + "\n\n"@,
        BlockView::Heading { level, content } => repeat('#', level as nat) + seq![' ']
            + inlines_text(content) + "\n\n"@,
        BlockView::Code { language: _, content } => content + "\n\n"@,
        BlockView::List { ordered, items } => item_lines(items, ordered) + seq!['\n'],
        BlockView::Blockquote(c) => "> "@ + inlines_text(c) + "\n\n"@,
        BlockView::Table { headers, rows } => tab_lines(headers) + (if headers.len() > 0 {
            repeat('-', 40) + seq!['\n']
        } else {
            seq![]
        }) + tab_lines(rows) + seq!['\n'],
        BlockView::Image { src: _, alt, width: _, height: _ } => "[Image: "@ + alt + "]\n\n"@,
        BlockView::HorizontalRule => repeat('-', 40) + "\n\n"@,
        BlockView::TableFromCsv(t) => t + "\n\n"@,
    }
}

/// The text of a sequence of blocks.
pub open spec fn text_blocks(bs: Seq<BlockView>) -> Seq<char>
    decreases bs.len(),
{
    if bs.len() == 0 {
        seq![]
    } else {
        text_blocks(bs.drop_last()) + text_block(bs.last())
    }
}

fn push_text_block(out: &mut String, b: &Block)
    ensures
        final(out)@ == old(out)@ + text_block(b@),
{
    match b {
        Block::Paragraph(c) => {
            push_inlines_text(out, c);
            push_str(out, "\n\n");
        },
        Block::Heading { level, content } => {
            push_repeat(out, '#', *level as usize);
            push_char(out, ' ');
            push_inlines_text(out, content);
            push_str(out, "\n\n");
        },
        Block::Code { content, .. } => {
            push_str(out, content.as_str());
            push_str(out, "\n\n");
        },
        Block::List { ordered, items } => {
            push_item_lines(out, items, *ordered);
            push_char(out, '\n');
        },
        Block::Blockquote(c) => {
            push_str(out, "> ");
            push_inlines_text(out, c);
            push_str(out, "\n\n");
        },
        Block::Table { headers, rows } => {
            push_tab_lines(out, headers);
            if headers.len() > 0 {
                push_repeat(out, '-', 40);
                push_char(out, '\n');
            }
            push_tab_lines(out, rows);
            push_char(out, '\n');
        },
        Block::Image { alt, .. } => {
            push_str(out, "[Image: ");
            push_str(out, alt.as_str());
            push_str(out, "]\n\n");
        },
        Block::HorizontalRule => {
            push_repeat(out, '-', 40);
            push_str(out, "\n\n");
        },
        Block::TableFromCsv(t) => {
            push_str(out, t.as_str());
            push_str(out, "\n\n");
        },
    }
    assert(out@ =~= old(out)@ + text_block(b@));
}

/// The text output for blocks `bs` under an optional title (underlined with
/// one `=` per byte of the title).
pub open spec fn text_page(title: Option<Seq<char>>, bs: Seq<BlockView>) -> Seq<char> {
    (match title {
        Some(t) => t + seq!['\n'] + repeat('=', byte_len(t)) + "\n\n"@,
        None => seq![],
    }) + text_blocks(bs)
}

/// The text output of a document.
pub fn text_output(doc: &Document) -> (r: String)
    requires
        doc.metadata.title matches Some(t) ==> byte_len(t@) <= usize::MAX,
    ensures
        r@ == text_page(opt_view(doc.metadata.title), doc.blocks_view()),
{
    let mut out = String::new();
    match &doc.metadata.title {
        Some(t) => {
            push_str(&mut out, t.as_str());
            push_char(&mut out, '\n');
            let n = utf8_len(t.as_str());
            push_repeat(&mut out, '=', n);
            push_str(&mut out, "\n\n");
        },
        None => {},
    }
    let ghost head = out@;
    let mut k: usize = 0;
    while k < doc.blocks.len()
        invariant
            k <= doc.blocks@.len(),
            out@ == head + text_blocks(blocks_view(doc.blocks@.take(k as int))),
        decreases doc.blocks.len() - k,
    {
        push_text_block(&mut out, &doc.blocks[k]);
        proof {
            let now = blocks_view(doc.blocks@.take(k + 1));
            assert(now.drop_last() =~= blocks_view(doc.blocks@.take(k as int)));
            assert(now.last() == doc.blocks@[k as int]@);
            assert(out@ =~= head + text_blocks(now));
        }
        k = k + 1;
    }
    assert(doc.blocks@.take(k as int) =~= doc.blocks@);
    assert(out@ =~= text_page(opt_view(doc.metadata.title), doc.blocks_view()));
    out
}

/// The text output of a document as UTF-8 bytes.
pub fn render_text_bytes(doc: &Document) -> (r: Vec<u8>)
    requires
        doc.metadata.title matches Some(t) ==> byte_len(t@) <= usize::MAX,
    ensures
        r@ == vstd::utf8::encode_utf8(text_page(opt_view(doc.metadata.title), doc.blocks_view())),
{
    into_bytes(text_output(doc))
}

} // verus!
