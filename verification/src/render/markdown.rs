//! Markdown output.
use vstd::prelude::*;
use crate::ir::{
    blocks_view, cells_view, inlines_text, inlines_view, opt_view, push_inlines_text, rows_view,
    Block, BlockView, Document, Inline, InlineView,
};
use crate::render::text::{push_repeat, repeat};
use crate::strutil::{decimal, into_bytes, push_char, push_decimal, push_str};

verus! {

/// The Markdown of an inline. Superscript and subscript keep only their
/// content.
pub open spec fn md_inline(i: InlineView) -> Seq<char>
    decreases i, 0int,
{
    match i {
        InlineView::Text(t) => t,
        InlineView::Bold(c) => "**"@ + md_inlines(c) + "**"@,
        InlineView::Italic(c) => "*"@ + md_inlines(c) + "*"@,
        InlineView::Strikethrough(c) => "~~"@ + md_inlines(c) + "~~"@,
        InlineView::Code(t) => "`"@ + t + "`"@,
        InlineView::Link { text, url } => "["@ + md_inlines(text) + "]("@ + url + ")"@,
        InlineView::Image { alt, src } => "!["@ + alt + "]("@ + src + ")"@,
        InlineView::Superscript(c) => md_inlines(c),
        InlineView::Subscript(c) => md_inlines(c),
    }
}

/// The Markdown of a run of inlines.
pub open spec fn md_inlines(s: Seq<InlineView>) -> Seq<char>
    decreases s, 1int,
{
    if s.len() == 0 {
        seq![]
    } else {
        md_inlines(s.drop_last()) + md_inline(s.last())
    }
}

fn push_md_wrapped(out: &mut String, mark: &str, v: &Vec<Inline>)
    ensures
        final(out)@ == old(out)@ + mark@ + md_inlines(inlines_view(v@)) + mark@,
    decreases v, 2int,
{
    push_str(out, mark);
    push_md_inlines(out, v);
    push_str(out, mark);
    assert(out@ =~= old(out)@ + mark@ + md_inlines(inlines_view(v@)) + mark@);
}

/// Appends the Markdown of `i`.
pub fn push_md_inline(out: &mut String, i: &Inline)
    ensures
        final(out)@ == old(out)@ + md_inline(i@),
    decreases i, 0int,
{
    match i {
        Inline::Text(t) => push_str(out, t.as_str()),
        Inline::Bold(c) => push_md_wrapped(out, "**", c),
        Inline::Italic(c) => push_md_wrapped(out, "*", c),
        Inline::Strikethrough(c) => push_md_wrapped(out, "~~", c),
        Inline::Code(t) => {
            push_str(out, "`");
            push_str(out, t.as_str());
            push_str(out, "`");
        },
        Inline::Link { text, url } => {
            push_str(out, "[");
            push_md_inlines(out, text);
            push_str(out, "](");
            push_str(out, url.as_str());
            push_str(out, ")");
        },
        Inline::Image { alt, src } => {
            push_str(out, "![");
            push_str(out, alt.as_str());
            push_str(out, "](");
            push_str(out, src.as_str());
            push_str(out, ")");
        },
        Inline::Superscript(c) => push_md_inlines(out, c),
        Inline::Subscript(c) => push_md_inlines(out, c),
    }
    assert(out@ =~= old(out)@ + md_inline(i@));
}

/// Appends the Markdown of a run of inlines.
pub fn push_md_inlines(out: &mut String, v: &Vec<Inline>)
    ensures
        final(out)@ == old(out)@ + md_inlines(inlines_view(v@)),
    decreases v, 1int,
{
    let mut k: usize = 0;
    while k < v.len()
        invariant
            k <= v@.len(),
            out@ == old(out)@ + md_inlines(inlines_view(v@.take(k as int))),
        decreases v.len() - k,
    {
        push_md_inline(out, &v[k]);
        proof {
            let pre = v@.take(k as int);
            assert(v@.take(k + 1).drop_last() =~= pre);
            assert(inlines_view(v@.take(k + 1)) == inlines_view(pre).push(v@[k as int]@));
            assert(inlines_view(pre).push(v@[k as int]@).drop_last() =~= inlines_view(pre));
        }
        k = k + 1;
    }
    assert(v@.take(k as int) =~= v@);
}

/// `n` copies of `s`.
pub open spec fn repeat_seq(s: Seq<char>, n: nat) -> Seq<char>
    decreases n,
{
    if n == 0 {
        seq![]
    } else {
        repeat_seq(s, (n - 1) as nat) + s
    }
}

/// Each cell's plain text after a `|`.
pub open spec fn pipe_cells(cells: Seq<Seq<InlineView>>) -> Seq<char>
    decreases cells.len(),
{
    if cells.len() == 0 {
        seq![]
    } else {
        pipe_cells(cells.drop_last()) + seq!['|'] + inlines_text(cells.last())
    }
}

/// A table row: its cells, then `|` and a line end; nothing for a row
/// without cells.
pub open spec fn pipe_row(cells: Seq<Seq<InlineView>>) -> Seq<char> {
    if cells.len() == 0 {
        seq![]
    } else {
        pipe_cells(cells) + "|\n"@
    }
}

/// Table rows.
pub open spec fn pipe_rows(rows: Seq<Seq<Seq<InlineView>>>) -> Seq<char>
    decreases rows.len(),
{
    if rows.len() == 0 {
        seq![]
    } else {
        pipe_rows(rows.drop_last()) + pipe_row(rows.last())
    }
}

fn push_pipe_rows(out: &mut String, rows: &Vec<Vec<Vec<Inline>>>)
    ensures
        final(out)@ == old(out)@ + pipe_rows(rows_view(rows@)),
{
    let mut k: usize = 0;
    while k < rows.len()
        invariant
            k <= rows@.len(),
            out@ == old(out)@ + pipe_rows(rows_view(rows@.take(k as int))),
        decreases rows.len() - k,
    {
        let row = &rows[k];
        let ghost mid = out@;
        let mut j: usize = 0;
        while j < row.len()
            invariant
                j <= row@.len(),
                out@ == mid + pipe_cells(cells_view(row@.take(j as int))),
            decreases row.len() - j,
        {
            push_char(out, '|');
            push_inlines_text(out, &row[j]);
            proof {
                let now = cells_view(row@.take(j + 1));
                assert(now.drop_last() =~= cells_view(row@.take(j as int)));
                assert(now.last() == inlines_view(row@[j as int]@));
                assert(out@ =~= mid + pipe_cells(now));
            }
            j = j + 1;
        }
        assert(row@.take(j as int) =~= row@);
        if row.len() > 0 {
            push_str(out, "|\n");
        }
        proof {
            let now = rows_view(rows@.take(k + 1));
            assert(now.drop_last() =~= rows_view(rows@.take(k as int)));
            assert(now.last() == cells_view(row@));
            assert(out@ =~= old(out)@ + pipe_rows(now));
        }
        k = k + 1;
    }
    assert(rows@.take(k as int) =~= rows@);
}

/// List items as Markdown lines: numbered from 1 or bulleted with `- `.
pub open spec fn md_items(items: Seq<Seq<InlineView>>, ordered: bool) -> Seq<char>
    decreases items.len(),
{
    if items.len() == 0 {
        seq![]
    } else {
        md_items(items.drop_last(), ordered) + (if ordered {
            decimal(items.len()) + ". "@
        } else {
            "- "@
        }) + md_inlines(items.last()) + seq!['\n']
    }
}

fn push_md_items(out: &mut String, items: &Vec<Vec<Inline>>, ordered: bool)
    ensures
        final(out)@ == old(out)@ + md_items(cells_view(items@), ordered),
{
    let mut k: usize = 0;
    while k < items.len()
        invariant
            k <= items@.len(),
            out@ == old(out)@ + md_items(cells_view(items@.take(k as int)), ordered),
        decreases items.len() - k,
    {
        if ordered {
            push_decimal(out, (k + 1) as u64);
            push_str(out, ". ");
        } else {
            push_str(out, "- ");
        }
        push_md_inlines(out, &items[k]);
        push_char(out, '\n');
        proof {
            let now = cells_view(items@.take(k + 1));
            assert(now.drop_last() =~= cells_view(items@.take(k as int)));
            assert(now.last() == inlines_view(items@[k as int]@));
            assert(now.len() == k + 1);
            assert(out@ =~= old(out)@ + md_items(now, ordered));
        }
        k = k + 1;
    }
    assert(items@.take(k as int) =~= items@);
}

/// The Markdown of a block. A table's separator line is `|`, one `---|` per
/// cell of its first header row, and a closing `|`.
pub open spec fn md_block(b: BlockView) -> Seq<char> {
    match b {
        BlockView::Paragraph(c) => md_inlines(c) + seq!['\n'],
        BlockView::Heading { level, content } => repeat('#', level as nat) + seq![' '] + md_inlines(
            content,
        ) + seq!['\n'],
        BlockView::Code { language, content } => (match language {
            Some(l) => "```"@ + l + seq!['\n'],
            None => "```\n"@,
        }) + content + "\n```\n"@,
        BlockView::List { ordered, items } => md_items(items, ordered),
        BlockView::Blockquote(c) => "> "@ + md_inlines(c) + seq!['\n'],
        BlockView::Table { headers, rows } => (if headers.len() > 0 {
            pipe_rows(headers) + seq!['|'] + repeat_seq("---|"@, headers[0].len()) + "|\n"@
        } else {
            seq![]
        }) + pipe_rows(rows),
        BlockView::Image { src, alt, width: _, height: _ } => "!["@ + alt + "]("@ + src + ")\n"@,
        BlockView::HorizontalRule => "---\n"@,
        BlockView::TableFromCsv(t) => t + seq!['\n'],
    }
}

fn push_md_block(out: &mut String, b: &Block)
    ensures
        final(out)@ == old(out)@ + md_block(b@),
{
    match b {
        Block::Paragraph(c) => {
            push_md_inlines(out, c);
            push_char(out, '\n');
        },
        Block::Heading { level, content } => {
            push_repeat(out, '#', *level as usize);
            push_char(out, ' ');
            push_md_inlines(out, content);
            push_char(out, '\n');
        },
        Block::Code { language, content } => {
            match language {
                Some(l) => {
                    push_str(out, "```");
                    push_str(out, l.as_str());
                    push_char(out, '\n');
                },
                None => push_str(out, "```\n"),
            }
            push_str(out, content.as_str());
            push_str(out, "\n```\n");
        },
        Block::List { ordered, items } => push_md_items(out, items, *ordered),
        Block::Blockquote(c) => {
            push_str(out, "> ");
            push_md_inlines(out, c);
            push_char(out, '\n');
        },
        Block::Table { headers, rows } => {
            if headers.len() > 0 {
                push_pipe_rows(out, headers);
                push_char(out, '|');
                let n = headers[0].len();
                let ghost mid = out@;
                let mut k: usize = 0;
                while k < n
                    invariant
                        k <= n,
                        out@ == mid + repeat_seq("---|"@, k as nat),
                    decreases n - k,
                {
                    push_str(out, "---|");
                    k = k + 1;
                    assert(out@ =~= mid + repeat_seq("---|"@, k as nat));
                }
                push_str(out, "|\n");
            }
            push_pipe_rows(out, rows);
        },
        Block::Image { src, alt, .. } => {
            push_str(out, "![");
            push_str(out, alt.as_str());
            push_str(out, "](");
            push_str(out, src.as_str());
            push_str(out, ")\n");
        },
        Block::HorizontalRule => push_str(out, "---\n"),
        Block::TableFromCsv(t) => {
            push_str(out, t.as_str());
            push_char(out, '\n');
        },
    }
    proof {
        if let Block::Table { headers, rows } = b {
            if headers@.len() > 0 {
                assert(rows_view(headers@)[0] == cells_view(headers@[0]@));
            }
        }
    }
    assert(out@ =~= old(out)@ + md_block(b@));
}

/// Blocks, each followed by an empty line.
pub open spec fn md_blocks(bs: Seq<BlockView>) -> Seq<char>
    decreases bs.len(),
{
    if bs.len() == 0 {
        seq![]
    } else {
        md_blocks(bs.drop_last()) + md_block(bs.last()) + seq!['\n']
    }
}

/// The Markdown output for blocks under an optional title.
pub open spec fn md_page(title: Option<Seq<char>>, bs: Seq<BlockView>) -> Seq<char> {
    (match title {
        Some(t) => "# "@ + t + "\n\n"@,
        None => seq![],
    }) + md_blocks(bs)
}

/// The Markdown output of a document.
pub fn markdown_output(doc: &Document) -> (r: String)
    ensures
        r@ == md_page(opt_view(doc.metadata.title), doc.blocks_view()),
{
    let mut out = String::new();
    match &doc.metadata.title {
        Some(t) => {
            push_str(&mut out, "# ");
            push_str(&mut out, t.as_str());
            push_str(&mut out, "\n\n");
        },
        None => {},
    }
    let ghost head = out@;
    let mut k: usize = 0;
    while k < doc.blocks.len()
        invariant
            k <= doc.blocks@.len(),
            out@ == head + md_blocks(blocks_view(doc.blocks@.take(k as int))),
        decreases doc.blocks.len() - k,
    {
        push_md_block(&mut out, &doc.blocks[k]);
        push_char(&mut out, '\n');
        proof {
            let now = blocks_view(doc.blocks@.take(k + 1));
            assert(now.drop_last() =~= blocks_view(doc.blocks@.take(k as int)));
            assert(now.last() == doc.blocks@[k as int]@);
            assert(out@ =~= head + md_blocks(now));
        }
        k = k + 1;
    }
    assert(doc.blocks@.take(k as int) =~= doc.blocks@);
    assert(out@ =~= md_page(opt_view(doc.metadata.title), doc.blocks_view()));
    out
}

/// The Markdown output of a document as UTF-8 bytes.
pub fn render_markdown_bytes(doc: &Document) -> (r: Vec<u8>)
    ensures
        r@ == vstd::utf8::encode_utf8(md_page(opt_view(doc.metadata.title), doc.blocks_view())),
{
    into_bytes(markdown_output(doc))
}

} // verus!
