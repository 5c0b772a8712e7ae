//! HTML output.
use vstd::prelude::*;
use crate::ir::{
    blocks_view, cells_view, inlines_view, opt_view, rows_view, Block, BlockView, Document,
    Inline, InlineView,
};
use crate::strutil::{chars_of, decimal, into_bytes, push_char, push_decimal, push_str};

verus! {

/// The HTML escape of one character.
pub open spec fn html_char(c: char) -> Seq<char> {
    if c == '&' {
        "&amp;"@
    } else if c == '<' {
        "&lt;"@
    } else if c == '>' {
        "&gt;"@
    } else if c == '"' {
        "&quot;"@
    } else if c == '\'' {
        "&#39;"@
    } else {
        seq![c]
    }
}

/// `s` with `&`, `<`, `>`, `"` and `'` replaced by their entities.
pub open spec fn escape_html(s: Seq<char>) -> Seq<char>
    decreases s.len(),
{
    if s.len() == 0 {
        seq![]
    } else {
        escape_html(s.drop_last()) + html_char(s.last())
    }
}

/// Appends the HTML escape of `s`.
pub fn push_escaped_html(out: &mut String, s: &str)
    ensures
        final(out)@ == old(out)@ + escape_html(s@),
{
    let cs = chars_of(s);
    let mut i: usize = 0;
    while i < cs.len()
        invariant
            i <= cs@.len(),
            cs@ == s@,
            out@ == old(out)@ + escape_html(cs@.take(i as int)),
        decreases cs.len() - i,
    {
        let c = cs[i];
        if c == '&' {
            push_str(out, "&amp;");
        } else if c == '<' {
            push_str(out, "&lt;");
        } else if c == '>' {
            push_str(out, "&gt;");
        } else if c == '"' {
            push_str(out, "&quot;");
        } else if c == '\'' {
            push_str(out, "&#39;");
        } else {
            push_char(out, c);
        }
        proof {
            assert(cs@.take(i + 1).drop_last() =~= cs@.take(i as int));
            assert(cs@.take(i + 1).last() == c);
        }
        i = i + 1;
    }
    assert(cs@.take(i as int) =~= cs@);
}

/// The HTML of an inline.
pub open spec fn html_inline(i: InlineView) -> Seq<char>
    decreases i, 0int,
{
    match i {
        InlineView::Text(t) => escape_html(t),
        InlineView::Bold(c) => "<strong>"@ + html_inlines(c) + "</strong>"@,
        InlineView::Italic(c) => "<em>"@ + html_inlines(c) + "</em>"@,
        InlineView::Strikethrough(c) => "<del>"@ + html_inlines(c) + "</del>"@,
        InlineView::Code(t) => "<code>"@ + escape_html(t) + "</code>"@,
        InlineView::Link { text, url } => "<a href=\""@ + escape_html(url) + "\">"@ + html_inlines(
            text,
        ) + "</a>"@,
        InlineView::Image { alt, src } => "<img src=\""@ + escape_html(src) + "\" alt=\""@
            + escape_html(alt) + "\">"@,
        InlineView::Superscript(c) => "<sup>"@ + html_inlines(c) + "</sup>"@,
        InlineView::Subscript(c) => "<sub>"@ + html_inlines(c) + "</sub>"@,
    }
}

/// The HTML of a run of inlines.
pub open spec fn html_inlines(s: Seq<InlineView>) -> Seq<char>
    decreases s, 1int,
{
    if s.len() == 0 {
        seq![]
    } else {
        html_inlines(s.drop_last()) + html_inline(s.last())
    }
}

fn push_wrapped(out: &mut String, open: &str, v: &Vec<Inline>, close: &str)
    ensures
        final(out)@ == old(out)@ + open@ + html_inlines(inlines_view(v@)) + close@,
    decreases v, 2int,
{
    push_str(out, open);
    push_html_inlines(out, v);
    push_str(out, close);
    assert(out@ =~= old(out)@ + open@ + html_inlines(inlines_view(v@)) + close@);
}

/// Appends the HTML of `i`.
pub fn push_html_inline(out: &mut String, i: &Inline)
    ensures
        final(out)@ == old(out)@ + html_inline(i@),
    decreases i, 0int,
{
    match i {
        Inline::Text(t) => push_escaped_html(out, t.as_str()),
        Inline::Bold(c) => push_wrapped(out, "<strong>", c, "</strong>"),
        Inline::Italic(c) => push_wrapped(out, "<em>", c, "</em>"),
        Inline::Strikethrough(c) => push_wrapped(out, "<del>", c, "</del>"),
        Inline::Code(t) => {
            push_str(out, "<code>");
            push_escaped_html(out, t.as_str());
            push_str(out, "</code>");
        },
        Inline::Link { text, url } => {
            push_str(out, "<a href=\"");
            push_escaped_html(out, url.as_str());
            push_str(out, "\">");
            push_html_inlines(out, text);
            push_str(out, "</a>");
        },
        Inline::Image { alt, src } => {
            push_str(out, "<img src=\"");
            push_escaped_html(out, src.as_str());
            push_str(out, "\" alt=\"");
            push_escaped_html(out, alt.as_str());
            push_str(out, "\">");
        },
        Inline::Superscript(c) => push_wrapped(out, "<sup>", c, "</sup>"),
        Inline::Subscript(c) => push_wrapped(out, "<sub>", c, "</sub>"),
    }
    assert(out@ =~= old(out)@ + html_inline(i@));
}

/// Appends the HTML of a run of inlines.
pub fn push_html_inlines(out: &mut String, v: &Vec<Inline>)
    ensures
        final(out)@ == old(out)@ + html_inlines(inlines_view(v@)),
    decreases v, 1int,
{
    let mut k: usize = 0;
    while k < v.len()
        invariant
            k <= v@.len(),
            out@ == old(out)@ + html_inlines(inlines_view(v@.take(k as int))),
        decreases v.len() - k,
    {
        push_html_inline(out, &v[k]);
        proof {
            let pre = v@.take(k as int);
            assert(v@.take(k + 1).drop_last() =~= pre);
            assert(inlines_view(v@.take(k + 1)) == inlines_view(pre).push(v@[k as int]@));
            assert(inlines_view(pre).push(v@[k as int]@).drop_last() =~= inlines_view(pre));
        }
        k = k + 1;
    }
    assert(v@.take(k as int) =~= v@);
}

/// The table cells of a row, each in a `tag` element on a line of its own.
pub open spec fn html_cells(cells: Seq<Seq<InlineView>>, tag: Seq<char>) -> Seq<char>
    decreases cells.len(),
{
    if cells.len() == 0 {
        seq![]
    } else {
        html_cells(cells.drop_last(), tag) + "<"@ + tag + ">"@ + html_inlines(cells.last()) + "</"@
            + tag + ">\n"@
    }
}

/// Table rows, each a `tr` element holding its cells.
pub open spec fn html_rows(rows: Seq<Seq<Seq<InlineView>>>, tag: Seq<char>) -> Seq<char>
    decreases rows.len(),
{
    if rows.len() == 0 {
        seq![]
    } else {
        html_rows(rows.drop_last(), tag) + "<tr>\n"@ + html_cells(rows.last(), tag) + "</tr>\n"@
    }
}

/// List items, each an `li` element on a line of its own.
pub open spec fn html_items(items: Seq<Seq<InlineView>>) -> Seq<char>
    decreases items.len(),
{
    if items.len() == 0 {
        seq![]
    } else {
        html_items(items.drop_last()) + "<li>"@ + html_inlines(items.last()) + "</li>\n"@
    }
}

/// The HTML of a block.
pub open spec fn html_block(b: BlockView) -> Seq<char> {
    match b {
        BlockView::Paragraph(c) => "<p>"@ + html_inlines(c) + "</p>\n"@,
        BlockView::Heading { level, content } => "<h"@ + decimal(level as nat) + ">"@
            + html_inlines(content) + "</h"@ + decimal(level as nat) + ">\n"@,
        BlockView::Code { language, content } => match language {
            Some(l) => "<pre><code class=\"language-"@ + escape_html(l) + "\">"@ + escape_html(
                content,
            ) + "</code></pre>\n"@,
            None => "<pre><code>"@ + escape_html(content) + "</code></pre>\n"@,
        },
        BlockView::List { ordered, items } => {
            let tag = if ordered {
                "ol"@
            } else {
                "ul"@
            };
            "<"@ + tag + ">\n"@ + html_items(items) + "</"@ + tag + ">\n"@
        },
        BlockView::Blockquote(c) => "<blockquote>"@ + html_inlines(c) + "</blockquote>\n"@,
        BlockView::Table { headers, rows } => "<table>\n"@ + (if headers.len() > 0 {
            "<thead>\n"@ + html_rows(headers, "th"@) + "</thead>\n"@
        } else {
            seq![]
        }) + (if rows.len() > 0 {
            "<tbody>\n"@ + html_rows(rows, "td"@) + "</tbody>\n"@
        } else {
            seq![]
        }) + "</table>\n"@,
        BlockView::Image { src, alt, width: _, height: _ } => "<figure><img src=\""@ + escape_html(
            src,
        ) + "\" alt=\""@ + escape_html(alt) + "\"><figcaption>"@ + escape_html(alt)
            + "</figcaption></figure>\n"@,
        BlockView::HorizontalRule => "<hr>\n"@,
        BlockView::TableFromCsv(t) => "<pre>"@ + escape_html(t) + "</pre>\n"@,
    }
}

/// The HTML of a sequence of blocks.
pub open spec fn html_blocks(bs: Seq<BlockView>) -> Seq<char>
    decreases bs.len(),
{
    if bs.len() == 0 {
        seq![]
    } else {
        html_blocks(bs.drop_last()) + html_block(bs.last())
    }
}

fn push_html_cells(out: &mut String, cells: &Vec<Vec<Inline>>, tag: &str)
    ensures
        final(out)@ == old(out)@ + html_cells(cells_view(cells@), tag@),
{
    let mut k: usize = 0;
    while k < cells.len()
        invariant
            k <= cells@.len(),
            out@ == old(out)@ + html_cells(cells_view(cells@.take(k as int)), tag@),
        decreases cells.len() - k,
    {
        let ghost before = out@;
        push_str(out, "<");
        push_str(out, tag);
        push_str(out, ">");
        push_html_inlines(out, &cells[k]);
        push_str(out, "</");
        push_str(out, tag);
        push_str(out, ">\n");
        proof {
            let pre = cells_view(cells@.take(k as int));
            let now = cells_view(cells@.take(k + 1));
            assert(now.drop_last() =~= pre);
            assert(now.last() == inlines_view(cells@[k as int]@));
            assert(out@ =~= old(out)@ + html_cells(now, tag@));
        }
        k = k + 1;
    }
    assert(cells@.take(k as int) =~= cells@);
}

fn push_html_rows(out: &mut String, rows: &Vec<Vec<Vec<Inline>>>, tag: &str)
    ensures
        final(out)@ == old(out)@ + html_rows(rows_view(rows@), tag@),
{
    let mut k: usize = 0;
    while k < rows.len()
        invariant
            k <= rows@.len(),
            out@ == old(out)@ + html_rows(rows_view(rows@.take(k as int)), tag@),
        decreases rows.len() - k,
    {
        push_str(out, "<tr>\n");
        push_html_cells(out, &rows[k], tag);
        push_str(out, "</tr>\n");
        proof {
            let pre = rows_view(rows@.take(k as int));
            let now = rows_view(rows@.take(k + 1));
            assert(now.drop_last() =~= pre);
            assert(now.last() == cells_view(rows@[k as int]@));
            assert(out@ =~= old(out)@ + html_rows(now, tag@));
        }
        k = k + 1;
    }
    assert(rows@.take(k as int) =~= rows@);
}

fn push_html_items(out: &mut String, items: &Vec<Vec<Inline>>)
    ensures
        final(out)@ == old(out)@ + html_items(cells_view(items@)),
{
    let mut k: usize = 0;
    while k < items.len()
        invariant
            k <= items@.len(),
            out@ == old(out)@ + html_items(cells_view(items@.take(k as int))),
        decreases items.len() - k,
    {
        push_wrapped(out, "<li>", &items[k], "</li>\n");
        proof {
            let pre = cells_view(items@.take(k as int));
            let now = cells_view(items@.take(k + 1));
            assert(now.drop_last() =~= pre);
            assert(now.last() == inlines_view(items@[k as int]@));
            assert(out@ =~= old(out)@ + html_items(now));
        }
        k = k + 1;
    }
    assert(items@.take(k as int) =~= items@);
}

/// Appends the HTML of a block.
#[verifier::rlimit(40)]
pub fn push_html_block(out: &mut String, b: &Block)
    ensures
        final(out)@ == old(out)@ + html_block(b@),
{
    match b {
        Block::Paragraph(c) => push_wrapped(out, "<p>", c, "</p>\n"),
        Block::Heading { level, content } => {
            push_str(out, "<h");
            push_decimal(out, *level as u64);
            push_str(out, ">");
            push_html_inlines(out, content);
            push_str(out, "</h");
            push_decimal(out, *level as u64);
            push_str(out, ">\n");
        },
        Block::Code { language, content } => match language {
            Some(l) => {
                push_str(out, "<pre><code class=\"language-");
                push_escaped_html(out, l.as_str());
                push_str(out, "\">");
                push_escaped_html(out, content.as_str());
                push_str(out, "</code></pre>\n");
            },
            None => {
                push_str(out, "<pre><code>");
                push_escaped_html(out, content.as_str());
                push_str(out, "</code></pre>\n");
            },
        },
        Block::List { ordered, items } => {
            let tag = if *ordered {
                "ol"
            } else {
                "ul"
            };
            push_str(out, "<");
            push_str(out, tag);
            push_str(out, ">\n");
            push_html_items(out, items);
            push_str(out, "</");
            push_str(out, tag);
            push_str(out, ">\n");
        },
        Block::Blockquote(c) => push_wrapped(out, "<blockquote>", c, "</blockquote>\n"),
        Block::Table { headers, rows } => {
            push_str(out, "<table>\n");
            if headers.len() > 0 {
                push_str(out, "<thead>\n");
                push_html_rows(out, headers, "th");
                push_str(out, "</thead>\n");
            }
            if rows.len() > 0 {
                push_str(out, "<tbody>\n");
                push_html_rows(out, rows, "td");
                push_str(out, "</tbody>\n");
            }
            push_str(out, "</table>\n");
        },
        Block::Image { src, alt, .. } => {
            push_str(out, "<figure><img src=\"");
            push_escaped_html(out, src.as_str());
            push_str(out, "\" alt=\"");
            push_escaped_html(out, alt.as_str());
            push_str(out, "\"><figcaption>");
            push_escaped_html(out, alt.as_str());
            push_str(out, "</figcaption></figure>\n");
        },
        Block::HorizontalRule => push_str(out, "<hr>\n"),
        Block::TableFromCsv(t) => {
            push_str(out, "<pre>");
            push_escaped_html(out, t.as_str());
            push_str(out, "</pre>\n");
        },
    }
    assert(out@ =~= old(out)@ + html_block(b@));
}

/// The HTML page for blocks `bs` under an optional title, with `style` as its
/// style sheet.
pub open spec fn html_page(title: Option<Seq<char>>, style: Seq<char>, bs: Seq<BlockView>) -> Seq<char> {
    "<!DOCTYPE html>\n<html lang=\"en\">\n<head>\n"@ + "<meta charset=\"UTF-8\">\n"@
        + "<meta name=\"viewport\" content=\"width=device-width, initial-scale=1.0\">\n"@
        + match title {
        Some(t) => "<title>"@ + escape_html(t) + "</title>\n"@,
        None => "<title>flip output</title>\n"@,
    } + "<style>\n"@ + style + "</style>\n"@ + "</head>\n<body>\n<main>\n"@ + html_blocks(bs)
        + "</main>\n</body>\n</html>"@
}

/// The HTML page of a document, with `style` as its style sheet.
pub fn html_text(doc: &Document, style: &str) -> (r: String)
    ensures
        r@ == html_page(opt_view(doc.metadata.title), style@, doc.blocks_view()),
{
    let mut out = String::new();
    push_str(&mut out, "<!DOCTYPE html>\n<html lang=\"en\">\n<head>\n");
    push_str(&mut out, "<meta charset=\"UTF-8\">\n");
    push_str(
        &mut out,
        "<meta name=\"viewport\" content=\"width=device-width, initial-scale=1.0\">\n",
    );
    match &doc.metadata.title {
        Some(t) => {
            push_str(&mut out, "<title>");
            push_escaped_html(&mut out, t.as_str());
            push_str(&mut out, "</title>\n");
        },
        None => push_str(&mut out, "<title>flip output</title>\n"),
    }
    push_str(&mut out, "<style>\n");
    push_str(&mut out, style);
    push_str(&mut out, "</style>\n");
    push_str(&mut out, "</head>\n<body>\n<main>\n");
    let ghost head = out@;
    let mut k: usize = 0;
    while k < doc.blocks.len()
        invariant
            k <= doc.blocks@.len(),
            out@ == head + html_blocks(blocks_view(doc.blocks@.take(k as int))),
        decreases doc.blocks.len() - k,
    {
        push_html_block(&mut out, &doc.blocks[k]);
        proof {
            let pre = blocks_view(doc.blocks@.take(k as int));
            let now = blocks_view(doc.blocks@.take(k + 1));
            assert(now.drop_last() =~= pre);
            assert(now.last() == doc.blocks@[k as int]@);
            assert(out@ =~= head + html_blocks(now));
        }
        k = k + 1;
    }
    assert(doc.blocks@.take(k as int) =~= doc.blocks@);
    push_str(&mut out, "</main>\n</body>\n</html>");
    assert(out@ =~= html_page(opt_view(doc.metadata.title), style@, doc.blocks_view()));
    out
}

/// The HTML page of a document as UTF-8 bytes, with `style` as its style
/// sheet.
pub fn render_html_bytes(doc: &Document, style: &str) -> (r: Vec<u8>)
    ensures
        r@ == vstd::utf8::encode_utf8(
            html_page(opt_view(doc.metadata.title), style@, doc.blocks_view()),
        ),
{
    into_bytes(html_text(doc, style))
}

} // verus!
