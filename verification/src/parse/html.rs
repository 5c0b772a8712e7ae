//! HTML input: headings, paragraphs, code, quotes and list items found by tag.
use vstd::prelude::*;
use crate::error::FlipError;
use crate::ir::{
    plain_code, text_heading, text_paragraph, Block, BlockView, Document, Inline, InlineView,
};
use crate::strutil::{
    chars_of, collapse_whitespace, collapse_ws, copy_range, find, find_from,
    lemma_find_from_props, nonblank_lines, nonblank_lines_of, outside_tags, seqs_of, string_of,
    text_outside_tags, trim, trimmed, lemma_trim_empty,
};

verus! {

/// The contents of the `tag` elements of `s` from position `pos` on: each
/// starts after the `>` that closes an opening `<tag` and ends before the next
/// `</tag>`.
pub open spec fn tag_contents(s: Seq<char>, tag: Seq<char>, pos: int) -> Seq<Seq<char>>
    decreases s.len() - pos,
{
    let open = seq!['<'] + tag;
    let close = "</"@ + tag + seq!['>'];
    if pos < 0 || pos >= s.len() {
        seq![]
    } else {
        match find_from(s, open, pos) {
            None => seq![],
            Some(ts) => match find_from(s, seq!['>'], ts) {
                None => seq![],
                Some(te) => match find_from(s, close, te + 1) {
                    None => seq![],
                    Some(cp) => {
                        proof {
                            lemma_find_from_props(s, open, pos);
                            lemma_find_from_props(s, seq!['>'], ts);
                            lemma_find_from_props(s, close, te + 1);
                        }
                        seq![s.subrange(te + 1, cp)] + tag_contents(s, tag, cp + close.len())
                    },
                },
            },
        }
    }
}

/// What kind of block an element's text becomes.
#[derive(Clone, Copy)]
pub enum TextBlockKind {
    Heading(u8),
    Paragraph,
    Code,
    Quote,
    Item,
}

/// The block holding text `t` for an element of the given kind.
pub open spec fn text_block(kind: TextBlockKind, t: Seq<char>) -> BlockView {
    match kind {
        TextBlockKind::Heading(l) => text_heading(l, t),
        TextBlockKind::Paragraph => text_paragraph(t),
        TextBlockKind::Code => plain_code(t),
        TextBlockKind::Quote => BlockView::Blockquote(seq![InlineView::Text(t)]),
        TextBlockKind::Item => BlockView::List {
            ordered: false,
            items: seq![seq![InlineView::Text(t)]],
        },
    }
}

/// The blocks for element contents: the text of each (tags removed, white
/// space collapsed, trimmed), skipping the empty ones.
pub open spec fn text_blocks(contents: Seq<Seq<char>>, kind: TextBlockKind) -> Seq<BlockView>
    decreases contents.len(),
{
    if contents.len() == 0 {
        seq![]
    } else {
        let t = trim(collapse_ws(outside_tags(contents.last(), false)));
        let rest = text_blocks(contents.drop_last(), kind);
        if t.len() == 0 {
            rest
        } else {
            rest.push(text_block(kind, t))
        }
    }
}

/// The blocks that the tag search finds: headings `h1`..`h6`, then `p`, `pre`,
/// `blockquote` and `li` elements, each group in document order.
pub open spec fn tagged_blocks(s: Seq<char>) -> Seq<BlockView> {
    text_blocks(tag_contents(s, "h1"@, 0), TextBlockKind::Heading(1))
        + text_blocks(tag_contents(s, "h2"@, 0), TextBlockKind::Heading(2))
        + text_blocks(tag_contents(s, "h3"@, 0), TextBlockKind::Heading(3))
        + text_blocks(tag_contents(s, "h4"@, 0), TextBlockKind::Heading(4))
        + text_blocks(tag_contents(s, "h5"@, 0), TextBlockKind::Heading(5))
        + text_blocks(tag_contents(s, "h6"@, 0), TextBlockKind::Heading(6))
        + text_blocks(tag_contents(s, "p"@, 0), TextBlockKind::Paragraph)
        + text_blocks(tag_contents(s, "pre"@, 0), TextBlockKind::Code)
        + text_blocks(tag_contents(s, "blockquote"@, 0), TextBlockKind::Quote)
        + text_blocks(tag_contents(s, "li"@, 0), TextBlockKind::Item)
}

/// One paragraph per text line.
pub open spec fn line_paragraphs(lines: Seq<Seq<char>>) -> Seq<BlockView>
    decreases lines.len(),
{
    if lines.len() == 0 {
        seq![]
    } else {
        line_paragraphs(lines.drop_last()).push(text_paragraph(lines.last()))
    }
}

/// The blocks of an HTML page: the tagged blocks, or, when there are none,
/// one paragraph per non-blank line of the text outside tags (`&` dropped).
pub open spec fn html_blocks(s: Seq<char>) -> Seq<BlockView> {
    let found = tagged_blocks(s);
    if found.len() > 0 {
        found
    } else {
        line_paragraphs(nonblank_lines_of(outside_tags(s, true)))
    }
}


/// The text pieces `s[a..b]` named by a list of ranges.
pub open spec fn range_texts(s: Seq<char>, r: Seq<(usize, usize)>) -> Seq<Seq<char>> {
    r.map_values(|p: (usize, usize)| s.subrange(p.0 as int, p.1 as int))
}

/// The positions of the contents of the `tag` elements of `s` (see `tag_contents`).
pub fn find_tag_content(s: &[char], tag: &str) -> (r: Vec<(usize, usize)>)
    ensures
        forall|k: int| 0 <= k < r@.len() ==> (#[trigger] r@[k]).0 <= r@[k].1 <= s@.len(),
        range_texts(s@, r@) == tag_contents(s@, tag@, 0),
{
    let tag_chars = chars_of(tag);
    let mut open: Vec<char> = Vec::new();
    open.push('<');
    let mut close: Vec<char> = Vec::new();
    close.push('<');
    close.push('/');
    let mut j: usize = 0;
    proof {
        reveal_strlit("</");
        assert(open@ =~= seq!['<'] + tag_chars@.take(0));
        assert(close@ =~= "</"@ + tag_chars@.take(0));
    }
    while j < tag_chars.len()
        invariant
            j <= tag_chars@.len(),
            open@ == seq!['<'] + tag_chars@.take(j as int),
            close@ == "</"@ + tag_chars@.take(j as int),
        decreases tag_chars.len() - j,
    {
        proof {
            reveal_strlit("</");
        }
        open.push(tag_chars[j]);
        close.push(tag_chars[j]);
        j = j + 1;
        proof {
            assert(open@ =~= seq!['<'] + tag_chars@.take(j as int));
            assert(close@ =~= "</"@ + tag_chars@.take(j as int));
        }
    }
    close.push('>');
    let gt: Vec<char> = vec!['>'];
    proof {
        assert(tag_chars@.take(j as int) =~= tag@);
        assert(open@ =~= seq!['<'] + tag@);
        assert(close@ =~= "</"@ + tag@ + seq!['>']);
        assert(gt@ =~= seq!['>']);
    }
    let mut out: Vec<(usize, usize)> = Vec::new();
    let mut pos: usize = 0;
    while pos < s.len()
        invariant
            pos <= s@.len(),
            open@ == seq!['<'] + tag@,
            close@ == "</"@ + tag@ + seq!['>'],
            gt@ == seq!['>'],
            forall|k: int| 0 <= k < out@.len() ==> (#[trigger] out@[k]).0 <= out@[k].1 <= s@.len(),
            tag_contents(s@, tag@, 0) == range_texts(s@, out@) + tag_contents(
                s@,
                tag@,
                pos as int,
            ),
        decreases s.len() - pos,
    {
        let ts = match find(s, &open, pos) {
            Some(t) => t,
            None => {
                proof {
                    assert(range_texts(s@, out@) + Seq::<Seq<char>>::empty() =~= range_texts(s@, out@));
                }
                return out;
            },
        };
        proof {
            lemma_find_from_props(s@, open@, pos as int);
        }
        let te = match find(s, &gt, ts) {
            Some(t) => t,
            None => {
                proof {
                    assert(range_texts(s@, out@) + Seq::<Seq<char>>::empty() =~= range_texts(s@, out@));
                }
                return out;
            },
        };
        proof {
            lemma_find_from_props(s@, gt@, ts as int);
        }
        let cp = match find(s, &close, te + 1) {
            Some(t) => t,
            None => {
                proof {
                    assert(range_texts(s@, out@) + Seq::<Seq<char>>::empty() =~= range_texts(s@, out@));
                }
                return out;
            },
        };
        proof {
            lemma_find_from_props(s@, close@, te + 1);
        }
        let ghost before = out@;
        out.push((te + 1, cp));
        proof {
            assert(range_texts(s@, out@) =~= range_texts(s@, before) + seq![
                s@.subrange(te + 1, cp as int),
            ]);
        }
        pos = cp + close.len();
    }
    proof {
        if pos >= s@.len() {
            assert(tag_contents(s@, tag@, pos as int) =~= Seq::<Seq<char>>::empty());
        }
        assert(range_texts(s@, out@) + Seq::<Seq<char>>::empty() =~= range_texts(s@, out@));
    }
    out
}


/// The block holding text `t` for an element of the given kind.
pub fn make_text_block(kind: TextBlockKind, t: &str) -> (r: Block)
    ensures
        r@ == text_block(kind, t@),
{
    match kind {
        TextBlockKind::Heading(l) => Block::heading(l, t),
        TextBlockKind::Paragraph => Block::paragraph(t),
        TextBlockKind::Code => Block::code(t),
        TextBlockKind::Quote => {
            let b = Block::Blockquote(crate::ir::text_run(t));
            b
        },
        TextBlockKind::Item => {
            let mut items: Vec<Vec<Inline>> = Vec::new();
            items.push(crate::ir::text_run(t));
            let b = Block::List { ordered: false, items };
            proof {
                assert(crate::ir::cells_view(items@) =~= seq![seq![InlineView::Text(t@)]]);
            }
            b
        },
    }
}

/// Adds the blocks for the `tag` elements of `s`.
pub fn push_tag_blocks(doc: &mut Document, s: &[char], tag: &str, kind: TextBlockKind)
    ensures
        final(doc).metadata == old(doc).metadata,
        final(doc).blocks_view() == old(doc).blocks_view() + text_blocks(
            tag_contents(s@, tag@, 0),
            kind,
        ),
{
    let ranges = find_tag_content(s, tag);
    let mut k: usize = 0;
    while k < ranges.len()
        invariant
            k <= ranges@.len(),
            forall|m: int| 0 <= m < ranges@.len() ==> (#[trigger] ranges@[m]).0 <= ranges@[m].1
                <= s@.len(),
            doc.metadata == old(doc).metadata,
            doc.blocks_view() == old(doc).blocks_view() + text_blocks(
                range_texts(s@, ranges@).take(k as int),
                kind,
            ),
        decreases ranges.len() - k,
    {
        let (a, b) = ranges[k];
        proof {
            assert(ranges@[k as int].0 <= ranges@[k as int].1 <= s@.len());
        }
        let raw = text_outside_tags(s, a, b, false);
        let text = collapse_whitespace(&raw);
        let t = trimmed(&text);
        let ghost before = doc.blocks_view();
        proof {
            let rt = range_texts(s@, ranges@);
            assert(rt.take(k + 1).drop_last() =~= rt.take(k as int));
            assert(rt.take(k + 1).last() == s@.subrange(a as int, b as int));
        }
        if t.len() > 0 {
            let ts = string_of(&t);
            doc.push_block(make_text_block(kind, ts.as_str()));
            proof {
                assert(doc.blocks_view() =~= old(doc).blocks_view() + text_blocks(
                    range_texts(s@, ranges@).take(k + 1),
                    kind,
                ));
            }
        }
        k = k + 1;
    }
    assert(range_texts(s@, ranges@).take(k as int) =~= range_texts(s@, ranges@));
}

/// Adds one paragraph per line.
pub fn push_line_paragraphs(doc: &mut Document, lines: &Vec<Vec<char>>)
    ensures
        final(doc).metadata == old(doc).metadata,
        final(doc).blocks_view() == old(doc).blocks_view() + line_paragraphs(seqs_of(lines@)),
{
    let mut k: usize = 0;
    while k < lines.len()
        invariant
            k <= lines@.len(),
            doc.metadata == old(doc).metadata,
            doc.blocks_view() == old(doc).blocks_view() + line_paragraphs(
                seqs_of(lines@).take(k as int),
            ),
        decreases lines.len() - k,
    {
        let ls = string_of(&lines[k]);
        doc.push_block(Block::paragraph(ls.as_str()));
        proof {
            let sv = seqs_of(lines@);
            assert(sv.take(k + 1).drop_last() =~= sv.take(k as int));
            assert(sv.take(k + 1).last() == lines@[k as int]@);
            assert(doc.blocks_view() =~= old(doc).blocks_view() + line_paragraphs(
                sv.take(k + 1),
            ));
        }
        k = k + 1;
    }
    assert(seqs_of(lines@).take(k as int) =~= seqs_of(lines@));
}

/// The blocks that `extract_blocks` leaves in a document that had `before`.
pub open spec fn extracted_blocks(before: Seq<BlockView>, s: Seq<char>) -> Seq<BlockView> {
    let found = before + tagged_blocks(s);
    if found.len() > 0 {
        found
    } else {
        line_paragraphs(nonblank_lines_of(outside_tags(s, true)))
    }
}

/// Adds the blocks found by tag to `doc`; when the document is still empty,
/// adds one paragraph per non-blank line of the page's text instead.
pub fn extract_blocks(s: &[char], doc: &mut Document)
    ensures
        final(doc).metadata == old(doc).metadata,
        final(doc).blocks_view() == extracted_blocks(old(doc).blocks_view(), s@),
{
    push_tag_blocks(doc, s, "h1", TextBlockKind::Heading(1));
    push_tag_blocks(doc, s, "h2", TextBlockKind::Heading(2));
    push_tag_blocks(doc, s, "h3", TextBlockKind::Heading(3));
    push_tag_blocks(doc, s, "h4", TextBlockKind::Heading(4));
    push_tag_blocks(doc, s, "h5", TextBlockKind::Heading(5));
    push_tag_blocks(doc, s, "h6", TextBlockKind::Heading(6));
    push_tag_blocks(doc, s, "p", TextBlockKind::Paragraph);
    push_tag_blocks(doc, s, "pre", TextBlockKind::Code);
    push_tag_blocks(doc, s, "blockquote", TextBlockKind::Quote);
    push_tag_blocks(doc, s, "li", TextBlockKind::Item);
    assert(doc.blocks_view() =~= old(doc).blocks_view() + tagged_blocks(s@));
    if doc.blocks.len() == 0 {
        let text = text_outside_tags(s, 0, s.len(), true);
        proof {
            assert(s@.subrange(0, s@.len() as int) =~= s@);
        }
        let lines = nonblank_lines(&text);
        let ghost before = doc.blocks_view();
        push_line_paragraphs(doc, &lines);
        proof {
            assert(before =~= Seq::<BlockView>::empty());
            assert(doc.blocks_view() =~= line_paragraphs(nonblank_lines_of(outside_tags(s@, true))));
        }
    }
}

/// Reads an HTML page held in a string.
pub fn parse_html_str(html: &str) -> (r: Result<Document, FlipError>)
    ensures
        r matches Ok(d) && d.metadata.only_source("html"@) && d.blocks_view() == html_blocks(
            html@,
        ),
{
    let s = chars_of(html);
    let mut doc = Document::new();
    doc.metadata = crate::ir::Metadata::with_source("html");
    extract_blocks(&s, &mut doc);
    assert(doc.blocks_view() == html_blocks(html@));
    Ok(doc)
}

} // verus!
