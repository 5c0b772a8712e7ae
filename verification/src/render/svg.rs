//! SVG output: paragraphs, headings and code lines laid out top down on an
//! 800 by 600 canvas.
use vstd::prelude::*;
use crate::ir::{blocks_view, inlines_plain_text, inlines_text, Block, BlockView, Document};
use crate::strutil::{all_lines, chars_of, decimal, into_bytes, lines, push_char, push_decimal, push_str, seqs_of};

verus! {

/// The XML escape of one character.
pub open spec fn xml_char(c: char) -> Seq<char> {
    if c == '&' {
        "&amp;"@
    } else if c == '<' {
        "&lt;"@
    } else if c == '>' {
        "&gt;"@
    } else if c == '"' {
        "&quot;"@
    } else {
        seq![c]
    }
}

/// `s` with `&`, `<`, `>` and `"` replaced by their entities.
pub open spec fn escape_xml(s: Seq<char>) -> Seq<char>
    decreases s.len(),
{
    if s.len() == 0 {
        seq![]
    } else {
        escape_xml(s.drop_last()) + xml_char(s.last())
    }
}

/// Appends the XML escape of the characters `cs`.
pub fn push_escaped_xml_chars(out: &mut String, cs: &Vec<char>)
    ensures
        final(out)@ == old(out)@ + escape_xml(cs@),
{
    let mut i: usize = 0;
    while i < cs.len()
        invariant
            i <= cs@.len(),
            out@ == old(out)@ + escape_xml(cs@.take(i as int)),
        decreases cs.len() - i,
    {
        let c = cs[i];
        if c == '&' {
            push_str(out, "&amp;");
        } else if c == '<' {
            push_str(out, "&lt;");
        } else if c == '>' {
            push_str(out, "&gt;");
        } else if c == '"' {
            push_str(out, "&quot;");
        } else {
            push_char(out, c);
        }
        proof {
            assert(cs@.take(i + 1).drop_last() =~= cs@.take(i as int));
            assert(cs@.take(i + 1).last() == c);
        }
        i = i + 1;
    }
    assert(cs@.take(i as int) =~= cs@);
}

/// Appends the XML escape of `s`.
pub fn push_escaped_xml(out: &mut String, s: &str)
    ensures
        final(out)@ == old(out)@ + escape_xml(s@),
{
    let cs = chars_of(s);
    push_escaped_xml_chars(out, &cs);
}

/// The font size of a heading level.
pub open spec fn heading_size(level: u8) -> int {
    if level == 1 {
        24
    } else if level == 2 {
        20
    } else if level == 3 {
        16
    } else {
        14
    }
}

/// Code lines from height `y` down, 18 apart.
pub open spec fn svg_code_lines(ls: Seq<Seq<char>>, y: int) -> Seq<char>
    decreases ls.len(),
{
    if ls.len() == 0 {
        seq![]
    } else {
        "<text x=\"30\" y=\""@ + decimal(y as nat)
            + "\" font-family=\"monospace\" font-size=\"12\" fill=\"#555\">"@ + escape_xml(ls[0])
            + "</text>\n"@ + svg_code_lines(ls.drop_first(), y + 18)
    }
}

/// The elements of a block drawn at height `y`, and the height of the next
/// block. Blocks other than paragraphs, headings and code are skipped.
pub open spec fn svg_block(b: BlockView, y: int) -> (Seq<char>, int) {
    match b {
        BlockView::Paragraph(c) => (
            "<text x=\"20\" y=\""@ + decimal(y as nat)
                + "\" font-family=\"sans-serif\" font-size=\"14\" fill=\"#333\">"@ + escape_xml(
                inlines_text(c),
            ) + "</text>\n"@,
            y + 24,
        ),
        BlockView::Heading { level, content } => (
            "<text x=\"20\" y=\""@ + decimal(y as nat) + "\" font-family=\"sans-serif\" font-size=\""@
                + decimal(heading_size(level) as nat) + "\" font-weight=\"bold\" fill=\"#000\">"@
                + escape_xml(inlines_text(content)) + "</text>\n"@,
            y + heading_size(level) * 3 / 2,
        ),
        BlockView::Code { language: _, content } => (
            svg_code_lines(lines(content), y),
            y + 18 * lines(content).len() + 8,
        ),
        _ => (seq![], y),
    }
}

/// The elements of blocks from height `y` on; drawing stops at the first
/// block that would start at height 560 or below.
pub open spec fn svg_body(bs: Seq<BlockView>, y: int) -> Seq<char>
    decreases bs.len(),
{
    if bs.len() == 0 || y >= 560 {
        seq![]
    } else {
        svg_block(bs[0], y).0 + svg_body(bs.drop_first(), svg_block(bs[0], y).1)
    }
}

/// The SVG image of a sequence of blocks.
pub open spec fn svg_page(bs: Seq<BlockView>) -> Seq<char> {
    "<svg xmlns=\"http://www.w3.org/2000/svg\" width=\"800\" height=\"600\" viewBox=\"0 0 800 600\">\n"@
        + "<rect width=\"100%\" height=\"100%\" fill=\"white\"/>\n"@ + svg_body(bs, 40)
        + "</svg>"@
}

/// A block drawn at height `y` keeps every height it reaches within `i32`:
/// a code block's lines, 18 apart, and the 8 after them.
pub open spec fn svg_block_fits(b: BlockView, y: int) -> bool {
    b matches BlockView::Code { content, .. } ==> y + 18 * lines(content).len() + 8 <= i32::MAX
}

/// Every block that gets drawn from height `y` on keeps its heights within
/// `i32`.
pub open spec fn svg_fits_from(bs: Seq<BlockView>, y: int) -> bool
    decreases bs.len(),
{
    bs.len() == 0 || y >= 560 || (svg_block_fits(bs[0], y) && svg_fits_from(
        bs.drop_first(),
        svg_block(bs[0], y).1,
    ))
}

/// The heights of the SVG image of the blocks stay within `i32`.
pub open spec fn svg_fits(bs: Seq<BlockView>) -> bool {
    svg_fits_from(bs, 40)
}

fn push_svg_block(out: &mut String, b: &Block, y: i32) -> (ny: i32)
    requires
        40 <= y < 560,
        svg_block_fits(b@, y as int),
    ensures
        final(out)@ == old(out)@ + svg_block(b@, y as int).0,
        ny == svg_block(b@, y as int).1,
        ny >= y,
{
    match b {
        Block::Paragraph(c) => {
            push_str(out, "<text x=\"20\" y=\"");
            push_decimal(out, y as u64);
            push_str(out, "\" font-family=\"sans-serif\" font-size=\"14\" fill=\"#333\">");
            let t = inlines_plain_text(c);
            push_escaped_xml(out, t.as_str());
            push_str(out, "</text>\n");
            assert(out@ =~= old(out)@ + svg_block(b@, y as int).0);
            y + 24
        },
        Block::Heading { level, content } => {
            let size: i32 = if *level == 1 {
                24
            } else if *level == 2 {
                20
            } else if *level == 3 {
                16
            } else {
                14
            };
            push_str(out, "<text x=\"20\" y=\"");
            push_decimal(out, y as u64);
            push_str(out, "\" font-family=\"sans-serif\" font-size=\"");
            push_decimal(out, size as u64);
            push_str(out, "\" font-weight=\"bold\" fill=\"#000\">");
            let t = inlines_plain_text(content);
            push_escaped_xml(out, t.as_str());
            push_str(out, "</text>\n");
            assert(out@ =~= old(out)@ + svg_block(b@, y as int).0);
            y + size * 3 / 2
        },
        Block::Code { content, .. } => {
            let cs = chars_of(content.as_str());
            let ls = all_lines(&cs);
            let ghost lv = seqs_of(ls@);
            let mut yy: i32 = y;
            let mut k: usize = 0;
            assert(lv.skip(0) =~= lv);
            while k < ls.len()
                invariant
                    k <= ls@.len(),
                    lv == seqs_of(ls@),
                    lv.len() == ls@.len(),
                    y + 18 * lv.len() + 8 <= i32::MAX,
                    40 <= y < 560,
                    yy == y + 18 * k,
                    old(out)@ + svg_code_lines(lv, y as int) == out@ + svg_code_lines(
                        lv.skip(k as int),
                        yy as int,
                    ),
                decreases ls.len() - k,
            {
                let ghost before = out@;
                push_str(out, "<text x=\"30\" y=\"");
                push_decimal(out, yy as u64);
                push_str(out, "\" font-family=\"monospace\" font-size=\"12\" fill=\"#555\">");
                push_escaped_xml_chars(out, &ls[k]);
                push_str(out, "</text>\n");
                proof {
                    let rest = lv.skip(k as int);
                    assert(rest[0] == ls@[k as int]@);
                    assert(rest.drop_first() =~= lv.skip(k + 1));
                    assert(out@ =~= before + "<text x=\"30\" y=\""@ + decimal(yy as nat)
                        + "\" font-family=\"monospace\" font-size=\"12\" fill=\"#555\">"@
                        + escape_xml(rest[0]) + "</text>\n"@);
                }
                yy = yy + 18;
                k = k + 1;
            }
            proof {
                assert(lv.skip(k as int).len() == 0);
                assert(out@ =~= old(out)@ + svg_code_lines(lv, y as int));
            }
            yy + 8
        },
        _ => y,
    }
}

/// The SVG image of a document.
pub fn svg_output(doc: &Document) -> (r: String)
    requires
        svg_fits(doc.blocks_view()),
    ensures
        r@ == svg_page(doc.blocks_view()),
{
    let mut out = String::new();
    push_str(
        &mut out,
        "<svg xmlns=\"http://www.w3.org/2000/svg\" width=\"800\" height=\"600\" viewBox=\"0 0 800 600\">\n",
    );
    push_str(&mut out, "<rect width=\"100%\" height=\"100%\" fill=\"white\"/>\n");
    let ghost bs = doc.blocks_view();
    let ghost head = out@;
    let mut y: i32 = 40;
    let mut k: usize = 0;
    assert(bs.skip(0) =~= bs);
    while k < doc.blocks.len() && y < 560
        invariant
            k <= doc.blocks@.len(),
            bs == doc.blocks_view(),
            bs.len() == doc.blocks@.len(),
            svg_fits_from(bs.skip(k as int), y as int),
            40 <= y,
            head + svg_body(bs, 40) == out@ + svg_body(bs.skip(k as int), y as int),
        decreases doc.blocks.len() - k,
    {
        proof {
            assert(bs[k as int] == doc.blocks@[k as int]@);
            assert(bs.skip(k as int)[0] == bs[k as int]);
        }
        let ny = push_svg_block(&mut out, &doc.blocks[k], y);
        proof {
            let rest = bs.skip(k as int);
            assert(rest[0] == bs[k as int]);
            assert(rest.drop_first() =~= bs.skip(k + 1));
        }
        y = ny;
        k = k + 1;
    }
    proof {
        if k == doc.blocks.len() {
            assert(bs.skip(k as int).len() == 0);
        }
    }
    push_str(&mut out, "</svg>");
    assert(out@ =~= svg_page(bs));
    out
}

/// The SVG image of a document as UTF-8 bytes.
pub fn render_svg_bytes(doc: &Document) -> (r: Vec<u8>)
    requires
        svg_fits(doc.blocks_view()),
    ensures
        r@ == vstd::utf8::encode_utf8(svg_page(doc.blocks_view())),
{
    into_bytes(svg_output(doc))
}

} // verus!
