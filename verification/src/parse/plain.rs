//! Plain text, SVG and RTF input.
use vstd::prelude::*;
use crate::error::FlipError;
use crate::ir::{text_paragraph, Block, BlockView, Document, Metadata};
use crate::parse::html::{line_paragraphs, push_line_paragraphs};
use crate::strutil::{
    alphabetic, chars_of, is_alphabetic, nonblank_lines, nonblank_lines_of, outside_tags,
    text_outside_tags,
};

verus! {

/// The blocks of a plain text: one paragraph per non-blank line, trimmed.
pub open spec fn text_blocks(s: Seq<char>) -> Seq<BlockView> {
    line_paragraphs(nonblank_lines_of(s))
}

/// Reads a plain text held in a string.
pub fn parse_text_str(content: &str) -> (r: Result<Document, FlipError>)
    ensures
        r matches Ok(d) && d.metadata.only_source("text"@) && d.blocks_view() == text_blocks(
            content@,
        ),
{
    let mut doc = Document::new();
    doc.metadata = Metadata::with_source("text");
    let cs = chars_of(content);
    let lines = nonblank_lines(&cs);
    push_line_paragraphs(&mut doc, &lines);
    assert(doc.blocks_view() =~= text_blocks(content@));
    Ok(doc)
}

/// The blocks of an SVG image: a title paragraph, one paragraph per non-blank
/// line of the text outside tags and, when no such line exists, the source
/// itself as an `svg` code block.
pub open spec fn svg_blocks(s: Seq<char>) -> Seq<BlockView> {
    let bs = seq![text_paragraph("SVG Document"@)] + line_paragraphs(
        nonblank_lines_of(outside_tags(s, false)),
    );
    if bs.len() <= 1 {
        bs.push(BlockView::Code { language: Some("svg"@), content: s })
    } else {
        bs
    }
}

/// Reads an SVG image held in a string.
pub fn parse_svg_str(content: &str) -> (r: Result<Document, FlipError>)
    ensures
        r matches Ok(d) && d.metadata.only_source("svg"@) && d.blocks_view() == svg_blocks(
            content@,
        ),
{
    let mut doc = Document::new();
    doc.metadata = Metadata::with_source("svg");
    doc.push_block(Block::paragraph("SVG Document"));
    let cs = chars_of(content);
    let text = text_outside_tags(&cs, 0, cs.len(), false);
    assert(cs@.subrange(0, cs@.len() as int) =~= cs@);
    let lines = nonblank_lines(&text);
    push_line_paragraphs(&mut doc, &lines);
    if doc.blocks.len() <= 1 {
        doc.push_block(Block::Code { language: Some("svg".to_owned()), content: content.to_owned() });
    }
    assert(doc.blocks_view() =~= svg_blocks(content@));
    Ok(doc)
}

/// The text of an RTF source after reading `s`, and whether a control word is
/// being skipped: `\` starts a control word, braces are dropped, the letters of
/// a control word are dropped, and the first other character ends it (and is
/// dropped too).
pub open spec fn rtf_scan(s: Seq<char>) -> (Seq<char>, bool)
    decreases s.len(),
{
    if s.len() == 0 {
        (seq![], false)
    } else {
        let (text, in_control) = rtf_scan(s.drop_last());
        let c = s.last();
        if c == '\\' {
            (text, true)
        } else if c == '{' || c == '}' {
            (text, in_control)
        } else if in_control {
            (text, alphabetic(c))
        } else {
            (text.push(c), false)
        }
    }
}

/// The blocks of an RTF source: one paragraph per non-blank line of its text,
/// or a placeholder paragraph.
pub open spec fn rtf_blocks(s: Seq<char>) -> Seq<BlockView> {
    let bs = line_paragraphs(nonblank_lines_of(rtf_scan(s).0));
    if bs.len() == 0 {
        seq![text_paragraph("(RTF content extracted as plain text)"@)]
    } else {
        bs
    }
}

/// Reads an RTF source held in a string.
pub fn parse_rtf_str(content: &str) -> (r: Result<Document, FlipError>)
    ensures
        r matches Ok(d) && d.metadata.only_source("rtf"@) && d.blocks_view() == rtf_blocks(
            content@,
        ),
{
    let mut doc = Document::new();
    doc.metadata = Metadata::with_source("rtf");
    let cs = chars_of(content);
    let mut text: Vec<char> = Vec::new();
    let mut in_control = false;
    let mut i: usize = 0;
    while i < cs.len()
        invariant
            i <= cs@.len(),
            rtf_scan(cs@.take(i as int)) == (text@, in_control),
        decreases cs.len() - i,
    {
        let c = cs[i];
        proof {
            assert(cs@.take(i + 1).drop_last() =~= cs@.take(i as int));
            assert(cs@.take(i + 1).last() == c);
        }
        if c == '\\' {
            in_control = true;
        } else if c == '{' || c == '}' {
        } else if in_control {
            if !is_alphabetic(c) {
                in_control = false;
            }
        } else {
            text.push(c);
        }
        i = i + 1;
    }
    assert(cs@.take(i as int) =~= cs@);
    let lines = nonblank_lines(&text);
    push_line_paragraphs(&mut doc, &lines);
    if doc.blocks.len() == 0 {
        doc.push_block(Block::paragraph("(RTF content extracted as plain text)"));
    }
    assert(doc.blocks_view() =~= rtf_blocks(content@));
    Ok(doc)
}

} // verus!
