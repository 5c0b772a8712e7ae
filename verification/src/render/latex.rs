//! LaTeX output.
use vstd::prelude::*;
use crate::ir::{
    blocks_view, cells_view, inline_text, inlines_plain_text, inlines_text, inlines_view,
    opt_view, Block, BlockView, Document, Inline, InlineView, push_inline_text,
};
use crate::strutil::{chars_of, push_char, push_str};

verus! {

/// The LaTeX escape of one character. A backslash becomes
/// `\textbackslash\{\}`: its braces are escaped too.
pub open spec fn latex_char(c: char) -> Seq<char> {
    if c == '\\' {
        "\\textbackslash\\{\\}"@
    } else if c == '{' {
        "\\{"@
    } else if c == '}' {
        "\\}"@
    } else if c == '_' {
        "\\_"@
    } else if c == '#' {
        "\\#"@
    } else if c == '$' {
        "\\$"@
    } else if c == '%' {
        "\\%"@
    } else if c == '&' {
        "\\&"@
    } else if c == '^' {
        "\\^{}"@
    } else if c == '~' {
        "\\~{}"@
    } else {
        seq![c]
    }
}

/// `s` with the characters that are special to LaTeX escaped.
pub open spec fn escape_latex(s: Seq<char>) -> Seq<char>
    decreases s.len(),
{
    if s.len() == 0 {
        seq![]
    } else {
        escape_latex(s.drop_last()) + latex_char(s.last())
    }
}

/// Appends the LaTeX escape of the characters `cs`.
pub fn push_escaped_latex_chars(out: &mut String, cs: &Vec<char>)
    ensures
        final(out)@ == old(out)@ + escape_latex(cs@),
{
    let mut i: usize = 0;
    while i < cs.len()
        invariant
            i <= cs@.len(),
            out@ == old(out)@ + escape_latex(cs@.take(i as int)),
        decreases cs.len() - i,
    {
        let c = cs[i];
        if c == '\\' {
            push_str(out, "\\textbackslash\\{\\}");
        } else if c == '{' {
            push_str(out, "\\{");
        } else if c == '}' {
            push_str(out, "\\}");
        } else if c == '_' {
            push_str(out, "\\_");
        } else if c == '#' {
            push_str(out, "\\#");
        } else if c == '$' {
            push_str(out, "\\$");
        } else if c == '%' {
            push_str(out, "\\%");
        } else if c == '&' {
            push_str(out, "\\&");
        } else if c == '^' {
            push_str(out, "\\^{}");
        } else if c == '~' {
            push_str(out, "\\~{}");
        } else {
            push_char(out, c);
        }
        proof {
            assert(cs@.take(i + 1).drop_last() =~= cs@.take(i as int));
            assert(cs@.take(i + 1).last() == c);
        }
        i = i + 1;
    }
    assert(cs@.take(i as int) =~= cs@);
}

/// Appends the LaTeX escape of `s`.
pub fn push_escaped_latex(out: &mut String, s: &str)
    ensures
        final(out)@ == old(out)@ + escape_latex(s@),
{
    let cs = chars_of(s);
    push_escaped_latex_chars(out, &cs);
}

/// The LaTeX of an inline: bold, italic, code and links get their commands
/// (a link shows its plain text); other styled inlines give their plain text
/// unescaped.
pub open spec fn latex_inline(i: InlineView) -> Seq<char>
    decreases i, 0int,
{
    match i {
        InlineView::Text(t) => escape_latex(t),
        InlineView::Bold(c) => "\\textbf{"@ + latex_inlines(c) + "}"@,
        InlineView::Italic(c) => "\\textit{"@ + latex_inlines(c) + "}"@,
        InlineView::Code(t) => "\\texttt{"@ + escape_latex(t) + "}"@,
        InlineView::Link { text, url } => "\\href{"@ + escape_latex(url) + "}{"@ + escape_latex(
            inlines_text(text),
        ) + "}"@,
        _ => inline_text(i),
    }
}

/// The LaTeX of a run of inlines.
pub open spec fn latex_inlines(s: Seq<InlineView>) -> Seq<char>
    decreases s, 1int,
{
    if s.len() == 0 {
        seq![]
    } else {
        latex_inlines(s.drop_last()) + latex_inline(s.last())
    }
}

/// Appends the LaTeX of `i`.
pub fn push_latex_inline(out: &mut String, i: &Inline)
    ensures
        final(out)@ == old(out)@ + latex_inline(i@),
    decreases i, 0int,
{
    match i {
        Inline::Text(t) => push_escaped_latex(out, t.as_str()),
        Inline::Bold(c) => {
            push_str(out, "\\textbf{");
            push_latex_inlines(out, c);
            push_str(out, "}");
        },
        Inline::Italic(c) => {
            push_str(out, "\\textit{");
            push_latex_inlines(out, c);
            push_str(out, "}");
        },
        Inline::Code(t) => {
            push_str(out, "\\texttt{");
            push_escaped_latex(out, t.as_str());
            push_str(out, "}");
        },
        Inline::Link { text, url } => {
            push_str(out, "\\href{");
            push_escaped_latex(out, url.as_str());
            push_str(out, "}{");
            let display = inlines_plain_text(text);
            push_escaped_latex(out, display.as_str());
            push_str(out, "}");
        },
        _ => push_inline_text(out, i),
    }
    assert(out@ =~= old(out)@ + latex_inline(i@));
}

/// Appends the LaTeX of a run of inlines.
pub fn push_latex_inlines(out: &mut String, v: &Vec<Inline>)
    ensures
        final(out)@ == old(out)@ + latex_inlines(inlines_view(v@)),
    decreases v, 1int,
{
    let mut k: usize = 0;
    while k < v.len()
        invariant
            k <= v@.len(),
            out@ == old(out)@ + latex_inlines(inlines_view(v@.take(k as int))),
        decreases v.len() - k,
    {
        push_latex_inline(out, &v[k]);
        proof {
            let pre = v@.take(k as int);
            assert(v@.take(k + 1).drop_last() =~= pre);
            assert(inlines_view(v@.take(k + 1)) == inlines_view(pre).push(v@[k as int]@));
            assert(inlines_view(pre).push(v@[k as int]@).drop_last() =~= inlines_view(pre));
        }
        k = k + 1;
    }
    assert(v@.take(k as int) =~= v@);
}

/// The sectioning command for a heading level.
pub open spec fn section_command(level: u8) -> Seq<char> {
    if level == 1 {
        "\\section"@
    } else if level == 2 {
        "\\subsection"@
    } else if level == 3 {
        "\\subsubsection"@
    } else if level == 4 {
        "\\paragraph"@
    } else {
        "\\subparagraph"@
    }
}

/// List items, each an escaped `\item` line.
pub open spec fn latex_items(items: Seq<Seq<InlineView>>) -> Seq<char>
    decreases items.len(),
{
    if items.len() == 0 {
        seq![]
    } else {
        latex_items(items.drop_last()) + "\\item "@ + escape_latex(inlines_text(items.last()))
            + seq!['\n']
    }
}

/// The LaTeX of a block; tables produce nothing.
pub open spec fn latex_block(b: BlockView) -> Seq<char> {
    match b {
        BlockView::Paragraph(c) => latex_inlines(c) + "\n\n"@,
        BlockView::Heading { level, content } => section_command(level) + "{"@ + escape_latex(
            inlines_text(content),
        ) + "}\n\n"@,
        BlockView::Code { language: _, content } => "\\begin{lstlisting}\n"@ + content
            + "\n\\end{lstlisting}\n\n"@,
        BlockView::List { ordered, items } => {
            let env = if ordered {
                "enumerate"@
            } else {
                "itemize"@
            };
            "\\begin{"@ + env + "}\n"@ + latex_items(items) + "\\end{"@ + env + "}\n\n"@
        },
        BlockView::Blockquote(c) => "\\begin{quote}\n"@ + escape_latex(inlines_text(c))
            + "\n\\end{quote}\n\n"@,
        BlockView::Image { src, alt, width: _, height: _ } =>
            "\\begin{figure}[h]\n\\centering\n\\includegraphics[width=0.8\\textwidth]{"@
            + escape_latex(src) + "}\n\\caption{"@ + escape_latex(alt) + "}\n\\end{figure}\n\n"@,
        BlockView::HorizontalRule => "\\hrule\n\n"@,
        _ => seq![],
    }
}

fn push_latex_block(out: &mut String, b: &Block)
    ensures
        final(out)@ == old(out)@ + latex_block(b@),
{
    match b {
        Block::Paragraph(c) => {
            push_latex_inlines(out, c);
            push_str(out, "\n\n");
        },
        Block::Heading { level, content } => {
            let cmd = if *level == 1 {
                "\\section"
            } else if *level == 2 {
                "\\subsection"
            } else if *level == 3 {
                "\\subsubsection"
            } else if *level == 4 {
                "\\paragraph"
            } else {
                "\\subparagraph"
            };
            push_str(out, cmd);
            push_str(out, "{");
            let t = inlines_plain_text(content);
            push_escaped_latex(out, t.as_str());
            push_str(out, "}\n\n");
        },
        Block::Code { content, .. } => {
            push_str(out, "\\begin{lstlisting}\n");
            push_str(out, content.as_str());
            push_str(out, "\n\\end{lstlisting}\n\n");
        },
        Block::List { ordered, items } => {
            let env = if *ordered {
                "enumerate"
            } else {
                "itemize"
            };
            push_str(out, "\\begin{");
            push_str(out, env);
            push_str(out, "}\n");
            let ghost mid = out@;
            let mut k: usize = 0;
            while k < items.len()
                invariant
                    k <= items@.len(),
                    out@ == mid + latex_items(cells_view(items@.take(k as int))),
                decreases items.len() - k,
            {
                push_str(out, "\\item ");
                let t = inlines_plain_text(&items[k]);
                push_escaped_latex(out, t.as_str());
                push_char(out, '\n');
                proof {
                    let now = cells_view(items@.take(k + 1));
                    assert(now.drop_last() =~= cells_view(items@.take(k as int)));
                    assert(now.last() == inlines_view(items@[k as int]@));
                    assert(out@ =~= mid + latex_items(now));
                }
                k = k + 1;
            }
            assert(items@.take(k as int) =~= items@);
            push_str(out, "\\end{");
            push_str(out, env);
            push_str(out, "}\n\n");
        },
        Block::Blockquote(c) => {
            push_str(out, "\\begin{quote}\n");
            let t = inlines_plain_text(c);
            push_escaped_latex(out, t.as_str());
            push_str(out, "\n\\end{quote}\n\n");
        },
        Block::Image { src, alt, .. } => {
            push_str(
                out,
                "\\begin{figure}[h]\n\\centering\n\\includegraphics[width=0.8\\textwidth]{",
            );
            push_escaped_latex(out, src.as_str());
            push_str(out, "}\n\\caption{");
            push_escaped_latex(out, alt.as_str());
            push_str(out, "}\n\\end{figure}\n\n");
        },
        Block::HorizontalRule => push_str(out, "\\hrule\n\n"),
        _ => {},
    }
    assert(out@ =~= old(out)@ + latex_block(b@));
}

/// The LaTeX of a sequence of blocks.
pub open spec fn latex_blocks(bs: Seq<BlockView>) -> Seq<char>
    decreases bs.len(),
{
    if bs.len() == 0 {
        seq![]
    } else {
        latex_blocks(bs.drop_last()) + latex_block(bs.last())
    }
}

/// The packages and page setup every LaTeX output starts with.
pub open spec fn latex_preamble() -> Seq<char> {
    "\\documentclass[12pt]{article}\n"@ + "\\usepackage[utf8]{inputenc}\n"@
        + "\\usepackage{geometry}\n"@ + "\\geometry{a4paper, margin=1in}\n"@
        + "\\usepackage{hyperref}\n"@ + "\\usepackage{listings}\n"@ + "\\usepackage{graphicx}\n"@
        + "\n"@
}

/// The LaTeX source for blocks with an optional title and author.
pub open spec fn latex_page(
    title: Option<Seq<char>>,
    author: Option<Seq<char>>,
    bs: Seq<BlockView>,
) -> Seq<char> {
    latex_preamble() + (match title {
        Some(t) => "\\title{"@ + escape_latex(t) + "}\n"@,
        None => seq![],
    }) + (match author {
        Some(a) => "\\author{"@ + escape_latex(a) + "}\n"@,
        None => seq![],
    }) + "\\date{\\today}\n\n"@ + "\\begin{document}\n"@ + "\\maketitle\n\n"@ + latex_blocks(bs)
        + "\\end{document}\n"@
}

/// The LaTeX source of a document.
pub fn latex_output(doc: &Document) -> (r: String)
    ensures
        r@ == latex_page(
            opt_view(doc.metadata.title),
            opt_view(doc.metadata.author),
            doc.blocks_view(),
        ),
{
    let mut out = String::new();
    push_str(&mut out, "\\documentclass[12pt]{article}\n");
    push_str(&mut out, "\\usepackage[utf8]{inputenc}\n");
    push_str(&mut out, "\\usepackage{geometry}\n");
    push_str(&mut out, "\\geometry{a4paper, margin=1in}\n");
    push_str(&mut out, "\\usepackage{hyperref}\n");
    push_str(&mut out, "\\usepackage{listings}\n");
    push_str(&mut out, "\\usepackage{graphicx}\n");
    push_str(&mut out, "\n");
    match &doc.metadata.title {
        Some(t) => {
            push_str(&mut out, "\\title{");
            push_escaped_latex(&mut out, t.as_str());
            push_str(&mut out, "}\n");
        },
        None => {},
    }
    match &doc.metadata.author {
        Some(a) => {
            push_str(&mut out, "\\author{");
            push_escaped_latex(&mut out, a.as_str());
            push_str(&mut out, "}\n");
        },
        None => {},
    }
    push_str(&mut out, "\\date{\\today}\n\n");
    push_str(&mut out, "\\begin{document}\n");
    push_str(&mut out, "\\maketitle\n\n");
    let ghost head = out@;
    let mut k: usize = 0;
    while k < doc.blocks.len()
        invariant
            k <= doc.blocks@.len(),
            out@ == head + latex_blocks(blocks_view(doc.blocks@.take(k as int))),
        decreases doc.blocks.len() - k,
    {
        push_latex_block(&mut out, &doc.blocks[k]);
        proof {
            let now = blocks_view(doc.blocks@.take(k + 1));
            assert(now.drop_last() =~= blocks_view(doc.blocks@.take(k as int)));
            assert(now.last() == doc.blocks@[k as int]@);
            assert(out@ =~= head + latex_blocks(now));
        }
        k = k + 1;
    }
    assert(doc.blocks@.take(k as int) =~= doc.blocks@);
    push_str(&mut out, "\\end{document}\n");
    assert(out@ =~= latex_page(
        opt_view(doc.metadata.title),
        opt_view(doc.metadata.author),
        doc.blocks_view(),
    ));
    out
}

} // verus!
