//! Markdown input: the event stream of `pulldown-cmark` folded into blocks.
use vstd::prelude::*;
use pulldown_cmark::{CodeBlockKind, Event, Options, Parser, Tag};
use crate::error::FlipError;
use crate::ir::{
    blocks_view, cells_view, inline_view, inlines_view, opt_view, rows_view, Block, BlockView, Document,
    Inline, InlineView, Metadata,
};
use crate::strutil::{chars_of, eq_str, push_str, starts_with, starts_with_str};

verus! {

/// One event of the Markdown event stream. Tags are named as `pulldown-cmark`
/// prints the marker that closes them (`Paragraph`, `List(true)`,
/// `Heading(H2)`, ...); events that the reader ignores keep only their printed
/// form.
pub enum MdEvent {
    /// The start of a tag other than those below.
    Start(String),
    /// The start of a fenced code block with its info string.
    Fenced(String),
    /// The start of a link to the given destination.
    Link(String),
    /// The start of an image: destination and title.
    Image(String, String),
    /// A text node.
    Text(String),
    /// An inline code span.
    Code(String),
    /// Any other event, by its printed form (`End(Paragraph)`, `SoftBreak`,
    /// `Rule`, ...).
    Other(String),
}

/// The value of an [`MdEvent`].
pub enum MdEventView {
    Start(Seq<char>),
    Fenced(Seq<char>),
    Link(Seq<char>),
    Image(Seq<char>, Seq<char>),
    Text(Seq<char>),
    Code(Seq<char>),
    Other(Seq<char>),
}

impl View for MdEvent {
    type V = MdEventView;

    open spec fn view(&self) -> MdEventView {
        match self {
            MdEvent::Start(n) => MdEventView::Start(n@),
            MdEvent::Fenced(i) => MdEventView::Fenced(i@),
            MdEvent::Link(u) => MdEventView::Link(u@),
            MdEvent::Image(u, t) => MdEventView::Image(u@, t@),
            MdEvent::Text(t) => MdEventView::Text(t@),
            MdEvent::Code(c) => MdEventView::Code(c@),
            MdEvent::Other(n) => MdEventView::Other(n@),
        }
    }
}

/// The values of a list of events.
pub open spec fn events_view(v: Seq<MdEvent>) -> Seq<MdEventView> {
    v.map_values(|e: MdEvent| e@)
}

/// The events `pulldown-cmark` produces for the text `s` with the option bits
/// `options`.
pub uninterp spec fn md_events(s: Seq<char>, options: u32) -> Seq<MdEventView>;

/// Runs `pulldown_cmark::Parser::new_ext` on `content` with the options whose
/// bits are `options`, converting each event one for one. The result is named
/// `md_events`; nothing else is claimed of it.
#[verifier::external_body]
fn markdown_events(content: &str, options: u32) -> (r: Vec<MdEvent>)
    ensures
        events_view(r@) == md_events(content@, options),
{
    Parser::new_ext(content, Options::from_bits_truncate(options)).map(|e| match e {
        Event::Start(Tag::CodeBlock(CodeBlockKind::Fenced(i))) => MdEvent::Fenced(i.to_string()),
        Event::Start(Tag::Link { dest_url, .. }) => MdEvent::Link(dest_url.to_string()),
        Event::Start(Tag::Image { dest_url, title, .. }) => MdEvent::Image(dest_url.to_string(), title.to_string()),
        Event::Start(t) => MdEvent::Start(format!("{:?}", t.to_end())),
        Event::Text(t) => MdEvent::Text(t.to_string()),
        Event::Code(c) => MdEvent::Code(c.to_string()),
        e => MdEvent::Other(format!("{e:?}")),
    }).collect()
}

/// The option bits the reader asks for: tables, footnotes, strikethrough and
/// task lists.
pub const MARKDOWN_OPTIONS: u32 = 30;

/// The reader's state between two events.
#[verifier::ext_equal]
pub struct MdState {
    /// Blocks emitted so far.
    pub blocks: Seq<BlockView>,
    /// Inlines of the paragraph (or item, or quote) being read.
    pub para: Seq<InlineView>,
    pub in_code: bool,
    pub code: Seq<char>,
    pub lang: Option<Seq<char>>,
    /// Items of the list being read.
    pub items: Seq<Seq<InlineView>>,
    pub in_list: bool,
    pub ordered: bool,
    pub headers: Seq<Seq<Seq<InlineView>>>,
    pub rows: Seq<Seq<Seq<InlineView>>>,
    /// Cells of the table row being read.
    pub row: Seq<Seq<InlineView>>,
    pub in_table: bool,
    pub in_header: bool,
}

/// The state before the first event.
pub open spec fn md_initial() -> MdState {
    MdState {
        blocks: seq![],
        para: seq![],
        in_code: false,
        code: seq![],
        lang: None,
        items: seq![],
        in_list: false,
        ordered: false,
        headers: seq![],
        rows: seq![],
        row: seq![],
        in_table: false,
        in_header: false,
    }
}

/// Emits the pending paragraph, if it has inlines.
pub open spec fn flush_para(s: MdState) -> MdState {
    if s.para.len() > 0 {
        MdState { blocks: s.blocks.push(BlockView::Paragraph(s.para)), para: seq![], ..s }
    } else {
        s
    }
}

/// Emits the pending list and leaves it.
pub open spec fn close_list(s: MdState) -> MdState {
    MdState {
        blocks: s.blocks.push(BlockView::List { ordered: s.ordered, items: s.items }),
        items: seq![],
        in_list: false,
        ..s
    }
}

/// An emphasis of the given kind (0 italic, 1 bold, otherwise struck
/// through) around `inner`.
pub open spec fn styled(kind: u8, inner: Seq<InlineView>) -> InlineView {
    if kind == 0 {
        InlineView::Italic(inner)
    } else if kind == 1 {
        InlineView::Bold(inner)
    } else {
        InlineView::Strikethrough(inner)
    }
}

/// At the end of an emphasis: when the last inline is a text run, its text
/// moves into a new styled inline after it, and the run is left empty.
pub open spec fn wrap_last(s: MdState, kind: u8) -> MdState {
    if s.para.len() > 0 && s.para.last() is Text {
        let t = s.para.last()->Text_0;
        MdState {
            para: s.para.update(s.para.len() - 1, InlineView::Text(seq![])).push(
                styled(kind, seq![InlineView::Text(t)]),
            ),
            ..s
        }
    } else {
        s
    }
}

/// The state after the start of a tag named `n`.
pub open spec fn start_tag(s: MdState, n: Seq<char>) -> MdState {
    if n == "Paragraph"@ || n == "Item"@ || starts_with(n, "BlockQuote"@) {
        MdState { para: seq![], ..s }
    } else if n == "CodeBlock"@ {
        MdState { in_code: true, code: seq![], lang: None, ..s }
    } else if starts_with(n, "List("@) {
        let f = flush_para(s);
        MdState { in_list: true, ordered: n == "List(true)"@, items: seq![], ..f }
    } else if n == "Table"@ {
        MdState {
            in_table: true,
            in_header: true,
            headers: seq![],
            rows: seq![],
            row: seq![],
            ..s
        }
    } else if n == "TableHead"@ {
        MdState { in_header: true, row: seq![], ..s }
    } else if n == "TableRow"@ {
        if s.in_header {
            s
        } else {
            MdState { row: seq![], ..s }
        }
    } else if n == "TableCell"@ {
        MdState { row: s.row.push(seq![]), ..s }
    } else if n == "Emphasis"@ || n == "Strong"@ || n == "Strikethrough"@ {
        MdState { para: s.para.push(InlineView::Text(seq![])), ..s }
    } else {
        s
    }
}

/// The state after the end of a tag named `n`.
pub open spec fn end_tag(s: MdState, n: Seq<char>) -> MdState {
    if starts_with(n, "Heading("@) {
        MdState { para: seq![], ..s }
    } else if n == "Paragraph"@ {
        flush_para(s)
    } else if n == "CodeBlock"@ {
        MdState {
            blocks: s.blocks.push(BlockView::Code { language: s.lang, content: s.code }),
            in_code: false,
            code: seq![],
            lang: None,
            ..s
        }
    } else if starts_with(n, "List("@) {
        if s.in_list && s.items.len() > 0 {
            close_list(s)
        } else {
            s
        }
    } else if n == "Item"@ {
        if s.para.len() > 0 {
            MdState { items: s.items.push(s.para), para: seq![], ..s }
        } else {
            s
        }
    } else if n == "TableHead"@ {
        MdState {
            headers: if s.row.len() > 0 { s.headers.push(s.row) } else { s.headers },
            row: seq![],
            in_header: false,
            ..s
        }
    } else if n == "TableRow"@ {
        MdState {
            rows: if !s.in_header && s.row.len() > 0 { s.rows.push(s.row) } else { s.rows },
            row: seq![],
            ..s
        }
    } else if n == "Table"@ {
        MdState {
            blocks: s.blocks.push(BlockView::Table { headers: s.headers, rows: s.rows }),
            in_table: false,
            headers: seq![],
            rows: seq![],
            ..s
        }
    } else if starts_with(n, "BlockQuote"@) {
        if s.para.len() > 0 {
            MdState { blocks: s.blocks.push(BlockView::Blockquote(s.para)), para: seq![], ..s }
        } else {
            s
        }
    } else if n == "Emphasis"@ {
        wrap_last(s, 0)
    } else if n == "Strong"@ {
        wrap_last(s, 1)
    } else if n == "Strikethrough"@ {
        wrap_last(s, 2)
    } else {
        s
    }
}

/// The state after a text node `t`: code text goes to the code block, table
/// text to the last cell of the row (none when the row has no cell yet), other
/// text to the paragraph.
pub open spec fn text_event(s: MdState, t: Seq<char>) -> MdState {
    if s.in_code {
        MdState { code: s.code + t, ..s }
    } else if s.in_table {
        if s.row.len() > 0 {
            MdState {
                row: s.row.update(s.row.len() - 1, s.row.last().push(InlineView::Text(t))),
                ..s
            }
        } else {
            s
        }
    } else {
        MdState { para: s.para.push(InlineView::Text(t)), ..s }
    }
}

/// The name of the tag an event printed as `n` ends, when it is an end
/// event (`End(...)`).
pub open spec fn end_name(n: Seq<char>) -> Option<Seq<char>> {
    if n.len() >= 5 && n.take(4) == "End("@ && n.last() == ')' {
        Some(n.subrange(4, n.len() - 1))
    } else {
        None
    }
}

/// The level of a heading whose start is named `n` (`Heading(H1)` to
/// `Heading(H6)`).
pub open spec fn heading_level(n: Seq<char>) -> Option<u8> {
    if n.len() == 11 && n.take(9) == "Heading(H"@ && '1' <= n[9] <= '6' && n[10] == ')' {
        Some((n[9] as int - 48) as u8)
    } else {
        None
    }
}

/// The state after the start of a heading: the pending paragraph and list
/// are emitted, then the heading is added with one empty text as its
/// content. The text read until the heading's end goes to the paragraph,
/// which that end empties, so it does not reach the heading.
pub open spec fn open_heading(s: MdState, level: u8) -> MdState {
    let f = flush_para(s);
    let g = if f.in_list {
        close_list(f)
    } else {
        f
    };
    MdState {
        blocks: g.blocks.push(BlockView::Heading { level, content: seq![InlineView::Text(seq![])] }),
        ..g
    }
}

/// The state after one event.
pub open spec fn md_step(s: MdState, e: MdEventView) -> MdState {
    match e {
        MdEventView::Fenced(i) => MdState {
            in_code: true,
            code: seq![],
            lang: if i.len() == 0 { None } else { Some(i) },
            ..s
        },
        MdEventView::Link(url) => MdState {
            para: s.para.push(InlineView::Text(seq![])).push(
                InlineView::Link { text: seq![InlineView::Text(url)], url },
            ),
            ..s
        },
        MdEventView::Image(url, title) => MdState {
            blocks: s.blocks.push(
                BlockView::Image { src: url, alt: title, width: None, height: None },
            ),
            ..s
        },
        MdEventView::Start(n) => match heading_level(n) {
            Some(level) => open_heading(s, level),
            None => start_tag(s, n),
        },
        MdEventView::Text(t) => text_event(s, t),
        MdEventView::Code(c) => MdState { para: s.para.push(InlineView::Code(c)), ..s },
        MdEventView::Other(n) => if end_name(n) is Some {
            end_tag(s, end_name(n)->0)
        } else if n == "HardBreak"@ {
            MdState { para: s.para.push(InlineView::Text(seq!['\n'])), ..s }
        } else if n == "SoftBreak"@ {
            MdState { para: s.para.push(InlineView::Text(seq![' '])), ..s }
        } else if n == "Rule"@ {
            MdState { blocks: s.blocks.push(BlockView::HorizontalRule), ..s }
        } else {
            s
        },
    }
}

/// The state after a sequence of events.
pub open spec fn md_run(es: Seq<MdEventView>) -> MdState
    decreases es.len(),
{
    if es.len() == 0 {
        md_initial()
    } else {
        md_step(md_run(es.drop_last()), es.last())
    }
}

/// The blocks read from a whole event stream: those emitted, then the pending
/// paragraph, then the pending list when it has items.
pub open spec fn md_finish(s: MdState) -> Seq<BlockView> {
    let f = flush_para(s);
    if f.in_list && f.items.len() > 0 {
        close_list(f).blocks
    } else {
        f.blocks
    }
}

/// The blocks of a Markdown event stream.
pub open spec fn md_blocks(es: Seq<MdEventView>) -> Seq<BlockView> {
    md_finish(md_run(es))
}

/// The level of a heading whose start is named by the characters `cs`.
fn heading_level_of(cs: &Vec<char>) -> (r: Option<u8>)
    ensures
        r == heading_level(cs@),
{
    if cs.len() == 11 && starts_with_str(cs.as_slice(), "Heading(H") && '1' <= cs[9] && cs[9] <= '6'
        && cs[10] == ')' {
        proof {
            reveal_strlit("Heading(H");
            assert(cs@.take(9) =~= cs@.subrange(0, 9));
        }
        Some((cs[9] as u32 - 48) as u8)
    } else {
        proof {
            reveal_strlit("Heading(H");
            if cs@.len() == 11 && cs@.take(9) == "Heading(H"@ {
                assert(cs@.subrange(0, 9) =~= cs@.take(9));
            }
        }
        None
    }
}

/// Empties `v`, handing back what it held.
fn take_vec<T>(v: &mut Vec<T>) -> (r: Vec<T>)
    ensures
        r@ == old(v)@,
        final(v)@ == Seq::<T>::empty(),
{
    let mut e: Vec<T> = Vec::new();
    std::mem::swap(v, &mut e);
    e
}

fn push_inline(v: &mut Vec<Inline>, x: Inline)
    ensures
        inlines_view(final(v)@) == inlines_view(old(v)@).push(x@),
{
    let ghost v0 = v@;
    v.push(x);
    assert(v@.drop_last() =~= v0);
}

fn push_cell(v: &mut Vec<Vec<Inline>>, c: Vec<Inline>)
    ensures
        cells_view(final(v)@) == cells_view(old(v)@).push(inlines_view(c@)),
{
    let ghost v0 = v@;
    v.push(c);
    assert(cells_view(v@) =~= cells_view(v0).push(inlines_view(c@)));
}

fn push_row(v: &mut Vec<Vec<Vec<Inline>>>, r: Vec<Vec<Inline>>)
    ensures
        rows_view(final(v)@) == rows_view(old(v)@).push(cells_view(r@)),
{
    let ghost v0 = v@;
    v.push(r);
    assert(rows_view(v@) =~= rows_view(v0).push(cells_view(r@)));
}

fn push_to(v: &mut Vec<Block>, b: Block)
    ensures
        blocks_view(final(v)@) == blocks_view(old(v)@).push(b@),
{
    let ghost v0 = v@;
    v.push(b);
    assert(blocks_view(v@) =~= blocks_view(v0).push(b@));
}

proof fn lemma_inlines_view_update(s: Seq<Inline>, k: int, x: Inline)
    requires
        0 <= k < s.len(),
    ensures
        inlines_view(s.update(k, x)) == inlines_view(s).update(k, x@),
{
    crate::ir::lemma_inlines_view(s);
    crate::ir::lemma_inlines_view(s.update(k, x));
    assert forall|j: int| 0 <= j < s.len() implies #[trigger] inlines_view(s.update(k, x))[j]
        == inlines_view(s).update(k, x@)[j] by {
        assert(s.update(k, x)[j] == if j == k { x } else { s[j] });
    }
    assert(inlines_view(s.update(k, x)) =~= inlines_view(s).update(k, x@));
}

/// The reader's state in executable form.
struct MdReader {
    blocks: Vec<Block>,
    para: Vec<Inline>,
    in_code: bool,
    code: String,
    lang: Option<String>,
    items: Vec<Vec<Inline>>,
    in_list: bool,
    ordered: bool,
    headers: Vec<Vec<Vec<Inline>>>,
    rows: Vec<Vec<Vec<Inline>>>,
    row: Vec<Vec<Inline>>,
    in_table: bool,
    in_header: bool,
}

impl MdReader {
    spec fn state(&self) -> MdState {
        MdState {
            blocks: blocks_view(self.blocks@),
            para: inlines_view(self.para@),
            in_code: self.in_code,
            code: self.code@,
            lang: opt_view(self.lang),
            items: cells_view(self.items@),
            in_list: self.in_list,
            ordered: self.ordered,
            headers: rows_view(self.headers@),
            rows: rows_view(self.rows@),
            row: cells_view(self.row@),
            in_table: self.in_table,
            in_header: self.in_header,
        }
    }

    fn new() -> (r: MdReader)
        ensures
            r.state() == md_initial(),
    {
        let r = MdReader {
            blocks: Vec::new(),
            para: Vec::new(),
            in_code: false,
            code: String::new(),
            lang: None,
            items: Vec::new(),
            in_list: false,
            ordered: false,
            headers: Vec::new(),
            rows: Vec::new(),
            row: Vec::new(),
            in_table: false,
            in_header: false,
        };
        assert(r.state() =~= md_initial());
        r
    }

    fn flush_para(&mut self)
        ensures
            final(self).state() == flush_para(old(self).state()),
    {
        if self.para.len() > 0 {
            let p = take_vec(&mut self.para);
            push_to(&mut self.blocks, Block::Paragraph(p));
            assert(self.state() =~= flush_para(old(self).state()));
        }
    }

    fn close_list(&mut self)
        ensures
            final(self).state() == close_list(old(self).state()),
    {
        let items = take_vec(&mut self.items);
        push_to(&mut self.blocks, Block::List { ordered: self.ordered, items });
        self.in_list = false;
        assert(self.state() =~= close_list(old(self).state()));
    }

    fn wrap_last(&mut self, kind: u8)
        ensures
            final(self).state() == wrap_last(old(self).state(), kind),
    {
        let n = self.para.len();
        if n == 0 {
            return;
        }
        proof {
            crate::ir::lemma_inlines_view(self.para@);
            assert(inlines_view(self.para@).last() == inline_view(self.para@[n - 1]));
        }
        let t = match &self.para[n - 1] {
            Inline::Text(t) => t.clone(),
            _ => {
                return;
            },
        };
        proof {
            crate::ir::lemma_inlines_view(self.para@);
        }
        let ghost p0 = self.para@;
        let empty = Inline::Text(String::new());
        let ghost e = empty;
        self.para.set(n - 1, empty);
        proof {
            lemma_inlines_view_update(p0, n - 1, e);
        }
        let mut inner: Vec<Inline> = Vec::new();
        push_inline(&mut inner, Inline::Text(t));
        assert(inlines_view(inner@) =~= seq![InlineView::Text(t@)]);
        let s = if kind == 0 {
            Inline::Italic(inner)
        } else if kind == 1 {
            Inline::Bold(inner)
        } else {
            Inline::Strikethrough(inner)
        };
        push_inline(&mut self.para, s);
        assert(self.state() =~= wrap_last(old(self).state(), kind));
    }

    fn start_tag(&mut self, n: &str)
        ensures
            final(self).state() == start_tag(old(self).state(), n@),
    {
        let cs = chars_of(n);
        if eq_str(&cs, "Paragraph") || eq_str(&cs, "Item") || starts_with_str(&cs, "BlockQuote") {
            self.para.clear();
        } else if eq_str(&cs, "CodeBlock") {
            self.in_code = true;
            self.code = String::new();
            self.lang = None;
        } else if starts_with_str(&cs, "List(") {
            self.flush_para();
            self.in_list = true;
            self.ordered = eq_str(&cs, "List(true)");
            self.items.clear();
        } else if eq_str(&cs, "Table") {
            self.in_table = true;
            self.in_header = true;
            self.headers.clear();
            self.rows.clear();
            self.row.clear();
        } else if eq_str(&cs, "TableHead") {
            self.in_header = true;
            self.row.clear();
        } else if eq_str(&cs, "TableRow") {
            if !self.in_header {
                self.row.clear();
            }
        } else if eq_str(&cs, "TableCell") {
            push_cell(&mut self.row, Vec::new());
        } else if eq_str(&cs, "Emphasis") || eq_str(&cs, "Strong") || eq_str(
            &cs,
            "Strikethrough",
        ) {
            push_inline(&mut self.para, Inline::Text(String::new()));
        }
        assert(self.state() =~= start_tag(old(self).state(), n@));
    }

    fn end_tag(&mut self, n: &str)
        ensures
            final(self).state() == end_tag(old(self).state(), n@),
    {
        let cs = chars_of(n);
        if starts_with_str(&cs, "Heading(") {
            self.para.clear();
        } else if eq_str(&cs, "Paragraph") {
            self.flush_para();
        } else if eq_str(&cs, "CodeBlock") {
            let mut content = String::new();
            std::mem::swap(&mut content, &mut self.code);
            let language = self.lang.take();
            push_to(&mut self.blocks, Block::Code { language, content });
            self.in_code = false;
        } else if starts_with_str(&cs, "List(") {
            if self.in_list && self.items.len() > 0 {
                self.close_list();
            }
        } else if eq_str(&cs, "Item") {
            if self.para.len() > 0 {
                let p = take_vec(&mut self.para);
                push_cell(&mut self.items, p);
            }
        } else if eq_str(&cs, "TableHead") {
            let r = take_vec(&mut self.row);
            if r.len() > 0 {
                push_row(&mut self.headers, r);
            }
            self.in_header = false;
        } else if eq_str(&cs, "TableRow") {
            let r = take_vec(&mut self.row);
            if !self.in_header && r.len() > 0 {
                push_row(&mut self.rows, r);
            }
        } else if eq_str(&cs, "Table") {
            let headers = take_vec(&mut self.headers);
            let rows = take_vec(&mut self.rows);
            push_to(&mut self.blocks, Block::Table { headers, rows });
            self.in_table = false;
        } else if starts_with_str(&cs, "BlockQuote") {
            if self.para.len() > 0 {
                let p = take_vec(&mut self.para);
                push_to(&mut self.blocks, Block::Blockquote(p));
            }
        } else if eq_str(&cs, "Emphasis") {
            self.wrap_last(0);
        } else if eq_str(&cs, "Strong") {
            self.wrap_last(1);
        } else if eq_str(&cs, "Strikethrough") {
            self.wrap_last(2);
        }
        assert(self.state() =~= end_tag(old(self).state(), n@));
    }

    fn text(&mut self, t: &String)
        ensures
            final(self).state() == text_event(old(self).state(), t@),
    {
        if self.in_code {
            push_str(&mut self.code, t.as_str());
        } else if self.in_table {
            let n = self.row.len();
            if n > 0 {
                let ghost r0 = self.row@;
                let mut cell = self.row.pop().unwrap();
                assert(cells_view(self.row@) =~= cells_view(r0).drop_last());
                push_inline(&mut cell, Inline::Text(t.clone()));
                push_cell(&mut self.row, cell);
                assert(cells_view(self.row@) =~= cells_view(r0).update(
                    n - 1,
                    cells_view(r0).last().push(InlineView::Text(t@)),
                ));
            }
        } else {
            push_inline(&mut self.para, Inline::Text(t.clone()));
        }
        assert(self.state() =~= text_event(old(self).state(), t@));
    }

    fn step(&mut self, e: &MdEvent)
        ensures
            final(self).state() == md_step(old(self).state(), e@),
    {
        match e {
            MdEvent::Fenced(i) => {
                self.in_code = true;
                self.code = String::new();
                self.lang = if i.as_str().is_empty() {
                    None
                } else {
                    Some(i.clone())
                };
                assert(self.state() =~= md_step(old(self).state(), e@));
            },
            MdEvent::Link(url) => {
                push_inline(&mut self.para, Inline::Text(String::new()));
                let mut text: Vec<Inline> = Vec::new();
                push_inline(&mut text, Inline::Text(url.clone()));
                assert(inlines_view(text@) =~= seq![InlineView::Text(url@)]);
                push_inline(&mut self.para, Inline::Link { text, url: url.clone() });
                assert(self.state() =~= md_step(old(self).state(), e@));
            },
            MdEvent::Image(url, title) => {
                push_to(
                    &mut self.blocks,
                    Block::Image { src: url.clone(), alt: title.clone(), width: None, height: None },
                );
            },
            MdEvent::Start(n) => {
                let cs = chars_of(n.as_str());
                match heading_level_of(&cs) {
                    Some(level) => {
                        self.flush_para();
                        if self.in_list {
                            self.close_list();
                        }
                        let mut content: Vec<Inline> = Vec::new();
                        push_inline(&mut content, Inline::Text(String::new()));
                        assert(inlines_view(content@) =~= seq![InlineView::Text(seq![])]);
                        push_to(&mut self.blocks, Block::Heading { level, content });
                    },
                    None => self.start_tag(n.as_str()),
                }
                assert(self.state() =~= md_step(old(self).state(), e@));
            },
            MdEvent::Text(t) => self.text(t),
            MdEvent::Code(c) => push_inline(&mut self.para, Inline::Code(c.clone())),
            MdEvent::Other(n) => {
                let cs = chars_of(n.as_str());
                let len = cs.len();
                if len >= 5 && starts_with_str(cs.as_slice(), "End(") && cs[len - 1] == ')' {
                    let inner = crate::strutil::copy_range(cs.as_slice(), 4, len - 1);
                    let name = crate::strutil::string_of(inner.as_slice());
                    proof {
                        reveal_strlit("End(");
                        assert(cs@.take(4) =~= cs@.subrange(0, 4));
                        assert(end_name(n@) == Some(inner@));
                    }
                    self.end_tag(name.as_str());
                    assert(self.state() =~= md_step(old(self).state(), e@));
                    return;
                }
                proof {
                    reveal_strlit("End(");
                    if n@.len() >= 5 && n@.take(4) == "End("@ && n@.last() == ')' {
                        assert(cs@.subrange(0, 4) =~= cs@.take(4));
                    }
                    assert(end_name(n@) is None);
                }
                proof {
                    reveal_strlit("\n");
                    reveal_strlit(" ");
                    assert("\n"@ =~= seq!['\n']);
                    assert(" "@ =~= seq![' ']);
                }
                if eq_str(&cs, "HardBreak") {
                    push_inline(&mut self.para, Inline::Text("\n".to_owned()));
                } else if eq_str(&cs, "SoftBreak") {
                    push_inline(&mut self.para, Inline::Text(" ".to_owned()));
                } else if eq_str(&cs, "Rule") {
                    push_to(&mut self.blocks, Block::HorizontalRule);
                }
                assert(self.state() =~= md_step(old(self).state(), e@));
            },
        }
        assert(self.state() =~= md_step(old(self).state(), e@));
    }
}

/// Folds a Markdown event stream into a document whose metadata names the
/// `markdown` source format.
pub fn document_from_markdown_events(events: &Vec<MdEvent>) -> (d: Document)
    ensures
        d.metadata.only_source("markdown"@),
        d.blocks_view() == md_blocks(events_view(events@)),
{
    let mut r = MdReader::new();
    let mut k: usize = 0;
    while k < events.len()
        invariant
            k <= events@.len(),
            r.state() == md_run(events_view(events@.take(k as int))),
        decreases events.len() - k,
    {
        r.step(&events[k]);
        proof {
            let pre = events_view(events@.take(k as int));
            assert(events_view(events@.take(k + 1)).drop_last() =~= pre);
            assert(events_view(events@.take(k + 1)).last() == events@[k as int]@);
        }
        k = k + 1;
    }
    assert(events@.take(k as int) =~= events@);
    r.flush_para();
    if r.in_list && r.items.len() > 0 {
        r.close_list();
    }
    Document { metadata: Metadata::with_source("markdown"), blocks: r.blocks }
}

/// Reads a Markdown text with tables, footnotes, strikethrough and task lists.
pub fn parse_markdown_str(content: &str) -> (r: Result<Document, FlipError>)
    ensures
        r matches Ok(d) && d.metadata.only_source("markdown"@) && d.blocks_view() == md_blocks(
            md_events(content@, MARKDOWN_OPTIONS),
        ),
{
    let events = markdown_events(content, MARKDOWN_OPTIONS);
    Ok(document_from_markdown_events(&events))
}

} // verus!
