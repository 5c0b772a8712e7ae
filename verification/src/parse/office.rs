//! Text of OpenDocument, PowerPoint, Excel and EPUB containers, gathered by
//! small tag scanners.
use vstd::prelude::*;
use crate::archive::{entries_view, entry_view, zip_entries, zip_entry_text, zip_listing, zip_named_text};
use crate::error::FlipError;
use crate::ir::{text_heading, text_paragraph, Block, BlockView, Document, Metadata};
use crate::parse::html::{line_paragraphs, push_line_paragraphs};
use crate::strutil::{
    chars_of, collapse_whitespace, collapse_ws, contains_seq, contains_str, copy_range, ends_with,
    ends_with_str, eq_str, nonblank, nonblank_lines, nonblank_lines_of, outside_tags, seqs_of,
    sort_strings, sorted_seqs, starts_with, starts_with_str, string_of, strings_view,
    text_outside_tags, trim, trim_bounds,
};

verus! {

/// Which text elements a scanner collects.
#[derive(Clone, Copy, PartialEq, Eq, Structural)]
pub enum ScanKind {
    /// `text:p` elements of an OpenDocument presentation.
    Presentation,
    /// `text:p` and `text:h` elements of an OpenDocument text.
    OdfText,
    /// `a:t` elements of a PowerPoint slide.
    Slide,
}

/// The state of a text scanner.
#[verifier::ext_equal]
pub struct ScanState {
    pub text: Seq<char>,
    pub current: Seq<char>,
    pub in_tag: bool,
    pub in_text: bool,
}

/// A tag (its trimmed inside) starts collecting text.
pub open spec fn opens_text(kind: ScanKind, tag: Seq<char>) -> bool {
    match kind {
        ScanKind::Presentation => contains_seq(tag, "text:p"@),
        ScanKind::OdfText => contains_seq(tag, "text:p"@) || contains_seq(tag, "text:h"@),
        ScanKind::Slide => starts_with(tag, "a:t"@) || tag == "a:t"@,
    }
}

/// A tag (its trimmed inside) stops collecting text.
pub open spec fn closes_text(kind: ScanKind, tag: Seq<char>) -> bool {
    match kind {
        ScanKind::Slide => starts_with(tag, "/a:t"@) || tag == "/a:t"@,
        _ => starts_with(tag, "/text:"@),
    }
}

/// The scanner after reading one more character `c`: a `<` flushes the
/// collected words (trimmed, followed by a space) and opens a tag; a `>` closes
/// the tag and decides, by its inside, whether text is collected next (closing
/// an OpenDocument text element ends a line); other characters gather into the
/// tag or into the collected words.
pub open spec fn scan_step(kind: ScanKind, st: ScanState, c: char) -> ScanState {
    if c == '<' {
        ScanState {
            text: if st.in_text && trim(st.current).len() > 0 {
                st.text + trim(st.current) + seq![' ']
            } else {
                st.text
            },
            current: seq![],
            in_tag: true,
            in_text: st.in_text,
        }
    } else if c == '>' && st.in_tag {
        let tag = trim(st.current);
        if opens_text(kind, tag) {
            ScanState { text: st.text, current: seq![], in_tag: false, in_text: true }
        } else if closes_text(kind, tag) {
            ScanState {
                text: if kind != ScanKind::Slide && st.in_text {
                    st.text.push('\n')
                } else {
                    st.text
                },
                current: seq![],
                in_tag: false,
                in_text: false,
            }
        } else {
            ScanState { text: st.text, current: seq![], in_tag: false, in_text: st.in_text }
        }
    } else if st.in_tag || st.in_text {
        ScanState { current: st.current.push(c), ..st }
    } else {
        st
    }
}

/// The scanner after reading `s`.
pub open spec fn scan(kind: ScanKind, s: Seq<char>) -> ScanState
    decreases s.len(),
{
    if s.len() == 0 {
        ScanState { text: seq![], current: seq![], in_tag: false, in_text: false }
    } else {
        scan_step(kind, scan(kind, s.drop_last()), s.last())
    }
}

/// The text a scanner gathers from `s`; a slide scanner also keeps the words
/// still being collected at the end.
pub open spec fn scanned_text(kind: ScanKind, s: Seq<char>) -> Seq<char> {
    let st = scan(kind, s);
    if kind == ScanKind::Slide && st.in_text && trim(st.current).len() > 0 {
        st.text + trim(st.current)
    } else {
        st.text
    }
}

/// Appends `trim(v)` to `out`.
pub fn push_trimmed(out: &mut Vec<char>, v: &[char])
    ensures
        final(out)@ == old(out)@ + trim(v@),
{
    let (a, b) = trim_bounds(v, 0, v.len());
    assert(v@.subrange(0, v@.len() as int) =~= v@);
    let mut i = a;
    while i < b
        invariant
            a <= i <= b <= v@.len(),
            out@ == old(out)@ + v@.subrange(a as int, i as int),
        decreases b - i,
    {
        out.push(v[i]);
        i = i + 1;
        assert(out@ =~= old(out)@ + v@.subrange(a as int, i as int));
    }
}

/// Whether the trimmed tag inside starts collecting text.
pub fn tag_opens_text(kind: ScanKind, tag: &[char]) -> (r: bool)
    ensures
        r == opens_text(kind, tag@),
{
    match kind {
        ScanKind::Presentation => contains_str(tag, "text:p"),
        ScanKind::OdfText => contains_str(tag, "text:p") || contains_str(tag, "text:h"),
        ScanKind::Slide => starts_with_str(tag, "a:t") || eq_str(tag, "a:t"),
    }
}

/// Whether the trimmed tag inside stops collecting text.
pub fn tag_closes_text(kind: ScanKind, tag: &[char]) -> (r: bool)
    ensures
        r == closes_text(kind, tag@),
{
    match kind {
        ScanKind::Slide => starts_with_str(tag, "/a:t") || eq_str(tag, "/a:t"),
        _ => starts_with_str(tag, "/text:"),
    }
}

/// Runs a text scanner over `s` (see `scanned_text`).
pub fn scan_text(kind: ScanKind, s: &[char]) -> (r: Vec<char>)
    ensures
        r@ == scanned_text(kind, s@),
{
    let mut text: Vec<char> = Vec::new();
    let mut current: Vec<char> = Vec::new();
    let mut in_tag = false;
    let mut in_text = false;
    let mut i: usize = 0;
    while i < s.len()
        invariant
            i <= s@.len(),
            scan(kind, s@.take(i as int)) == (ScanState {
                text: text@,
                current: current@,
                in_tag,
                in_text,
            }),
        decreases s.len() - i,
    {
        let c = s[i];
        let ghost st = ScanState { text: text@, current: current@, in_tag, in_text };
        proof {
            assert(s@.take(i + 1).drop_last() =~= s@.take(i as int));
            assert(s@.take(i + 1).last() == c);
            assert(scan(kind, s@.take(i + 1)) == scan_step(kind, st, c));
        }
        if c == '<' {
            in_tag = true;
            let (a, b) = trim_bounds(&current, 0, current.len());
            assert(current@.subrange(0, current@.len() as int) =~= current@);
            if in_text && a < b {
                push_trimmed(&mut text, &current);
                text.push(' ');
            }
            current = Vec::new();
        } else if c == '>' && in_tag {
            let (a, b) = trim_bounds(&current, 0, current.len());
            assert(current@.subrange(0, current@.len() as int) =~= current@);
            let tag = copy_range(&current, a, b);
            if tag_opens_text(kind, &tag) {
                in_text = true;
            } else if tag_closes_text(kind, &tag) {
                if kind != ScanKind::Slide && in_text {
                    text.push('\n');
                }
                in_text = false;
            }
            in_tag = false;
            current = Vec::new();
        } else if in_tag || in_text {
            current.push(c);
        }
        i = i + 1;
        proof {
            assert(scan_step(kind, st, c) =~= (ScanState {
                text: text@,
                current: current@,
                in_tag,
                in_text,
            }));
            assert(scan(kind, s@.take(i as int)) =~= (ScanState {
                text: text@,
                current: current@,
                in_tag,
                in_text,
            }));
        }
    }
    assert(s@.take(i as int) =~= s@);
    if kind == ScanKind::Slide && in_text {
        let (a, b) = trim_bounds(&current, 0, current.len());
        assert(current@.subrange(0, current@.len() as int) =~= current@);
        if a < b {
            push_trimmed(&mut text, &current);
        }
    }
    text
}

/// The text of an OpenDocument presentation part.
pub fn extract_odp_text(xml: &[char]) -> (r: Vec<char>)
    ensures
        r@ == scanned_text(ScanKind::Presentation, xml@),
{
    scan_text(ScanKind::Presentation, xml)
}

/// The text of an OpenDocument text part.
pub fn extract_odf_text(xml: &[char]) -> (r: Vec<char>)
    ensures
        r@ == scanned_text(ScanKind::OdfText, xml@),
{
    scan_text(ScanKind::OdfText, xml)
}

/// The text of a PowerPoint slide part.
pub fn extract_xml_text(xml: &[char]) -> (r: Vec<char>)
    ensures
        r@ == scanned_text(ScanKind::Slide, xml@),
{
    scan_text(ScanKind::Slide, xml)
}


/// The state of the worksheet value scanner.
#[verifier::ext_equal]
pub struct CellScan {
    pub values: Seq<Seq<char>>,
    pub current: Seq<char>,
    pub in_tag: bool,
    pub in_v: bool,
}

/// The value scanner after one more character: a `<` flushes the trimmed text
/// of a `<v>` element, a `>` closes a tag and notes whether it opens or closes a
/// `v` element.
pub open spec fn cell_step(st: CellScan, c: char) -> CellScan {
    if c == '<' {
        CellScan {
            values: if st.in_v && trim(st.current).len() > 0 {
                st.values.push(trim(st.current))
            } else {
                st.values
            },
            current: seq![],
            in_tag: true,
            in_v: st.in_v,
        }
    } else if c == '>' {
        let opened = st.current == "v"@ || starts_with(st.current, "v "@);
        let in_v = if starts_with(st.current, "/v"@) {
            false
        } else if opened {
            true
        } else {
            st.in_v
        };
        CellScan { values: st.values, current: seq![], in_tag: false, in_v }
    } else if st.in_tag || st.in_v {
        CellScan { current: st.current.push(c), ..st }
    } else {
        st
    }
}

/// The value scanner after reading `s`.
pub open spec fn cell_scan(s: Seq<char>) -> CellScan
    decreases s.len(),
{
    if s.len() == 0 {
        CellScan { values: seq![], current: seq![], in_tag: false, in_v: false }
    } else {
        cell_step(cell_scan(s.drop_last()), s.last())
    }
}

/// The cell values of a worksheet part.
pub fn sheet_values(s: &[char]) -> (r: Vec<Vec<char>>)
    ensures
        seqs_of(r@) == cell_scan(s@).values,
{
    let mut values: Vec<Vec<char>> = Vec::new();
    let mut current: Vec<char> = Vec::new();
    let mut in_tag = false;
    let mut in_v = false;
    let mut i: usize = 0;
    while i < s.len()
        invariant
            i <= s@.len(),
            cell_scan(s@.take(i as int)) == (CellScan {
                values: seqs_of(values@),
                current: current@,
                in_tag,
                in_v,
            }),
        decreases s.len() - i,
    {
        let c = s[i];
        let ghost st = CellScan { values: seqs_of(values@), current: current@, in_tag, in_v };
        proof {
            assert(s@.take(i + 1).drop_last() =~= s@.take(i as int));
            assert(s@.take(i + 1).last() == c);
            assert(cell_scan(s@.take(i + 1)) == cell_step(st, c));
        }
        if c == '<' {
            in_tag = true;
            let (a, b) = trim_bounds(&current, 0, current.len());
            assert(current@.subrange(0, current@.len() as int) =~= current@);
            if in_v && a < b {
                let v = copy_range(&current, a, b);
                let ghost before = values@;
                values.push(v);
                assert(seqs_of(values@) =~= seqs_of(before).push(v@));
            }
            current = Vec::new();
        } else if c == '>' {
            let opened = eq_str(&current, "v") || starts_with_str(&current, "v ");
            if starts_with_str(&current, "/v") {
                in_v = false;
            } else if opened {
                in_v = true;
            }
            in_tag = false;
            current = Vec::new();
        } else if in_tag || in_v {
            current.push(c);
        }
        i = i + 1;
        proof {
            assert(cell_step(st, c) =~= (CellScan {
                values: seqs_of(values@),
                current: current@,
                in_tag,
                in_v,
            }));
        }
    }
    assert(s@.take(i as int) =~= s@);
    values
}

/// The document with a placeholder paragraph when nothing was found.
pub open spec fn with_note(bs: Seq<BlockView>, note: Seq<char>) -> Seq<BlockView> {
    if bs.len() == 0 {
        seq![text_paragraph(note)]
    } else {
        bs
    }
}

/// Adds the placeholder paragraph `note` to a document without blocks.
pub fn add_note_if_empty(doc: &mut Document, note: &str)
    ensures
        final(doc).metadata == old(doc).metadata,
        final(doc).blocks_view() == with_note(old(doc).blocks_view(), note@),
{
    if doc.blocks.len() == 0 {
        doc.push_block(Block::paragraph(note));
        assert(doc.blocks_view() =~= seq![text_paragraph(note@)]);
    }
}

/// The blocks of an OpenDocument text held in `bytes`: one paragraph per
/// non-blank line of the text of `content.xml`.
pub open spec fn odt_blocks(bytes: Seq<u8>) -> Result<Seq<BlockView>, FlipError> {
    match zip_named_text(bytes, "content.xml"@) {
        None => Err(FlipError::Archive),
        Some(x) => Ok(
            with_note(
                match x {
                    Some(t) => line_paragraphs(nonblank_lines_of(scanned_text(ScanKind::OdfText, t))),
                    None => seq![],
                },
                "(No text content could be extracted from this ODT document)"@,
            ),
        ),
    }
}

/// Reads an OpenDocument text held in `bytes`.
pub fn parse_odt(bytes: &[u8]) -> (r: Result<Document, FlipError>)
    ensures
        match odt_blocks(bytes@) {
            Ok(bs) => r matches Ok(d) && d.metadata.only_source("odt"@) && d.blocks_view() == bs,
            Err(e) => r == Err::<Document, FlipError>(e),
        },
{
    let mut doc = Document::new();
    doc.metadata = Metadata::with_source("odt");
    match zip_entry_text(bytes, "content.xml") {
        None => return Err(FlipError::Archive),
        Some(Some(t)) => {
            let tc = chars_of(t.as_str());
            let text = extract_odf_text(&tc);
            let lines = nonblank_lines(&text);
            push_line_paragraphs(&mut doc, &lines);
            assert(doc.blocks_view() =~= line_paragraphs(nonblank_lines_of(
                scanned_text(ScanKind::OdfText, t@),
            )));
        },
        Some(None) => {},
    }
    add_note_if_empty(&mut doc, "(No text content could be extracted from this ODT document)");
    Ok(doc)
}

/// The blocks from the slide parts (`ppt/slides/slide*.xml`) of an
/// OpenDocument presentation's entries, in archive order.
pub open spec fn odp_entry_blocks(es: Seq<(Option<Seq<char>>, Option<Seq<char>>)>) -> Seq<BlockView>
    decreases es.len(),
{
    if es.len() == 0 {
        seq![]
    } else {
        let rest = odp_entry_blocks(es.drop_last());
        match es.last() {
            (Some(n), Some(t)) => if starts_with(n, "ppt/slides/slide"@) && ends_with(n, ".xml"@) {
                rest + line_paragraphs(nonblank_lines_of(scanned_text(ScanKind::Presentation, t)))
            } else {
                rest
            },
            _ => rest,
        }
    }
}

/// The blocks of an OpenDocument presentation held in `bytes`.
pub open spec fn odp_blocks(bytes: Seq<u8>) -> Result<Seq<BlockView>, FlipError> {
    match zip_listing(bytes) {
        None => Err(FlipError::Archive),
        Some(es) => Ok(
            with_note(
                odp_entry_blocks(es),
                "(No text content could be extracted from this ODP presentation)"@,
            ),
        ),
    }
}

/// Reads an OpenDocument presentation held in `bytes`.
pub fn parse_odp(bytes: &[u8]) -> (r: Result<Document, FlipError>)
    ensures
        match odp_blocks(bytes@) {
            Ok(bs) => r matches Ok(d) && d.metadata.only_source("odp"@) && d.blocks_view() == bs,
            Err(e) => r == Err::<Document, FlipError>(e),
        },
{
    let mut doc = Document::new();
    doc.metadata = Metadata::with_source("odp");
    let entries = match zip_entries(bytes) {
        Some(v) => v,
        None => return Err(FlipError::Archive),
    };
    let ghost ev = entries_view(entries@);
    let mut k: usize = 0;
    while k < entries.len()
        invariant
            k <= entries@.len(),
            ev == entries_view(entries@),
            doc.metadata.only_source("odp"@),
            doc.blocks_view() == odp_entry_blocks(ev.take(k as int)),
        decreases entries.len() - k,
    {
        proof {
            assert(ev.take(k + 1).drop_last() =~= ev.take(k as int));
            assert(ev.take(k + 1).last() == entry_view(entries@[k as int]));
        }
        let e = &entries[k];
        match (&e.name, &e.text) {
            (Some(n), Some(t)) => {
                let nc = chars_of(n.as_str());
                if starts_with_str(&nc, "ppt/slides/slide") && ends_with_str(&nc, ".xml") {
                    let tc = chars_of(t.as_str());
                    let text = extract_odp_text(&tc);
                    let lines = nonblank_lines(&text);
                    push_line_paragraphs(&mut doc, &lines);
                }
            },
            _ => {},
        }
        k = k + 1;
    }
    assert(ev.take(k as int) =~= ev);
    add_note_if_empty(&mut doc, "(No text content could be extracted from this ODP presentation)");
    Ok(doc)
}

/// The cell values of the worksheet parts (`xl/worksheets/sheet*.xml`) of a
/// spreadsheet's entries, in archive order.
pub open spec fn xlsx_values(es: Seq<(Option<Seq<char>>, Option<Seq<char>>)>) -> Seq<Seq<char>>
    decreases es.len(),
{
    if es.len() == 0 {
        seq![]
    } else {
        let rest = xlsx_values(es.drop_last());
        match es.last() {
            (Some(n), Some(t)) => if starts_with(n, "xl/worksheets/sheet"@) && ends_with(
                n,
                ".xml"@,
            ) {
                rest + cell_scan(t).values
            } else {
                rest
            },
            _ => rest,
        }
    }
}

/// The blocks of a spreadsheet held in `bytes`: one paragraph per cell value.
pub open spec fn xlsx_blocks(bytes: Seq<u8>) -> Result<Seq<BlockView>, FlipError> {
    match zip_listing(bytes) {
        None => Err(FlipError::Archive),
        Some(es) => Ok(
            with_note(
                line_paragraphs(nonblank(xlsx_values(es))),
                "(No text content could be extracted from this spreadsheet)"@,
            ),
        ),
    }
}

/// Reads a spreadsheet held in `bytes`.
pub fn parse_xlsx(bytes: &[u8]) -> (r: Result<Document, FlipError>)
    ensures
        match xlsx_blocks(bytes@) {
            Ok(bs) => r matches Ok(d) && d.metadata.only_source("xlsx"@) && d.blocks_view() == bs,
            Err(e) => r == Err::<Document, FlipError>(e),
        },
{
    let mut doc = Document::new();
    doc.metadata = Metadata::with_source("xlsx");
    let entries = match zip_entries(bytes) {
        Some(v) => v,
        None => return Err(FlipError::Archive),
    };
    let ghost ev = entries_view(entries@);
    let mut texts: Vec<Vec<char>> = Vec::new();
    let mut k: usize = 0;
    while k < entries.len()
        invariant
            k <= entries@.len(),
            ev == entries_view(entries@),
            seqs_of(texts@) == xlsx_values(ev.take(k as int)),
        decreases entries.len() - k,
    {
        proof {
            assert(ev.take(k + 1).drop_last() =~= ev.take(k as int));
            assert(ev.take(k + 1).last() == entry_view(entries@[k as int]));
        }
        let e = &entries[k];
        match (&e.name, &e.text) {
            (Some(n), Some(t)) => {
                let nc = chars_of(n.as_str());
                if starts_with_str(&nc, "xl/worksheets/sheet") && ends_with_str(&nc, ".xml") {
                    let tc = chars_of(t.as_str());
                    let mut vals = sheet_values(&tc);
                    let ghost before = texts@;
                    let ghost vv = vals@;
                    texts.append(&mut vals);
                    assert(seqs_of(texts@) =~= seqs_of(before) + seqs_of(vv));
                }
            },
            _ => {},
        }
        k = k + 1;
    }
    assert(ev.take(k as int) =~= ev);
    let mut lines: Vec<Vec<char>> = Vec::new();
    let mut j: usize = 0;
    while j < texts.len()
        invariant
            j <= texts@.len(),
            seqs_of(lines@) == nonblank(seqs_of(texts@).take(j as int)),
        decreases texts.len() - j,
    {
        let t = &texts[j];
        let (a, b) = trim_bounds(t, 0, t.len());
        assert(t@.subrange(0, t@.len() as int) =~= t@);
        proof {
            lemma_nonblank_push(seqs_of(texts@).take(j as int), t@);
            assert(seqs_of(texts@).take(j + 1) =~= seqs_of(texts@).take(j as int).push(t@));
        }
        if a < b {
            let l = copy_range(t, a, b);
            let ghost before = lines@;
            lines.push(l);
            assert(seqs_of(lines@) =~= seqs_of(before).push(l@));
        }
        j = j + 1;
    }
    assert(seqs_of(texts@).take(j as int) =~= seqs_of(texts@));
    push_line_paragraphs(&mut doc, &lines);
    assert(doc.blocks_view() =~= line_paragraphs(nonblank(xlsx_values(ev))));
    add_note_if_empty(&mut doc, "(No text content could be extracted from this spreadsheet)");
    Ok(doc)
}

/// `nonblank` of a sequence with one more line.
pub proof fn lemma_nonblank_push(ls: Seq<Seq<char>>, l: Seq<char>)
    ensures
        nonblank(ls.push(l)) == if trim(l).len() > 0 {
            nonblank(ls).push(trim(l))
        } else {
            nonblank(ls)
        },
    decreases ls.len(),
{
    if ls.len() == 0 {
        assert(ls.push(l).drop_first() =~= Seq::<Seq<char>>::empty());
        assert(nonblank(Seq::<Seq<char>>::empty()) =~= Seq::<Seq<char>>::empty());
        if trim(l).len() > 0 {
            assert(nonblank(ls.push(l)) =~= seq![trim(l)]);
        }
    } else {
        assert(ls.push(l).drop_first() =~= ls.drop_first().push(l));
        lemma_nonblank_push(ls.drop_first(), l);
        if trim(ls[0]).len() > 0 {
            assert(nonblank(ls.push(l)) =~= seq![trim(ls[0])] + nonblank(ls.drop_first().push(l)));
            if trim(l).len() > 0 {
                assert((seq![trim(ls[0])] + nonblank(ls.drop_first())).push(trim(l)) =~= seq![
                    trim(ls[0]),
                ] + nonblank(ls.drop_first()).push(trim(l)));
            }
        }
    }
}


/// Every entry could be opened and named.
pub open spec fn all_named(es: Seq<(Option<Seq<char>>, Option<Seq<char>>)>) -> bool {
    forall|k: int| 0 <= k < es.len() ==> (#[trigger] es[k]).0 is Some
}

/// Which container parts hold the text that a reader collects.
#[derive(Clone, Copy, PartialEq, Eq, Structural)]
pub enum PartKind {
    /// PowerPoint slides: `ppt/slides/slide*.xml`.
    Slides,
    /// EPUB chapters: `*.xhtml`, `*.html`, `*.htm`.
    Chapters,
}

/// The part name is one the reader collects.
pub open spec fn wanted_part(kind: PartKind, n: Seq<char>) -> bool {
    match kind {
        PartKind::Slides => starts_with(n, "ppt/slides/slide"@) && ends_with(n, ".xml"@),
        PartKind::Chapters => ends_with(n, ".xhtml"@) || ends_with(n, ".html"@) || ends_with(
            n,
            ".htm"@,
        ),
    }
}

/// The wanted part names of a listing, in archive order.
pub open spec fn wanted_names(kind: PartKind, es: Seq<(Option<Seq<char>>, Option<Seq<char>>)>) -> Seq<
    Seq<char>,
>
    decreases es.len(),
{
    if es.len() == 0 {
        seq![]
    } else {
        let rest = wanted_names(kind, es.drop_last());
        match es.last().0 {
            Some(n) => if wanted_part(kind, n) {
                rest.push(n)
            } else {
                rest
            },
            None => rest,
        }
    }
}

/// `order` holds the names sorted.
pub open spec fn sorted_arrangement(order: Seq<Seq<char>>, names: Seq<Seq<char>>) -> bool {
    order.to_multiset() == names.to_multiset() && sorted_seqs(order)
}

/// The blocks of a slide's lines: a line starting with `# ` is a level-1
/// heading of the rest, any other a paragraph.
pub open spec fn slide_line_blocks(lines: Seq<Seq<char>>) -> Seq<BlockView>
    decreases lines.len(),
{
    if lines.len() == 0 {
        seq![]
    } else {
        let l = lines.last();
        let rest = slide_line_blocks(lines.drop_last());
        if starts_with(l, "# "@) {
            rest.push(text_heading(1, l.skip(2)))
        } else {
            rest.push(text_paragraph(l))
        }
    }
}

/// The blocks one part gives.
pub open spec fn part_blocks(kind: PartKind, t: Seq<char>) -> Seq<BlockView> {
    match kind {
        PartKind::Slides => slide_line_blocks(nonblank_lines_of(scanned_text(ScanKind::Slide, t))),
        PartKind::Chapters => line_paragraphs(
            nonblank_lines_of(collapse_ws(outside_tags(t, false))),
        ),
    }
}

/// The blocks of the named parts read in the given order; parts that cannot be
/// read as text are skipped.
pub open spec fn parts_blocks(kind: PartKind, bytes: Seq<u8>, order: Seq<Seq<char>>) -> Seq<
    BlockView,
>
    decreases order.len(),
{
    if order.len() == 0 {
        seq![]
    } else {
        let rest = parts_blocks(kind, bytes, order.drop_last());
        match zip_named_text(bytes, order.last()) {
            Some(Some(t)) => rest + part_blocks(kind, t),
            _ => rest,
        }
    }
}

/// The placeholder for a container without text.
pub open spec fn parts_note(kind: PartKind) -> Seq<char> {
    match kind {
        PartKind::Slides => "(No text content could be extracted from this presentation)"@,
        PartKind::Chapters => "(No text content could be extracted from this EPUB)"@,
    }
}

/// The blocks of one part.
pub fn push_part_blocks(doc: &mut Document, kind: PartKind, t: &str)
    ensures
        final(doc).metadata == old(doc).metadata,
        final(doc).blocks_view() == old(doc).blocks_view() + part_blocks(kind, t@),
{
    let tc = chars_of(t);
    match kind {
        PartKind::Chapters => {
            let raw = text_outside_tags(&tc, 0, tc.len(), false);
            assert(tc@.subrange(0, tc@.len() as int) =~= tc@);
            let text = collapse_whitespace(&raw);
            let lines = nonblank_lines(&text);
            push_line_paragraphs(doc, &lines);
        },
        PartKind::Slides => {
            let text = extract_xml_text(&tc);
            let lines = nonblank_lines(&text);
            let ghost lv = seqs_of(lines@);
            let mut j: usize = 0;
            while j < lines.len()
                invariant
                    j <= lines@.len(),
                    lv == seqs_of(lines@),
                    doc.metadata == old(doc).metadata,
                    doc.blocks_view() == old(doc).blocks_view() + slide_line_blocks(
                        lv.take(j as int),
                    ),
                decreases lines.len() - j,
            {
                let l = &lines[j];
                proof {
                    assert(lv.take(j + 1).drop_last() =~= lv.take(j as int));
                    assert(lv.take(j + 1).last() == l@);
                }
                if starts_with_str(l, "# ") {
                    proof {
                        reveal_strlit("# ");
                    }
                    let rest = copy_range(l, 2, l.len());
                    assert(rest@ =~= l@.skip(2));
                    let rs = string_of(&rest);
                    doc.push_block(Block::heading(1, rs.as_str()));
                } else {
                    let ls = string_of(l);
                    doc.push_block(Block::paragraph(ls.as_str()));
                }
                assert(doc.blocks_view() =~= old(doc).blocks_view() + slide_line_blocks(
                    lv.take(j + 1),
                ));
                j = j + 1;
            }
            assert(lv.take(j as int) =~= lv);
        },
    }
}

/// The blocks of a slide deck or an e-book held in `bytes` (see `parts_blocks`).
pub fn parse_parts(bytes: &[u8], kind: PartKind, doc: &mut Document) -> (r: Result<(), FlipError>)
    ensures
        final(doc).metadata == old(doc).metadata,
        match zip_listing(bytes@) {
            None => r == Err::<(), FlipError>(FlipError::Archive),
            Some(es) => if !all_named(es) {
                r == Err::<(), FlipError>(FlipError::Archive)
            } else {
                r is Ok && exists|order: Seq<Seq<char>>|
                    sorted_arrangement(order, wanted_names(kind, es))
                        && #[trigger] final(doc).blocks_view() == with_note(
                        old(doc).blocks_view() + parts_blocks(kind, bytes@, order),
                        parts_note(kind),
                    )
            },
        },
{
    let entries = match zip_entries(bytes) {
        Some(v) => v,
        None => return Err(FlipError::Archive),
    };
    let ghost ev = entries_view(entries@);
    assert(zip_listing(bytes@) == Some(ev));
    let mut names: Vec<String> = Vec::new();
    let mut k: usize = 0;
    while k < entries.len()
        invariant
            k <= entries@.len(),
            ev == entries_view(entries@),
            zip_listing(bytes@) == Some(ev),
            forall|m: int| 0 <= m < k ==> (#[trigger] ev[m]).0 is Some,
            strings_view(names@) == wanted_names(kind, ev.take(k as int)),
        decreases entries.len() - k,
    {
        proof {
            assert(ev.take(k + 1).drop_last() =~= ev.take(k as int));
            assert(ev.take(k + 1).last() == entry_view(entries@[k as int]));
            assert(ev[k as int] == entry_view(entries@[k as int]));
        }
        let n = match &entries[k].name {
            Some(n) => n,
            None => {
                assert(!all_named(ev));
                assert(zip_listing(bytes@) == Some(ev));
                return Err(FlipError::Archive);
            },
        };
        let nc = chars_of(n.as_str());
        let wanted = match kind {
            PartKind::Slides => starts_with_str(&nc, "ppt/slides/slide") && ends_with_str(
                &nc,
                ".xml",
            ),
            PartKind::Chapters => ends_with_str(&nc, ".xhtml") || ends_with_str(&nc, ".html")
                || ends_with_str(&nc, ".htm"),
        };
        if wanted {
            let ghost before = names@;
            names.push(n.clone());
            assert(strings_view(names@) =~= strings_view(before).push(n@));
        }
        k = k + 1;
    }
    assert(ev.take(k as int) =~= ev);
    let ghost unsorted = strings_view(names@);
    sort_strings(&mut names);
    let ghost order = strings_view(names@);
    let ghost start = doc.blocks_view();
    let mut j: usize = 0;
    while j < names.len()
        invariant
            j <= names@.len(),
            order == strings_view(names@),
            doc.metadata == old(doc).metadata,
            doc.blocks_view() == start + parts_blocks(kind, bytes@, order.take(j as int)),
        decreases names.len() - j,
    {
        proof {
            assert(order.take(j + 1).drop_last() =~= order.take(j as int));
            assert(order.take(j + 1).last() == names@[j as int]@);
        }
        match zip_entry_text(bytes, names[j].as_str()) {
            Some(Some(t)) => {
                push_part_blocks(doc, kind, t.as_str());
                assert(doc.blocks_view() =~= start + parts_blocks(kind, bytes@, order.take(j + 1)));
            },
            _ => {},
        }
        j = j + 1;
    }
    assert(order.take(j as int) =~= order);
    match kind {
        PartKind::Slides => add_note_if_empty(
            doc,
            "(No text content could be extracted from this presentation)",
        ),
        PartKind::Chapters => add_note_if_empty(
            doc,
            "(No text content could be extracted from this EPUB)",
        ),
    }
    assert(sorted_arrangement(order, wanted_names(kind, ev)));
    Ok(())
}

/// What reading the slides of a deck or the chapters of a book held in
/// `bytes` gives, as blocks: the archive error when the bytes are no readable
/// archive or an entry's name cannot be read; else the blocks of the wanted
/// parts read in the sorted order of their names, with the note when there
/// are none.
pub open spec fn parts_outcome(kind: PartKind, bytes: Seq<u8>, r: Result<Seq<BlockView>, FlipError>) -> bool {
    match zip_listing(bytes) {
        None => r == Err::<Seq<BlockView>, FlipError>(FlipError::Archive),
        Some(es) => if !all_named(es) {
            r == Err::<Seq<BlockView>, FlipError>(FlipError::Archive)
        } else {
            r matches Ok(bs) && exists|order: Seq<Seq<char>>|
                sorted_arrangement(order, wanted_names(kind, es)) && bs == with_note(
                    #[trigger] parts_blocks(kind, bytes, order),
                    parts_note(kind),
                )
        },
    }
}

/// Reads a PowerPoint presentation held in `bytes`: the text of its slides,
/// in the sorted order of their part names.
pub fn parse_pptx(bytes: &[u8]) -> (r: Result<Document, FlipError>)
    ensures
        match zip_listing(bytes@) {
            None => r == Err::<Document, FlipError>(FlipError::Archive),
            Some(es) => if !all_named(es) {
                r == Err::<Document, FlipError>(FlipError::Archive)
            } else {
                r matches Ok(d) && d.metadata.only_source("pptx"@) && exists|
                    order: Seq<Seq<char>>,
                |
                    sorted_arrangement(order, wanted_names(PartKind::Slides, es))
                        && #[trigger] d.blocks_view() == with_note(
                        parts_blocks(PartKind::Slides, bytes@, order),
                        parts_note(PartKind::Slides),
                    )
            },
        },
{
    let mut doc = Document::new();
    doc.metadata = Metadata::with_source("pptx");
    let ghost e0 = doc.blocks_view();
    match parse_parts(bytes, PartKind::Slides, &mut doc) {
        Ok(()) => {
            proof {
                assert forall|order: Seq<Seq<char>>| e0 + parts_blocks(PartKind::Slides, bytes@, order)
                    == parts_blocks(PartKind::Slides, bytes@, order) by {
                    assert(e0 + parts_blocks(PartKind::Slides, bytes@, order) =~= parts_blocks(
                        PartKind::Slides,
                        bytes@,
                        order,
                    ));
                }
            }
            Ok(doc)
        },
        Err(e) => Err(e),
    }
}

/// Reads an EPUB book held in `bytes`: the text of its (X)HTML parts, in the
/// sorted order of their names, one paragraph per part.
pub fn parse_epub(bytes: &[u8]) -> (r: Result<Document, FlipError>)
    ensures
        match zip_listing(bytes@) {
            None => r == Err::<Document, FlipError>(FlipError::Archive),
            Some(es) => if !all_named(es) {
                r == Err::<Document, FlipError>(FlipError::Archive)
            } else {
                r matches Ok(d) && d.metadata.only_source("epub"@) && exists|
                    order: Seq<Seq<char>>,
                |
                    sorted_arrangement(order, wanted_names(PartKind::Chapters, es))
                        && #[trigger] d.blocks_view() == with_note(
                        parts_blocks(PartKind::Chapters, bytes@, order),
                        parts_note(PartKind::Chapters),
                    )
            },
        },
{
    let mut doc = Document::new();
    doc.metadata = Metadata::with_source("epub");
    let ghost e0 = doc.blocks_view();
    match parse_parts(bytes, PartKind::Chapters, &mut doc) {
        Ok(()) => {
            proof {
                assert forall|order: Seq<Seq<char>>| e0 + parts_blocks(PartKind::Chapters, bytes@, order)
                    == parts_blocks(PartKind::Chapters, bytes@, order) by {
                    assert(e0 + parts_blocks(PartKind::Chapters, bytes@, order) =~= parts_blocks(
                        PartKind::Chapters,
                        bytes@,
                        order,
                    ));
                }
            }
            Ok(doc)
        },
        Err(e) => Err(e),
    }
}

} // verus!
