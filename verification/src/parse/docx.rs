//! Word (DOCX) input: the body of `word/document.xml`, read by a small scanner.
use vstd::prelude::*;
use crate::archive::{entries_view, zip_entries, zip_entry_text, zip_listing, zip_named_text};
use crate::error::FlipError;
use crate::parse::html::{line_paragraphs, push_line_paragraphs};
use crate::ir::{
    append_inlines, clone_inlines, text_paragraph, inlines_text, inlines_plain_text, inlines_view, text_heading, Block, BlockView,
    Document, Inline, InlineView,
};
use crate::strutil::{
    alphabetic, byte_len, char_len_utf8, chars_of, contains_seq, contains_str, copy_range, eq_str,
    find, find_from, is_alphabetic, lemma_find_from_props, lowercase, matches_at, matches_here,
    replace, replace_all, string_of, to_lowercase, trim, trim_bounds, join, join_parts, seqs_of,
    ends_with, ends_with_str, nonblank_lines, nonblank_lines_of, push_char, push_str,
};

verus! {

/// The text with XML entities and a few invisible or arrow characters decoded
/// or removed, one replacement after another.
pub open spec fn decoded_entities(t: Seq<char>) -> Seq<char> {
    let r = replace(t, "&amp;"@, "&"@);
    let r = replace(r, "&lt;"@, "<"@);
    let r = replace(r, "&gt;"@, ">"@);
    let r = replace(r, "&quot;"@, "\""@);
    let r = replace(r, "&apos;"@, "'"@);
    let r = replace(r, "\u{00A0}"@, " "@);
    let r = replace(r, "\u{200B}"@, ""@);
    let r = replace(r, "\u{FEFF}"@, ""@);
    let r = replace(r, "\u{2197}"@, ""@);
    let r = replace(r, "\u{2198}"@, ""@);
    let r = replace(r, "\u{2191}"@, ""@);
    let r = replace(r, "\u{2193}"@, ""@);
    let r = replace(r, "\u{2190}"@, ""@);
    let r = replace(r, "\u{2192}"@, ""@);
    r
}

/// Decodes XML entities and drops invisible and arrow characters.
pub fn decode_xml_entities(t: &[char]) -> (r: Vec<char>)
    ensures
        r@ == decoded_entities(t@),
{
    proof {
        reveal_strlit("&amp;");
        reveal_strlit("&lt;");
        reveal_strlit("&gt;");
        reveal_strlit("&quot;");
        reveal_strlit("&apos;");
        reveal_strlit("\u{00A0}");
        reveal_strlit("\u{200B}");
        reveal_strlit("\u{FEFF}");
        reveal_strlit("\u{2197}");
        reveal_strlit("\u{2198}");
        reveal_strlit("\u{2191}");
        reveal_strlit("\u{2193}");
        reveal_strlit("\u{2190}");
        reveal_strlit("\u{2192}");
    }
    let r = replace_all(t, "&amp;", "&");
    let r = replace_all(&r, "&lt;", "<");
    let r = replace_all(&r, "&gt;", ">");
    let r = replace_all(&r, "&quot;", "\"");
    let r = replace_all(&r, "&apos;", "'");
    let r = replace_all(&r, "\u{00A0}", " ");
    let r = replace_all(&r, "\u{200B}", "");
    let r = replace_all(&r, "\u{FEFF}", "");
    let r = replace_all(&r, "\u{2197}", "");
    let r = replace_all(&r, "\u{2198}", "");
    let r = replace_all(&r, "\u{2191}", "");
    let r = replace_all(&r, "\u{2193}", "");
    let r = replace_all(&r, "\u{2190}", "");
    let r = replace_all(&r, "\u{2192}", "");
    r
}

/// The smaller of two optional positions.
pub open spec fn min_pos(a: Option<int>, b: Option<int>) -> Option<int> {
    match (a, b) {
        (Some(x), Some(y)) => Some(if x <= y { x } else { y }),
        (Some(x), None) => Some(x),
        (None, Some(y)) => Some(y),
        (None, None) => None,
    }
}

/// `<tag>`.
pub open spec fn open_exact(tag: Seq<char>) -> Seq<char> {
    seq!['<'] + tag + seq!['>']
}

/// `<tag ` (an opening tag with attributes).
pub open spec fn open_attr(tag: Seq<char>) -> Seq<char> {
    seq!['<'] + tag + seq![' ']
}

/// `</tag>`.
pub open spec fn close_of(tag: Seq<char>) -> Seq<char> {
    seq!['<', '/'] + tag + seq!['>']
}

/// The first opening `tag` element (with or without attributes) at or after `off`.
pub open spec fn next_tag(s: Seq<char>, tag: Seq<char>, off: int) -> Option<int> {
    min_pos(find_from(s, open_exact(tag), off), find_from(s, open_attr(tag), off))
}

/// The opening and closing patterns of an element name.
pub struct TagPatterns {
    pub exact: Vec<char>,
    pub attr: Vec<char>,
    pub close: Vec<char>,
}

impl TagPatterns {
    pub open spec fn of(&self, tag: Seq<char>) -> bool {
        &&& self.exact@ == open_exact(tag)
        &&& self.attr@ == open_attr(tag)
        &&& self.close@ == close_of(tag)
    }

    /// The patterns of the element `tag`.
    pub fn new(tag: &str) -> (r: TagPatterns)
        ensures
            r.of(tag@),
    {
        let t = chars_of(tag);
        let mut exact: Vec<char> = Vec::new();
        let mut attr: Vec<char> = Vec::new();
        let mut close: Vec<char> = Vec::new();
        exact.push('<');
        attr.push('<');
        close.push('<');
        close.push('/');
        let mut j: usize = 0;
        while j < t.len()
            invariant
                j <= t@.len(),
                exact@ == seq!['<'] + t@.take(j as int),
                attr@ == seq!['<'] + t@.take(j as int),
                close@ == seq!['<', '/'] + t@.take(j as int),
            decreases t.len() - j,
        {
            exact.push(t[j]);
            attr.push(t[j]);
            close.push(t[j]);
            j = j + 1;
            assert(exact@ =~= seq!['<'] + t@.take(j as int));
            assert(attr@ =~= seq!['<'] + t@.take(j as int));
            assert(close@ =~= seq!['<', '/'] + t@.take(j as int));
        }
        exact.push('>');
        attr.push(' ');
        close.push('>');
        assert(t@.take(j as int) =~= tag@);
        assert(exact@ =~= open_exact(tag@));
        assert(attr@ =~= open_attr(tag@));
        assert(close@ =~= close_of(tag@));
        TagPatterns { exact, attr, close }
    }
}

/// The first opening `tag` element at or after `off`.
pub fn find_next_tag(s: &[char], p: &TagPatterns, off: usize, Ghost(tag): Ghost<Seq<char>>) -> (r:
    Option<usize>)
    requires
        p.of(tag),
    ensures
        match r {
            Some(k) => next_tag(s@, tag, off as int) == Some(k as int),
            None => next_tag(s@, tag, off as int) is None,
        },
{
    let a = find(s, &p.exact, off);
    let b = find(s, &p.attr, off);
    match (a, b) {
        (Some(x), Some(y)) => Some(if x <= y { x } else { y }),
        (Some(x), None) => Some(x),
        (None, Some(y)) => Some(y),
        (None, None) => None,
    }
}

/// The depth-counting scan for the end of an element: from `i` at nesting
/// `depth`, each opening `tag` deepens, each `</tag>` closes one level, and the
/// position just after the `</tag>` that brings the depth to zero or below is
/// the end.
pub open spec fn closing_scan(s: Seq<char>, tag: Seq<char>, i: int, depth: int) -> Option<int>
    decreases s.len() - i,
{
    if i < 0 || i >= s.len() {
        None
    } else if matches_at(s, i, open_attr(tag)) || matches_at(s, i, open_exact(tag)) {
        closing_scan(s, tag, i + open_attr(tag).len(), depth + 1)
    } else if matches_at(s, i, close_of(tag)) {
        if depth - 1 <= 0 {
            Some(i + close_of(tag).len())
        } else {
            closing_scan(s, tag, i + close_of(tag).len(), depth - 1)
        }
    } else {
        closing_scan(s, tag, i + 1, depth)
    }
}

/// The end of the `tag` element that starts at `start`.
pub open spec fn closing_tag(s: Seq<char>, tag: Seq<char>, start: int) -> Option<int> {
    closing_scan(s, tag, start, 0)
}

pub proof fn lemma_closing_scan_bounds(s: Seq<char>, tag: Seq<char>, i: int, depth: int)
    ensures
        closing_scan(s, tag, i, depth) matches Some(e) ==> i < e <= s.len() && e - close_of(
            tag,
        ).len() >= i && matches_at(s, e - close_of(tag).len(), close_of(tag)),
    decreases s.len() - i,
{
    if i < 0 || i >= s.len() {
    } else if matches_at(s, i, open_attr(tag)) || matches_at(s, i, open_exact(tag)) {
        lemma_closing_scan_bounds(s, tag, i + open_attr(tag).len(), depth + 1);
    } else if matches_at(s, i, close_of(tag)) {
        if depth - 1 > 0 {
            lemma_closing_scan_bounds(s, tag, i + close_of(tag).len(), depth - 1);
        }
    } else {
        lemma_closing_scan_bounds(s, tag, i + 1, depth);
    }
}

/// The end of the `tag` element that starts at `start` (just after its matching
/// `</tag>`).
pub fn find_closing_tag(s: &[char], start: usize, p: &TagPatterns, Ghost(tag): Ghost<Seq<char>>) -> (r:
    Option<usize>)
    requires
        p.of(tag),
    ensures
        match r {
            Some(e) => closing_tag(s@, tag, start as int) == Some(e as int),
            None => closing_tag(s@, tag, start as int) is None,
        },
{
    let mut depth: usize = 0;
    let mut i = start;
    while i < s.len()
        invariant
            p.of(tag),
            depth <= i,
            closing_tag(s@, tag, start as int) == closing_scan(s@, tag, i as int, depth as int),
        decreases s.len() - i,
    {
        if i <= s.len() && (starts_here(s, i, &p.attr) || starts_here(s, i, &p.exact)) {
            depth = depth + 1;
            i = i + p.attr.len();
            continue;
        }
        if starts_here(s, i, &p.close) {
            if depth <= 1 {
                return Some(i + p.close.len());
            }
            depth = depth - 1;
            i = i + p.close.len();
            continue;
        }
        i = i + 1;
    }
    None
}

/// Whether `pat` occurs in `s` at position `k`.
pub fn starts_here(s: &[char], k: usize, pat: &[char]) -> (r: bool)
    requires
        k <= s@.len(),
    ensures
        r == matches_at(s@, k as int, pat@),
        r ==> k + pat@.len() <= s@.len(),
{
    if pat.len() > s.len() - k {
        return false;
    }
    matches_here(s, k, pat)
}


/// A character sequence in a vector holding the given string.
pub fn pattern(p: &str) -> (r: Vec<char>)
    ensures
        r@ == p@,
{
    chars_of(p)
}

/// The value of the first `w:val` attribute after the first `<w:pStyle `.
pub open spec fn style_of(p: Seq<char>) -> Option<Seq<char>> {
    match find_from(p, "<w:pStyle "@, 0) {
        None => None,
        Some(ps) => match find_from(p, "w:val=\""@, ps) {
            None => None,
            Some(vs) => match find_from(p, "\""@, vs + 7) {
                None => None,
                Some(ve) => Some(p.subrange(vs + 7, ve)),
            },
        },
    }
}

/// The paragraph style named in a `<w:p>` element.
pub fn extract_style(p: &[char]) -> (r: Option<Vec<char>>)
    ensures
        match r {
            Some(v) => style_of(p@) == Some(v@),
            None => style_of(p@) is None,
        },
{
    proof {
        reveal_strlit("w:val=\"");
    }
    let ps = match find(p, &pattern("<w:pStyle "), 0) {
        Some(k) => k,
        None => return None,
    };
    let vpat = pattern("w:val=\"");
    let vs = match find(p, &vpat, ps) {
        Some(k) => k,
        None => return None,
    };
    proof {
        lemma_find_from_props(p@, "w:val=\""@, ps as int);
        assert(matches_at(p@, vs as int, "w:val=\""@));
        assert("w:val=\""@.len() == 7);
        assert(p@.len() == p.len());
    }
    let ve = match find(p, &pattern("\""), vs + 7) {
        Some(k) => k,
        None => return None,
    };
    proof {
        lemma_find_from_props(p@, "\""@, vs + 7);
    }
    Some(copy_range(p, vs + 7, ve))
}

/// The run properties inside the paragraph properties of `p`, when both are
/// present: `<w:rPr>...</w:rPr>` within `<w:pPr>...</w:pPr>` and the character
/// that follows it.
pub open spec fn para_run_props(p: Seq<char>) -> Option<Seq<char>> {
    match find_from(p, "<w:pPr>"@, 0) {
        None => None,
        Some(a) => match find_from(p, "</w:pPr>"@, a) {
            None => None,
            Some(b) => {
                let ppr = p.subrange(a, b + 9);
                match find_from(ppr, "<w:rPr>"@, 0) {
                    None => None,
                    Some(c) => match find_from(ppr, "</w:rPr>"@, c) {
                        None => None,
                        Some(d) => Some(ppr.subrange(c, d + 8)),
                    },
                }
            },
        },
    }
}

/// The paragraph-properties block of `p`, when present, is followed by at least
/// one more character.
pub open spec fn ppr_fits(p: Seq<char>) -> bool {
    match find_from(p, "<w:pPr>"@, 0) {
        None => true,
        Some(a) => match find_from(p, "</w:pPr>"@, a) {
            None => true,
            Some(b) => b + 9 <= p.len(),
        },
    }
}

/// The run properties inside the paragraph properties of `p`.
pub fn paragraph_run_props(p: &[char]) -> (r: Option<Vec<char>>)
    requires
        ppr_fits(p@),
    ensures
        match r {
            Some(v) => para_run_props(p@) == Some(v@),
            None => para_run_props(p@) is None,
        },
{
    proof {
        reveal_strlit("</w:pPr>");
        reveal_strlit("</w:rPr>");
    }
    let a = match find(p, &pattern("<w:pPr>"), 0) {
        Some(k) => k,
        None => return None,
    };
    let b = match find(p, &pattern("</w:pPr>"), a) {
        Some(k) => k,
        None => return None,
    };
    proof {
        lemma_find_from_props(p@, "</w:pPr>"@, a as int);
        assert(find_from(p@, "<w:pPr>"@, 0) == Some(a as int));
        assert(find_from(p@, "</w:pPr>"@, a as int) == Some(b as int));
        assert(p@.len() == p.len());
    }
    let ppr = copy_range(p, a, b + 9);
    let c = match find(&ppr, &pattern("<w:rPr>"), 0) {
        Some(k) => k,
        None => return None,
    };
    let d = match find(&ppr, &pattern("</w:rPr>"), c) {
        Some(k) => k,
        None => return None,
    };
    proof {
        lemma_find_from_props(ppr@, "</w:rPr>"@, c as int);
    }
    Some(copy_range(&ppr, c, d + 8))
}

/// The paragraph properties of `p` make its text bold and underlined.
pub open spec fn bold_underline(p: Seq<char>) -> bool {
    match para_run_props(p) {
        Some(rpr) => (contains_seq(rpr, "<w:b/>"@) || contains_seq(rpr, "<w:bCs/>"@))
            && contains_seq(rpr, "<w:u "@),
        None => false,
    }
}

/// The paragraph properties of `p` make its text bold.
pub open spec fn bold_in_ppr(p: Seq<char>) -> bool {
    match para_run_props(p) {
        Some(rpr) => contains_seq(rpr, "<w:b/>"@) || contains_seq(rpr, "<w:bCs/>"@),
        None => false,
    }
}

pub fn para_has_bold_underline(p: &[char]) -> (r: bool)
    requires
        ppr_fits(p@),
    ensures
        r == bold_underline(p@),
{
    match paragraph_run_props(p) {
        Some(rpr) => (contains_str(&rpr, "<w:b/>") || contains_str(&rpr, "<w:bCs/>"))
            && contains_str(&rpr, "<w:u "),
        None => false,
    }
}

pub fn para_has_bold_in_ppr(p: &[char]) -> (r: bool)
    requires
        ppr_fits(p@),
    ensures
        r == bold_in_ppr(p@),
{
    match paragraph_run_props(p) {
        Some(rpr) => contains_str(&rpr, "<w:b/>") || contains_str(&rpr, "<w:bCs/>"),
        None => false,
    }
}

/// The number of alphabetic characters of `t`.
pub open spec fn count_alpha(t: Seq<char>) -> nat
    decreases t.len(),
{
    if t.len() == 0 {
        0
    } else {
        count_alpha(t.drop_last()) + if alphabetic(t.last()) {
            1nat
        } else {
            0nat
        }
    }
}

/// Short text that reads like a header: non-empty, under 40 bytes once trimmed,
/// not a list dash, without `|` or `@`, with more than two letters.
pub open spec fn short_header_text(text: Seq<char>) -> bool {
    let t = trim(text);
    &&& t.len() > 0
    &&& byte_len(t) < 40
    &&& t[0] != '-'
    &&& !contains_seq(t, "|"@)
    &&& !contains_seq(t, "@"@)
    &&& count_alpha(t) > 2
}

pub fn is_short_header_text(text: &[char]) -> (r: bool)
    ensures
        r == short_header_text(text@),
{
    let (a, b) = trim_bounds(text, 0, text.len());
    assert(text@.subrange(0, text@.len() as int) =~= text@);
    let t = copy_range(text, a, b);
    if t.len() == 0 {
        return false;
    }
    let mut bytes: usize = 0;
    let mut k: usize = 0;
    while k < t.len()
        invariant
            k <= t@.len(),
            bytes == byte_len(t@.take(k as int)),
            bytes < 40,
            t@ == trim(text@),
        decreases t.len() - k,
    {
        let w = char_len_utf8(t[k]);
        proof {
            assert(t@.take(k + 1).drop_last() =~= t@.take(k as int));
        }
        if bytes + w >= 40 {
            proof {
                crate::strutil::lemma_byte_len_take(t@, k + 1);
                assert(t@.take(k + 1).last() == t@[k as int]);
                assert(byte_len(t@.take(k + 1)) == bytes + w);
                assert(t@ == trim(text@));
            }
            return false;
        }
        bytes = bytes + w;
        k = k + 1;
    }
    assert(t@.take(k as int) =~= t@);
    if t[0] == '-' || contains_str(&t, "|") || contains_str(&t, "@") {
        return false;
    }
    let mut count: usize = 0;
    let mut m: usize = 0;
    while m < t.len()
        invariant
            m <= t@.len(),
            count == count_alpha(t@.take(m as int)),
            count <= m,
        decreases t.len() - m,
    {
        proof {
            assert(t@.take(m + 1).drop_last() =~= t@.take(m as int));
        }
        if is_alphabetic(t[m]) {
            count = count + 1;
        }
        m = m + 1;
    }
    assert(t@.take(m as int) =~= t@);
    count > 2
}

/// A run of inlines that is bold throughout: non-empty, each inline bold or
/// blank text.
pub open spec fn all_bold(v: Seq<InlineView>) -> bool {
    &&& v.len() > 0
    &&& forall|k: int|
        0 <= k < v.len() ==> match #[trigger] v[k] {
            InlineView::Bold(_) => true,
            InlineView::Text(t) => trim(t).len() == 0,
            _ => false,
        }
}

pub fn all_inlines_bold(v: &Vec<Inline>) -> (r: bool)
    ensures
        r == all_bold(inlines_view(v@)),
{
    proof {
        crate::ir::lemma_inlines_view(v@);
    }
    if v.len() == 0 {
        return false;
    }
    let mut k: usize = 0;
    while k < v.len()
        invariant
            k <= v@.len(),
            inlines_view(v@).len() == v@.len(),
            forall|m: int| 0 <= m < v@.len() ==> inlines_view(v@)[m] == (#[trigger] v@[m])@,
            forall|m: int|
                0 <= m < k ==> match #[trigger] inlines_view(v@)[m] {
                    InlineView::Bold(_) => true,
                    InlineView::Text(t) => trim(t).len() == 0,
                    _ => false,
                },
        decreases v.len() - k,
    {
        let ok = match &v[k] {
            Inline::Bold(_) => true,
            Inline::Text(t) => {
                let cs = chars_of(t.as_str());
                let (a, b) = trim_bounds(&cs, 0, cs.len());
                assert(cs@.subrange(0, cs@.len() as int) =~= cs@);
                a == b
            },
            _ => false,
        };
        if !ok {
            return false;
        }
        k = k + 1;
    }
    true
}


/// The text gathered from the `<w:t ...>...</w:t>` parts of a run, scanning
/// from `off`: the text starts after the first `>` that follows a `<w:t` (or
/// just after the `<`, when there is none) and ends at the next `</w:t>`.
pub open spec fn run_text_from(run: Seq<char>, off: int) -> Seq<char>
    decreases run.len() - off,
{
    if off < 0 {
        seq![]
    } else {
        match find_from(run, "<w:t"@, off) {
            None => seq![],
            Some(ts) => {
                let start = match find_from(run, ">"@, ts) {
                    Some(g) => g + 1,
                    None => ts + 1,
                };
                match find_from(run, "</w:t>"@, start) {
                    None => seq![],
                    Some(e) => {
                        proof {
                            lemma_find_from_props(run, "<w:t"@, off);
                            lemma_find_from_props(run, ">"@, ts);
                            lemma_find_from_props(run, "</w:t>"@, start);
                        }
                        run.subrange(start, e) + run_text_from(run, e)
                    },
                }
            },
        }
    }
}

/// A tab or break marker at `marker` counts when it comes after a `</w:t>` or
/// before any `<w:t`.
pub open spec fn marker_counts(run: Seq<char>, marker: Seq<char>) -> bool {
    let pos = match find_from(run, marker, 0) {
        Some(p) => p,
        None => 0,
    };
    let before = run.take(pos);
    contains_seq(before, "</w:t>"@) || !contains_seq(before, "<w:t"@)
}

/// The full text of a run: its `<w:t>` texts, then a tab and a line break when
/// the run holds those.
pub open spec fn run_text(run: Seq<char>) -> Seq<char> {
    let t = run_text_from(run, 0);
    let has_tab = contains_seq(run, "<w:tab/>"@) || contains_seq(run, "<w:tab />"@);
    let t = if has_tab && marker_counts(run, "<w:tab"@) {
        t.push('\t')
    } else {
        t
    };
    let has_br = contains_seq(run, "<w:br/>"@) || contains_seq(run, "<w:br />"@) || contains_seq(
        run,
        "<w:br "@,
    );
    if has_br && marker_counts(run, "<w:br"@) {
        t.push('\n')
    } else {
        t
    }
}

/// The run is bold.
pub open spec fn run_bold(run: Seq<char>) -> bool {
    contains_seq(run, "<w:b/>"@) || contains_seq(run, "<w:b w:val=\"true\">"@) || contains_seq(
        run,
        "<w:b w:val=\"1\">"@,
    )
}

/// The run is italic.
pub open spec fn run_italic(run: Seq<char>) -> bool {
    contains_seq(run, "<w:i/>"@) || contains_seq(run, "<w:i w:val=\"true\">"@) || contains_seq(
        run,
        "<w:i w:val=\"1\">"@,
    )
}

/// The inlines of a run: nothing when it has no text, else its decoded text,
/// wrapped in strikethrough, italic and bold as the run's properties say.
pub open spec fn run_inlines(run: Seq<char>) -> Seq<InlineView> {
    let t = run_text(run);
    if t.len() == 0 {
        seq![]
    } else {
        let i0 = InlineView::Text(decoded_entities(t));
        let i1 = if contains_seq(run, "<w:strike/>"@) {
            InlineView::Strikethrough(seq![i0])
        } else {
            i0
        };
        let i2 = if run_italic(run) {
            InlineView::Italic(seq![i1])
        } else {
            i1
        };
        let i3 = if run_bold(run) {
            InlineView::Bold(seq![i2])
        } else {
            i2
        };
        seq![i3]
    }
}

/// Appends `run[a..b]` to `out`.
pub fn push_range(out: &mut Vec<char>, run: &[char], a: usize, b: usize)
    requires
        a <= b <= run@.len(),
    ensures
        final(out)@ == old(out)@ + run@.subrange(a as int, b as int),
{
    let mut i = a;
    while i < b
        invariant
            a <= i <= b <= run@.len(),
            out@ == old(out)@ + run@.subrange(a as int, i as int),
        decreases b - i,
    {
        out.push(run[i]);
        i = i + 1;
        assert(out@ =~= old(out)@ + run@.subrange(a as int, i as int));
    }
}

/// Whether a tab or break marker counts (see `marker_counts`).
pub fn marker_counted(run: &[char], marker: &str) -> (r: bool)
    ensures
        r == marker_counts(run@, marker@),
{
    let pos = match find(run, &pattern(marker), 0) {
        Some(p) => p,
        None => 0,
    };
    proof {
        lemma_find_from_props(run@, marker@, 0);
    }
    let before = copy_range(run, 0, pos);
    assert(before@ =~= run@.take(pos as int));
    contains_str(&before, "</w:t>") || !contains_str(&before, "<w:t")
}

/// Wraps an inline in a one-element run.
pub fn wrap(i: Inline) -> (r: Vec<Inline>)
    ensures
        inlines_view(r@) == seq![i@],
{
    let mut v: Vec<Inline> = Vec::new();
    v.push(i);
    proof {
        assert(v@.drop_last() =~= Seq::<Inline>::empty());
        assert(inlines_view(Seq::<Inline>::empty()) =~= Seq::<InlineView>::empty());
        assert(inline_view_of(v@.last()) == i@);
        assert(inlines_view(v@) =~= seq![i@]);
    }
    v
}

/// The value of an inline (a name for `i@` usable on sequence elements).
pub open spec fn inline_view_of(i: Inline) -> InlineView {
    i@
}

/// The `<w:t>` texts of a run (see `run_text_from`).
pub fn run_text_part(run: &[char]) -> (r: Vec<char>)
    ensures
        r@ == run_text_from(run@, 0),
{
    let mut text: Vec<char> = Vec::new();
    let mut off: usize = 0;
    let tpat = pattern("<w:t");
    let gpat = pattern(">");
    let epat = pattern("</w:t>");
    proof {
        reveal_strlit("<w:t");
        reveal_strlit("</w:t>");
        reveal_strlit(">");
    }
    while off < run.len()
        invariant
            off <= run@.len(),
            "<w:t"@.len() == 4,
            ">"@.len() == 1,
            "</w:t>"@.len() == 6,
            run@.len() == run.len(),
            tpat@ == "<w:t"@,
            gpat@ == ">"@,
            epat@ == "</w:t>"@,
            run_text_from(run@, 0) == text@ + run_text_from(run@, off as int),
        decreases run.len() - off,
    {
        let ts = match find(run, &tpat, off) {
            Some(k) => k,
            None => {
                proof {
                    assert(run_text_from(run@, run@.len() as int) =~= Seq::<char>::empty());
                    assert(text@ + Seq::<char>::empty() =~= text@);
                }
                off = run.len();
                continue;
            },
        };
        proof {
            lemma_find_from_props(run@, "<w:t"@, off as int);
            assert(run@.len() == run.len());
        }
        let start = match find(run, &gpat, ts) {
            Some(g) => {
                proof {
                    lemma_find_from_props(run@, ">"@, ts as int);
                }
                g + 1
            },
            None => ts + 1,
        };
        let e = match find(run, &epat, start) {
            Some(e) => e,
            None => {
                proof {
                    assert(run_text_from(run@, run@.len() as int) =~= Seq::<char>::empty());
                    assert(text@ + Seq::<char>::empty() =~= text@);
                }
                off = run.len();
                continue;
            },
        };
        proof {
            lemma_find_from_props(run@, "</w:t>"@, start as int);
        }
        push_range(&mut text, run, start, e);
        proof {
            assert(text@ + run_text_from(run@, e as int) =~= run_text_from(run@, 0));
        }
        off = e;
    }
    proof {
        assert(run_text_from(run@, off as int) =~= Seq::<char>::empty());
        assert(text@ + Seq::<char>::empty() =~= text@);
    }
    text
}

/// The inlines of one `<w:r>` run.
pub fn extract_run_inlines(run: &[char]) -> (r: Vec<Inline>)
    ensures
        inlines_view(r@) == run_inlines(run@),
{
    let is_bold = contains_str(run, "<w:b/>") || contains_str(run, "<w:b w:val=\"true\">")
        || contains_str(run, "<w:b w:val=\"1\">");
    let is_italic = contains_str(run, "<w:i/>") || contains_str(run, "<w:i w:val=\"true\">")
        || contains_str(run, "<w:i w:val=\"1\">");
    let is_strike = contains_str(run, "<w:strike/>");
    let mut text = run_text_part(run);
    if (contains_str(run, "<w:tab/>") || contains_str(run, "<w:tab />")) && marker_counted(
        run,
        "<w:tab",
    ) {
        text.push('\t');
    }
    if (contains_str(run, "<w:br/>") || contains_str(run, "<w:br />") || contains_str(
        run,
        "<w:br ",
    )) && marker_counted(run, "<w:br") {
        text.push('\n');
    }
    assert(text@ == run_text(run@));
    if text.len() == 0 {
        let v: Vec<Inline> = Vec::new();
        assert(inlines_view(v@) =~= Seq::<InlineView>::empty());
        return v;
    }
    let decoded = decode_xml_entities(&text);
    let mut inline = Inline::Text(crate::strutil::string_of(&decoded));
    if is_strike {
        inline = Inline::Strikethrough(wrap(inline));
    }
    if is_italic {
        inline = Inline::Italic(wrap(inline));
    }
    if is_bold {
        inline = Inline::Bold(wrap(inline));
    }
    wrap(inline)
}


/// The first `<w:r>` or `<w:r ` at or after `off`.
pub open spec fn run_start_from(s: Seq<char>, off: int) -> Option<int> {
    min_pos(find_from(s, "<w:r>"@, off), find_from(s, "<w:r "@, off))
}

/// The first `<w:hyperlink>` or `<w:hyperlink ` at or after `off`.
pub open spec fn hyperlink_start_from(s: Seq<char>, off: int) -> Option<int> {
    min_pos(find_from(s, "<w:hyperlink>"@, off), find_from(s, "<w:hyperlink "@, off))
}

/// The end of the run that starts at `rs`: just after the first `</w:r>` that
/// follows the run's opening tag, or the end of `s`.
pub open spec fn run_end_from(s: Seq<char>, rs: int) -> int {
    let te = match find_from(s, ">"@, rs) {
        Some(g) => g + 1,
        None => s.len() as int,
    };
    match find_from(s, "</w:r>"@, te) {
        Some(e) => e + 6,
        None => s.len() as int,
    }
}

pub proof fn lemma_run_end(s: Seq<char>, rs: int)
    requires
        0 <= rs < s.len(),
    ensures
        rs < run_end_from(s, rs) <= s.len(),
{
    reveal_strlit("</w:r>");
    reveal_strlit(">");
    lemma_find_from_props(s, ">"@, rs);
    let te = match find_from(s, ">"@, rs) {
        Some(g) => g + 1,
        None => s.len() as int,
    };
    lemma_find_from_props(s, "</w:r>"@, te);
}

/// The inlines of the runs of a hyperlink element, scanning from `off`.
pub open spec fn hyperlink_inlines(hl: Seq<char>, off: int) -> Seq<InlineView>
    decreases hl.len() - off,
{
    if off < 0 {
        seq![]
    } else {
        match run_start_from(hl, off) {
            None => seq![],
            Some(rs) => {
                proof {
                    lemma_find_from_props(hl, "<w:r>"@, off);
                    lemma_find_from_props(hl, "<w:r "@, off);
                    reveal_strlit("<w:r>");
                    reveal_strlit("<w:r ");
                    lemma_run_end(hl, rs);
                }
                let re = run_end_from(hl, rs);
                run_inlines(hl.subrange(rs, re)) + hyperlink_inlines(hl, re)
            },
        }
    }
}

/// The inlines of a paragraph, scanning from `off`: each run gives its inlines,
/// each hyperlink the inlines of its runs.
pub open spec fn para_inlines_from(p: Seq<char>, off: int) -> Seq<InlineView>
    decreases p.len() - off,
{
    if off < 0 || off >= p.len() {
        seq![]
    } else {
        match min_pos(run_start_from(p, off), hyperlink_start_from(p, off)) {
            None => seq![],
            Some(pos) => {
                proof {
                    lemma_find_from_props(p, "<w:r>"@, off);
                    lemma_find_from_props(p, "<w:r "@, off);
                    lemma_find_from_props(p, "<w:hyperlink>"@, off);
                    lemma_find_from_props(p, "<w:hyperlink "@, off);
                    reveal_strlit("<w:r>");
                    reveal_strlit("<w:r ");
                    reveal_strlit("<w:hyperlink>");
                    reveal_strlit("<w:hyperlink ");
                }
                if matches_at(p, pos, "<w:hyperlink"@) {
                    match closing_tag(p, "w:hyperlink"@, pos) {
                        None => seq![],
                        Some(he) => {
                            proof {
                                lemma_closing_scan_bounds(p, "w:hyperlink"@, pos, 0);
                            }
                            hyperlink_inlines(p.subrange(pos, he), 0) + para_inlines_from(p, he)
                        },
                    }
                } else {
                    proof {
                        lemma_run_end(p, pos);
                    }
                    let re = run_end_from(p, pos);
                    run_inlines(p.subrange(pos, re)) + para_inlines_from(p, re)
                }
            },
        }
    }
}

/// The first position of either of two patterns at or after `off`.
pub fn find_either(s: &[char], a: &Vec<char>, b: &Vec<char>, off: usize) -> (r: Option<usize>)
    ensures
        match r {
            Some(k) => min_pos(find_from(s@, a@, off as int), find_from(s@, b@, off as int))
                == Some(k as int),
            None => min_pos(find_from(s@, a@, off as int), find_from(s@, b@, off as int)) is None,
        },
{
    let x = find(s, a, off);
    let y = find(s, b, off);
    match (x, y) {
        (Some(p), Some(q)) => Some(if p <= q { p } else { q }),
        (Some(p), None) => Some(p),
        (None, Some(q)) => Some(q),
        (None, None) => None,
    }
}

/// The end of the run that starts at `rs` (see `run_end_from`).
pub fn run_end(s: &[char], rs: usize) -> (r: usize)
    requires
        rs < s@.len(),
    ensures
        r == run_end_from(s@, rs as int),
        rs < r <= s@.len(),
{
    proof {
        lemma_run_end(s@, rs as int);
        reveal_strlit(">");
    }
    let te = match find(s, &pattern(">"), rs) {
        Some(g) => {
            proof {
                lemma_find_from_props(s@, ">"@, rs as int);
                assert(s@.len() == s.len());
            }
            g + 1
        },
        None => s.len(),
    };
    match find(s, &pattern("</w:r>"), te) {
        Some(e) => {
            proof {
                reveal_strlit("</w:r>");
                lemma_find_from_props(s@, "</w:r>"@, te as int);
                assert(s@.len() == s.len());
            }
            e + 6
        },
        None => s.len(),
    }
}

/// The inlines of the runs of a hyperlink element.
pub fn hyperlink_runs(hl: &[char]) -> (r: Vec<Inline>)
    ensures
        inlines_view(r@) == hyperlink_inlines(hl@, 0),
{
    let rp = pattern("<w:r>");
    let rq = pattern("<w:r ");
    let mut out: Vec<Inline> = Vec::new();
    let mut off: usize = 0;
    proof {
        reveal_strlit("<w:r>");
        reveal_strlit("<w:r ");
    }
    loop
        invariant
            off <= hl@.len(),
            rp@ == "<w:r>"@,
            rq@ == "<w:r "@,
            "<w:r>"@.len() == 5,
            "<w:r "@.len() == 5,
            hyperlink_inlines(hl@, 0) == inlines_view(out@) + hyperlink_inlines(hl@, off as int),
        decreases hl.len() - off,
    {
        let rs = match find_either(hl, &rp, &rq, off) {
            Some(k) => k,
            None => {
                proof {
                    assert(inlines_view(out@) + Seq::<InlineView>::empty() =~= inlines_view(
                        out@,
                    ));
                }
                return out;
            },
        };
        proof {
            lemma_find_from_props(hl@, "<w:r>"@, off as int);
            lemma_find_from_props(hl@, "<w:r "@, off as int);
        }
        let re = run_end(hl, rs);
        let run = copy_range(hl, rs, re);
        let ri = extract_run_inlines(&run);
        let ghost before = inlines_view(out@);
        append_inlines(&mut out, ri);
        proof {
            assert(hyperlink_inlines(hl@, off as int) == run_inlines(
                hl@.subrange(rs as int, re as int),
            ) + hyperlink_inlines(hl@, re as int));
            assert(inlines_view(out@) + hyperlink_inlines(hl@, re as int) =~= before + (
            run_inlines(hl@.subrange(rs as int, re as int)) + hyperlink_inlines(
                hl@,
                re as int,
            )));
        }
        off = re;
    }
}

/// The inlines of a `<w:p>` paragraph.
#[verifier::rlimit(50)]
pub fn extract_inlines(p: &[char]) -> (r: Vec<Inline>)
    ensures
        inlines_view(r@) == para_inlines_from(p@, 0),
{
    let rp = pattern("<w:r>");
    let rq = pattern("<w:r ");
    let hp = pattern("<w:hyperlink>");
    let hq = pattern("<w:hyperlink ");
    let hpre = pattern("<w:hyperlink");
    let hpat = TagPatterns::new("w:hyperlink");
    let mut out: Vec<Inline> = Vec::new();
    let mut off: usize = 0;
    proof {
        reveal_strlit("<w:r>");
        reveal_strlit("<w:r ");
        reveal_strlit("<w:hyperlink>");
        reveal_strlit("<w:hyperlink ");
    }
    while off < p.len()
        invariant
            off <= p@.len(),
            rp@ == "<w:r>"@,
            rq@ == "<w:r "@,
            hp@ == "<w:hyperlink>"@,
            hq@ == "<w:hyperlink "@,
            hpre@ == "<w:hyperlink"@,
            hpat.of("w:hyperlink"@),
            "<w:r>"@.len() == 5,
            "<w:r "@.len() == 5,
            "<w:hyperlink>"@.len() == 13,
            "<w:hyperlink "@.len() == 13,
            para_inlines_from(p@, 0) == inlines_view(out@) + para_inlines_from(p@, off as int),
        decreases p.len() - off,
    {
        let nr = find_either(p, &rp, &rq, off);
        let nh = find_either(p, &hp, &hq, off);
        let pos = match (nr, nh) {
            (Some(a), Some(b)) => if a <= b {
                a
            } else {
                b
            },
            (Some(a), None) => a,
            (None, Some(b)) => b,
            (None, None) => {
                proof {
                    assert(inlines_view(out@) + Seq::<InlineView>::empty() =~= inlines_view(
                        out@,
                    ));
                }
                return out;
            },
        };
        proof {
            lemma_find_from_props(p@, "<w:r>"@, off as int);
            lemma_find_from_props(p@, "<w:r "@, off as int);
            lemma_find_from_props(p@, "<w:hyperlink>"@, off as int);
            lemma_find_from_props(p@, "<w:hyperlink "@, off as int);
        }
        let ghost before = inlines_view(out@);
        if starts_here(p, pos, &hpre) {
            let he = match find_closing_tag(p, pos, &hpat, Ghost("w:hyperlink"@)) {
                Some(e) => e,
                None => {
                    proof {
                        assert(inlines_view(out@) + Seq::<InlineView>::empty() =~= inlines_view(
                            out@,
                        ));
                    }
                    return out;
                },
            };
            proof {
                lemma_closing_scan_bounds(p@, "w:hyperlink"@, pos as int, 0);
            }
            let hl = copy_range(p, pos, he);
            let hi = hyperlink_runs(&hl);
            append_inlines(&mut out, hi);
            proof {
                assert(inlines_view(out@) + para_inlines_from(p@, he as int) =~= before + (
                hyperlink_inlines(p@.subrange(pos as int, he as int), 0) + para_inlines_from(
                    p@,
                    he as int,
                )));
            }
            off = he;
        } else {
            let re = run_end(p, pos);
            let run = copy_range(p, pos, re);
            let ri = extract_run_inlines(&run);
            append_inlines(&mut out, ri);
            proof {
                assert(inlines_view(out@) + para_inlines_from(p@, re as int) =~= before + (
                run_inlines(p@.subrange(pos as int, re as int)) + para_inlines_from(
                    p@,
                    re as int,
                )));
            }
            off = re;
        }
    }
    proof {
        assert(para_inlines_from(p@, off as int) =~= Seq::<InlineView>::empty());
        assert(inlines_view(out@) + Seq::<InlineView>::empty() =~= inlines_view(out@));
    }
    out
}


/// `s` ends with the closing tag of `tag`.
pub open spec fn ends_with_close(s: Seq<char>, tag: Seq<char>) -> bool {
    s.len() >= close_of(tag).len() && matches_at(s, s.len() - close_of(tag).len(), close_of(tag))
}

/// A `<w:p>` element ending with `</w:p>` has room after its `</w:pPr>`.
pub proof fn lemma_para_ppr_fits(p: Seq<char>)
    requires
        ends_with_close(p, "w:p"@),
    ensures
        ppr_fits(p),
{
    reveal_strlit("w:p");
    reveal_strlit("</w:pPr>");
    reveal_strlit("<w:pPr>");
    match find_from(p, "<w:pPr>"@, 0) {
        None => {},
        Some(a) => {
            lemma_find_from_props(p, "<w:pPr>"@, 0);
            match find_from(p, "</w:pPr>"@, a) {
                None => {},
                Some(b) => {
                    lemma_find_from_props(p, "</w:pPr>"@, a);
                    if b + 9 > p.len() {
                        let n = p.len() as int;
                        assert(b + 8 == n);
                        assert(p.subrange(n - 6, n)[3] == close_of("w:p"@)[3]);
                        assert(p.subrange(b, b + 8)[5] == "</w:pPr>"@[5]);
                        assert(p[n - 3] == ':');
                        assert(p[b + 5] == 'P');
                    }
                },
            }
        },
    }
}

/// The style names as the block kind they give.
pub open spec fn style_in(st: Seq<char>, a: Seq<char>, b: Seq<char>) -> bool {
    st == a || st == b
}

/// The block a `<w:p>` element becomes, if any: nothing without inlines; a
/// heading for the heading styles (levels 5 and 6 both give 5); a list item for
/// list styles, numbered when the style's lower-case name says "number"; an
/// unnumbered item for numbered paragraphs; a level-2 heading for bold and
/// underlined paragraph properties, or for short header-like text in bold; else a
/// paragraph.
pub open spec fn para_blocks(p: Seq<char>) -> Seq<BlockView> {
    let inl = para_inlines_from(p, 0);
    let txt = inlines_text(inl);
    if inl.len() == 0 {
        seq![]
    } else if style_of(p) matches Some(st) && style_in(st, "Heading1"@, "heading1"@) {
        seq![text_heading(1, txt)]
    } else if style_of(p) matches Some(st) && style_in(st, "Heading2"@, "heading2"@) {
        seq![text_heading(2, txt)]
    } else if style_of(p) matches Some(st) && style_in(st, "Heading3"@, "heading3"@) {
        seq![text_heading(3, txt)]
    } else if style_of(p) matches Some(st) && style_in(st, "Heading4"@, "heading4"@) {
        seq![text_heading(4, txt)]
    } else if style_of(p) matches Some(st) && (style_in(st, "Heading5"@, "heading5"@) || style_in(
        st,
        "Heading6"@,
        "heading6"@,
    )) {
        seq![text_heading(5, txt)]
    } else if style_of(p) matches Some(st) && (contains_seq(st, "ListParagraph"@) || contains_seq(
        st,
        "list"@,
    )) {
        seq![BlockView::List { ordered: contains_seq(lowercase(style_of(p).unwrap()), "number"@), items: seq![inl] }]
    } else if contains_seq(p, "<w:numPr>"@) {
        seq![BlockView::List { ordered: false, items: seq![inl] }]
    } else if bold_underline(p) {
        seq![text_heading(2, txt)]
    } else if bold_in_ppr(p) && short_header_text(txt) {
        seq![text_heading(2, txt)]
    } else if all_bold(inl) && short_header_text(txt) {
        seq![text_heading(2, txt)]
    } else {
        seq![BlockView::Paragraph(inl)]
    }
}

/// A one-item list.
pub fn list_of_one(ordered: bool, inl: Vec<Inline>) -> (r: Block)
    ensures
        r@ == (BlockView::List { ordered, items: seq![inlines_view(inl@)] }),
{
    let mut items: Vec<Vec<Inline>> = Vec::new();
    items.push(inl);
    proof {
        assert(crate::ir::cells_view(items@) =~= seq![inlines_view(inl@)]);
    }
    Block::List { ordered, items }
}

/// Adds the block for one `<w:p>` element (see `para_blocks`).
pub fn emit_paragraph(p: &[char], doc: &mut Document)
    requires
        ppr_fits(p@),
    ensures
        final(doc).metadata == old(doc).metadata,
        final(doc).blocks_view() == old(doc).blocks_view() + para_blocks(p@),
{
    let style = extract_style(p);
    let inlines = extract_inlines(p);
    if inlines.len() == 0 {
        assert(inlines_view(inlines@).len() == 0) by {
            crate::ir::lemma_inlines_view(inlines@);
        }
        assert(old(doc).blocks_view() + Seq::<BlockView>::empty() =~= old(doc).blocks_view());
        return;
    }
    proof {
        crate::ir::lemma_inlines_view(inlines@);
    }
    let text = inlines_plain_text(&inlines);
    let block = match style {
        Some(st) if eq_str(&st, "Heading1") || eq_str(&st, "heading1") => Block::heading(
            1,
            text.as_str(),
        ),
        Some(st) if eq_str(&st, "Heading2") || eq_str(&st, "heading2") => Block::heading(
            2,
            text.as_str(),
        ),
        Some(st) if eq_str(&st, "Heading3") || eq_str(&st, "heading3") => Block::heading(
            3,
            text.as_str(),
        ),
        Some(st) if eq_str(&st, "Heading4") || eq_str(&st, "heading4") => Block::heading(
            4,
            text.as_str(),
        ),
        Some(st) if eq_str(&st, "Heading5") || eq_str(&st, "heading5") || eq_str(&st, "Heading6")
            || eq_str(&st, "heading6") => Block::heading(5, text.as_str()),
        Some(st) if contains_str(&st, "ListParagraph") || contains_str(&st, "list") => {
            let lower = to_lowercase(string_of(&st).as_str());
            let lc = chars_of(lower.as_str());
            list_of_one(contains_str(&lc, "number"), inlines)
        },
        _ => {
            let tc = chars_of(text.as_str());
            if contains_str(p, "<w:numPr>") {
                list_of_one(false, inlines)
            } else if para_has_bold_underline(p) {
                Block::heading(2, text.as_str())
            } else if para_has_bold_in_ppr(p) && is_short_header_text(&tc) {
                Block::heading(2, text.as_str())
            } else if all_inlines_bold(&inlines) && is_short_header_text(&tc) {
                Block::heading(2, text.as_str())
            } else {
                Block::Paragraph(inlines)
            }
        },
    };
    doc.push_block(block);
    assert(doc.blocks_view() =~= old(doc).blocks_view() + para_blocks(p@));
}


/// The table's border block, when it has one, is followed by at least one more
/// character.
pub open spec fn borders_fit(t: Seq<char>) -> bool {
    match find_from(t, "<w:tblBorders"@, 0) {
        None => true,
        Some(a) => match find_from(t, "</w:tblBorders>"@, a) {
            None => true,
            Some(b) => b + 16 <= t.len(),
        },
    }
}

/// Whether a table draws visible borders: true unless it has a
/// `<w:tblBorders>` block that names none of the visible border styles.
pub open spec fn visible_borders(t: Seq<char>) -> bool {
    match find_from(t, "<w:tblBorders"@, 0) {
        None => true,
        Some(a) => match find_from(t, "</w:tblBorders>"@, a) {
            None => true,
            Some(b) => {
                let borders = t.subrange(a, b + 16);
                contains_seq(borders, "val=\"single\""@) || contains_seq(
                    borders,
                    "val=\"double\""@,
                ) || contains_seq(borders, "val=\"thick\""@) || contains_seq(
                    borders,
                    "val=\"thickThinLargeGap\""@,
                ) || contains_seq(borders, "val=\"wave\""@)
            },
        },
    }
}

/// A `<w:tbl>` element ending with `</w:tbl>` has room after its border block.
pub proof fn lemma_table_borders_fit(t: Seq<char>)
    requires
        ends_with_close(t, "w:tbl"@),
    ensures
        borders_fit(t),
{
    reveal_strlit("w:tbl");
    reveal_strlit("</w:tblBorders>");
    reveal_strlit("<w:tblBorders");
    match find_from(t, "<w:tblBorders"@, 0) {
        None => {},
        Some(a) => {
            lemma_find_from_props(t, "<w:tblBorders"@, 0);
            match find_from(t, "</w:tblBorders>"@, a) {
                None => {},
                Some(b) => {
                    lemma_find_from_props(t, "</w:tblBorders>"@, a);
                    if b + 16 > t.len() {
                        let n = t.len() as int;
                        assert(b + 15 == n);
                        assert(t.subrange(n - 8, n)[0] == close_of("w:tbl"@)[0]);
                        assert(t.subrange(b, b + 15)[7] == "</w:tblBorders>"@[7]);
                        assert(t[n - 8] == '<');
                        assert(t[b + 7] == 'B');
                    }
                },
            }
        },
    }
}

pub fn table_has_visible_borders(t: &[char]) -> (r: bool)
    requires
        borders_fit(t@),
    ensures
        r == visible_borders(t@),
{
    let a = match find(t, &pattern("<w:tblBorders"), 0) {
        Some(k) => k,
        None => return true,
    };
    let b = match find(t, &pattern("</w:tblBorders>"), a) {
        Some(k) => k,
        None => return true,
    };
    proof {
        assert(t@.len() == t.len());
        assert(find_from(t@, "<w:tblBorders"@, 0) == Some(a as int));
        assert(find_from(t@, "</w:tblBorders>"@, a as int) == Some(b as int));
        lemma_find_from_props(t@, "</w:tblBorders>"@, a as int);
        lemma_find_from_props(t@, "<w:tblBorders"@, 0);
    }
    let borders = copy_range(t, a, b + 16);
    contains_str(&borders, "val=\"single\"") || contains_str(&borders, "val=\"double\"")
        || contains_str(&borders, "val=\"thick\"") || contains_str(
        &borders,
        "val=\"thickThinLargeGap\"",
    ) || contains_str(&borders, "val=\"wave\"")
}

/// The inlines of all paragraphs of a table cell, scanning from `off`.
pub open spec fn cell_inlines_from(cell: Seq<char>, off: int) -> Seq<InlineView>
    decreases cell.len() - off,
{
    if off < 0 {
        seq![]
    } else {
        match next_tag(cell, "w:p"@, off) {
            None => seq![],
            Some(ps) => match closing_tag(cell, "w:p"@, ps) {
                None => seq![],
                Some(pe) => {
                    proof {
                        lemma_next_tag_props(cell, "w:p"@, off);
                        lemma_closing_scan_bounds(cell, "w:p"@, ps, 0);
                    }
                    para_inlines_from(cell.subrange(ps, pe), 0) + cell_inlines_from(cell, pe)
                },
            },
        }
    }
}

/// The cells of a table row, scanning from `off`.
pub open spec fn row_cells_from(row: Seq<char>, off: int) -> Seq<Seq<InlineView>>
    decreases row.len() - off,
{
    if off < 0 {
        seq![]
    } else {
        match next_tag(row, "w:tc"@, off) {
            None => seq![],
            Some(cs) => match closing_tag(row, "w:tc"@, cs) {
                None => seq![],
                Some(ce) => {
                    proof {
                        lemma_next_tag_props(row, "w:tc"@, off);
                        lemma_closing_scan_bounds(row, "w:tc"@, cs, 0);
                    }
                    seq![cell_inlines_from(row.subrange(cs, ce), 0)] + row_cells_from(row, ce)
                },
            },
        }
    }
}

/// The non-empty rows of a table, scanning from `off`.
pub open spec fn table_rows_from(t: Seq<char>, off: int) -> Seq<Seq<Seq<InlineView>>>
    decreases t.len() - off,
{
    if off < 0 {
        seq![]
    } else {
        match next_tag(t, "w:tr"@, off) {
            None => seq![],
            Some(rs) => match closing_tag(t, "w:tr"@, rs) {
                None => seq![],
                Some(re) => {
                    proof {
                        lemma_next_tag_props(t, "w:tr"@, off);
                        lemma_closing_scan_bounds(t, "w:tr"@, rs, 0);
                    }
                    let cells = row_cells_from(t.subrange(rs, re), 0);
                    if cells.len() > 0 {
                        seq![cells] + table_rows_from(t, re)
                    } else {
                        table_rows_from(t, re)
                    }
                },
            },
        }
    }
}

pub proof fn lemma_next_tag_props(s: Seq<char>, tag: Seq<char>, off: int)
    requires
        0 <= off,
    ensures
        next_tag(s, tag, off) matches Some(k) ==> off <= k && k < s.len(),
{
    lemma_find_from_props(s, open_exact(tag), off);
    lemma_find_from_props(s, open_attr(tag), off);
}

/// The inlines of all paragraphs of a table cell.
pub fn extract_cell_inlines(cell: &[char]) -> (r: Vec<Inline>)
    ensures
        inlines_view(r@) == cell_inlines_from(cell@, 0),
{
    let pp = TagPatterns::new("w:p");
    let mut out: Vec<Inline> = Vec::new();
    let mut off: usize = 0;
    loop
        invariant
            off <= cell@.len(),
            pp.of("w:p"@),
            cell_inlines_from(cell@, 0) == inlines_view(out@) + cell_inlines_from(
                cell@,
                off as int,
            ),
        decreases cell.len() - off,
    {
        let ps = match find_next_tag(cell, &pp, off, Ghost("w:p"@)) {
            Some(k) => k,
            None => {
                assert(inlines_view(out@) + Seq::<InlineView>::empty() =~= inlines_view(out@));
                return out;
            },
        };
        let pe = match find_closing_tag(cell, ps, &pp, Ghost("w:p"@)) {
            Some(k) => k,
            None => {
                assert(inlines_view(out@) + Seq::<InlineView>::empty() =~= inlines_view(out@));
                return out;
            },
        };
        proof {
            lemma_next_tag_props(cell@, "w:p"@, off as int);
            lemma_closing_scan_bounds(cell@, "w:p"@, ps as int, 0);
        }
        let para = copy_range(cell, ps, pe);
        let ghost before = inlines_view(out@);
        append_inlines(&mut out, extract_inlines(&para));
        proof {
            assert(inlines_view(out@) + cell_inlines_from(cell@, pe as int) =~= before + (
            para_inlines_from(cell@.subrange(ps as int, pe as int), 0) + cell_inlines_from(
                cell@,
                pe as int,
            )));
        }
        off = pe;
    }
}

/// The cells of a table row.
pub fn extract_table_row(row: &[char]) -> (r: Vec<Vec<Inline>>)
    ensures
        crate::ir::cells_view(r@) == row_cells_from(row@, 0),
{
    let tp = TagPatterns::new("w:tc");
    let mut out: Vec<Vec<Inline>> = Vec::new();
    let mut off: usize = 0;
    loop
        invariant
            off <= row@.len(),
            tp.of("w:tc"@),
            row_cells_from(row@, 0) == crate::ir::cells_view(out@) + row_cells_from(
                row@,
                off as int,
            ),
        decreases row.len() - off,
    {
        let cs = match find_next_tag(row, &tp, off, Ghost("w:tc"@)) {
            Some(k) => k,
            None => {
                assert(crate::ir::cells_view(out@) + Seq::<Seq<InlineView>>::empty()
                    =~= crate::ir::cells_view(out@));
                return out;
            },
        };
        let ce = match find_closing_tag(row, cs, &tp, Ghost("w:tc"@)) {
            Some(k) => k,
            None => {
                assert(crate::ir::cells_view(out@) + Seq::<Seq<InlineView>>::empty()
                    =~= crate::ir::cells_view(out@));
                return out;
            },
        };
        proof {
            lemma_next_tag_props(row@, "w:tc"@, off as int);
            lemma_closing_scan_bounds(row@, "w:tc"@, cs as int, 0);
        }
        let cell = copy_range(row, cs, ce);
        let ci = extract_cell_inlines(&cell);
        let ghost before = crate::ir::cells_view(out@);
        out.push(ci);
        proof {
            assert(crate::ir::cells_view(out@) =~= before.push(inlines_view(ci@)));
            assert(crate::ir::cells_view(out@) + row_cells_from(row@, ce as int) =~= before + (
            seq![cell_inlines_from(row@.subrange(cs as int, ce as int), 0)] + row_cells_from(
                row@,
                ce as int,
            )));
        }
        off = ce;
    }
}

/// The non-empty rows of a table.
pub fn extract_table(t: &[char]) -> (r: Vec<Vec<Vec<Inline>>>)
    ensures
        crate::ir::rows_view(r@) == table_rows_from(t@, 0),
{
    let rp = TagPatterns::new("w:tr");
    let mut out: Vec<Vec<Vec<Inline>>> = Vec::new();
    let mut off: usize = 0;
    loop
        invariant
            off <= t@.len(),
            rp.of("w:tr"@),
            table_rows_from(t@, 0) == crate::ir::rows_view(out@) + table_rows_from(
                t@,
                off as int,
            ),
        decreases t.len() - off,
    {
        let rs = match find_next_tag(t, &rp, off, Ghost("w:tr"@)) {
            Some(k) => k,
            None => {
                assert(crate::ir::rows_view(out@) + Seq::<Seq<Seq<InlineView>>>::empty()
                    =~= crate::ir::rows_view(out@));
                return out;
            },
        };
        let re = match find_closing_tag(t, rs, &rp, Ghost("w:tr"@)) {
            Some(k) => k,
            None => {
                assert(crate::ir::rows_view(out@) + Seq::<Seq<Seq<InlineView>>>::empty()
                    =~= crate::ir::rows_view(out@));
                return out;
            },
        };
        proof {
            lemma_next_tag_props(t@, "w:tr"@, off as int);
            lemma_closing_scan_bounds(t@, "w:tr"@, rs as int, 0);
        }
        let row = copy_range(t, rs, re);
        let cells = extract_table_row(&row);
        let ghost before = crate::ir::rows_view(out@);
        if cells.len() > 0 {
            out.push(cells);
            proof {
                assert(crate::ir::rows_view(out@) =~= before.push(crate::ir::cells_view(cells@)));
                assert(crate::ir::rows_view(out@) + table_rows_from(t@, re as int) =~= before + (
                seq![row_cells_from(t@.subrange(rs as int, re as int), 0)] + table_rows_from(
                    t@,
                    re as int,
                )));
            }
        }
        off = re;
    }
}


/// The plain texts of a run of inlines, one per inline.
pub open spec fn inline_texts(c: Seq<InlineView>) -> Seq<Seq<char>> {
    c.map_values(|i: InlineView| crate::ir::inline_text(i))
}

/// A row of a bordered table written out as one line: each cell's inline
/// texts joined by ` | `, the cells joined by ` | `.
pub open spec fn row_line(r: Seq<Seq<InlineView>>) -> Seq<char> {
    join(r.map_values(|c: Seq<InlineView>| join(inline_texts(c), " | "@)), " | "@)
}

/// One paragraph per row (see `row_line`).
pub open spec fn row_paragraphs(rows: Seq<Seq<Seq<InlineView>>>) -> Seq<BlockView>
    decreases rows.len(),
{
    if rows.len() == 0 {
        seq![]
    } else {
        row_paragraphs(rows.drop_last()).push(crate::ir::text_paragraph(row_line(rows.last())))
    }
}

/// All rows have as many cells as the first.
pub open spec fn same_width(rows: Seq<Seq<Seq<InlineView>>>) -> bool {
    forall|k: int| 0 <= k < rows.len() ==> (#[trigger] rows[k]).len() == rows[0].len()
}

/// The blocks a bordered table gives: a table whose first row is the header
/// when there are several rows of equal width, else one paragraph per row.
pub open spec fn bordered_table_blocks(rows: Seq<Seq<Seq<InlineView>>>) -> Seq<BlockView> {
    if rows.len() == 0 {
        seq![]
    } else if same_width(rows) && rows.len() > 1 {
        seq![BlockView::Table { headers: seq![rows[0]], rows: rows.skip(1) }]
    } else {
        row_paragraphs(rows)
    }
}

/// The line for one row of a bordered table (see `row_line`).
pub fn row_text(row: &Vec<Vec<Inline>>) -> (r: Vec<char>)
    ensures
        r@ == row_line(crate::ir::cells_view(row@)),
{
    let mut cell_texts: Vec<Vec<char>> = Vec::new();
    let mut k: usize = 0;
    while k < row.len()
        invariant
            k <= row@.len(),
            seqs_of(cell_texts@) == crate::ir::cells_view(row@).take(k as int).map_values(
                |c: Seq<InlineView>| join(inline_texts(c), " | "@),
            ),
        decreases row.len() - k,
    {
        let cell = &row[k];
        let mut texts: Vec<Vec<char>> = Vec::new();
        let mut m: usize = 0;
        proof {
            crate::ir::lemma_inlines_view(cell@);
        }
        while m < cell.len()
            invariant
                m <= cell@.len(),
                inlines_view(cell@).len() == cell@.len(),
                forall|q: int| 0 <= q < cell@.len() ==> inlines_view(cell@)[q] == (
                #[trigger] cell@[q])@,
                seqs_of(texts@) == inline_texts(inlines_view(cell@)).take(m as int),
            decreases cell.len() - m,
        {
            let t = cell[m].plain_text();
            let tc = chars_of(t.as_str());
            let ghost before = texts@;
            texts.push(tc);
            proof {
                assert(inlines_view(cell@)[m as int] == cell@[m as int]@);
                assert(texts@ == before.push(tc));
                assert(seqs_of(texts@) =~= seqs_of(before).push(tc@));
                assert(inline_texts(inlines_view(cell@)).take(m + 1) =~= inline_texts(
                    inlines_view(cell@),
                ).take(m as int).push(crate::ir::inline_text(inlines_view(cell@)[m as int])));
            }
            m = m + 1;
        }
        assert(inline_texts(inlines_view(cell@)).take(m as int) =~= inline_texts(
            inlines_view(cell@),
        ));
        let joined = join_parts(&texts, " | ");
        let ghost before = cell_texts@;
        cell_texts.push(joined);
        proof {
            let cv = crate::ir::cells_view(row@);
            assert(cv[k as int] == inlines_view(cell@));
            assert(seqs_of(cell_texts@) =~= seqs_of(before).push(joined@));
            assert(cv.take(k + 1).map_values(|c: Seq<InlineView>| join(inline_texts(c), " | "@))
                =~= cv.take(k as int).map_values(
                |c: Seq<InlineView>| join(inline_texts(c), " | "@),
            ).push(join(inline_texts(cv[k as int]), " | "@)));
        }
        k = k + 1;
    }
    assert(crate::ir::cells_view(row@).take(k as int) =~= crate::ir::cells_view(row@));
    join_parts(&cell_texts, " | ")
}

/// Adds the blocks of a bordered table (see `bordered_table_blocks`).
pub fn emit_bordered_table(rows: Vec<Vec<Vec<Inline>>>, doc: &mut Document)
    ensures
        final(doc).metadata == old(doc).metadata,
        final(doc).blocks_view() == old(doc).blocks_view() + bordered_table_blocks(
            crate::ir::rows_view(rows@),
        ),
{
    let ghost rv = crate::ir::rows_view(rows@);
    if rows.len() == 0 {
        assert(old(doc).blocks_view() + Seq::<BlockView>::empty() =~= old(doc).blocks_view());
        return;
    }
    let first_len = rows[0].len();
    let mut same = true;
    let mut k: usize = 0;
    while k < rows.len()
        invariant
            k <= rows@.len(),
            rows@.len() > 0,
            first_len == rows@[0]@.len(),
            rv == crate::ir::rows_view(rows@),
            same == forall|m: int| 0 <= m < k ==> (#[trigger] rv[m]).len() == rv[0].len(),
        decreases rows.len() - k,
    {
        proof {
            assert(rv[k as int].len() == rows@[k as int]@.len());
            assert(rv[0].len() == rows@[0]@.len());
        }
        if rows[k].len() != first_len {
            same = false;
        }
        k = k + 1;
    }
    if same && rows.len() > 1 {
        let mut rows = rows;
        let first = rows.remove(0);
        let mut headers: Vec<Vec<Vec<Inline>>> = Vec::new();
        headers.push(first);
        proof {
            assert(crate::ir::rows_view(headers@) =~= seq![rv[0]]);
            assert(crate::ir::rows_view(rows@) =~= rv.skip(1));
        }
        doc.push_block(Block::Table { headers, rows });
        assert(doc.blocks_view() =~= old(doc).blocks_view() + bordered_table_blocks(rv));
    } else {
        let mut i: usize = 0;
        while i < rows.len()
            invariant
                i <= rows@.len(),
                rv == crate::ir::rows_view(rows@),
                doc.metadata == old(doc).metadata,
                doc.blocks_view() == old(doc).blocks_view() + row_paragraphs(rv.take(i as int)),
            decreases rows.len() - i,
        {
            let line = row_text(&rows[i]);
            let ls = string_of(&line);
            doc.push_block(Block::paragraph(ls.as_str()));
            proof {
                assert(rv.take(i + 1).drop_last() =~= rv.take(i as int));
                assert(doc.blocks_view() =~= old(doc).blocks_view() + row_paragraphs(
                    rv.take(i + 1),
                ));
            }
            i = i + 1;
        }
        assert(rv.take(i as int) =~= rv);
    }
}


/// The paragraphs of a table cell with visible text, scanning from `off`.
pub open spec fn cell_paras_from(cell: Seq<char>, off: int) -> Seq<Seq<InlineView>>
    decreases cell.len() - off,
{
    if off < 0 {
        seq![]
    } else {
        match next_tag(cell, "w:p"@, off) {
            None => seq![],
            Some(ps) => match closing_tag(cell, "w:p"@, ps) {
                None => seq![],
                Some(pe) => {
                    proof {
                        lemma_next_tag_props(cell, "w:p"@, off);
                        lemma_closing_scan_bounds(cell, "w:p"@, ps, 0);
                    }
                    let inl = para_inlines_from(cell.subrange(ps, pe), 0);
                    if trim(inlines_text(inl)).len() > 0 {
                        seq![inl] + cell_paras_from(cell, pe)
                    } else {
                        cell_paras_from(cell, pe)
                    }
                },
            },
        }
    }
}

/// The paragraphs of a cell with visible text, or one empty paragraph.
pub open spec fn cell_paras(cell: Seq<char>) -> Seq<Seq<InlineView>> {
    let ps = cell_paras_from(cell, 0);
    if ps.len() == 0 {
        seq![seq![]]
    } else {
        ps
    }
}

/// The paragraphs of each cell of a row, scanning from `off`.
pub open spec fn row_cell_paras_from(row: Seq<char>, off: int) -> Seq<Seq<Seq<InlineView>>>
    decreases row.len() - off,
{
    if off < 0 {
        seq![]
    } else {
        match next_tag(row, "w:tc"@, off) {
            None => seq![],
            Some(cs) => match closing_tag(row, "w:tc"@, cs) {
                None => seq![],
                Some(ce) => {
                    proof {
                        lemma_next_tag_props(row, "w:tc"@, off);
                        lemma_closing_scan_bounds(row, "w:tc"@, cs, 0);
                    }
                    seq![cell_paras(row.subrange(cs, ce))] + row_cell_paras_from(row, ce)
                },
            },
        }
    }
}

/// One paragraph for each non-empty run.
pub open spec fn nonempty_paras(ps: Seq<Seq<InlineView>>) -> Seq<BlockView>
    decreases ps.len(),
{
    if ps.len() == 0 {
        seq![]
    } else if ps.last().len() > 0 {
        nonempty_paras(ps.drop_last()).push(BlockView::Paragraph(ps.last()))
    } else {
        nonempty_paras(ps.drop_last())
    }
}

/// The largest number of paragraphs in a cell.
pub open spec fn max_len(cps: Seq<Seq<Seq<InlineView>>>) -> nat
    decreases cps.len(),
{
    if cps.len() == 0 {
        0
    } else {
        let m = max_len(cps.drop_last());
        if cps.last().len() > m {
            cps.last().len()
        } else {
            m
        }
    }
}

/// The trimmed, non-empty texts of the `pi`-th paragraph of each cell.
pub open spec fn part_texts(cps: Seq<Seq<Seq<InlineView>>>, pi: int) -> Seq<Seq<char>>
    decreases cps.len(),
{
    if cps.len() == 0 {
        seq![]
    } else {
        let c = cps.last();
        let rest = part_texts(cps.drop_last(), pi);
        if 0 <= pi < c.len() && trim(inlines_text(c[pi])).len() > 0 {
            rest.push(trim(inlines_text(c[pi])))
        } else {
            rest
        }
    }
}

/// For each paragraph index below `n`, the texts of that paragraph across the
/// cells, joined by ` | `, when there are any.
pub open spec fn merged_lines(cps: Seq<Seq<Seq<InlineView>>>, n: nat) -> Seq<BlockView>
    decreases n,
{
    if n == 0 {
        seq![]
    } else {
        let parts = part_texts(cps, n - 1);
        let rest = merged_lines(cps, (n - 1) as nat);
        if parts.len() > 0 {
            rest.push(text_paragraph(join(parts, " | "@)))
        } else {
            rest
        }
    }
}

/// The blocks a row of a borderless table gives: the non-empty paragraphs of a
/// single cell, or the paragraphs of several cells merged line by line.
pub open spec fn flattened_row(cps: Seq<Seq<Seq<InlineView>>>) -> Seq<BlockView> {
    if cps.len() == 0 {
        seq![]
    } else if cps.len() == 1 {
        nonempty_paras(cps[0])
    } else {
        merged_lines(cps, max_len(cps))
    }
}

/// The blocks of a borderless table, scanning its rows from `off`.
pub open spec fn flat_table_from(t: Seq<char>, off: int) -> Seq<BlockView>
    decreases t.len() - off,
{
    if off < 0 {
        seq![]
    } else {
        match next_tag(t, "w:tr"@, off) {
            None => seq![],
            Some(rs) => match closing_tag(t, "w:tr"@, rs) {
                None => seq![],
                Some(re) => {
                    proof {
                        lemma_next_tag_props(t, "w:tr"@, off);
                        lemma_closing_scan_bounds(t, "w:tr"@, rs, 0);
                    }
                    flattened_row(row_cell_paras_from(t.subrange(rs, re), 0)) + flat_table_from(
                        t,
                        re,
                    )
                },
            },
        }
    }
}

/// The paragraphs of a table cell with visible text, or one empty paragraph.
pub fn cell_paragraphs(cell: &[char]) -> (r: Vec<Vec<Inline>>)
    ensures
        crate::ir::cells_view(r@) == cell_paras(cell@),
{
    let pp = TagPatterns::new("w:p");
    let mut out: Vec<Vec<Inline>> = Vec::new();
    let mut off: usize = 0;
    while off < cell.len()
        invariant
            off <= cell@.len(),
            pp.of("w:p"@),
            cell_paras_from(cell@, 0) == crate::ir::cells_view(out@) + cell_paras_from(
                cell@,
                off as int,
            ),
        decreases cell.len() - off,
    {
        let ps = match find_next_tag(cell, &pp, off, Ghost("w:p"@)) {
            Some(k) => k,
            None => {
                assert(cell_paras_from(cell@, cell@.len() as int) =~= Seq::<Seq<InlineView>>::empty());
                off = cell.len();
                continue;
            },
        };
        let pe = match find_closing_tag(cell, ps, &pp, Ghost("w:p"@)) {
            Some(k) => k,
            None => {
                assert(cell_paras_from(cell@, cell@.len() as int) =~= Seq::<Seq<InlineView>>::empty());
                off = cell.len();
                continue;
            },
        };
        proof {
            lemma_next_tag_props(cell@, "w:p"@, off as int);
            lemma_closing_scan_bounds(cell@, "w:p"@, ps as int, 0);
        }
        let para = copy_range(cell, ps, pe);
        let inl = extract_inlines(&para);
        let text = inlines_plain_text(&inl);
        let tc = chars_of(text.as_str());
        let (a, b) = trim_bounds(&tc, 0, tc.len());
        assert(tc@.subrange(0, tc@.len() as int) =~= tc@);
        let ghost before = crate::ir::cells_view(out@);
        if a < b {
            out.push(inl);
            proof {
                assert(crate::ir::cells_view(out@) =~= before.push(inlines_view(inl@)));
            }
        }
        proof {
            assert(crate::ir::cells_view(out@) + cell_paras_from(cell@, pe as int)
                =~= before + cell_paras_from(cell@, off as int));
        }
        off = pe;
    }
    proof {
        assert(cell_paras_from(cell@, 0) =~= crate::ir::cells_view(out@)) by {
            assert(cell_paras_from(cell@, off as int) =~= Seq::<Seq<InlineView>>::empty());
            assert(crate::ir::cells_view(out@) + Seq::<Seq<InlineView>>::empty()
                =~= crate::ir::cells_view(out@));
        }
    }
    if out.len() == 0 {
        out.push(Vec::new());
        proof {
            let e: Vec<Inline> = out@[0];
            assert(inlines_view(e@) =~= Seq::<InlineView>::empty()) by {
                crate::ir::lemma_inlines_view(e@);
            }
            assert(crate::ir::cells_view(out@) =~= seq![Seq::<InlineView>::empty()]);
        }
    }
    out
}


/// The paragraphs of each cell of a row.
pub fn row_cell_paragraphs(row: &[char]) -> (r: Vec<Vec<Vec<Inline>>>)
    ensures
        crate::ir::rows_view(r@) == row_cell_paras_from(row@, 0),
{
    let tp = TagPatterns::new("w:tc");
    let mut out: Vec<Vec<Vec<Inline>>> = Vec::new();
    let mut off: usize = 0;
    while off < row.len()
        invariant
            off <= row@.len(),
            tp.of("w:tc"@),
            row_cell_paras_from(row@, 0) == crate::ir::rows_view(out@) + row_cell_paras_from(
                row@,
                off as int,
            ),
        decreases row.len() - off,
    {
        let cs = match find_next_tag(row, &tp, off, Ghost("w:tc"@)) {
            Some(k) => k,
            None => {
                assert(row_cell_paras_from(row@, row@.len() as int)
                    =~= Seq::<Seq<Seq<InlineView>>>::empty());
                off = row.len();
                continue;
            },
        };
        let ce = match find_closing_tag(row, cs, &tp, Ghost("w:tc"@)) {
            Some(k) => k,
            None => {
                assert(row_cell_paras_from(row@, row@.len() as int)
                    =~= Seq::<Seq<Seq<InlineView>>>::empty());
                off = row.len();
                continue;
            },
        };
        proof {
            lemma_next_tag_props(row@, "w:tc"@, off as int);
            lemma_closing_scan_bounds(row@, "w:tc"@, cs as int, 0);
        }
        let cell = copy_range(row, cs, ce);
        let cp = cell_paragraphs(&cell);
        let ghost before = crate::ir::rows_view(out@);
        out.push(cp);
        proof {
            assert(crate::ir::rows_view(out@) =~= before.push(crate::ir::cells_view(cp@)));
            assert(crate::ir::rows_view(out@) + row_cell_paras_from(row@, ce as int) =~= before
                + row_cell_paras_from(row@, off as int));
        }
        off = ce;
    }
    proof {
        assert(row_cell_paras_from(row@, off as int) =~= Seq::<Seq<Seq<InlineView>>>::empty());
        assert(crate::ir::rows_view(out@) + Seq::<Seq<Seq<InlineView>>>::empty()
            =~= crate::ir::rows_view(out@));
    }
    out
}

/// Adds the blocks of one row of a borderless table (see `flattened_row`).
pub fn flatten_row(cps: &Vec<Vec<Vec<Inline>>>, doc: &mut Document)
    ensures
        final(doc).metadata == old(doc).metadata,
        final(doc).blocks_view() == old(doc).blocks_view() + flattened_row(
            crate::ir::rows_view(cps@),
        ),
{
    let ghost cv = crate::ir::rows_view(cps@);
    if cps.len() == 0 {
        assert(old(doc).blocks_view() + Seq::<BlockView>::empty() =~= old(doc).blocks_view());
        return;
    }
    if cps.len() == 1 {
        let cell = &cps[0];
        let ghost pv = crate::ir::cells_view(cell@);
        assert(pv == cv[0]);
        let mut i: usize = 0;
        while i < cell.len()
            invariant
                i <= cell@.len(),
                pv == crate::ir::cells_view(cell@),
                doc.metadata == old(doc).metadata,
                doc.blocks_view() == old(doc).blocks_view() + nonempty_paras(pv.take(i as int)),
            decreases cell.len() - i,
        {
            proof {
                assert(pv.take(i + 1).drop_last() =~= pv.take(i as int));
                assert(pv.take(i + 1).last() == inlines_view(cell@[i as int]@));
                crate::ir::lemma_inlines_view(cell@[i as int]@);
            }
            if cell[i].len() > 0 {
                doc.push_block(Block::Paragraph(clone_inlines(&cell[i])));
            }
            proof {
                assert(doc.blocks_view() =~= old(doc).blocks_view() + nonempty_paras(
                    pv.take(i + 1),
                ));
            }
            i = i + 1;
        }
        assert(pv.take(i as int) =~= pv);
        return;
    }
    let mut max_paras: usize = 0;
    let mut k: usize = 0;
    while k < cps.len()
        invariant
            k <= cps@.len(),
            cv == crate::ir::rows_view(cps@),
            max_paras == max_len(cv.take(k as int)),
        decreases cps.len() - k,
    {
        proof {
            assert(cv.take(k + 1).drop_last() =~= cv.take(k as int));
            assert(cv.take(k + 1).last().len() == cps@[k as int]@.len());
        }
        if cps[k].len() > max_paras {
            max_paras = cps[k].len();
        }
        k = k + 1;
    }
    assert(cv.take(k as int) =~= cv);
    let mut pi: usize = 0;
    while pi < max_paras
        invariant
            pi <= max_paras,
            max_paras == max_len(cv),
            cv == crate::ir::rows_view(cps@),
            doc.metadata == old(doc).metadata,
            doc.blocks_view() == old(doc).blocks_view() + merged_lines(cv, pi as nat),
        decreases max_paras - pi,
    {
        let mut parts: Vec<Vec<char>> = Vec::new();
        let mut c: usize = 0;
        while c < cps.len()
            invariant
                c <= cps@.len(),
                cv == crate::ir::rows_view(cps@),
                seqs_of(parts@) == part_texts(cv.take(c as int), pi as int),
            decreases cps.len() - c,
        {
            let cell = &cps[c];
            proof {
                assert(cv.take(c + 1).drop_last() =~= cv.take(c as int));
                assert(cv.take(c + 1).last() == crate::ir::cells_view(cell@));
            }
            if pi < cell.len() {
                let text = inlines_plain_text(&cell[pi]);
                let tc = chars_of(text.as_str());
                let (a, b) = trim_bounds(&tc, 0, tc.len());
                assert(tc@.subrange(0, tc@.len() as int) =~= tc@);
                if a < b {
                    let part = copy_range(&tc, a, b);
                    let ghost before = parts@;
                    parts.push(part);
                    proof {
                        assert(seqs_of(parts@) =~= seqs_of(before).push(part@));
                    }
                }
            }
            c = c + 1;
        }
        assert(cv.take(c as int) =~= cv);
        if parts.len() > 0 {
            let joined = join_parts(&parts, " | ");
            let js = string_of(&joined);
            doc.push_block(Block::paragraph(js.as_str()));
        }
        proof {
            assert(doc.blocks_view() =~= old(doc).blocks_view() + merged_lines(
                cv,
                (pi + 1) as nat,
            ));
        }
        pi = pi + 1;
    }
}

/// Adds the blocks of a borderless table (see `flat_table_from`).
pub fn flatten_borderless_table(t: &[char], doc: &mut Document)
    ensures
        final(doc).metadata == old(doc).metadata,
        final(doc).blocks_view() == old(doc).blocks_view() + flat_table_from(t@, 0),
{
    let rp = TagPatterns::new("w:tr");
    let mut off: usize = 0;
    while off < t.len()
        invariant
            off <= t@.len(),
            rp.of("w:tr"@),
            doc.metadata == old(doc).metadata,
            old(doc).blocks_view() + flat_table_from(t@, 0) == doc.blocks_view()
                + flat_table_from(t@, off as int),
        decreases t.len() - off,
    {
        let rs = match find_next_tag(t, &rp, off, Ghost("w:tr"@)) {
            Some(k) => k,
            None => {
                assert(flat_table_from(t@, t@.len() as int) =~= Seq::<BlockView>::empty());
                off = t.len();
                continue;
            },
        };
        let re = match find_closing_tag(t, rs, &rp, Ghost("w:tr"@)) {
            Some(k) => k,
            None => {
                assert(flat_table_from(t@, t@.len() as int) =~= Seq::<BlockView>::empty());
                off = t.len();
                continue;
            },
        };
        proof {
            lemma_next_tag_props(t@, "w:tr"@, off as int);
            lemma_closing_scan_bounds(t@, "w:tr"@, rs as int, 0);
        }
        let row = copy_range(t, rs, re);
        let cps = row_cell_paragraphs(&row);
        let ghost before = doc.blocks_view();
        flatten_row(&cps, doc);
        proof {
            assert(doc.blocks_view() + flat_table_from(t@, re as int) =~= before
                + flat_table_from(t@, off as int));
        }
        off = re;
    }
    proof {
        assert(flat_table_from(t@, off as int) =~= Seq::<BlockView>::empty());
        assert(doc.blocks_view() + Seq::<BlockView>::empty() =~= doc.blocks_view());
    }
}

/// The blocks a `<w:tbl>` element gives: its rows flattened into paragraphs
/// when it has no visible borders, else a table or one line per row.
pub open spec fn table_blocks(t: Seq<char>) -> Seq<BlockView> {
    if !visible_borders(t) {
        flat_table_from(t, 0)
    } else {
        bordered_table_blocks(table_rows_from(t, 0))
    }
}

/// Adds the blocks of one `<w:tbl>` element (see `table_blocks`).
pub fn emit_table(t: &[char], doc: &mut Document)
    requires
        ends_with_close(t@, "w:tbl"@),
    ensures
        final(doc).metadata == old(doc).metadata,
        final(doc).blocks_view() == old(doc).blocks_view() + table_blocks(t@),
{
    proof {
        lemma_table_borders_fit(t@);
    }
    if !table_has_visible_borders(t) {
        flatten_borderless_table(t, doc);
        return;
    }
    let rows = extract_table(t);
    emit_bordered_table(rows, doc);
}


/// The blocks of a `<w:tbl>` element found at `tp`, then the rest of the body.
pub open spec fn body_table_step(s: Seq<char>, tp: int) -> Seq<BlockView>
    decreases s.len() - tp, 0int,
{
    if tp < 0 {
        seq![]
    } else {
        match closing_tag(s, "w:tbl"@, tp) {
            None => seq![],
            Some(e) => {
                proof {
                    lemma_closing_scan_bounds(s, "w:tbl"@, tp, 0);
                }
                table_blocks(s.subrange(tp, e)) + body_blocks_from(s, e)
            },
        }
    }
}

/// The blocks of a document body from `off` on: paragraphs and tables in the
/// order they appear, each ending at its matching closing tag.
pub open spec fn body_blocks_from(s: Seq<char>, off: int) -> Seq<BlockView>
    decreases s.len() - off, 1int,
{
    if off < 0 {
        seq![]
    } else {
        let np = next_tag(s, "w:p"@, off);
        let nt = next_tag(s, "w:tbl"@, off);
        proof {
            lemma_next_tag_props(s, "w:p"@, off);
            lemma_next_tag_props(s, "w:tbl"@, off);
        }
        if np is Some && nt is Some && nt->0 < np->0 {
            body_table_step(s, nt->0)
        } else if np is Some {
            let pp = np->0;
            match closing_tag(s, "w:p"@, pp) {
                None => seq![],
                Some(e) => {
                    proof {
                        lemma_closing_scan_bounds(s, "w:p"@, pp, 0);
                    }
                    para_blocks(s.subrange(pp, e)) + body_blocks_from(s, e)
                },
            }
        } else if nt is Some {
            body_table_step(s, nt->0)
        } else {
            seq![]
        }
    }
}

/// A piece that ends at the end of a matched element ends with its closing tag.
pub proof fn lemma_piece_ends_with_close(s: Seq<char>, tag: Seq<char>, start: int, e: int)
    requires
        0 <= start,
        closing_tag(s, tag, start) == Some(e),
    ensures
        ends_with_close(s.subrange(start, e), tag),
{
    lemma_closing_scan_bounds(s, tag, start, 0);
    let c = close_of(tag);
    let piece = s.subrange(start, e);
    assert(piece.subrange(piece.len() - c.len(), piece.len() as int) =~= s.subrange(
        e - c.len(),
        e,
    ));
}

/// Adds the blocks of a document body (see `body_blocks_from`).
pub fn process_body_elements(s: &[char], doc: &mut Document)
    ensures
        final(doc).metadata == old(doc).metadata,
        final(doc).blocks_view() == old(doc).blocks_view() + body_blocks_from(s@, 0),
{
    let pp = TagPatterns::new("w:p");
    let tp = TagPatterns::new("w:tbl");
    let mut off: usize = 0;
    loop
        invariant
            off <= s@.len(),
            pp.of("w:p"@),
            tp.of("w:tbl"@),
            doc.metadata == old(doc).metadata,
            old(doc).blocks_view() + body_blocks_from(s@, 0) == doc.blocks_view()
                + body_blocks_from(s@, off as int),
        decreases s.len() - off,
    {
        let np = find_next_tag(s, &pp, off, Ghost("w:p"@));
        let nt = find_next_tag(s, &tp, off, Ghost("w:tbl"@));
        proof {
            lemma_next_tag_props(s@, "w:p"@, off as int);
            lemma_next_tag_props(s@, "w:tbl"@, off as int);
        }
        let table_first = match (np, nt) {
            (Some(a), Some(b)) => b < a,
            (None, Some(_)) => true,
            _ => false,
        };
        let ghost before = doc.blocks_view();
        if table_first {
            let t = nt.unwrap();
            assert(body_blocks_from(s@, off as int) == body_table_step(s@, t as int));
            let e = match find_closing_tag(s, t, &tp, Ghost("w:tbl"@)) {
                Some(e) => e,
                None => {
                    assert(body_blocks_from(s@, off as int) =~= Seq::<BlockView>::empty());
                    assert(doc.blocks_view() + Seq::<BlockView>::empty() =~= doc.blocks_view());
                    return;
                },
            };
            proof {
                lemma_closing_scan_bounds(s@, "w:tbl"@, t as int, 0);
                lemma_piece_ends_with_close(s@, "w:tbl"@, t as int, e as int);
            }
            let piece = copy_range(s, t, e);
            emit_table(&piece, doc);
            proof {
                assert(body_table_step(s@, t as int) == table_blocks(
                    s@.subrange(t as int, e as int),
                ) + body_blocks_from(s@, e as int));
                assert(doc.blocks_view() + body_blocks_from(s@, e as int) =~= before
                    + body_blocks_from(s@, off as int));
            }
            off = e;
        } else {
            let p = match np {
                Some(p) => p,
                None => {
                    assert(body_blocks_from(s@, off as int) =~= Seq::<BlockView>::empty());
                    assert(doc.blocks_view() + Seq::<BlockView>::empty() =~= doc.blocks_view());
                    return;
                },
            };
            let e = match find_closing_tag(s, p, &pp, Ghost("w:p"@)) {
                Some(e) => e,
                None => {
                    assert(body_blocks_from(s@, off as int) =~= Seq::<BlockView>::empty());
                    assert(doc.blocks_view() + Seq::<BlockView>::empty() =~= doc.blocks_view());
                    return;
                },
            };
            proof {
                lemma_closing_scan_bounds(s@, "w:p"@, p as int, 0);
                lemma_piece_ends_with_close(s@, "w:p"@, p as int, e as int);
                lemma_para_ppr_fits(s@.subrange(p as int, e as int));
            }
            let piece = copy_range(s, p, e);
            emit_paragraph(&piece, doc);
            proof {
                assert(doc.blocks_view() + body_blocks_from(s@, e as int) =~= before
                    + body_blocks_from(s@, off as int));
            }
            off = e;
        }
    }
}


/// The text of the entries whose names mark document, slide or content parts
/// (other than `.xml` and `.rels` files), each followed by a newline.
pub open spec fn office_text(es: Seq<(Option<Seq<char>>, Option<Seq<char>>)>) -> Seq<char>
    decreases es.len(),
{
    if es.len() == 0 {
        seq![]
    } else {
        let rest = office_text(es.drop_last());
        let e = es.last();
        match (e.0, e.1) {
            (Some(name), Some(t)) => if ends_with(name, ".xml"@) || ends_with(name, ".rels"@) {
                rest
            } else if contains_seq(name, "document"@) || contains_seq(name, "slide"@)
                || contains_seq(name, "content"@) {
                rest + t + seq!['\n']
            } else {
                rest
            },
            _ => rest,
        }
    }
}

/// The text of the non-XML document, slide and content parts of an archive.
pub fn extract_office_plain_text(bytes: &[u8]) -> (r: Result<String, FlipError>)
    ensures
        match zip_listing(bytes@) {
            Some(es) => r matches Ok(t) && t@ == office_text(es),
            None => r == Err::<String, FlipError>(FlipError::Archive),
        },
{
    let entries = match zip_entries(bytes) {
        Some(v) => v,
        None => return Err(FlipError::Archive),
    };
    let ghost ev = entries_view(entries@);
    let mut text = String::new();
    let mut k: usize = 0;
    while k < entries.len()
        invariant
            k <= entries@.len(),
            ev == entries_view(entries@),
            text@ == office_text(ev.take(k as int)),
        decreases entries.len() - k,
    {
        proof {
            assert(ev.take(k + 1).drop_last() =~= ev.take(k as int));
            assert(ev.take(k + 1).last() == crate::archive::entry_view(entries@[k as int]));
        }
        let e = &entries[k];
        match (&e.name, &e.text) {
            (Some(name), Some(t)) => {
                let nc = chars_of(name.as_str());
                if ends_with_str(&nc, ".xml") || ends_with_str(&nc, ".rels") {
                } else if contains_str(&nc, "document") || contains_str(&nc, "slide")
                    || contains_str(&nc, "content") {
                    push_str(&mut text, t.as_str());
                    push_char(&mut text, '\n');
                }
            },
            _ => {},
        }
        k = k + 1;
    }
    assert(ev.take(k as int) =~= ev);
    Ok(text)
}

/// The placeholder paragraph of a document from which no text came.
pub open spec fn empty_docx_note() -> Seq<char> {
    "(No text content could be extracted from this document)"@
}

/// The blocks of a Word document held in `bytes`: the body of
/// `word/document.xml`, or, when that part is missing or empty, one paragraph
/// per non-blank line of the other document parts; a placeholder paragraph
/// when nothing came out.
pub open spec fn docx_blocks(bytes: Seq<u8>) -> Result<Seq<BlockView>, FlipError> {
    match zip_named_text(bytes, "word/document.xml"@) {
        None => Err(FlipError::Archive),
        Some(xml) => {
            let x = match xml {
                Some(t) => t,
                None => seq![],
            };
            let found = if x.len() == 0 {
                match zip_listing(bytes) {
                    None => Err(FlipError::Archive),
                    Some(es) => Ok(line_paragraphs(nonblank_lines_of(office_text(es)))),
                }
            } else {
                Ok(body_blocks_from(x, 0))
            };
            match found {
                Err(e) => Err(e),
                Ok(bs) => Ok(
                    if bs.len() == 0 {
                        seq![crate::ir::text_paragraph(empty_docx_note())]
                    } else {
                        bs
                    },
                ),
            }
        },
    }
}

/// Reads a Word document held in `bytes`.
pub fn parse_docx(bytes: &[u8]) -> (r: Result<Document, FlipError>)
    ensures
        match docx_blocks(bytes@) {
            Ok(bs) => r matches Ok(d) && d.metadata.only_source("docx"@) && d.blocks_view() == bs,
            Err(e) => r == Err::<Document, FlipError>(e),
        },
{
    let mut doc = Document::new();
    doc.metadata = crate::ir::Metadata::with_source("docx");
    let xml = match zip_entry_text(bytes, "word/document.xml") {
        None => return Err(FlipError::Archive),
        Some(Some(t)) => t,
        Some(None) => String::new(),
    };
    let xc = chars_of(xml.as_str());
    if xc.len() == 0 {
        let plain = match extract_office_plain_text(bytes) {
            Ok(t) => t,
            Err(e) => return Err(e),
        };
        let pc = chars_of(plain.as_str());
        let lines = nonblank_lines(&pc);
        push_line_paragraphs(&mut doc, &lines);
    } else {
        process_body_elements(&xc, &mut doc);
    }
    assert(doc.blocks_view() =~= Seq::<BlockView>::empty() + doc.blocks_view());
    if doc.blocks.len() == 0 {
        doc.push_block(Block::paragraph("(No text content could be extracted from this document)"));
    }
    Ok(doc)
}

} // verus!
