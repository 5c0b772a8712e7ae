//! The text of PDF output: characters the built-in fonts can show, runs of
//! text with their fonts, and the lines of table cells. Page layout is in
//! floating point and stays outside this library.
use vstd::prelude::*;
use crate::ir::{inline_text, inlines_text, inlines_view, Inline, InlineView};
use crate::strutil::{
    byte_len, char_len_utf8, char_width, chars_of, copy_range, first_newline, is_whitespace, is_ws,
    lemma_find_from_props, lemma_newline_at, lemma_no_newline, lemma_trim_end_take,
    lemma_trim_start_skip, nonblank, nonblank_lines, nonblank_lines_of, push_char, push_str, seqs_of,
    string_of, trim, trim_bounds, trim_end, trim_start,
};
use crate::render::raster::byte_take;

verus! {

/// The replacement of one character: Latin-1 characters stay; dashes,
/// quotes, the ellipsis and bullets become ASCII; anything else becomes `?`.
pub open spec fn pdf_char(c: char) -> Seq<char> {
    let cp = c as u32;
    if cp <= 0x7F || (0xA0 <= cp && cp <= 0xFF) {
        seq![c]
    } else if cp == 0x2013 {
        seq!['-']
    } else if cp == 0x2014 {
        "--"@
    } else if cp == 0x2018 || cp == 0x2019 {
        seq!['\'']
    } else if cp == 0x201C || cp == 0x201D {
        seq!['"']
    } else if cp == 0x2026 {
        "..."@
    } else if cp == 0x2022 || cp == 0x25CF || cp == 0x25CB {
        seq!['-']
    } else {
        seq!['?']
    }
}

/// `s` with every character replaced as [`pdf_char`] says.
pub open spec fn sanitized(s: Seq<char>) -> Seq<char>
    decreases s.len(),
{
    if s.len() == 0 {
        seq![]
    } else {
        sanitized(s.drop_last()) + pdf_char(s.last())
    }
}

/// The text the built-in PDF fonts can show for `s`: each character
/// replaced as [`pdf_char`] says, so that only Latin-1 characters outside
/// 0x80 to 0x9F remain.
pub fn sanitize(s: &str) -> (r: String)
    ensures
        r@ == sanitized(s@),
        forall|i: int|
            0 <= i < r@.len() ==> (#[trigger] r@[i] as u32) <= 0xFF && !(0x80 <= (r@[i] as u32)
                <= 0x9F),
{
    proof {
        crate::laws::law_sanitized_latin1(s@);
    }
    let cs = chars_of(s);
    let mut out = String::new();
    let mut i: usize = 0;
    while i < cs.len()
        invariant
            i <= cs@.len(),
            cs@ == s@,
            out@ == sanitized(cs@.take(i as int)),
        decreases cs.len() - i,
    {
        let c = cs[i];
        let cp = c as u32;
        if cp <= 0x7F || (cp >= 0xA0 && cp <= 0xFF) {
            push_char(&mut out, c);
        } else if cp == 0x2013 {
            push_char(&mut out, '-');
        } else if cp == 0x2014 {
            push_str(&mut out, "--");
        } else if cp == 0x2018 || cp == 0x2019 {
            push_char(&mut out, '\'');
        } else if cp == 0x201C || cp == 0x201D {
            push_char(&mut out, '"');
        } else if cp == 0x2026 {
            push_str(&mut out, "...");
        } else if cp == 0x2022 || cp == 0x25CF || cp == 0x25CB {
            push_char(&mut out, '-');
        } else {
            push_char(&mut out, '?');
        }
        proof {
            assert(cs@.take(i + 1).drop_last() =~= cs@.take(i as int));
            assert(cs@.take(i + 1).last() == c);
        }
        i = i + 1;
    }
    assert(cs@.take(i as int) =~= cs@);
    out
}

/// A built-in PDF font.
#[derive(Clone, Copy, PartialEq, Eq, Structural)]
pub enum PdfFont {
    Helvetica,
    HelveticaBold,
    HelveticaOblique,
    Courier,
}

/// A run of text in one font.
pub struct StyledSegment {
    pub text: String,
    pub font: PdfFont,
}

/// The value of a run.
pub open spec fn seg_view(s: StyledSegment) -> (Seq<char>, PdfFont) {
    (s.text@, s.font)
}

/// The values of runs.
pub open spec fn segs_view(v: Seq<StyledSegment>) -> Seq<(Seq<char>, PdfFont)> {
    v.map_values(|s: StyledSegment| seg_view(s))
}

/// The runs of an inline written in `font`: text and code that are not empty
/// (code in Courier), bold content in bold, italic content and link text in
/// oblique, an image as its bracketed alternative text; struck, raised and
/// lowered text keep the font.
pub open spec fn inline_segs(i: InlineView, font: PdfFont) -> Seq<(Seq<char>, PdfFont)>
    decreases i, 0int,
{
    match i {
        InlineView::Text(t) => if t.len() > 0 && sanitized(t).len() > 0 {
            seq![(sanitized(t), font)]
        } else {
            seq![]
        },
        InlineView::Bold(c) => inlines_segs(c, PdfFont::HelveticaBold),
        InlineView::Italic(c) => inlines_segs(c, PdfFont::HelveticaOblique),
        InlineView::Strikethrough(c) => inlines_segs(c, font),
        InlineView::Code(t) => if t.len() > 0 && sanitized(t).len() > 0 {
            seq![(sanitized(t), PdfFont::Courier)]
        } else {
            seq![]
        },
        InlineView::Link { text, url: _ } => inlines_segs(text, PdfFont::HelveticaOblique),
        InlineView::Image { alt, src: _ } => seq![(seq!['['] + sanitized(alt) + seq![']'], font)],
        InlineView::Superscript(c) => inlines_segs(c, font),
        InlineView::Subscript(c) => inlines_segs(c, font),
    }
}

/// The runs of a sequence of inlines written in `font`.
pub open spec fn inlines_segs(s: Seq<InlineView>, font: PdfFont) -> Seq<(Seq<char>, PdfFont)>
    decreases s, 1int,
{
    if s.len() == 0 {
        seq![]
    } else {
        inlines_segs(s.drop_last(), font) + inline_segs(s.last(), font)
    }
}

fn push_seg(segs: &mut Vec<StyledSegment>, text: String, font: PdfFont)
    ensures
        segs_view(final(segs)@) == segs_view(old(segs)@).push((text@, font)),
{
    let ghost s0 = segs@;
    segs.push(StyledSegment { text, font });
    assert(segs_view(segs@) =~= segs_view(s0).push((text@, font)));
}

fn flatten_inline(i: &Inline, font: PdfFont, segs: &mut Vec<StyledSegment>)
    ensures
        segs_view(final(segs)@) == segs_view(old(segs)@) + inline_segs(i@, font),
    decreases i, 0int,
{
    match i {
        Inline::Text(t) => {
            if !t.as_str().is_empty() {
                let s = sanitize(t.as_str());
                if !s.as_str().is_empty() {
                    push_seg(segs, s, font);
                }
            }
        },
        Inline::Bold(c) => flatten_inner(c, PdfFont::HelveticaBold, segs),
        Inline::Italic(c) => flatten_inner(c, PdfFont::HelveticaOblique, segs),
        Inline::Strikethrough(c) => flatten_inner(c, font, segs),
        Inline::Code(t) => {
            if !t.as_str().is_empty() {
                let s = sanitize(t.as_str());
                if !s.as_str().is_empty() {
                    push_seg(segs, s, PdfFont::Courier);
                }
            }
        },
        Inline::Link { text, .. } => flatten_inner(text, PdfFont::HelveticaOblique, segs),
        Inline::Image { alt, .. } => {
            let mut t = String::new();
            push_char(&mut t, '[');
            let s = sanitize(alt.as_str());
            push_str(&mut t, s.as_str());
            push_char(&mut t, ']');
            assert(t@ =~= seq!['['] + sanitized(alt@) + seq![']']);
            push_seg(segs, t, font);
            assert(segs_view(segs@) =~= segs_view(old(segs)@) + inline_segs(i@, font));
        },
        Inline::Superscript(c) => flatten_inner(c, font, segs),
        Inline::Subscript(c) => flatten_inner(c, font, segs),
    }
    assert(segs_view(segs@) =~= segs_view(old(segs)@) + inline_segs(i@, font));
}

/// Appends the runs of inlines written in `font` (`flatten_inner`).
pub fn flatten_inner(v: &Vec<Inline>, font: PdfFont, segs: &mut Vec<StyledSegment>)
    ensures
        segs_view(final(segs)@) == segs_view(old(segs)@) + inlines_segs(inlines_view(v@), font),
    decreases v, 1int,
{
    let mut k: usize = 0;
    while k < v.len()
        invariant
            k <= v@.len(),
            segs_view(segs@) == segs_view(old(segs)@) + inlines_segs(
                inlines_view(v@.take(k as int)),
                font,
            ),
        decreases v.len() - k,
    {
        flatten_inline(&v[k], font, segs);
        proof {
            let pre = v@.take(k as int);
            assert(v@.take(k + 1).drop_last() =~= pre);
            assert(inlines_view(v@.take(k + 1)) == inlines_view(pre).push(v@[k as int]@));
            assert(inlines_view(pre).push(v@[k as int]@).drop_last() =~= inlines_view(pre));
        }
        k = k + 1;
    }
    assert(v@.take(k as int) =~= v@);
}

/// The runs of inlines in Helvetica (`flatten_inlines`).
pub fn flatten_inlines(v: &Vec<Inline>) -> (r: Vec<StyledSegment>)
    ensures
        segs_view(r@) == inlines_segs(inlines_view(v@), PdfFont::Helvetica),
{
    let mut segs: Vec<StyledSegment> = Vec::new();
    flatten_inner(v, PdfFont::Helvetica, &mut segs);
    assert(segs_view(segs@) =~= inlines_segs(inlines_view(v@), PdfFont::Helvetica));
    segs
}

/// The texts of runs, run together.
pub open spec fn segs_text(s: Seq<(Seq<char>, PdfFont)>) -> Seq<char>
    decreases s.len(),
{
    if s.len() == 0 {
        seq![]
    } else {
        segs_text(s.drop_last()) + s.last().0
    }
}

/// The texts of runs, run together (`segments_to_plain`).
pub fn segments_to_plain(segs: &Vec<StyledSegment>) -> (r: String)
    ensures
        r@ == segs_text(segs_view(segs@)),
{
    let mut out = String::new();
    let mut k: usize = 0;
    while k < segs.len()
        invariant
            k <= segs@.len(),
            out@ == segs_text(segs_view(segs@.take(k as int))),
        decreases segs.len() - k,
    {
        push_str(&mut out, segs[k].text.as_str());
        proof {
            assert(segs_view(segs@.take(k + 1)).drop_last() =~= segs_view(segs@.take(k as int)));
        }
        k = k + 1;
    }
    assert(segs@.take(k as int) =~= segs@);
    out
}

/// The lines of a table cell in PDF output: its plain text made printable,
/// split at line ends, trimmed, without the empty ones.
pub fn pdf_cell_lines(cell: &Vec<Inline>) -> (r: Vec<Vec<char>>)
    ensures
        seqs_of(r@) == nonblank_lines_of(sanitized(inlines_text(inlines_view(cell@)))),
{
    let t = crate::ir::inlines_plain_text(cell);
    let s = sanitize(t.as_str());
    let cs = chars_of(s.as_str());
    nonblank_lines(&cs)
}

/// The pieces of `s` between line ends (`str::split('\n')`): an empty piece
/// follows a final line end.
pub open spec fn split_lines(s: Seq<char>) -> Seq<Seq<char>>
    decreases s.len(),
{
    match first_newline(s) {
        None => seq![s],
        Some(k) => {
            proof {
                lemma_find_from_props(s, seq!['\n'], 0);
            }
            seq![s.take(k)] + split_lines(s.skip(k + 1))
        },
    }
}

/// The position of the last space among the first `k` characters of `s`, if
/// any.
pub open spec fn last_space(s: Seq<char>, k: int) -> Option<int>
    decreases k,
{
    if k <= 0 {
        None
    } else if s[k - 1] == ' ' {
        Some(k - 1)
    } else {
        last_space(s, k - 1)
    }
}

/// Where a line too long for `max` bytes breaks: at the last space within
/// its first `max` bytes, else right after them.
pub open spec fn break_at(rem: Seq<char>, max: nat) -> int {
    let k = byte_take(rem, max).len() as int;
    match last_space(rem, k) {
        Some(j) => j,
        None => k,
    }
}

/// The rest of a line after its first wrapped piece.
pub open spec fn wrap_rest(rem: Seq<char>, max: nat) -> Seq<char> {
    trim_start(rem.skip(break_at(rem, max)))
}

/// The pieces a line is wrapped into: a piece that fits in `max` bytes is
/// kept; a longer one is cut at [`break_at`], its end trimmed, and the rest,
/// its start trimmed, is wrapped again.
pub open spec fn wrap_line(rem: Seq<char>, max: nat) -> Seq<Seq<char>>
    decreases rem.len(),
{
    if rem.len() == 0 {
        seq![]
    } else if byte_len(rem) <= max {
        seq![rem]
    } else if wrap_rest(rem, max).len() < rem.len() {
        seq![trim_end(rem.take(break_at(rem, max)))] + wrap_line(wrap_rest(rem, max), max)
    } else {
        seq![trim_end(rem.take(break_at(rem, max)))]
    }
}

/// Every cut of a line falls on a character boundary: its first `max`
/// bytes end a character whenever it is longer.
pub open spec fn wrap_ok(rem: Seq<char>, max: nat) -> bool
    decreases rem.len(),
{
    rem.len() == 0 || byte_len(rem) <= max || (byte_len(byte_take(rem, max)) == max && (
    wrap_rest(rem, max).len() < rem.len() ==> wrap_ok(wrap_rest(rem, max), max)))
}

/// The wrapped lines of pieces: a blank piece gives one empty line.
pub open spec fn wrap_pieces(ps: Seq<Seq<char>>, max: nat) -> Seq<Seq<char>>
    decreases ps.len(),
{
    if ps.len() == 0 {
        seq![]
    } else {
        wrap_pieces(ps.drop_last(), max) + if trim(ps.last()).len() == 0 {
            seq![seq![]]
        } else {
            wrap_line(ps.last(), max)
        }
    }
}

/// The lines a text is wrapped into for at most `max` bytes a line; an empty
/// text gives one empty line.
pub open spec fn wrapped(text: Seq<char>, max: nat) -> Seq<Seq<char>> {
    if text.len() == 0 {
        seq![seq![]]
    } else if wrap_pieces(split_lines(text), max).len() == 0 {
        seq![seq![]]
    } else {
        wrap_pieces(split_lines(text), max)
    }
}

/// How far the first `max` bytes of `p[start..]` reach.
fn fit_end(p: &Vec<char>, start: usize, max: usize) -> (r: (usize, usize))
    requires
        start <= p@.len(),
    ensures
        ({
            let (i, left) = r;
            &&& start <= i <= p@.len()
            &&& byte_take(p@.skip(start as int), max as nat) == p@.subrange(start as int, i as int)
            &&& i == p@.len() ==> byte_len(p@.skip(start as int)) <= max
            &&& i < p@.len() ==> byte_len(p@.skip(start as int)) > max
            &&& byte_len(p@.subrange(start as int, i as int)) + left == max
        }),
{
    let (i, left) = fit_end_at(p, start, max);
    (i, left)
}

fn fit_end_at(p: &Vec<char>, start: usize, max: usize) -> (r: (usize, usize))
    requires
        start <= p@.len(),
    ensures
        start <= r.0 <= p@.len(),
        byte_len(p@.subrange(start as int, r.0 as int)) + r.1 == max,
        byte_take(p@.skip(start as int), max as nat) == p@.subrange(start as int, r.0 as int),
        r.0 == p@.len() ==> byte_len(p@.skip(start as int)) <= max,
        r.0 < p@.len() ==> byte_len(p@.skip(start as int)) > max,
{
    let ghost rem = p@.skip(start as int);
    let mut i: usize = start;
    let mut left: usize = max;
    assert(p@.skip(i as int) =~= rem);
    assert(rem.subrange(0, 0) =~= Seq::<char>::empty());
    while i < p.len() && char_len_utf8(p[i]) <= left
        invariant
            start <= i <= p@.len(),
            left <= max,
            rem == p@.skip(start as int),
            byte_take(rem, max as nat) == rem.subrange(0, i - start) + byte_take(
                p@.skip(i as int),
                left as nat,
            ),
            byte_len(rem.subrange(0, i - start)) + left == max,
        decreases p.len() - i,
    {
        proof {
            let r = p@.skip(i as int);
            assert(r[0] == p@[i as int]);
            assert(r.drop_first() =~= p@.skip(i + 1));
            assert(rem.subrange(0, i + 1 - start).drop_last() =~= rem.subrange(0, i - start));
            assert(rem.subrange(0, i + 1 - start).last() == p@[i as int]);
        }
        left = left - char_len_utf8(p[i]);
        i = i + 1;
    }
    proof {
        let r = p@.skip(i as int);
        if i < p@.len() {
            assert(r[0] == p@[i as int]);
        }
        assert(byte_take(r, left as nat) =~= Seq::<char>::empty());
        assert(rem.subrange(0, i - start) =~= p@.subrange(start as int, i as int));
        if i == p@.len() {
            assert(rem.subrange(0, i - start) =~= rem);
        } else {
            let k = (i - start) as int;
            crate::strutil::lemma_byte_len_take(rem, k + 1);
            assert(rem.take(k + 1).drop_last() =~= rem.subrange(0, k));
            assert(rem.take(k + 1).last() == p@[i as int]);
        }
    }
    (i, left)
}

/// The break point of `p[start..]` when its first `max` bytes end at `i`.
fn break_index(p: &Vec<char>, start: usize, i: usize) -> (b: usize)
    requires
        start <= i < p@.len(),
    ensures
        start <= b <= i,
        b == start + match last_space(p@.skip(start as int), i - start) {
            Some(j) => j,
            None => i - start,
        },
        b == start ==> i == start || p@[start as int] == ' ',
{
    let ghost rem = p@.skip(start as int);
    let mut m: usize = i;
    while m > start && p[m - 1] != ' '
        invariant
            start <= m <= i < p@.len(),
            rem == p@.skip(start as int),
            last_space(rem, i - start) == last_space(rem, m - start),
        decreases m,
    {
        proof {
            assert(rem[m - start - 1] == p@[m - 1]);
        }
        m = m - 1;
    }
    proof {
        if m > start {
            assert(rem[m - start - 1] == p@[m - 1]);
        }
    }
    if m > start {
        m - 1
    } else {
        i
    }
}

/// Where `p[start..b]` ends once its trailing white space is trimmed.
fn trimmed_end(p: &Vec<char>, start: usize, b: usize) -> (e: usize)
    requires
        start <= b <= p@.len(),
    ensures
        start <= e <= b,
        trim_end(p@.skip(start as int).take(b - start)) == p@.subrange(start as int, e as int),
{
    let ghost piece = p@.skip(start as int).take(b - start);
    let mut e: usize = b;
    while e > start && is_whitespace(p[e - 1])
        invariant
            start <= e <= b <= p@.len(),
            piece == p@.skip(start as int).take(b - start),
            forall|x: int| e - start <= x < b - start ==> is_ws(#[trigger] piece[x]),
        decreases e,
    {
        proof {
            assert(piece[e - 1 - start] == p@[e - 1]);
        }
        e = e - 1;
    }
    proof {
        lemma_trim_end_take(piece, e - start);
        assert(piece.take(e - start) =~= p@.subrange(start as int, e as int));
        if e > start {
            assert(p@.subrange(start as int, e as int).last() == p@[e - 1]);
        }
    }
    e
}

/// Where `p[b..]` starts once its leading white space is trimmed.
fn trimmed_start(p: &Vec<char>, b: usize) -> (n: usize)
    requires
        b <= p@.len(),
    ensures
        b <= n <= p@.len(),
        trim_start(p@.skip(b as int)) == p@.skip(n as int),
        n < p@.len() ==> !is_ws(p@[n as int]),
        forall|x: int| b <= x < n ==> is_ws(#[trigger] p@[x]),
{
    let ghost rest = p@.skip(b as int);
    let mut n: usize = b;
    while n < p.len() && is_whitespace(p[n])
        invariant
            b <= n <= p@.len(),
            rest == p@.skip(b as int),
            forall|x: int| b <= x < n ==> is_ws(#[trigger] p@[x]),
        decreases p.len() - n,
    {
        n = n + 1;
    }
    proof {
        assert forall|x: int| 0 <= x < n - b implies is_ws(#[trigger] rest[x]) by {
            assert(rest[x] == p@[b + x]);
        }
        lemma_trim_start_skip(rest, n - b);
        assert(rest.skip(n - b) =~= p@.skip(n as int));
        if n < p@.len() {
            assert(p@.skip(n as int)[0] == p@[n as int]);
        }
    }
    n
}

/// The line pieces of wrapping `p`, appended to `out`; false, with `out`
/// left in any state, when a cut would fall inside a character.
fn wrap_piece(p: &Vec<char>, max: usize, out: &mut Vec<Vec<char>>) -> (ok: bool)
    requires
        max >= 1,
    ensures
        ok == wrap_ok(p@, max as nat),
        ok ==> seqs_of(final(out)@) == seqs_of(old(out)@) + wrap_line(p@, max as nat),
{
    let ghost total = seqs_of(old(out)@) + wrap_line(p@, max as nat);
    let mut start: usize = 0;
    assert(p@.skip(0) =~= p@);
    while start < p.len()
        invariant
            start <= p@.len(),
            max >= 1,
            wrap_ok(p@, max as nat) == wrap_ok(p@.skip(start as int), max as nat),
            total == seqs_of(out@) + wrap_line(p@.skip(start as int), max as nat),
        decreases p.len() - start,
    {
        let ghost rem = p@.skip(start as int);
        let (i, left) = fit_end(p, start, max);
        if i < p.len() && left != 0 {
            proof {
                assert(byte_len(byte_take(rem, max as nat)) != max);
            }
            return false;
        }
        if i == p.len() {
            let piece = copy_range(p.as_slice(), start, p.len());
            let ghost before = seqs_of(out@);
            out.push(piece);
            proof {
                assert(piece@ =~= rem);
                assert(seqs_of(out@) =~= before.push(rem));
                assert(wrap_line(rem, max as nat) =~= seq![rem]);
                assert(p@.skip(p@.len() as int).len() == 0);
                assert(total =~= seqs_of(out@) + wrap_line(p@.skip(p@.len() as int), max as nat));
            }
            start = p.len();
        } else {
            proof {
                assert(byte_take(rem, max as nat).len() == i - start);
                assert(byte_len(byte_take(rem, max as nat)) == max);
                if i == start {
                    assert(byte_take(rem, max as nat) =~= Seq::<char>::empty());
                }
            }
            let b = break_index(p, start, i);
            let e = trimmed_end(p, start, b);
            let piece = copy_range(p.as_slice(), start, e);
            let ghost before = seqs_of(out@);
            out.push(piece);
            let n = trimmed_start(p, b);
            proof {
                assert(b - start == break_at(rem, max as nat));
                assert(rem.skip(b - start) =~= p@.skip(b as int));
                assert(wrap_rest(rem, max as nat) == p@.skip(n as int));
                if b == start {
                    assert(p@[start as int] == ' ');
                    assert(is_ws(p@[start as int]));
                    assert(n > start);
                }
                assert(n > start);
                assert(seqs_of(out@) =~= before.push(trim_end(rem.take(b - start))));
                assert(wrap_line(rem, max as nat) == seq![trim_end(rem.take(b - start))] + wrap_line(
                    p@.skip(n as int),
                    max as nat,
                ));
                assert(total =~= seqs_of(out@) + wrap_line(p@.skip(n as int), max as nat));
            }
            start = n;
        }
    }
    proof {
        assert(p@.skip(start as int).len() == 0);
        assert(seqs_of(out@) =~= total);
    }
    true
}

/// The pieces of `s` between line ends.
pub fn split_pieces(s: &[char]) -> (r: Vec<Vec<char>>)
    ensures
        seqs_of(r@) == split_lines(s@),
{
    let mut out: Vec<Vec<char>> = Vec::new();
    let mut start: usize = 0;
    let mut i: usize = 0;
    assert(s@.skip(0) =~= s@);
    while i < s.len()
        invariant
            start <= i <= s@.len(),
            forall|j: int| start <= j < i ==> s@[j] != '\n',
            split_lines(s@) == seqs_of(out@) + split_lines(s@.skip(start as int)),
        decreases s.len() - i,
    {
        if s[i] == '\n' {
            let ghost t = s@.skip(start as int);
            let ghost k = i - start;
            proof {
                lemma_newline_at(t, k);
                assert(t.take(k) =~= s@.subrange(start as int, i as int));
                assert(t.skip(k + 1) =~= s@.skip(i + 1));
            }
            let piece = copy_range(s, start, i);
            let ghost before = seqs_of(out@);
            out.push(piece);
            proof {
                assert(seqs_of(out@) =~= before.push(piece@));
                assert(split_lines(s@) =~= seqs_of(out@) + split_lines(s@.skip(i + 1)));
            }
            start = i + 1;
        }
        i = i + 1;
    }
    let ghost t = s@.skip(start as int);
    proof {
        lemma_no_newline(t);
        assert(split_lines(t) =~= seq![t]);
        assert(t =~= s@.subrange(start as int, s@.len() as int));
    }
    let piece = copy_range(s, start, s.len());
    let ghost before = seqs_of(out@);
    out.push(piece);
    proof {
        assert(seqs_of(out@) =~= before.push(t));
        assert(split_lines(s@) =~= seqs_of(out@));
    }
    out
}

/// Every piece of a text that is not blank can be wrapped at `max` bytes.
pub open spec fn wrap_text_ok(text: Seq<char>, max: nat) -> bool {
    forall|i: int|
        0 <= i < split_lines(text).len() ==> (trim(#[trigger] split_lines(text)[i]).len() > 0
            ==> wrap_ok(split_lines(text)[i], max))
}

/// The lines of a text wrapped at `max_chars` bytes a line (`wrap_plain`):
/// each piece between line ends is wrapped on its own, a blank piece gives an
/// empty line. Nothing when a cut would fall inside a character.
pub fn wrap_plain(text: &str, max_chars: usize) -> (r: Option<Vec<String>>)
    requires
        max_chars >= 1,
    ensures
        r is Some <==> wrap_text_ok(text@, max_chars as nat),
        r matches Some(v) ==> crate::strutil::strings_view(v@) == wrapped(text@, max_chars as nat),
{
    let cs = chars_of(text);
    let mut result: Vec<Vec<char>> = Vec::new();
    if cs.len() > 0 {
        let pieces = split_pieces(cs.as_slice());
        let ghost ps = seqs_of(pieces@);
        let mut k: usize = 0;
        while k < pieces.len()
            invariant
                k <= pieces@.len(),
                max_chars >= 1,
                ps == seqs_of(pieces@),
                ps == split_lines(text@),
                forall|x: int|
                    0 <= x < k ==> (trim(#[trigger] ps[x]).len() > 0 ==> wrap_ok(ps[x], max_chars as nat)),
                seqs_of(result@) == wrap_pieces(ps.take(k as int), max_chars as nat),
            decreases pieces.len() - k,
        {
            let piece = &pieces[k];
            let (lo, hi) = trim_bounds(piece.as_slice(), 0, piece.len());
            proof {
                assert(piece@.subrange(0, piece@.len() as int) =~= piece@);
                assert(ps[k as int] == piece@);
                assert(ps.take(k + 1).drop_last() =~= ps.take(k as int));
                assert(ps.take(k + 1).last() == piece@);
            }
            if lo < hi {
                if !wrap_piece(piece, max_chars, &mut result) {
                    return None;
                }
            } else {
                let ghost before = seqs_of(result@);
                result.push(Vec::new());
                proof {
                    assert(seqs_of(result@) =~= before + seq![Seq::<char>::empty()]);
                }
            }
            k = k + 1;
        }
        assert(ps.take(k as int) =~= ps);
    }
    proof {
        if text@.len() == 0 {
            assert(split_lines(text@) =~= seq![text@]);
            assert(trim(text@).len() == 0);
        }
    }
    if result.len() == 0 {
        result.push(Vec::new());
    }
    let mut out: Vec<String> = Vec::new();
    let mut j: usize = 0;
    while j < result.len()
        invariant
            j <= result@.len(),
            crate::strutil::strings_view(out@) == seqs_of(result@).take(j as int),
        decreases result.len() - j,
    {
        let t = string_of(result[j].as_slice());
        let ghost o0 = out@;
        out.push(t);
        proof {
            assert(crate::strutil::strings_view(out@) =~= crate::strutil::strings_view(o0).push(t@));
            assert(seqs_of(result@).take(j + 1) =~= seqs_of(result@).take(j as int).push(result@[j as int]@));
        }
        j = j + 1;
    }
    proof {
        assert(seqs_of(result@).take(j as int) =~= seqs_of(result@));
        assert(cs@ == text@);
        if text@.len() == 0 {
            assert(seqs_of(result@) =~= seq![Seq::<char>::empty()]);
        }
    }
    Some(out)
}


/// The bytes of the runs' texts, all together.
pub open spec fn segs_bytes(segs: Seq<(Seq<char>, PdfFont)>) -> nat
    decreases segs.len(),
{
    if segs.len() == 0 {
        0
    } else {
        segs_bytes(segs.drop_last()) + byte_len(segs.last().0)
    }
}

/// The characters of `s` from byte `a` up to byte `b`: those after the first
/// `a` bytes, as far as `b - a` more bytes reach.
pub open spec fn byte_slice(s: Seq<char>, a: nat, b: nat) -> Seq<char> {
    byte_take(s.skip(byte_take(s, a).len() as int), (b - a) as nat)
}

/// Bytes `a` and `b` both fall between characters of `s` (`&s[a..b]` does
/// not panic).
pub open spec fn byte_slice_ok(s: Seq<char>, a: nat, b: nat) -> bool {
    byte_len(byte_take(s, a)) == a && byte_len(byte_slice(s, a, b)) == b - a
}

/// The part of a run starting at byte `start` that falls on the line spanning
/// bytes `ls` to `le`, as a byte range of the run, when it is not empty.
pub open spec fn line_cut(t: Seq<char>, start: nat, ls: nat, le: nat) -> Option<(nat, nat)> {
    let end = start + byte_len(t);
    if end <= ls || start >= le {
        None
    } else {
        let vs: nat = if ls > start { (ls - start) as nat } else { 0 };
        let ve: nat = if le < end { (le - start) as nat } else { byte_len(t) };
        if vs < ve {
            Some((vs, ve))
        } else {
            None
        }
    }
}

/// The runs of a line spanning bytes `ls` to `le` of the runs' joined text:
/// the part of each run that falls on it, in its font, when not empty.
pub open spec fn line_runs(segs: Seq<(Seq<char>, PdfFont)>, ls: nat, le: nat) -> Seq<
    (Seq<char>, PdfFont),
>
    decreases segs.len(),
{
    if segs.len() == 0 {
        seq![]
    } else {
        let prev = segs.drop_last();
        let t = segs.last().0;
        line_runs(prev, ls, le) + match line_cut(t, segs_bytes(prev), ls, le) {
            Some((a, b)) => if byte_slice(t, a, b).len() > 0 {
                seq![(byte_slice(t, a, b), segs.last().1)]
            } else {
                seq![]
            },
            None => seq![],
        }
    }
}

/// Every cut that `line_runs` makes falls between characters.
pub open spec fn line_runs_ok(segs: Seq<(Seq<char>, PdfFont)>, ls: nat, le: nat) -> bool
    decreases segs.len(),
{
    segs.len() == 0 || (line_runs_ok(segs.drop_last(), ls, le) && match line_cut(
        segs.last().0,
        segs_bytes(segs.drop_last()),
        ls,
        le,
    ) {
        Some((a, b)) => byte_slice_ok(segs.last().0, a, b),
        None => true,
    })
}

/// The runs of each line of wrapped text, the lines laid end to end from byte
/// `pos` on; it stops after the line that reaches the end of the runs.
pub open spec fn styled_lines(
    segs: Seq<(Seq<char>, PdfFont)>,
    lines: Seq<Seq<char>>,
    pos: nat,
) -> Seq<Seq<(Seq<char>, PdfFont)>>
    decreases lines.len(),
{
    if lines.len() == 0 {
        seq![]
    } else {
        let le = pos + byte_len(lines[0]);
        if le >= segs_bytes(segs) {
            seq![line_runs(segs, pos, le)]
        } else {
            seq![line_runs(segs, pos, le)] + styled_lines(segs, lines.drop_first(), le)
        }
    }
}

/// Every cut that `styled_lines` makes falls between characters.
pub open spec fn styled_lines_ok(
    segs: Seq<(Seq<char>, PdfFont)>,
    lines: Seq<Seq<char>>,
    pos: nat,
) -> bool
    decreases lines.len(),
{
    lines.len() == 0 || ({
        let le = pos + byte_len(lines[0]);
        line_runs_ok(segs, pos, le) && (le >= segs_bytes(segs) || styled_lines_ok(
            segs,
            lines.drop_first(),
            le,
        ))
    })
}

/// The values of lines of runs.
pub open spec fn seg_lines_view(v: Seq<Vec<StyledSegment>>) -> Seq<Seq<(Seq<char>, PdfFont)>> {
    v.map_values(|l: Vec<StyledSegment>| segs_view(l@))
}

/// Bytes `a` to `b` of `s` (`&s[a..b]`), or `None` where a cut falls inside a
/// character.
fn cut_bytes(s: &Vec<char>, a: usize, b: usize) -> (r: Option<Vec<char>>)
    requires
        a <= b,
    ensures
        r is Some <==> byte_slice_ok(s@, a as nat, b as nat),
        r matches Some(v) ==> v@ == byte_slice(s@, a as nat, b as nat),
{
    let mut left: usize = a;
    let mut i: usize = 0;
    assert(s@.skip(0) =~= s@);
    while i < s.len() && char_len_utf8(s[i]) <= left
        invariant
            i <= s@.len(),
            left <= a,
            byte_take(s@, a as nat) == s@.take(i as int) + byte_take(s@.skip(i as int), left as nat),
            byte_len(s@.take(i as int)) + left == a,
        decreases s.len() - i,
    {
        proof {
            let rest = s@.skip(i as int);
            assert(rest[0] == s@[i as int]);
            assert(rest.drop_first() =~= s@.skip(i + 1));
            assert(s@.take(i + 1) =~= s@.take(i as int).push(s@[i as int]));
            assert(s@.take(i + 1).drop_last() =~= s@.take(i as int));
        }
        left = left - char_len_utf8(s[i]);
        i = i + 1;
    }
    proof {
        let rest = s@.skip(i as int);
        if i < s@.len() {
            assert(rest[0] == s@[i as int]);
        }
        assert(byte_take(rest, left as nat) =~= Seq::<char>::empty());
        assert(byte_take(s@, a as nat) =~= s@.take(i as int));
    }
    if left != 0 {
        return None;
    }
    let mut out: Vec<char> = Vec::new();
    let mut left2: usize = b - a;
    let mut j: usize = i;
    proof {
        assert(s@.skip(byte_take(s@, a as nat).len() as int) =~= s@.skip(i as int));
        assert(out@ + byte_take(s@.skip(j as int), left2 as nat) =~= byte_take(s@.skip(j as int), left2 as nat));
    }
    while j < s.len() && char_len_utf8(s[j]) <= left2
        invariant
            i <= j <= s@.len(),
            left2 <= b - a,
            byte_take(s@, a as nat).len() == i,
            byte_slice(s@, a as nat, b as nat) == out@ + byte_take(s@.skip(j as int), left2 as nat),
            byte_len(out@) + left2 == b - a,
        decreases s.len() - j,
    {
        proof {
            let rest = s@.skip(j as int);
            assert(rest[0] == s@[j as int]);
            assert(rest.drop_first() =~= s@.skip(j + 1));
            assert(out@.push(s@[j as int]).drop_last() =~= out@);
        }
        left2 = left2 - char_len_utf8(s[j]);
        out.push(s[j]);
        j = j + 1;
    }
    proof {
        let rest = s@.skip(j as int);
        if j < s@.len() {
            assert(rest[0] == s@[j as int]);
        }
        assert(byte_take(rest, left2 as nat) =~= Seq::<char>::empty());
        assert(byte_slice(s@, a as nat, b as nat) =~= out@);
    }
    if left2 != 0 {
        return None;
    }
    Some(out)
}

/// A prefix of runs has no more bytes than all of them.
proof fn lemma_segs_bytes_take(segs: Seq<(Seq<char>, PdfFont)>, k: int)
    requires
        0 <= k <= segs.len(),
    ensures
        k > 0 ==> segs_bytes(segs.take(k)) == segs_bytes(segs.take(k - 1)) + byte_len(segs[k - 1].0),
        segs_bytes(segs.take(k)) <= segs_bytes(segs),
    decreases segs.len() - k,
{
    if k < segs.len() {
        lemma_segs_bytes_take(segs, k + 1);
        assert(segs.take(k + 1).drop_last() =~= segs.take(k));
    } else {
        assert(segs.take(k) =~= segs);
    }
    if k > 0 {
        assert(segs.take(k).drop_last() =~= segs.take(k - 1));
    }
}

/// The runs of the line spanning bytes `ls` to `le`, or `None` where a cut
/// falls inside a character.
fn runs_of_line(segs: &Vec<StyledSegment>, ls: usize, le: usize) -> (r: Option<Vec<StyledSegment>>)
    requires
        segs_bytes(segs_view(segs@)) <= usize::MAX,
    ensures
        r is Some <==> line_runs_ok(segs_view(segs@), ls as nat, le as nat),
        r matches Some(v) ==> segs_view(v@) == line_runs(segs_view(segs@), ls as nat, le as nat),
{
    let ghost sv = segs_view(segs@);
    let mut out: Vec<StyledSegment> = Vec::new();
    let mut start: usize = 0;
    let mut i: usize = 0;
    while i < segs.len()
        invariant
            i <= segs@.len(),
            sv == segs_view(segs@),
            segs_bytes(sv) <= usize::MAX,
            start == segs_bytes(sv.take(i as int)),
            line_runs_ok(sv.take(i as int), ls as nat, le as nat),
            segs_view(out@) == line_runs(sv.take(i as int), ls as nat, le as nat),
        decreases segs.len() - i,
    {
        let ghost pre = sv.take(i as int);
        proof {
            assert(sv.take(i + 1).drop_last() =~= pre);
            assert(sv.take(i + 1).last() == sv[i as int]);
            assert(sv[i as int] == seg_view(segs@[i as int]));
            lemma_segs_bytes_take(sv, i + 1);
        }
        let t = &segs[i].text;
        let n = crate::render::text::utf8_len(t.as_str());
        let end = start + n;
        if !(end <= ls || start >= le) {
            let vs: usize = if ls > start { ls - start } else { 0 };
            let ve: usize = if le < end { le - start } else { n };
            if vs < ve {
                let cs = chars_of(t.as_str());
                match cut_bytes(&cs, vs, ve) {
                    None => {
                        proof {
                            assert(!line_runs_ok(sv.take(i + 1), ls as nat, le as nat));
                            lemma_line_runs_ok_prefix(sv, i + 1, ls as nat, le as nat);
                        }
                        return None;
                    },
                    Some(piece) => {
                        if piece.len() > 0 {
                            let ghost o0 = out@;
                            out.push(StyledSegment { text: string_of(piece.as_slice()), font: segs[i].font });
                            proof {
                                assert(segs_view(out@) =~= segs_view(o0).push(seg_view(out@.last())));
                            }
                        }
                    },
                }
            }
        }
        proof {
            assert(line_runs(sv.take(i + 1), ls as nat, le as nat) =~= segs_view(out@));
        }
        start = end;
        i = i + 1;
    }
    assert(sv.take(i as int) =~= sv);
    Some(out)
}

/// A failed cut in the first `k` runs fails the whole line.
proof fn lemma_line_runs_ok_prefix(segs: Seq<(Seq<char>, PdfFont)>, k: int, ls: nat, le: nat)
    requires
        0 <= k <= segs.len(),
        !line_runs_ok(segs.take(k), ls, le),
    ensures
        !line_runs_ok(segs, ls, le),
    decreases segs.len() - k,
{
    if k < segs.len() {
        assert(segs.take(k + 1).drop_last() =~= segs.take(k));
        lemma_line_runs_ok_prefix(segs, k + 1, ls, le);
    } else {
        assert(segs.take(k) =~= segs);
    }
}

/// The runs of each wrapped line: the lines are laid end to end over the runs'
/// joined text by their byte lengths, each takes the part of every run that
/// falls on it, and the lines stop once one reaches the end of the text.
/// `None` where a cut falls inside a character.
pub fn split_segs_to_lines(segs: &Vec<StyledSegment>, plain_lines: &Vec<String>) -> (r: Option<
    Vec<Vec<StyledSegment>>,
>)
    requires
        segs_bytes(segs_view(segs@)) <= usize::MAX,
        forall|k: int|
            0 <= k < plain_lines@.len() ==> segs_bytes(segs_view(segs@)) + byte_len(
                #[trigger] plain_lines@[k]@,
            ) <= usize::MAX,
    ensures
        r is Some <==> styled_lines_ok(
            segs_view(segs@),
            crate::strutil::strings_view(plain_lines@),
            0,
        ),
        r matches Some(v) ==> seg_lines_view(v@) == styled_lines(
            segs_view(segs@),
            crate::strutil::strings_view(plain_lines@),
            0,
        ),
{
    let ghost sv = segs_view(segs@);
    let ghost ls = crate::strutil::strings_view(plain_lines@);
    let mut total: usize = 0;
    let mut i: usize = 0;
    while i < segs.len()
        invariant
            i <= segs@.len(),
            sv == segs_view(segs@),
            segs_bytes(sv) <= usize::MAX,
            total == segs_bytes(sv.take(i as int)),
        decreases segs.len() - i,
    {
        proof {
            assert(sv.take(i + 1).drop_last() =~= sv.take(i as int));
            assert(sv[i as int] == seg_view(segs@[i as int]));
            lemma_segs_bytes_take(sv, i + 1);
        }
        total = total + crate::render::text::utf8_len(segs[i].text.as_str());
        i = i + 1;
    }
    assert(sv.take(i as int) =~= sv);
    let mut result: Vec<Vec<StyledSegment>> = Vec::new();
    let mut pos: usize = 0;
    let mut k: usize = 0;
    assert(ls.skip(0) =~= ls);
    while k < plain_lines.len()
        invariant
            k <= plain_lines@.len(),
            sv == segs_view(segs@),
            ls == crate::strutil::strings_view(plain_lines@),
            total == segs_bytes(sv),
            total <= usize::MAX,
            pos <= total,
            forall|j: int|
                0 <= j < plain_lines@.len() ==> segs_bytes(sv) + byte_len(#[trigger] plain_lines@[j]@)
                    <= usize::MAX,
            styled_lines(sv, ls, 0) == seg_lines_view(result@) + styled_lines(
                sv,
                ls.skip(k as int),
                pos as nat,
            ),
            styled_lines_ok(sv, ls, 0) == styled_lines_ok(sv, ls.skip(k as int), pos as nat),
        decreases plain_lines.len() - k,
    {
        let ghost rest = ls.skip(k as int);
        proof {
            assert(rest[0] == plain_lines@[k as int]@);
            assert(rest.drop_first() =~= ls.skip(k + 1));
        }
        let n = crate::render::text::utf8_len(plain_lines[k].as_str());
        let le = pos + n;
        let here = match runs_of_line(segs, pos, le) {
            None => {
                return None;
            },
            Some(h) => h,
        };
        let ghost r0 = result@;
        result.push(here);
        proof {
            assert(seg_lines_view(result@) =~= seg_lines_view(r0).push(segs_view(here@)));
        }
        if le >= total {
            proof {
                assert(styled_lines(sv, ls, 0) =~= seg_lines_view(result@));
            }
            return Some(result);
        }
        proof {
            assert(seg_lines_view(r0) + styled_lines(sv, rest, pos as nat) =~= seg_lines_view(result@)
                + styled_lines(sv, ls.skip(k + 1), le as nat));
        }
        pos = le;
        k = k + 1;
    }
    proof {
        assert(ls.skip(k as int) =~= Seq::<Seq<char>>::empty());
        assert(seg_lines_view(result@) + Seq::<Seq<(Seq<char>, PdfFont)>>::empty() =~= seg_lines_view(result@));
    }
    Some(result)
}

} // verus!
