//! Image output: paragraphs, headings and code lines drawn with an 8 by 8
//! block font on an 800 by 600 white canvas.
use vstd::prelude::*;
use crate::ir::{blocks_view, inlines_plain_text, inlines_text, Block, BlockView, Document};
use crate::strutil::{all_lines, byte_len, char_len_utf8, char_width, chars_of, lines, seqs_of};

verus! {

/// The glyph of a character: eight rows, the leftmost pixel in the high bit.
pub open spec fn char_pattern(c: char) -> Seq<u8> {
    if ('A' <= c && c <= 'Z') || ('a' <= c && c <= 'z') {
        seq![0x3C, 0x66, 0x66, 0x7E, 0x66, 0x66, 0x66, 0x00]
    } else if '0' <= c && c <= '9' {
        seq![0x3C, 0x66, 0x6E, 0x76, 0x66, 0x66, 0x3C, 0x00]
    } else if c == ' ' {
        seq![0x00, 0x00, 0x00, 0x00, 0x00, 0x00, 0x00, 0x00]
    } else if c == '.' {
        seq![0x00, 0x00, 0x00, 0x00, 0x00, 0x18, 0x18, 0x00]
    } else if c == ',' {
        seq![0x00, 0x00, 0x00, 0x00, 0x00, 0x18, 0x30, 0x00]
    } else if c == '!' {
        seq![0x18, 0x18, 0x18, 0x18, 0x00, 0x00, 0x18, 0x00]
    } else if c == '?' {
        seq![0x3C, 0x66, 0x06, 0x0C, 0x18, 0x00, 0x18, 0x00]
    } else if c == '-' {
        seq![0x00, 0x00, 0x00, 0x7E, 0x00, 0x00, 0x00, 0x00]
    } else if c == ':' {
        seq![0x00, 0x18, 0x18, 0x00, 0x00, 0x18, 0x18, 0x00]
    } else if c == '/' {
        seq![0x02, 0x06, 0x0C, 0x18, 0x30, 0x60, 0x40, 0x00]
    } else {
        seq![0x3C, 0x42, 0x4A, 0x56, 0x62, 0x42, 0x3C, 0x00]
    }
}

/// The glyph of a character.
pub fn get_char_pattern(c: char) -> (r: [u8; 8])
    ensures
        r@ == char_pattern(c),
{
    let r: [u8; 8] = if ('A' <= c && c <= 'Z') || ('a' <= c && c <= 'z') {
        [0x3C, 0x66, 0x66, 0x7E, 0x66, 0x66, 0x66, 0x00]
    } else if '0' <= c && c <= '9' {
        [0x3C, 0x66, 0x6E, 0x76, 0x66, 0x66, 0x3C, 0x00]
    } else if c == ' ' {
        [0x00, 0x00, 0x00, 0x00, 0x00, 0x00, 0x00, 0x00]
    } else if c == '.' {
        [0x00, 0x00, 0x00, 0x00, 0x00, 0x18, 0x18, 0x00]
    } else if c == ',' {
        [0x00, 0x00, 0x00, 0x00, 0x00, 0x18, 0x30, 0x00]
    } else if c == '!' {
        [0x18, 0x18, 0x18, 0x18, 0x00, 0x00, 0x18, 0x00]
    } else if c == '?' {
        [0x3C, 0x66, 0x06, 0x0C, 0x18, 0x00, 0x18, 0x00]
    } else if c == '-' {
        [0x00, 0x00, 0x00, 0x7E, 0x00, 0x00, 0x00, 0x00]
    } else if c == ':' {
        [0x00, 0x18, 0x18, 0x00, 0x00, 0x18, 0x18, 0x00]
    } else if c == '/' {
        [0x02, 0x06, 0x0C, 0x18, 0x30, 0x60, 0x40, 0x00]
    } else {
        [0x3C, 0x42, 0x4A, 0x56, 0x62, 0x42, 0x3C, 0x00]
    };
    assert(r@ =~= char_pattern(c));
    r
}

/// The longest prefix of `s` whose UTF-8 encoding has at most `n` bytes.
pub open spec fn byte_take(s: Seq<char>, n: nat) -> Seq<char>
    decreases s.len(),
{
    if s.len() == 0 || char_width(s[0]) > n {
        seq![]
    } else {
        seq![s[0]] + byte_take(s.drop_first(), (n - char_width(s[0])) as nat)
    }
}

/// A line cut to its first `n` bytes and `...` when it is longer.
pub open spec fn clip(s: Seq<char>, n: nat) -> Seq<char> {
    if byte_len(s) <= n {
        s
    } else {
        byte_take(s, n) + "..."@
    }
}

/// A line can be cut at byte `n`: it is short enough, or byte `n` ends a
/// character.
pub open spec fn clip_ok(s: Seq<char>, n: nat) -> bool {
    byte_len(s) <= n || byte_len(byte_take(s, n)) == n
}

/// The first `max_chars` bytes of a line, followed by `...`, when the line
/// is longer.
pub fn truncate(s: &Vec<char>, max_chars: usize) -> (r: Vec<char>)
    requires
        clip_ok(s@, max_chars as nat),
    ensures
        r@ == clip(s@, max_chars as nat),
{
    let mut total: usize = 0;
    let mut i: usize = 0;
    while i < s.len()
        invariant
            i <= s@.len(),
            total == byte_len(s@.take(i as int)),
            total <= max_chars,
        decreases s.len() - i,
    {
        proof {
            assert(s@.take(i + 1).drop_last() =~= s@.take(i as int));
        }
        let w = char_len_utf8(s[i]);
        if w > max_chars - total {
            proof {
                crate::strutil::lemma_byte_len_take(s@, i + 1);
            }
            return clip_long(s, max_chars);
        }
        total = total + w;
        i = i + 1;
    }
    assert(s@.take(i as int) =~= s@);
    let r = crate::strutil::copy_range(s.as_slice(), 0, s.len());
    assert(s@.subrange(0, s@.len() as int) =~= s@);
    r
}

fn clip_long(s: &Vec<char>, max_chars: usize) -> (r: Vec<char>)
    requires
        byte_len(s@) > max_chars,
    ensures
        r@ == clip(s@, max_chars as nat),
{
    let mut out: Vec<char> = Vec::new();
    let mut left: usize = max_chars;
    let mut i: usize = 0;
    assert(s@.skip(0) =~= s@);
    while i < s.len() && char_len_utf8(s[i]) <= left
        invariant
            i <= s@.len(),
            left <= max_chars,
            byte_take(s@, max_chars as nat) == out@ + byte_take(s@.skip(i as int), left as nat),
        decreases s.len() - i,
    {
        proof {
            let rest = s@.skip(i as int);
            assert(rest[0] == s@[i as int]);
            assert(rest.drop_first() =~= s@.skip(i + 1));
        }
        left = left - char_len_utf8(s[i]);
        out.push(s[i]);
        i = i + 1;
    }
    proof {
        let rest = s@.skip(i as int);
        if i < s@.len() {
            assert(rest[0] == s@[i as int]);
        }
        assert(byte_take(rest, left as nat) =~= Seq::<char>::empty());
    }
    out.push('.');
    out.push('.');
    out.push('.');
    proof {
        reveal_strlit("...");
        assert(out@ =~= byte_take(s@, max_chars as nat) + "..."@);
    }
    out
}

/// How many characters fit on a line that starts at `x`: the last one starts
/// before 790.
pub open spec fn fit_count(x: int) -> int {
    (790 - x + 7) / 8
}

/// The glyphs of a line of text drawn from `(x, y)`, 8 pixels apart.
pub open spec fn line_glyphs(t: Seq<char>, x: int, y: int) -> Seq<(char, int, int)> {
    let n = if t.len() < fit_count(x) {
        t.len() as int
    } else {
        fit_count(x)
    };
    Seq::new(n as nat, |i: int| (t[i], x + 8 * i, y))
}

/// The glyphs of code lines from height `y` down, 18 apart.
pub open spec fn code_glyphs(ls: Seq<Seq<char>>, y: int) -> Seq<(char, int, int)>
    decreases ls.len(),
{
    if ls.len() == 0 {
        seq![]
    } else {
        line_glyphs(clip(ls[0], 90), 30, y) + code_glyphs(ls.drop_first(), y + 18)
    }
}

/// The spacing after a heading of the given level.
pub open spec fn heading_spacing(level: u8) -> int {
    if level == 1 {
        36
    } else if level == 2 {
        30
    } else {
        24
    }
}

/// The glyphs of a block drawn at height `y`, and the height of the next
/// block. Blocks other than paragraphs, headings and code are skipped.
pub open spec fn block_glyphs(b: BlockView, y: int) -> (Seq<(char, int, int)>, int) {
    match b {
        BlockView::Paragraph(c) => (line_glyphs(clip(inlines_text(c), 90), 20, y), y + 24),
        BlockView::Heading { level, content } => (
            line_glyphs(clip(inlines_text(content), 90), 20, y),
            y + heading_spacing(level),
        ),
        BlockView::Code { language: _, content } => (
            code_glyphs(lines(content), y),
            y + 18 * lines(content).len() + 8,
        ),
        _ => (seq![], y),
    }
}

/// The glyphs of blocks from height `y` on; drawing stops at the first block
/// that would start at height 560 or below.
pub open spec fn page_glyphs(bs: Seq<BlockView>, y: int) -> Seq<(char, int, int)>
    decreases bs.len(),
{
    if bs.len() == 0 || y >= 560 {
        seq![]
    } else {
        block_glyphs(bs[0], y).0 + page_glyphs(bs.drop_first(), block_glyphs(bs[0], y).1)
    }
}

/// Whether the lines of a block drawn from height `y` can be cut at byte 90
/// and the heights its code lines move to stay within `i32`.
pub open spec fn block_drawable(b: BlockView, y: int) -> bool {
    match b {
        BlockView::Paragraph(c) => clip_ok(inlines_text(c), 90),
        BlockView::Heading { level: _, content } => clip_ok(inlines_text(content), 90),
        BlockView::Code { language: _, content } => y + 18 * lines(content).len() + 8 <= i32::MAX && forall|
            i: int,
        |
            0 <= i < lines(content).len() ==> clip_ok(#[trigger] lines(content)[i], 90),
        _ => true,
    }
}

/// Whether every block that gets drawn from height `y` on is drawable.
pub open spec fn page_drawable(bs: Seq<BlockView>, y: int) -> bool
    decreases bs.len(),
{
    bs.len() == 0 || y >= 560 || (block_drawable(bs[0], y) && page_drawable(
        bs.drop_first(),
        block_glyphs(bs[0], y).1,
    ))
}

/// A glyph placed within the columns of the canvas, at a height that fits.
pub open spec fn glyph_ok(g: (char, i32, i32)) -> bool {
    0 <= g.1 < 790 && 0 <= g.2 < 0x7FFF_FFF0
}

/// Every glyph is placed as [`glyph_ok`] says.
pub open spec fn all_ok(v: Seq<(char, i32, i32)>) -> bool {
    forall|k: int| 0 <= k < v.len() ==> glyph_ok(#[trigger] v[k])
}

fn push_line_glyphs(out: &mut Vec<(char, i32, i32)>, t: &Vec<char>, x: i32, y: i32)
    requires
        0 <= x < 790,
        0 <= y < 0x7FFF_FFF0,
        all_ok(old(out)@),
    ensures
        all_ok(final(out)@),
        glyphs_view(final(out)@) == glyphs_view(old(out)@) + line_glyphs(t@, x as int, y as int),
{
    let ghost g = line_glyphs(t@, x as int, y as int);
    let mut i: usize = 0;
    while i < t.len() && x + 8 * (i as i32) < 790
        invariant
            0 <= x < 790,
            0 <= y < 0x7FFF_FFF0,
            i <= t@.len(),
            i <= fit_count(x as int),
            g == line_glyphs(t@, x as int, y as int),
            all_ok(out@),
            glyphs_view(out@) == glyphs_view(old(out)@) + g.take(i as int),
        decreases t.len() - i,
    {
        let ghost before = out@;
        out.push((t[i], x + 8 * (i as i32), y));
        assert(glyph_ok(out@.last()));
        assert(all_ok(out@)) by {
            assert forall|j: int| 0 <= j < out@.len() implies glyph_ok(#[trigger] out@[j]) by {
                if j < before.len() {
                    assert(out@[j] == before[j]);
                }
            }
        }
        proof {
            assert(g[i as int] == (t@[i as int], x + 8 * i, y as int));
            assert(glyphs_view(out@) =~= glyphs_view(before).push(g[i as int]));
            assert(g.take(i + 1) =~= g.take(i as int).push(g[i as int]));
        }
        i = i + 1;
    }
    proof {
        if i < t@.len() {
            assert(x + 8 * i >= 790);
            assert(i >= fit_count(x as int));
        }
        assert(g.take(i as int) =~= g);
    }
}

/// The values of placed glyphs.
pub open spec fn glyphs_view(v: Seq<(char, i32, i32)>) -> Seq<(char, int, int)> {
    v.map_values(|g: (char, i32, i32)| (g.0, g.1 as int, g.2 as int))
}

fn push_clipped(out: &mut Vec<(char, i32, i32)>, t: &Vec<char>, x: i32, y: i32)
    requires
        0 <= x < 790,
        0 <= y < 0x7FFF_FFF0,
        clip_ok(t@, 90),
        all_ok(old(out)@),
    ensures
        all_ok(final(out)@),
        glyphs_view(final(out)@) == glyphs_view(old(out)@) + line_glyphs(clip(t@, 90), x as int, y as int),
{
    let c = truncate(t, 90);
    push_line_glyphs(out, &c, x, y);
}

fn push_block_glyphs(out: &mut Vec<(char, i32, i32)>, b: &Block, y: i32) -> (ny: i32)
    requires
        40 <= y < 560,
        block_drawable(b@, y as int),
        all_ok(old(out)@),
    ensures
        all_ok(final(out)@),
        glyphs_view(final(out)@) == glyphs_view(old(out)@) + block_glyphs(b@, y as int).0,
        ny == block_glyphs(b@, y as int).1,
        ny >= y,
{
    match b {
        Block::Paragraph(c) => {
            let t = inlines_plain_text(c);
            let cs = chars_of(t.as_str());
            push_clipped(out, &cs, 20, y);
            y + 24
        },
        Block::Heading { level, content } => {
            let t = inlines_plain_text(content);
            let cs = chars_of(t.as_str());
            push_clipped(out, &cs, 20, y);
            let spacing: i32 = if *level == 1 {
                36
            } else if *level == 2 {
                30
            } else {
                24
            };
            y + spacing
        },
        Block::Code { content, .. } => {
            let cs = chars_of(content.as_str());
            let ls = all_lines(&cs);
            let ghost lv = seqs_of(ls@);
            let ghost total = glyphs_view(out@) + code_glyphs(lv, y as int);
            let mut yy: i32 = y;
            let mut k: usize = 0;
            assert(lv.skip(0) =~= lv);
            while k < ls.len()
                invariant
                    k <= ls@.len(),
                    lv == seqs_of(ls@),
                    y + 18 * lv.len() + 8 <= i32::MAX,
                    forall|i: int| 0 <= i < lv.len() ==> clip_ok(#[trigger] lv[i], 90),
                    40 <= y < 560,
                    yy == y + 18 * k,
                    all_ok(out@),
                    total == glyphs_view(out@) + code_glyphs(lv.skip(k as int), yy as int),
                decreases ls.len() - k,
            {
                proof {
                    assert(lv[k as int] == ls@[k as int]@);
                }
                push_clipped(out, &ls[k], 30, yy);
                proof {
                    let rest = lv.skip(k as int);
                    assert(rest[0] == ls@[k as int]@);
                    assert(rest.drop_first() =~= lv.skip(k + 1));
                }
                yy = yy + 18;
                k = k + 1;
            }
            proof {
                assert(lv.skip(k as int).len() == 0);
                assert(glyphs_view(out@) =~= total);
            }
            yy + 8
        },
        _ => {
            assert(glyphs_view(out@) =~= glyphs_view(out@) + block_glyphs(b@, y as int).0);
            y
        },
    }
}

/// The glyphs drawn for a document, in drawing order.
pub fn glyphs_of(doc: &Document) -> (r: Vec<(char, i32, i32)>)
    requires
        page_drawable(doc.blocks_view(), 40),
    ensures
        all_ok(r@),
        glyphs_view(r@) == page_glyphs(doc.blocks_view(), 40),
{
    let mut out: Vec<(char, i32, i32)> = Vec::new();
    let ghost bs = doc.blocks_view();
    let mut y: i32 = 40;
    let mut k: usize = 0;
    assert(bs.skip(0) =~= bs);
    assert(glyphs_view(out@) =~= Seq::<(char, int, int)>::empty());
    while k < doc.blocks.len() && y < 560
        invariant
            k <= doc.blocks@.len(),
            bs == doc.blocks_view(),
            bs.len() == doc.blocks@.len(),
            40 <= y,
            page_drawable(bs.skip(k as int), y as int),
            all_ok(out@),
            page_glyphs(bs, 40) == glyphs_view(out@) + page_glyphs(bs.skip(k as int), y as int),
        decreases doc.blocks.len() - k,
    {
        proof {
            let rest = bs.skip(k as int);
            assert(rest[0] == bs[k as int]);
            assert(bs[k as int] == doc.blocks@[k as int]@);
            assert(rest.drop_first() =~= bs.skip(k + 1));
        }
        let ny = push_block_glyphs(&mut out, &doc.blocks[k], y);
        y = ny;
        k = k + 1;
    }
    proof {
        if k == doc.blocks.len() {
            assert(bs.skip(k as int).len() == 0);
        }
        assert(glyphs_view(out@) =~= page_glyphs(bs, 40));
    }
    out
}

/// The number of bytes of the canvas: 800 by 600 pixels of three colour
/// channels.
pub open spec fn canvas_len() -> int {
    1_440_000
}

/// Whether pixel `col` (0 is leftmost) of a glyph row is set.
pub open spec fn bit_on(bits: u8, col: int) -> bool {
    bits & (0x80u8 >> (col as u8)) != 0
}

/// Whether a glyph placed at `(g.1, g.2)` sets pixel `(px, py)`.
pub open spec fn lights(g: (char, int, int), px: int, py: int) -> bool {
    &&& 0 <= px - g.1 < 8
    &&& 0 <= py - g.2 < 8
    &&& bit_on(char_pattern(g.0)[py - g.2], px - g.1)
}

/// Whether some glyph sets pixel `(px, py)`.
pub open spec fn dark(gs: Seq<(char, int, int)>, px: int, py: int) -> bool {
    exists|k: int| 0 <= k < gs.len() && lights(#[trigger] gs[k], px, py)
}

/// The column of the pixel that byte `i` of the canvas belongs to.
pub open spec fn pixel_x(i: int) -> int {
    (i / 3) % 800
}

/// The row of the pixel that byte `i` of the canvas belongs to.
pub open spec fn pixel_y(i: int) -> int {
    (i / 3) / 800
}

/// The canvas after drawing glyphs: RGB bytes, row after row, each pixel
/// (51, 51, 51) where a glyph sets it and white elsewhere.
pub open spec fn canvas(gs: Seq<(char, int, int)>) -> Seq<u8> {
    Seq::new(
        canvas_len() as nat,
        |i: int|
            if dark(gs, pixel_x(i), pixel_y(i)) {
                51u8
            } else {
                255u8
            },
    )
}

proof fn lemma_pixel_index(i: int, px: int, py: int)
    requires
        0 <= i < canvas_len(),
        0 <= px < 800,
        0 <= py < 600,
    ensures
        (pixel_x(i) == px && pixel_y(i) == py) <==> (3 * (800 * py + px) <= i < 3 * (800 * py
            + px) + 3),
{
}

proof fn lemma_pixel_range(i: int)
    requires
        0 <= i < canvas_len(),
    ensures
        0 <= pixel_x(i) < 800,
        0 <= pixel_y(i) < 600,
{
}

/// Glyph pixels drawn so far: rows before `row`, and in row `row` the
/// columns before `col`.
pub open spec fn drawn(g: (char, int, int), row: int, col: int, px: int, py: int) -> bool {
    lights(g, px, py) && ((py - g.2) < row || ((py - g.2) == row && (px - g.1) < col))
}

fn draw_char(img: &mut Vec<u8>, c: char, x: i32, y: i32)
    requires
        old(img)@.len() == canvas_len(),
        -8 <= x < 800,
        -8 <= y < 0x7FFF_FFF0,
    ensures
        final(img)@.len() == canvas_len(),
        forall|i: int|
            0 <= i < canvas_len() ==> #[trigger] final(img)@[i] == if lights(
                (c, x as int, y as int),
                pixel_x(i),
                pixel_y(i),
            ) {
                51u8
            } else {
                old(img)@[i]
            },
{
    let ghost g = (c, x as int, y as int);
    let pattern = get_char_pattern(c);
    let mut row: usize = 0;
    while row < 8
        invariant
            row <= 8,
            g == (c, x as int, y as int),
            pattern@ == char_pattern(c),
            img@.len() == canvas_len(),
            -8 <= x < 800,
            -8 <= y < 0x7FFF_FFF0,
            forall|i: int|
                0 <= i < canvas_len() ==> #[trigger] img@[i] == if drawn(
                    g,
                    row as int,
                    0,
                    pixel_x(i),
                    pixel_y(i),
                ) {
                    51u8
                } else {
                    old(img)@[i]
                },
        decreases 8 - row,
    {
        let bits = pattern[row];
        let mut col: u8 = 0;
        while col < 8
            invariant
                row < 8,
                col <= 8,
                g == (c, x as int, y as int),
                bits == char_pattern(c)[row as int],
                img@.len() == canvas_len(),
                -8 <= x < 800,
                -8 <= y < 0x7FFF_FFF0,
                forall|i: int|
                    0 <= i < canvas_len() ==> #[trigger] img@[i] == if drawn(
                        g,
                        row as int,
                        col as int,
                        pixel_x(i),
                        pixel_y(i),
                    ) {
                        51u8
                    } else {
                        old(img)@[i]
                    },
            decreases 8 - col,
        {
            let px: i32 = x + col as i32;
            let py: i32 = y + row as i32;
            let on = bits & (0x80u8 >> col) != 0;
            assert(on == bit_on(bits, col as int));
            if on && 0 <= px && px < 800 && 0 <= py && py < 600 {
                let idx: usize = ((py as usize) * 800 + (px as usize)) * 3;
                let ghost before = img@;
                img.set(idx, 51);
                img.set(idx + 1, 51);
                img.set(idx + 2, 51);
                proof {
                    assert forall|i: int| 0 <= i < canvas_len() implies #[trigger] img@[i] == if drawn(
                        g,
                        row as int,
                        col + 1,
                        pixel_x(i),
                        pixel_y(i),
                    ) {
                        51u8
                    } else {
                        old(img)@[i]
                    } by {
                        lemma_pixel_index(i, px as int, py as int);
                        lemma_pixel_range(i);
                        if pixel_x(i) == px && pixel_y(i) == py {
                            assert(pixel_x(i) - x == col as int);
                            assert(pixel_y(i) - y == row as int);
                            assert(char_pattern(c)[pixel_y(i) - y] == bits);
                            assert(bit_on(char_pattern(c)[pixel_y(i) - y], pixel_x(i) - x));
                            assert(g.0 == c && g.1 == x && g.2 == y);
                            assert(lights(g, pixel_x(i), pixel_y(i)));
                            assert(drawn(g, row as int, col + 1, pixel_x(i), pixel_y(i)));
                        } else {
                            assert(img@[i] == before[i]);
                            assert(drawn(g, row as int, col + 1, pixel_x(i), pixel_y(i)) == drawn(
                                g,
                                row as int,
                                col as int,
                                pixel_x(i),
                                pixel_y(i),
                            ));
                        }
                    }
                }
            } else {
                proof {
                    assert forall|i: int| 0 <= i < canvas_len() implies #[trigger] img@[i] == if drawn(
                        g,
                        row as int,
                        col + 1,
                        pixel_x(i),
                        pixel_y(i),
                    ) {
                        51u8
                    } else {
                        old(img)@[i]
                    } by {
                        lemma_pixel_range(i);
                        assert(g.0 == c && g.1 == x && g.2 == y);
                        if pixel_x(i) - x == col as int && pixel_y(i) - y == row as int {
                            assert(char_pattern(c)[pixel_y(i) - y] == bits);
                            if on {
                                assert(0 <= px < 800 && 0 <= py < 600);
                            }
                            assert(!bit_on(bits, col as int));
                            assert(!lights(g, pixel_x(i), pixel_y(i)));
                        }
                        assert(drawn(g, row as int, col + 1, pixel_x(i), pixel_y(i)) == drawn(
                            g,
                            row as int,
                            col as int,
                            pixel_x(i),
                            pixel_y(i),
                        ));
                    }
                }
            }
            col = col + 1;
        }
        proof {
            assert forall|i: int| 0 <= i < canvas_len() implies #[trigger] img@[i] == if drawn(
                g,
                row + 1,
                0,
                pixel_x(i),
                pixel_y(i),
            ) {
                51u8
            } else {
                old(img)@[i]
            } by {
                assert(drawn(g, row + 1, 0, pixel_x(i), pixel_y(i)) == drawn(
                    g,
                    row as int,
                    8,
                    pixel_x(i),
                    pixel_y(i),
                ));
            }
        }
        row = row + 1;
    }
    proof {
        assert forall|i: int| 0 <= i < canvas_len() implies #[trigger] img@[i] == if lights(
            g,
            pixel_x(i),
            pixel_y(i),
        ) {
            51u8
        } else {
            old(img)@[i]
        } by {
            assert(drawn(g, 8, 0, pixel_x(i), pixel_y(i)) == lights(g, pixel_x(i), pixel_y(i)));
        }
    }
}

proof fn lemma_dark_push(gs: Seq<(char, int, int)>, g: (char, int, int), px: int, py: int)
    ensures
        dark(gs.push(g), px, py) == (dark(gs, px, py) || lights(g, px, py)),
{
    let gp = gs.push(g);
    if dark(gp, px, py) {
        let k = choose|k: int| 0 <= k < gp.len() && lights(#[trigger] gp[k], px, py);
        if k < gs.len() {
            assert(gp[k] == gs[k]);
            assert(lights(gs[k], px, py));
        }
    }
    if dark(gs, px, py) {
        let k = choose|k: int| 0 <= k < gs.len() && lights(#[trigger] gs[k], px, py);
        assert(gp[k] == gs[k]);
        assert(lights(gp[k], px, py));
    }
    if lights(g, px, py) {
        assert(gp[gs.len() as int] == g);
    }
}

/// The canvas with the glyphs drawn on it, as RGB bytes row after row.
pub fn draw_glyphs(gs: &Vec<(char, i32, i32)>) -> (r: Vec<u8>)
    requires
        all_ok(gs@),
    ensures
        r@ == canvas(glyphs_view(gs@)),
{
    let mut img: Vec<u8> = Vec::new();
    let mut n: usize = 0;
    while n < 1_440_000
        invariant
            n <= 1_440_000,
            img@.len() == n,
            forall|i: int| 0 <= i < n ==> #[trigger] img@[i] == 255u8,
        decreases 1_440_000 - n,
    {
        img.push(255u8);
        n = n + 1;
    }
    let ghost gv = glyphs_view(gs@);
    assert(img@ =~= canvas(gv.take(0)));
    let mut k: usize = 0;
    while k < gs.len()
        invariant
            k <= gs@.len(),
            gv == glyphs_view(gs@),
            all_ok(gs@),
            img@ == canvas(gv.take(k as int)),
        decreases gs.len() - k,
    {
        let (c, x, y) = gs[k];
        assert(glyph_ok(gs@[k as int]));
        let ghost before = img@;
        draw_char(&mut img, c, x, y);
        proof {
            assert(gv.take(k + 1) =~= gv.take(k as int).push(gv[k as int]));
            assert(gv[k as int] == (c, x as int, y as int));
            assert forall|i: int| 0 <= i < canvas_len() implies #[trigger] img@[i] == canvas(
                gv.take(k + 1),
            )[i] by {
                lemma_dark_push(gv.take(k as int), gv[k as int], pixel_x(i), pixel_y(i));
            }
            assert(img@ =~= canvas(gv.take(k + 1)));
        }
        k = k + 1;
    }
    assert(gv.take(k as int) =~= gv);
    img
}

/// The canvas of a document.
pub fn image_pixels(doc: &Document) -> (r: Vec<u8>)
    requires
        page_drawable(doc.blocks_view(), 40),
    ensures
        r@ == canvas(page_glyphs(doc.blocks_view(), 40)),
{
    let gs = glyphs_of(doc);
    draw_glyphs(&gs)
}

/// The bytes the `image` crate encodes for an 800 by 600 RGB canvas in the
/// format the path's extension names, or nothing when it names none or
/// encoding fails.
pub uninterp spec fn image_encoded(pixels: Seq<u8>, path: Seq<char>) -> Option<Seq<u8>>;

/// Encodes the canvas with `image::RgbImage::write_to` in the format that
/// `image::ImageFormat::from_path` gives for the path. The result is named
/// `image_encoded`.
#[verifier::external_body]
fn encode_image(pixels: &Vec<u8>, path: &str) -> (r: Option<Vec<u8>>)
    ensures
        match r {
            Some(b) => image_encoded(pixels@, path@) == Some(b@),
            None => image_encoded(pixels@, path@) is None,
        },
{
    let img = image::RgbImage::from_raw(800, 600, pixels.clone())?;
    let format = image::ImageFormat::from_path(path).ok()?;
    let mut out = std::io::Cursor::new(Vec::new());
    img.write_to(&mut out, format).ok()?;
    Some(out.into_inner())
}

/// The image output of a document, encoded for the path it is written to, or
/// the image error when encoding fails.
pub fn render_image_bytes(doc: &Document, path: &str) -> (r: Result<Vec<u8>, crate::error::FlipError>)
    requires
        page_drawable(doc.blocks_view(), 40),
    ensures
        match image_encoded(canvas(page_glyphs(doc.blocks_view(), 40)), path@) {
            Some(b) => r matches Ok(x) && x@ == b,
            None => r == Err::<Vec<u8>, crate::error::FlipError>(crate::error::FlipError::Image),
        },
{
    let pixels = image_pixels(doc);
    match encode_image(&pixels, path) {
        Some(b) => Ok(b),
        None => Err(crate::error::FlipError::Image),
    }
}

} // verus!
