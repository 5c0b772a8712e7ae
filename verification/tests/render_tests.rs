use flip::error::FlipError;
use flip::ir::{Block, Document, Format, Inline};
use flip::render::csv::render_csv_bytes;
use flip::render::data::{document_to_json, render_json_bytes, render_yaml_bytes};
use flip::render::html::{html_text, push_escaped_html};
use flip::render::latex::latex_output;
use flip::render::markdown::markdown_output;
use flip::render::office::{epub_chapter_html, ods_content_xml, odt_content_xml, pptx_parts_of, slide_texts_of};
use flip::render::output::{render_bytes, render_file};
use flip::render::pdf_text::{
    flatten_inlines, sanitize, segments_to_plain, split_segs_to_lines, wrap_plain, PdfFont, StyledSegment,
};
use flip::render::raster::{get_char_pattern, glyphs_of, image_pixels, truncate};
use flip::render::sheet::{col_to_letter, sheet_cells_of};
use flip::render::svg::svg_output;
use flip::render::text::text_output;
use flip::render::word::word_blocks_of;

fn text(s: &str) -> Inline {
    Inline::Text(s.to_string())
}

fn sample() -> Document {
    let mut d = Document::new();
    d.metadata.title = Some("T&C".to_string());
    d.push_block(Block::Heading { level: 2, content: vec![text("Intro")] });
    d.push_block(Block::Paragraph(vec![text("a<b "), Inline::Bold(vec![text("bold")])]));
    d.push_block(Block::List { ordered: true, items: vec![vec![text("x")], vec![text("y")]] });
    d
}

#[test]
fn html_escapes_and_structure() {
    let mut s = String::new();
    push_escaped_html(&mut s, "<a href=\"x\">'&'</a>");
    assert_eq!(s, "&lt;a href=&quot;x&quot;&gt;&#39;&amp;&#39;&lt;/a&gt;");
    let html = html_text(&sample(), "");
    assert!(html.starts_with("<!DOCTYPE html>\n<html lang=\"en\">\n<head>\n"));
    assert!(html.contains("<title>T&amp;C</title>\n"));
    assert!(html.contains("<h2>Intro</h2>\n<p>a&lt;b <strong>bold</strong></p>\n<ol>\n<li>x</li>\n<li>y</li>\n</ol>\n"));
    assert!(html.ends_with("</main>\n</body>\n</html>"));
}

#[test]
fn text_output_layout() {
    let out = text_output(&sample());
    assert_eq!(out, "T&C\n===\n\n## Intro\n\na<b bold\n\n1. x\n2. y\n\n");
}

#[test]
fn text_title_underline_counts_bytes() {
    let mut d = Document::new();
    d.metadata.title = Some("é".to_string());
    assert_eq!(text_output(&d), "é\n==\n\n");
}

#[test]
fn markdown_output_layout() {
    let mut d = sample();
    d.push_block(Block::Table {
        headers: vec![vec![vec![text("h1")], vec![text("h2")]]],
        rows: vec![vec![vec![text("1")], vec![text("2")]]],
    });
    let out = markdown_output(&d);
    assert_eq!(
        out,
        "# T&C\n\n## Intro\n\na<b **bold**\n\n1. x\n2. y\n\n|h1|h2|\n|---|---||\n|1|2|\n\n"
    );
}

#[test]
fn latex_output_escapes() {
    let mut d = Document::new();
    d.push_block(Block::Paragraph(vec![text("50% of $x_1 & {y} \\ ~^#")]));
    let out = latex_output(&d);
    assert!(out.contains("50\\% of \\$x\\_1 \\& \\{y\\} \\textbackslash\\{\\} \\~{}\\^{}\\#\n\n"));
    assert!(out.starts_with("\\documentclass[12pt]{article}\n"));
    assert!(out.ends_with("\\end{document}\n"));
}

#[test]
fn svg_output_layout() {
    let mut d = Document::new();
    d.push_block(Block::Heading { level: 1, content: vec![text("H")] });
    d.push_block(Block::Paragraph(vec![text("p&q")]));
    let out = svg_output(&d);
    assert!(out.contains("<text x=\"20\" y=\"40\" font-family=\"sans-serif\" font-size=\"24\" font-weight=\"bold\" fill=\"#000\">H</text>\n"));
    assert!(out.contains("<text x=\"20\" y=\"76\" font-family=\"sans-serif\" font-size=\"14\" fill=\"#333\">p&amp;q</text>\n"));
    assert!(out.ends_with("</svg>"));
}

#[test]
fn json_output_sorted_pretty() {
    let mut d = Document::new();
    d.push_block(Block::HorizontalRule);
    let bytes = render_json_bytes(&d).unwrap();
    let s = String::from_utf8(bytes).unwrap();
    assert!(s.contains("\"type\": \"horizontal_rule\""));
    assert!(s.contains("\"title\": null"));
    let v = document_to_json(&d);
    assert!(matches!(v, flip::render::data::DataValue::Object(_)));
}

#[test]
fn yaml_output_blocks() {
    let mut d = Document::new();
    d.push_block(Block::Code { language: Some("rs".to_string()), content: "x".to_string() });
    d.push_block(Block::HorizontalRule);
    let s = String::from_utf8(render_yaml_bytes(&d).unwrap()).unwrap();
    assert!(s.contains("type: code"));
    assert!(s.contains("language: rs"));
    assert!(!s.contains("horizontal"));
}

#[test]
fn csv_output_records() {
    let mut d = Document::new();
    d.push_block(Block::Table {
        headers: vec![vec![vec![text("a")], vec![text("b,c")]]],
        rows: vec![vec![vec![text("1")], vec![text("2")]]],
    });
    d.push_block(Block::Paragraph(vec![text("   ")]));
    d.push_block(Block::Paragraph(vec![text("note")]));
    let s = String::from_utf8(render_csv_bytes(&d).unwrap()).unwrap();
    assert_eq!(s, "a,\"b,c\"\n1,2\nnote\n");
}

#[test]
fn render_bytes_dispatch() {
    let d = sample();
    assert_eq!(render_bytes(&d, Format::Text).unwrap(), text_output(&d).into_bytes());
    assert_eq!(render_bytes(&d, Format::Pdf).unwrap_err(), FlipError::UnsupportedOutput(Format::Pdf));
    assert_eq!(
        render_file(&d, "out.rtf", Format::Rtf).unwrap_err(),
        FlipError::UnsupportedOutput(Format::Rtf)
    );
    assert!(render_bytes(&d, Format::Docx).unwrap().starts_with(b"PK"));
    assert!(render_file(&d, "out.pptx", Format::Pptx).unwrap().starts_with(b"PK"));
    assert!(render_file(&d, "out.odt", Format::Odt).unwrap().starts_with(b"PK"));
    assert!(render_file(&d, "out.xlsx", Format::Xlsx).unwrap().starts_with(b"PK"));
    assert!(render_file(&d, "out.epub", Format::Epub).unwrap().starts_with(b"PK"));
    let png = render_file(&d, "out.png", Format::Png).unwrap();
    assert_eq!(&png[1..4], b"PNG");
}

#[test]
fn odt_and_ods_content() {
    let d = sample();
    let odt = odt_content_xml(&d);
    assert!(odt.contains("<text:heading text:outline-level=\"2\">Intro</text:heading>\n<text:p>a&lt;b bold</text:p>\n</office:text>"));
    let ods = ods_content_xml(&d);
    assert!(ods.contains("<table:table table:name=\"Sheet1\"><table:table-row>\n<table:table-cell><text:p>Intro</text:p></table:table-cell>\n</table:table-row></table:table>\n"));
}

#[test]
fn pptx_slides() {
    let d = sample();
    let texts = slide_texts_of(&d);
    assert_eq!(texts, vec!["Intro".to_string(), "a<b bold".to_string(), "\u{2022} x\n\u{2022} y".to_string()]);
    let parts = pptx_parts_of(&d);
    assert_eq!(parts.len(), 3 + 2 * 3 + 1);
    assert_eq!(parts[3].0, "ppt/slides/slide1.xml");
    assert!(parts[5].1.contains("<a:t>a&lt;b bold</a:t>"));
    assert!(parts[9].1.contains("Target=\"slides/slide3.xml\""));
    let empty = pptx_parts_of(&Document::new());
    assert!(empty[3].1.contains("<a:t>flip output</a:t>"));
    assert!(!empty[5].1.contains("Relationship Id"));
}

#[test]
fn epub_chapter() {
    let out = epub_chapter_html(&sample());
    assert_eq!(out, "<html><body>\n<h2>Intro</h2>\n<p>a<b bold</p>\n<ul>\n<li>x</li>\n<li>y</li>\n</ul>\n</body></html>");
}

#[test]
fn excel_cells_and_columns() {
    assert_eq!(col_to_letter(1), "A");
    assert_eq!(col_to_letter(26), "Z");
    assert_eq!(col_to_letter(27), "AA");
    assert_eq!(col_to_letter(703), "AAA");
    let mut d = Document::new();
    d.push_block(Block::Paragraph(vec![text("top")]));
    d.push_block(Block::Table {
        headers: vec![vec![vec![text("h")], vec![text("i")]]],
        rows: vec![vec![vec![text("1")], vec![text("2")]]],
    });
    let cells = sheet_cells_of(&d);
    let expected: Vec<(String, String)> = vec![
        ("A1", "top"), ("A2", "h"), ("B2", "i"), ("A3", "1"), ("B3", "2"),
    ]
    .into_iter()
    .map(|(a, b)| (a.to_string(), b.to_string()))
    .collect();
    assert_eq!(cells, expected);
}

#[test]
fn word_model() {
    let blocks = word_blocks_of(&sample());
    assert_eq!(blocks.len(), 4);
}

#[test]
fn pdf_text_helpers() {
    assert_eq!(sanitize("a\u{2014}b \u{201C}q\u{201D} \u{2026} \u{4e2d} é"), "a--b \"q\" ... ? é");
    let segs = flatten_inlines(&vec![text("plain "), Inline::Bold(vec![text("b")]), Inline::Code("c".to_string()), text("")]);
    assert_eq!(segs.len(), 3);
    assert!(segs[1].font == PdfFont::HelveticaBold);
    assert!(segs[2].font == PdfFont::Courier);
    assert_eq!(segments_to_plain(&segs), "plain bc");
}

#[test]
fn raster_truncate_and_glyphs() {
    let long: Vec<char> = "x".repeat(95).chars().collect();
    let t = truncate(&long, 90);
    assert_eq!(t.len(), 93);
    assert_eq!(&t[90..], &['.', '.', '.']);
    let accented: Vec<char> = "h\u{e9}llo".chars().collect();
    assert_eq!(truncate(&accented, 3), vec!['h', '\u{e9}', '.', '.', '.']);
    assert_eq!(truncate(&accented, 6), accented);
    assert_eq!(get_char_pattern('-'), [0x00, 0x00, 0x00, 0x7E, 0x00, 0x00, 0x00, 0x00]);
    let mut d = Document::new();
    d.push_block(Block::Paragraph(vec![text("ab")]));
    let g = glyphs_of(&d);
    assert_eq!(g, vec![('a', 20, 40), ('b', 28, 40)]);
    let px = image_pixels(&d);
    assert_eq!(px.len(), 800 * 600 * 3);
    // row 0 of 'a' is 0x3C: columns 2..6 are set, column 0 is not
    let at = |x: usize, y: usize| px[(y * 800 + x) * 3];
    assert_eq!(at(22, 40), 51);
    assert_eq!(at(20, 40), 255);
    assert_eq!(at(0, 0), 255);
}

#[test]
fn pdf_wrap_plain_lines() {
    assert_eq!(wrap_plain("", 10), Some(vec![String::new()]));
    assert_eq!(
        wrap_plain("hello world foo", 11),
        Some(vec!["hello".to_string(), "world foo".to_string()])
    );
    assert_eq!(wrap_plain("abcdefghij", 4), Some(vec!["abcd".to_string(), "efgh".to_string(), "ij".to_string()]));
    assert_eq!(wrap_plain("a\n  \nb", 5), Some(vec!["a".to_string(), String::new(), "b".to_string()]));
    // a cut after one byte of a two-byte character
    assert_eq!(wrap_plain("\u{e9}\u{e9}", 1), None);
}

fn run(t: &str, font: PdfFont) -> StyledSegment {
    StyledSegment { text: t.to_string(), font }
}

#[test]
fn pdf_split_segments_to_lines() {
    let segs = vec![run("Hello ", PdfFont::Helvetica), run("World", PdfFont::HelveticaBold)];
    let lines = vec!["Hello".to_string(), "World".to_string()];
    let out = split_segs_to_lines(&segs, &lines).unwrap();
    assert_eq!(out.len(), 2);
    assert_eq!(out[0].len(), 1);
    assert_eq!(out[0][0].text, "Hello");
    assert!(out[0][0].font == PdfFont::Helvetica);
    // the trimmed space shifts the second line by one byte
    assert_eq!(out[1].len(), 2);
    assert_eq!(out[1][0].text, " ");
    assert_eq!(out[1][1].text, "Worl");
    assert!(out[1][1].font == PdfFont::HelveticaBold);
    // lines stop once one reaches the end of the text
    let more = vec!["Hello World".to_string(), "x".to_string()];
    assert_eq!(split_segs_to_lines(&segs, &more).unwrap().len(), 1);
    // a cut inside a two-byte character
    let wide = vec![run("\u{e9}", PdfFont::Helvetica)];
    assert!(split_segs_to_lines(&wide, &vec!["x".to_string()]).is_none());
}

#[test]
fn column_names_are_distinct() {
    let mut seen = std::collections::HashSet::new();
    for c in 1..=2000u32 {
        let name = col_to_letter(c);
        assert!(!name.is_empty());
        assert!(name.chars().all(|ch| ch.is_ascii_uppercase()));
        assert!(seen.insert(name));
    }
    assert_eq!(col_to_letter(52), "AZ");
    assert_eq!(col_to_letter(53), "BA");
    assert_eq!(col_to_letter(702), "ZZ");
}

#[test]
fn wrapped_lines_fit_their_width() {
    let text = "The quick brown fox jumps over the lazy dog\nand keeps running far away";
    for max in 1..30usize {
        let lines = wrap_plain(text, max).unwrap();
        assert!(lines.iter().all(|l| l.len() <= max));
    }
    let lines = wrap_plain(text, 10).unwrap();
    assert_eq!(lines[0], "The quick");
    assert_eq!(lines[1], "brown fox");
}

#[test]
fn csv_read_then_written_keeps_records() {
    let doc = flip::parse::data::parse_csv_str("name,age\nann,30\nbob,\"41, sr\"\n").unwrap();
    let records = flip::render::csv::csv_records_of(&doc);
    let expected: Vec<Vec<String>> = vec![vec!["name", "age"], vec!["ann", "30"], vec!["bob", "41, sr"]]
        .into_iter()
        .map(|r| r.into_iter().map(|c| c.to_string()).collect())
        .collect();
    assert_eq!(records, expected);
    let bytes = render_csv_bytes(&doc).unwrap();
    assert_eq!(String::from_utf8(bytes).unwrap(), "name,age\nann,30\nbob,\"41, sr\"\n");
}

#[test]
fn latex_specials_follow_backslash() {
    let mut d = Document::new();
    d.push_block(Block::Paragraph(vec![text("#$%&_^~ a_b 100% #1")]));
    let out = latex_output(&d);
    let line: Vec<char> = out.lines().find(|l| l.contains("100")).unwrap().chars().collect();
    for (i, c) in line.iter().enumerate() {
        if "#$%&_^~".contains(*c) {
            assert!(i > 0 && line[i - 1] == '\\');
        }
    }
}
