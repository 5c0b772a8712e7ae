use printpdf::{BuiltinFont, Mm, Op, PdfDocument, PdfFontHandle, PdfPage, PdfSaveOptions, Point, Pt, TextItem};
use flip::error::FlipError;
use flip::ir::{Block, Format, Inline};
use flip::parse::data::{parse_csv_str, parse_json_str, parse_yaml_str};
use flip::parse::file::parse_file;
use flip::parse::html::parse_html_str;
use flip::parse::markdown::{document_from_markdown_events, parse_markdown_str, MdEvent};
use flip::parse::media::{parse_image_bytes, parse_pdf_bytes, pdf_document};
use flip::parse::plain::{parse_rtf_str, parse_svg_str, parse_text_str};

fn text(s: &str) -> Inline {
    Inline::Text(s.to_string())
}

fn para(s: &str) -> Block {
    Block::Paragraph(vec![text(s)])
}

#[test]
fn test_basic_html() {
    let html = "<html><body><h1>Title</h1><p>Hello world</p></body></html>";
    let doc = parse_html_str(html).unwrap();
    assert!(!doc.blocks.is_empty());
}

#[test]
fn html_headings_and_paragraphs() {
    let doc = parse_html_str("<html><body><h1>Title</h1><p>Hello   world</p></body></html>").unwrap();
    assert_eq!(doc.blocks[0], Block::Heading { level: 1, content: vec![text("Title")] });
    assert!(doc.blocks.contains(&para("Hello world")));
    assert_eq!(doc.metadata.source_format.as_deref(), Some("html"));
}

#[test]
fn text_reader_trims_and_skips_blank_lines() {
    let doc = parse_text_str("  first line \n\n\r\nsecond\r\n").unwrap();
    assert_eq!(doc.blocks, vec![para("first line"), para("second")]);
    assert_eq!(doc.metadata.source_format.as_deref(), Some("text"));
}

#[test]
fn svg_reader_without_text_keeps_source() {
    let src = "<svg><rect/></svg>";
    let doc = parse_svg_str(src).unwrap();
    assert_eq!(doc.blocks.len(), 2);
    assert_eq!(doc.blocks[0], para("SVG Document"));
    assert_eq!(
        doc.blocks[1],
        Block::Code { language: Some("svg".to_string()), content: src.to_string() }
    );
}

#[test]
fn rtf_reader_drops_control_words() {
    let doc = parse_rtf_str("{\\rtf1\\ansi Hello \\b bold\\b0 text}").unwrap();
    assert_eq!(doc.blocks, vec![para("Hello bold text")]);
}

#[test]
fn rtf_reader_placeholder_when_empty() {
    let doc = parse_rtf_str("{\\rtf1}").unwrap();
    assert_eq!(doc.blocks, vec![para("(RTF content extracted as plain text)")]);
}

#[test]
fn markdown_paragraph_and_emphasis() {
    let doc = parse_markdown_str("Hello *world*\n").unwrap();
    assert_eq!(
        doc.blocks,
        vec![Block::Paragraph(vec![
            text("Hello "),
            text(""),
            text(""),
            Inline::Italic(vec![text("world")]),
        ])]
    );
    assert_eq!(doc.metadata.source_format.as_deref(), Some("markdown"));
}

#[test]
fn markdown_heading_gets_one_empty_text() {
    let doc = parse_markdown_str("# Title\n\nBody\n").unwrap();
    assert_eq!(
        doc.blocks,
        vec![Block::Heading { level: 1, content: vec![text("")] }, para("Body")]
    );
    let doc = parse_markdown_str("Intro\n## Second *part*\n").unwrap();
    assert_eq!(
        doc.blocks,
        vec![para("Intro"), Block::Heading { level: 2, content: vec![text("")] }]
    );
}

#[test]
fn markdown_lists_code_and_rule() {
    let doc = parse_markdown_str("1. one\n2. two\n\n```rust\nfn f() {}\n```\n\n---\n").unwrap();
    assert_eq!(
        doc.blocks,
        vec![
            Block::List { ordered: true, items: vec![vec![text("one")], vec![text("two")]] },
            Block::Code { language: Some("rust".to_string()), content: "fn f() {}\n".to_string() },
            Block::HorizontalRule,
        ]
    );
}

#[test]
fn markdown_table() {
    let doc = parse_markdown_str("| a | b |\n|---|---|\n| 1 | 2 |\n").unwrap();
    assert_eq!(
        doc.blocks,
        vec![Block::Table {
            headers: vec![vec![vec![text("a")], vec![text("b")]]],
            rows: vec![vec![vec![text("1")], vec![text("2")]]],
        }]
    );
}

#[test]
fn markdown_events_fold() {
    let events = vec![
        MdEvent::Start("Paragraph".to_string()),
        MdEvent::Text("a".to_string()),
        MdEvent::Other("SoftBreak".to_string()),
        MdEvent::Text("b".to_string()),
        MdEvent::Other("End(Paragraph)".to_string()),
        MdEvent::Other("Rule".to_string()),
        MdEvent::Text("tail".to_string()),
    ];
    let doc = document_from_markdown_events(&events);
    assert_eq!(
        doc.blocks,
        vec![
            Block::Paragraph(vec![text("a"), text(" "), text("b")]),
            Block::HorizontalRule,
            para("tail"),
        ]
    );
}

#[test]
fn markdown_only_text_events_make_one_paragraph() {
    let events = vec![MdEvent::Text("x".to_string()), MdEvent::Text("y".to_string())];
    let doc = document_from_markdown_events(&events);
    assert_eq!(doc.blocks, vec![Block::Paragraph(vec![text("x"), text("y")])]);
    let empty = document_from_markdown_events(&Vec::new());
    assert!(empty.blocks.is_empty());
}

#[test]
fn csv_reader_builds_a_table() {
    let doc = parse_csv_str("name,age\nann,30\nbob,41\n").unwrap();
    assert_eq!(
        doc.blocks,
        vec![Block::Table {
            headers: vec![vec![vec![text("name")], vec![text("age")]]],
            rows: vec![
                vec![vec![text("ann")], vec![text("30")]],
                vec![vec![text("bob")], vec![text("41")]],
            ],
        }]
    );
}

#[test]
fn csv_reader_empty_input_has_no_table() {
    let doc = parse_csv_str("").unwrap();
    assert!(doc.blocks.is_empty());
}

#[test]
fn csv_reader_rejects_ragged_rows() {
    assert_eq!(parse_csv_str("a,b\n1,2,3\n").unwrap_err(), FlipError::Csv);
}

#[test]
fn json_reader_pretty_lines() {
    let doc = parse_json_str("{\"a\": [1, 2]}").unwrap();
    assert_eq!(
        doc.blocks,
        vec![para("{"), para("\"a\": ["), para("1,"), para("2"), para("]"), para("}")]
    );
}

#[test]
fn json_reader_rejects_bad_json() {
    assert_eq!(parse_json_str("{oops").unwrap_err(), FlipError::Json);
}

#[test]
fn yaml_reader_lines() {
    let doc = parse_yaml_str("a: 1\nb:\n  - x\n").unwrap();
    assert_eq!(doc.blocks, vec![para("a: 1"), para("b:"), para("- x")]);
    assert_eq!(parse_yaml_str("a: [").unwrap_err(), FlipError::Yaml);
}

#[test]
fn pdf_document_from_pages() {
    let doc = pdf_document(Some(2), &vec![Some(" one \n\ntwo".to_string()), None]);
    assert_eq!(doc.blocks, vec![para("one"), para("two")]);
    assert_eq!(doc.metadata.page_count, Some(2));
    let empty = pdf_document(None, &Vec::new());
    assert_eq!(empty.blocks, vec![para("(No text content could be extracted from this PDF)")]);
    assert_eq!(empty.metadata.page_count, Some(0));
}

#[test]
fn pdf_reader_rejects_garbage() {
    assert_eq!(parse_pdf_bytes(b"not a pdf").unwrap_err(), FlipError::Pdf);
}

#[test]
fn image_reader_rejects_garbage() {
    assert_eq!(parse_image_bytes(b"xx", "pic.png").unwrap_err(), FlipError::Image);
}

#[test]
fn parse_file_dispatch() {
    assert_eq!(
        parse_file("a.tex", b"x".to_vec(), Format::Latex).unwrap_err(),
        FlipError::UnsupportedInput(Format::Latex)
    );
    assert_eq!(
        parse_file("a.txt", vec![0xff, 0xfe], Format::Text).unwrap_err(),
        FlipError::InvalidUtf8
    );
    let doc = parse_file("a.txt", b"hi\n".to_vec(), Format::Text).unwrap();
    assert_eq!(doc.blocks, vec![para("hi")]);
    assert_eq!(
        parse_file("a.docx", b"nope".to_vec(), Format::Docx).unwrap_err(),
        FlipError::Archive
    );
}

fn zip_of(parts: &[(&str, &str)]) -> Vec<u8> {
    let mut w = zip::ZipWriter::new(std::io::Cursor::new(Vec::new()));
    for (name, text) in parts {
        w.start_file(*name, zip::write::SimpleFileOptions::default()).unwrap();
        std::io::Write::write_all(&mut w, text.as_bytes()).unwrap();
    }
    w.finish().unwrap().into_inner()
}

#[test]
fn epub_chapters_read_in_name_order() {
    let bytes = zip_of(&[
        ("text/b.xhtml", "<html><body><p>second</p></body></html>"),
        ("mimetype", "application/epub+zip"),
        ("text/a.xhtml", "<html><body><p>first</p></body></html>"),
    ]);
    let doc = parse_file("book.epub", bytes, Format::Epub).unwrap();
    assert_eq!(doc.plain_text(), "first\nsecond\n");
}

#[test]
fn pptx_slides_read_in_name_order() {
    // names sort as text: slide10 before slide2
    let bytes = zip_of(&[
        ("ppt/slides/slide2.xml", "<p:sld><a:t>two</a:t></p:sld>"),
        ("ppt/slides/slide10.xml", "<p:sld><a:t>ten</a:t></p:sld>"),
    ]);
    let doc = parse_file("deck.pptx", bytes, Format::Pptx).unwrap();
    let t = doc.plain_text();
    assert!(t.find("ten").unwrap() < t.find("two").unwrap());
}

fn one_page_pdf(text: &str) -> Vec<u8> {
    let mut doc = PdfDocument::new("t");
    let ops = vec![
        Op::StartTextSection,
        Op::SetTextCursor { pos: Point { x: Mm(20.0).into(), y: Mm(270.0).into() } },
        Op::SetFont { font: PdfFontHandle::Builtin(BuiltinFont::Helvetica), size: Pt(12.0) },
        Op::ShowText { items: vec![TextItem::Text(text.to_string())] },
        Op::EndTextSection,
    ];
    doc.with_pages(vec![PdfPage::new(Mm(210.0), Mm(297.0), ops)]);
    let mut warnings = Vec::new();
    doc.save(&PdfSaveOptions::default(), &mut warnings)
}

#[test]
fn pdf_reader_reads_page_text() {
    let doc = parse_pdf_bytes(&one_page_pdf("Hello pages")).unwrap();
    assert_eq!(doc.metadata.page_count, Some(1));
    assert!(doc.plain_text().contains("Hello"));
}
