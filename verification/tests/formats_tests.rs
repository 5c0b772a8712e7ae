use flip::cli::{choose_output_format, determine_output_path, format_label, matrix_label, matrix_supported, stdin_document, OutputPathError};
use flip::ir::{detect_format, Block, Document, Format, Inline, Metadata};

#[test]
fn extensions_name_their_format() {
    for f in Format::all() {
        assert_eq!(Format::parse_name(f.extension()), Ok(*f));
        let path = format!("file.{}", f.extension());
        assert_eq!(detect_format(&path), Some(*f));
    }
}

#[test]
fn all_formats_once() {
    let all = Format::all();
    assert_eq!(all.len(), 23);
    for (i, a) in all.iter().enumerate() {
        for b in &all[i + 1..] {
            assert_ne!(a, b);
        }
    }
}

#[test]
fn format_names_and_aliases() {
    assert_eq!(Format::parse_name("MD"), Ok(Format::Markdown));
    assert_eq!(Format::parse_name("tsv"), Ok(Format::Csv));
    assert_eq!(Format::parse_name("jpeg"), Ok(Format::Jpeg));
    assert_eq!(Format::parse_name("bogus"), Err("Unknown format: bogus".to_string()));
    assert_eq!(detect_format("notes.LOG"), Some(Format::Text));
    assert_eq!(detect_format("x.mkd"), Some(Format::Markdown));
    assert_eq!(detect_format("noext"), None);
    assert_eq!(Format::Docx.display_name(), "Word (DOCX)");
    assert!(Format::Png.is_image() && !Format::Png.is_office());
    assert!(Format::Odp.is_office() && !Format::Odp.is_image());
}

#[test]
fn output_paths() {
    assert_eq!(
        determine_output_path("dir/report.md", None, false, Some(Format::Html), Format::Markdown),
        Ok("dir/report.html".to_string())
    );
    assert_eq!(
        determine_output_path("dir/report.md", None, false, None, Format::Markdown),
        Ok("dir/report.converted.md".to_string())
    );
    assert_eq!(
        determine_output_path("a/in.csv", Some("out"), true, None, Format::Csv),
        Ok("out/in.csv".to_string())
    );
    assert_eq!(
        determine_output_path("a/in.csv", Some("x.json"), false, None, Format::Csv),
        Ok("x.json".to_string())
    );
    assert_eq!(
        determine_output_path("..", None, false, None, Format::Text),
        Err(OutputPathError::InvalidFilename)
    );
}

#[test]
fn matrix_and_labels() {
    assert_eq!(format_label(Format::Markdown), "Markdown");
    assert_eq!(matrix_label(Format::Markdown), "Mark");
    assert_eq!(matrix_label(Format::Pdf), "Pdf");
    assert!(matrix_supported(Format::Pdf, Format::Docx));
    assert!(!matrix_supported(Format::Pdf, Format::Pdf));
    assert_eq!(choose_output_format(None, "x.yml"), Format::Yaml);
    assert_eq!(choose_output_format(None, "x.unknown"), Format::Text);
    assert_eq!(choose_output_format(Some(Format::Pdf), "x.yml"), Format::Pdf);
}

#[test]
fn document_basics() {
    let mut d = Document::new();
    assert!(d.blocks.is_empty());
    d.push_text("hello");
    d.push_block(Block::heading(1, "Head"));
    assert_eq!(d.blocks[0], Block::Paragraph(vec![Inline::Text("hello".to_string())]));
    assert_eq!(d.plain_text(), "hello\nHead\n");
    let s = stdin_document("from stdin");
    assert_eq!(s.plain_text(), "from stdin\n");
    let m = Metadata::new();
    assert!(m.title.is_none() && m.custom.is_empty());
    assert_eq!(Block::code("x"), Block::Code { language: None, content: "x".to_string() });
    assert_eq!(
        Block::code_with_lang("rs", "x"),
        Block::Code { language: Some("rs".to_string()), content: "x".to_string() }
    );
}

#[test]
fn plain_text_of_blocks() {
    let mut d = Document::new();
    d.push_block(Block::List { ordered: false, items: vec![vec![Inline::Text("a".into())], vec![Inline::Bold(vec![Inline::Text("b".into())])]] });
    d.push_block(Block::Table { headers: vec![vec![vec![Inline::Text("h".into())]]], rows: vec![] });
    d.push_block(Block::HorizontalRule);
    assert_eq!(d.plain_text(), "1. a\n2. b\n\nh\t\n\n---\n");
    assert_eq!(Inline::Link { text: vec![Inline::Text("t".into())], url: "u".into() }.plain_text(), "t");
}

fn sample_doc() -> Document {
    let mut d = Document::new();
    d.push_block(Block::Heading { level: 1, content: vec![Inline::Text("Title here".to_string())] });
    d.push_text("First paragraph");
    d.push_text("Second paragraph");
    d
}

fn written_then_read(format: Format, path: &str) -> Document {
    let bytes = flip::render::output::render_file(&sample_doc(), path, format).unwrap();
    flip::parse::file::parse_file(path, bytes, format).unwrap()
}

#[test]
fn odt_written_then_read_keeps_text() {
    let t = written_then_read(Format::Odt, "out.odt").plain_text();
    assert!(t.contains("First paragraph"));
    assert!(t.contains("Second paragraph"));
}

#[test]
fn docx_written_then_read_keeps_text() {
    let bytes = flip::render::output::render_bytes(&sample_doc(), Format::Docx).unwrap();
    let t = flip::parse::file::parse_file("out.docx", bytes, Format::Docx).unwrap().plain_text();
    assert!(t.contains("Title here"));
    assert!(t.contains("First paragraph"));
    assert!(t.contains("Second paragraph"));
}

#[test]
fn pptx_written_then_read_keeps_text() {
    let t = written_then_read(Format::Pptx, "out.pptx").plain_text();
    assert!(t.contains("First paragraph"));
}

#[test]
fn xlsx_written_then_read_has_one_value_per_cell() {
    // the reader takes the `<v>` values of the sheet, which for text cells
    // are indices into the shared strings
    let d = written_then_read(Format::Xlsx, "out.xlsx");
    assert_eq!(d.blocks.len(), 3);
}

#[test]
fn epub_written_then_read_keeps_text() {
    let t = written_then_read(Format::Epub, "out.epub").plain_text();
    assert!(t.contains("First paragraph"));
}

#[test]
fn image_written_then_read_has_canvas_size() {
    let d = written_then_read(Format::Png, "out.png");
    assert!(d.plain_text().contains("800x600"));
}

#[test]
fn display_names_distinct_and_nonempty() {
    let all = Format::all();
    for (i, a) in all.iter().enumerate() {
        assert!(!a.display_name().is_empty());
        for b in &all[i + 1..] {
            assert_ne!(a.display_name(), b.display_name());
        }
    }
    assert_eq!(Format::Docx.display_name(), "Word (DOCX)");
    assert_eq!(Format::Text.display_name(), "Plain Text");
    assert_eq!(Format::Latex.display_name(), "LaTeX");
}

#[test]
fn upper_case_names_parse() {
    for f in Format::all() {
        assert_eq!(f.extension().to_uppercase().parse::<Format>(), Ok(*f));
        assert_eq!(Format::parse_name(&f.extension().to_uppercase()), Ok(*f));
    }
}

#[test]
fn paths_in_directories_and_capitals_are_detected() {
    for f in Format::all() {
        let lower = format!("dir/file.{}", f.extension());
        assert_eq!(detect_format(&lower), Some(*f));
        let upper = format!("file.{}", f.extension().to_uppercase());
        assert_eq!(detect_format(&upper), Some(*f));
    }
    assert_eq!(detect_format("reports/q3.final.PDF"), Some(Format::Pdf));
}

#[test]
fn output_beside_input_never_overwrites_it() {
    for from in Format::all() {
        let input = format!("docs/notes.{}", from.extension());
        for to in Format::all() {
            let p = determine_output_path(&input, None, false, Some(*to), *from).unwrap();
            assert_ne!(p, input);
            assert!(p.starts_with("docs/notes."));
            if to == from {
                assert_eq!(p, format!("docs/notes.converted.{}", to.extension()));
            } else {
                assert_eq!(p, format!("docs/notes.{}", to.extension()));
            }
        }
    }
}

#[test]
fn extensions_follow_the_last_dot() {
    assert_eq!(detect_format("a/b.MKD"), Some(Format::Markdown));
    assert_eq!(detect_format("server.log"), Some(Format::Text));
    assert_eq!(detect_format("x.jpeg"), Some(Format::Jpeg));
    assert_eq!(detect_format("x.doc"), None);
    assert_eq!(detect_format("README"), None);
    assert_eq!(detect_format("a.tar.gz"), None);
    assert_eq!(detect_format(".md"), None);
    assert_eq!(detect_format("notes.v2.md"), Some(Format::Markdown));
}
