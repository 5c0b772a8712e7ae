//! The document model that every parser produces and every renderer reads.
use vstd::prelude::*;
use crate::strutil::{chars_of, decimal, eq_str, lowercase, push_char, push_decimal, push_str, to_lowercase};
use std::collections::HashMap;
use crate::paths::{extension, path_extension};

verus! {

/// A file format that can be read or written.
#[derive(Debug, Clone, Copy, PartialEq, Eq, Hash, Structural)]
pub enum Format {
    Pdf,
    Docx,
    Xlsx,
    Pptx,
    Html,
    Markdown,
    Csv,
    Text,
    Epub,
    Odt,
    Ods,
    Odp,
    Rtf,
    Svg,
    Json,
    Yaml,
    Latex,
    Png,
    Jpeg,
    Webp,
    Gif,
    Bmp,
    Tiff,
}

impl Format {
    /// Every format, in the order the format list shows them.
    pub open spec fn spec_all() -> Seq<Format> {
        seq![
            Format::Pdf,
            Format::Docx,
            Format::Xlsx,
            Format::Pptx,
            Format::Html,
            Format::Markdown,
            Format::Csv,
            Format::Text,
            Format::Epub,
            Format::Odt,
            Format::Ods,
            Format::Odp,
            Format::Rtf,
            Format::Svg,
            Format::Json,
            Format::Yaml,
            Format::Latex,
            Format::Png,
            Format::Jpeg,
            Format::Webp,
            Format::Gif,
            Format::Bmp,
            Format::Tiff,
        ]
    }

    pub fn all() -> (r: &'static [Format])
        ensures
            r@ == Self::spec_all(),
    {
        let r: &'static [Format] = &[
            Format::Pdf,
            Format::Docx,
            Format::Xlsx,
            Format::Pptx,
            Format::Html,
            Format::Markdown,
            Format::Csv,
            Format::Text,
            Format::Epub,
            Format::Odt,
            Format::Ods,
            Format::Odp,
            Format::Rtf,
            Format::Svg,
            Format::Json,
            Format::Yaml,
            Format::Latex,
            Format::Png,
            Format::Jpeg,
            Format::Webp,
            Format::Gif,
            Format::Bmp,
            Format::Tiff,
        ];
        assert(r@ == Self::spec_all());
        r
    }

    /// The file extension written for the format.
    pub open spec fn spec_extension(self) -> Seq<char> {
        match self {
            Format::Pdf => "pdf"@,
            Format::Docx => "docx"@,
            Format::Xlsx => "xlsx"@,
            Format::Pptx => "pptx"@,
            Format::Html => "html"@,
            Format::Markdown => "md"@,
            Format::Csv => "csv"@,
            Format::Text => "txt"@,
            Format::Epub => "epub"@,
            Format::Odt => "odt"@,
            Format::Ods => "ods"@,
            Format::Odp => "odp"@,
            Format::Rtf => "rtf"@,
            Format::Svg => "svg"@,
            Format::Json => "json"@,
            Format::Yaml => "yaml"@,
            Format::Latex => "tex"@,
            Format::Png => "png"@,
            Format::Jpeg => "jpg"@,
            Format::Webp => "webp"@,
            Format::Gif => "gif"@,
            Format::Bmp => "bmp"@,
            Format::Tiff => "tiff"@,
        }
    }

    pub fn extension(&self) -> (r: &'static str)
        ensures
            r@ == self.spec_extension(),
    {
        match self {
            Format::Pdf => "pdf",
            Format::Docx => "docx",
            Format::Xlsx => "xlsx",
            Format::Pptx => "pptx",
            Format::Html => "html",
            Format::Markdown => "md",
            Format::Csv => "csv",
            Format::Text => "txt",
            Format::Epub => "epub",
            Format::Odt => "odt",
            Format::Ods => "ods",
            Format::Odp => "odp",
            Format::Rtf => "rtf",
            Format::Svg => "svg",
            Format::Json => "json",
            Format::Yaml => "yaml",
            Format::Latex => "tex",
            Format::Png => "png",
            Format::Jpeg => "jpg",
            Format::Webp => "webp",
            Format::Gif => "gif",
            Format::Bmp => "bmp",
            Format::Tiff => "tiff",
        }
    }

    /// The human-readable name of the format.
    pub open spec fn spec_display_name(self) -> Seq<char> {
        match self {
            Format::Pdf => "PDF"@,
            Format::Docx => "Word (DOCX)"@,
            Format::Xlsx => "Excel (XLSX)"@,
            Format::Pptx => "PowerPoint (PPTX)"@,
            Format::Html => "HTML"@,
            Format::Markdown => "Markdown"@,
            Format::Csv => "CSV"@,
            Format::Text => "Plain Text"@,
            Format::Epub => "EPUB"@,
            Format::Odt => "OpenDocument Text (ODT)"@,
            Format::Ods => "OpenDocument Spreadsheet (ODS)"@,
            Format::Odp => "OpenDocument Presentation (ODP)"@,
            Format::Rtf => "RTF"@,
            Format::Svg => "SVG"@,
            Format::Json => "JSON"@,
            Format::Yaml => "YAML"@,
            Format::Latex => "LaTeX"@,
            Format::Png => "PNG Image"@,
            Format::Jpeg => "JPEG Image"@,
            Format::Webp => "WebP Image"@,
            Format::Gif => "GIF Image"@,
            Format::Bmp => "BMP Image"@,
            Format::Tiff => "TIFF Image"@,
        }
    }

    pub fn display_name(&self) -> (r: &'static str)
        ensures
            r@ == self.spec_display_name(),
    {
        match self {
            Format::Pdf => "PDF",
            Format::Docx => "Word (DOCX)",
            Format::Xlsx => "Excel (XLSX)",
            Format::Pptx => "PowerPoint (PPTX)",
            Format::Html => "HTML",
            Format::Markdown => "Markdown",
            Format::Csv => "CSV",
            Format::Text => "Plain Text",
            Format::Epub => "EPUB",
            Format::Odt => "OpenDocument Text (ODT)",
            Format::Ods => "OpenDocument Spreadsheet (ODS)",
            Format::Odp => "OpenDocument Presentation (ODP)",
            Format::Rtf => "RTF",
            Format::Svg => "SVG",
            Format::Json => "JSON",
            Format::Yaml => "YAML",
            Format::Latex => "LaTeX",
            Format::Png => "PNG Image",
            Format::Jpeg => "JPEG Image",
            Format::Webp => "WebP Image",
            Format::Gif => "GIF Image",
            Format::Bmp => "BMP Image",
            Format::Tiff => "TIFF Image",
        }
    }

    /// Raster image formats.
    pub open spec fn spec_is_image(self) -> bool {
        self is Png || self is Jpeg || self is Webp || self is Gif || self is Bmp || self is Tiff
    }

    pub fn is_image(&self) -> (r: bool)
        ensures
            r == self.spec_is_image(),
    {
        match self {
            Format::Png | Format::Jpeg | Format::Webp | Format::Gif | Format::Bmp
            | Format::Tiff => true,
            _ => false,
        }
    }

    /// Office document formats (zip containers).
    pub open spec fn spec_is_office(self) -> bool {
        self is Docx || self is Xlsx || self is Pptx || self is Odt || self is Ods || self is Odp
    }

    pub fn is_office(&self) -> (r: bool)
        ensures
            r == self.spec_is_office(),
    {
        match self {
            Format::Docx | Format::Xlsx | Format::Pptx | Format::Odt | Format::Ods
            | Format::Odp => true,
            _ => false,
        }
    }
}

/// The format a (lower-case) format name stands for, as `--from`/`--to` accept them.
pub open spec fn format_of_name(n: Seq<char>) -> Option<Format> {
    if n == "pdf"@ {
        Some(Format::Pdf)
    } else if n == "docx"@ {
        Some(Format::Docx)
    } else if n == "doc"@ {
        Some(Format::Docx)
    } else if n == "xlsx"@ {
        Some(Format::Xlsx)
    } else if n == "xls"@ {
        Some(Format::Xlsx)
    } else if n == "pptx"@ {
        Some(Format::Pptx)
    } else if n == "ppt"@ {
        Some(Format::Pptx)
    } else if n == "html"@ {
        Some(Format::Html)
    } else if n == "htm"@ {
        Some(Format::Html)
    } else if n == "md"@ {
        Some(Format::Markdown)
    } else if n == "markdown"@ {
        Some(Format::Markdown)
    } else if n == "csv"@ {
        Some(Format::Csv)
    } else if n == "tsv"@ {
        Some(Format::Csv)
    } else if n == "txt"@ {
        Some(Format::Text)
    } else if n == "text"@ {
        Some(Format::Text)
    } else if n == "epub"@ {
        Some(Format::Epub)
    } else if n == "odt"@ {
        Some(Format::Odt)
    } else if n == "ods"@ {
        Some(Format::Ods)
    } else if n == "odp"@ {
        Some(Format::Odp)
    } else if n == "rtf"@ {
        Some(Format::Rtf)
    } else if n == "svg"@ {
        Some(Format::Svg)
    } else if n == "json"@ {
        Some(Format::Json)
    } else if n == "jsonl"@ {
        Some(Format::Json)
    } else if n == "yaml"@ {
        Some(Format::Yaml)
    } else if n == "yml"@ {
        Some(Format::Yaml)
    } else if n == "tex"@ {
        Some(Format::Latex)
    } else if n == "latex"@ {
        Some(Format::Latex)
    } else if n == "png"@ {
        Some(Format::Png)
    } else if n == "jpg"@ {
        Some(Format::Jpeg)
    } else if n == "jpeg"@ {
        Some(Format::Jpeg)
    } else if n == "webp"@ {
        Some(Format::Webp)
    } else if n == "gif"@ {
        Some(Format::Gif)
    } else if n == "bmp"@ {
        Some(Format::Bmp)
    } else if n == "tiff"@ {
        Some(Format::Tiff)
    } else if n == "tif"@ {
        Some(Format::Tiff)
    } else {
        None
    }
}

/// The format a lower-case format name stands for.
pub fn format_from_name(n: &[char]) -> (r: Option<Format>)
    ensures
        r == format_of_name(n@),
{
    if eq_str(n, "pdf") {
        Some(Format::Pdf)
    } else if eq_str(n, "docx") {
        Some(Format::Docx)
    } else if eq_str(n, "doc") {
        Some(Format::Docx)
    } else if eq_str(n, "xlsx") {
        Some(Format::Xlsx)
    } else if eq_str(n, "xls") {
        Some(Format::Xlsx)
    } else if eq_str(n, "pptx") {
        Some(Format::Pptx)
    } else if eq_str(n, "ppt") {
        Some(Format::Pptx)
    } else if eq_str(n, "html") {
        Some(Format::Html)
    } else if eq_str(n, "htm") {
        Some(Format::Html)
    } else if eq_str(n, "md") {
        Some(Format::Markdown)
    } else if eq_str(n, "markdown") {
        Some(Format::Markdown)
    } else if eq_str(n, "csv") {
        Some(Format::Csv)
    } else if eq_str(n, "tsv") {
        Some(Format::Csv)
    } else if eq_str(n, "txt") {
        Some(Format::Text)
    } else if eq_str(n, "text") {
        Some(Format::Text)
    } else if eq_str(n, "epub") {
        Some(Format::Epub)
    } else if eq_str(n, "odt") {
        Some(Format::Odt)
    } else if eq_str(n, "ods") {
        Some(Format::Ods)
    } else if eq_str(n, "odp") {
        Some(Format::Odp)
    } else if eq_str(n, "rtf") {
        Some(Format::Rtf)
    } else if eq_str(n, "svg") {
        Some(Format::Svg)
    } else if eq_str(n, "json") {
        Some(Format::Json)
    } else if eq_str(n, "jsonl") {
        Some(Format::Json)
    } else if eq_str(n, "yaml") {
        Some(Format::Yaml)
    } else if eq_str(n, "yml") {
        Some(Format::Yaml)
    } else if eq_str(n, "tex") {
        Some(Format::Latex)
    } else if eq_str(n, "latex") {
        Some(Format::Latex)
    } else if eq_str(n, "png") {
        Some(Format::Png)
    } else if eq_str(n, "jpg") {
        Some(Format::Jpeg)
    } else if eq_str(n, "jpeg") {
        Some(Format::Jpeg)
    } else if eq_str(n, "webp") {
        Some(Format::Webp)
    } else if eq_str(n, "gif") {
        Some(Format::Gif)
    } else if eq_str(n, "bmp") {
        Some(Format::Bmp)
    } else if eq_str(n, "tiff") {
        Some(Format::Tiff)
    } else if eq_str(n, "tif") {
        Some(Format::Tiff)
    } else {
        None
    }
}

/// The format a (lower-case) file extension stands for.
pub open spec fn format_of_extension(n: Seq<char>) -> Option<Format> {
    if n == "pdf"@ {
        Some(Format::Pdf)
    } else if n == "docx"@ {
        Some(Format::Docx)
    } else if n == "xlsx"@ {
        Some(Format::Xlsx)
    } else if n == "xls"@ {
        Some(Format::Xlsx)
    } else if n == "pptx"@ {
        Some(Format::Pptx)
    } else if n == "ppt"@ {
        Some(Format::Pptx)
    } else if n == "html"@ {
        Some(Format::Html)
    } else if n == "htm"@ {
        Some(Format::Html)
    } else if n == "md"@ {
        Some(Format::Markdown)
    } else if n == "markdown"@ {
        Some(Format::Markdown)
    } else if n == "mdown"@ {
        Some(Format::Markdown)
    } else if n == "mkd"@ {
        Some(Format::Markdown)
    } else if n == "csv"@ {
        Some(Format::Csv)
    } else if n == "tsv"@ {
        Some(Format::Csv)
    } else if n == "txt"@ {
        Some(Format::Text)
    } else if n == "text"@ {
        Some(Format::Text)
    } else if n == "log"@ {
        Some(Format::Text)
    } else if n == "epub"@ {
        Some(Format::Epub)
    } else if n == "odt"@ {
        Some(Format::Odt)
    } else if n == "ods"@ {
        Some(Format::Ods)
    } else if n == "odp"@ {
        Some(Format::Odp)
    } else if n == "rtf"@ {
        Some(Format::Rtf)
    } else if n == "svg"@ {
        Some(Format::Svg)
    } else if n == "json"@ {
        Some(Format::Json)
    } else if n == "jsonl"@ {
        Some(Format::Json)
    } else if n == "yaml"@ {
        Some(Format::Yaml)
    } else if n == "yml"@ {
        Some(Format::Yaml)
    } else if n == "tex"@ {
        Some(Format::Latex)
    } else if n == "latex"@ {
        Some(Format::Latex)
    } else if n == "png"@ {
        Some(Format::Png)
    } else if n == "jpg"@ {
        Some(Format::Jpeg)
    } else if n == "jpeg"@ {
        Some(Format::Jpeg)
    } else if n == "webp"@ {
        Some(Format::Webp)
    } else if n == "gif"@ {
        Some(Format::Gif)
    } else if n == "bmp"@ {
        Some(Format::Bmp)
    } else if n == "tiff"@ {
        Some(Format::Tiff)
    } else if n == "tif"@ {
        Some(Format::Tiff)
    } else {
        None
    }
}

/// The format a lower-case file extension stands for.
pub fn format_from_extension(n: &[char]) -> (r: Option<Format>)
    ensures
        r == format_of_extension(n@),
{
    if eq_str(n, "pdf") {
        Some(Format::Pdf)
    } else if eq_str(n, "docx") {
        Some(Format::Docx)
    } else if eq_str(n, "xlsx") {
        Some(Format::Xlsx)
    } else if eq_str(n, "xls") {
        Some(Format::Xlsx)
    } else if eq_str(n, "pptx") {
        Some(Format::Pptx)
    } else if eq_str(n, "ppt") {
        Some(Format::Pptx)
    } else if eq_str(n, "html") {
        Some(Format::Html)
    } else if eq_str(n, "htm") {
        Some(Format::Html)
    } else if eq_str(n, "md") {
        Some(Format::Markdown)
    } else if eq_str(n, "markdown") {
        Some(Format::Markdown)
    } else if eq_str(n, "mdown") {
        Some(Format::Markdown)
    } else if eq_str(n, "mkd") {
        Some(Format::Markdown)
    } else if eq_str(n, "csv") {
        Some(Format::Csv)
    } else if eq_str(n, "tsv") {
        Some(Format::Csv)
    } else if eq_str(n, "txt") {
        Some(Format::Text)
    } else if eq_str(n, "text") {
        Some(Format::Text)
    } else if eq_str(n, "log") {
        Some(Format::Text)
    } else if eq_str(n, "epub") {
        Some(Format::Epub)
    } else if eq_str(n, "odt") {
        Some(Format::Odt)
    } else if eq_str(n, "ods") {
        Some(Format::Ods)
    } else if eq_str(n, "odp") {
        Some(Format::Odp)
    } else if eq_str(n, "rtf") {
        Some(Format::Rtf)
    } else if eq_str(n, "svg") {
        Some(Format::Svg)
    } else if eq_str(n, "json") {
        Some(Format::Json)
    } else if eq_str(n, "jsonl") {
        Some(Format::Json)
    } else if eq_str(n, "yaml") {
        Some(Format::Yaml)
    } else if eq_str(n, "yml") {
        Some(Format::Yaml)
    } else if eq_str(n, "tex") {
        Some(Format::Latex)
    } else if eq_str(n, "latex") {
        Some(Format::Latex)
    } else if eq_str(n, "png") {
        Some(Format::Png)
    } else if eq_str(n, "jpg") {
        Some(Format::Jpeg)
    } else if eq_str(n, "jpeg") {
        Some(Format::Jpeg)
    } else if eq_str(n, "webp") {
        Some(Format::Webp)
    } else if eq_str(n, "gif") {
        Some(Format::Gif)
    } else if eq_str(n, "bmp") {
        Some(Format::Bmp)
    } else if eq_str(n, "tiff") {
        Some(Format::Tiff)
    } else if eq_str(n, "tif") {
        Some(Format::Tiff)
    } else {
        None
    }
}

/// A format's extension is made of lower-case ASCII letters.
pub proof fn lemma_extension_letters(f: Format)
    ensures
        f.spec_extension().len() > 0,
        forall|i: int| 0 <= i < f.spec_extension().len() ==> 'a' <= #[trigger] f.spec_extension()[i] <= 'z',
{
    match f {
        Format::Pdf => reveal_strlit("pdf"),
        Format::Docx => reveal_strlit("docx"),
        Format::Xlsx => reveal_strlit("xlsx"),
        Format::Pptx => reveal_strlit("pptx"),
        Format::Html => reveal_strlit("html"),
        Format::Markdown => reveal_strlit("md"),
        Format::Csv => reveal_strlit("csv"),
        Format::Text => reveal_strlit("txt"),
        Format::Epub => reveal_strlit("epub"),
        Format::Odt => reveal_strlit("odt"),
        Format::Ods => reveal_strlit("ods"),
        Format::Odp => reveal_strlit("odp"),
        Format::Rtf => reveal_strlit("rtf"),
        Format::Svg => reveal_strlit("svg"),
        Format::Json => reveal_strlit("json"),
        Format::Yaml => reveal_strlit("yaml"),
        Format::Latex => reveal_strlit("tex"),
        Format::Png => reveal_strlit("png"),
        Format::Jpeg => reveal_strlit("jpg"),
        Format::Webp => reveal_strlit("webp"),
        Format::Gif => reveal_strlit("gif"),
        Format::Bmp => reveal_strlit("bmp"),
        Format::Tiff => reveal_strlit("tiff"),
    }
}

/// The format a path's extension names, ignoring case.
pub open spec fn format_of_path(p: Seq<char>) -> Option<Format> {
    match path_extension(p) {
        Some(e) => format_of_extension(lowercase(e)),
        None => None,
    }
}

/// Detects the format of a file from its extension.
pub fn detect_format(path: &str) -> (r: Option<Format>)
    ensures
        r == format_of_path(path@),
{
    match extension(path) {
        Some(e) => {
            let lower = to_lowercase(e.as_str());
            let cs = chars_of(lower.as_str());
            format_from_extension(&cs)
        },
        None => None,
    }
}

/// The message of the error that an unknown format name gives.
pub open spec fn unknown_format_message(s: Seq<char>) -> Seq<char> {
    "Unknown format: "@ + s
}

impl Format {
    /// Parses a format name, ignoring case (`FromStr`).
    pub fn parse_name(s: &str) -> (r: Result<Format, String>)
        ensures
            match format_of_name(lowercase(s@)) {
                Some(f) => r == Ok::<Format, String>(f),
                None => r matches Err(e) && e@ == unknown_format_message(s@),
            },
    {
        let lower = to_lowercase(s);
        let cs = chars_of(lower.as_str());
        match format_from_name(&cs) {
            Some(f) => Ok(f),
            None => {
                let mut e = String::new();
                push_str(&mut e, "Unknown format: ");
                push_str(&mut e, s);
                Err(e)
            },
        }
    }
}

impl std::str::FromStr for Format {
    type Err = String;

    fn from_str(s: &str) -> (r: Result<Self, Self::Err>)
        ensures
            match format_of_name(lowercase(s@)) {
                Some(f) => r == Ok::<Format, String>(f),
                None => r matches Err(e) && e@ == unknown_format_message(s@),
            },
    {
        Format::parse_name(s)
    }
}


/// Inline content of a paragraph, heading, list item or table cell.
#[derive(Debug, PartialEq, Eq)]
pub enum Inline {
    Text(String),
    Bold(Vec<Inline>),
    Italic(Vec<Inline>),
    Strikethrough(Vec<Inline>),
    Code(String),
    Link { text: Vec<Inline>, url: String },
    Image { alt: String, src: String },
    Superscript(Vec<Inline>),
    Subscript(Vec<Inline>),
}

/// The mathematical value of an [`Inline`]: strings as character sequences,
/// vectors as sequences.
pub enum InlineView {
    Text(Seq<char>),
    Bold(Seq<InlineView>),
    Italic(Seq<InlineView>),
    Strikethrough(Seq<InlineView>),
    Code(Seq<char>),
    Link { text: Seq<InlineView>, url: Seq<char> },
    Image { alt: Seq<char>, src: Seq<char> },
    Superscript(Seq<InlineView>),
    Subscript(Seq<InlineView>),
}

/// The value of an inline.
pub open spec fn inline_view(i: Inline) -> InlineView
    decreases i, 0int,
{
    match i {
        Inline::Text(s) => InlineView::Text(s@),
        Inline::Bold(v) => InlineView::Bold(inlines_view(v@)),
        Inline::Italic(v) => InlineView::Italic(inlines_view(v@)),
        Inline::Strikethrough(v) => InlineView::Strikethrough(inlines_view(v@)),
        Inline::Code(s) => InlineView::Code(s@),
        Inline::Link { text, url } => InlineView::Link { text: inlines_view(text@), url: url@ },
        Inline::Image { alt, src } => InlineView::Image { alt: alt@, src: src@ },
        Inline::Superscript(v) => InlineView::Superscript(inlines_view(v@)),
        Inline::Subscript(v) => InlineView::Subscript(inlines_view(v@)),
    }
}

/// The values of a run of inlines.
pub open spec fn inlines_view(s: Seq<Inline>) -> Seq<InlineView>
    decreases s, 1int,
{
    if s.len() == 0 {
        seq![]
    } else {
        inlines_view(s.drop_last()).push(inline_view(s.last()))
    }
}

pub broadcast proof fn lemma_inlines_view(s: Seq<Inline>)
    ensures
        #[trigger] inlines_view(s).len() == s.len(),
        forall|k: int| 0 <= k < s.len() ==> inlines_view(s)[k] == inline_view(#[trigger] s[k]),
    decreases s.len(),
{
    if s.len() > 0 {
        lemma_inlines_view(s.drop_last());
        assert forall|k: int| 0 <= k < s.len() implies inlines_view(s)[k] == inline_view(
            #[trigger] s[k],
        ) by {
            if k < s.len() - 1 {
                assert(s.drop_last()[k] == s[k]);
            }
        }
    }
}

pub proof fn lemma_inlines_view_add(a: Seq<Inline>, b: Seq<Inline>)
    ensures
        inlines_view(a + b) == inlines_view(a) + inlines_view(b),
{
    lemma_inlines_view(a);
    lemma_inlines_view(b);
    lemma_inlines_view(a + b);
    assert forall|k: int| 0 <= k < (a + b).len() implies inlines_view(a + b)[k] == (
    inlines_view(a) + inlines_view(b))[k] by {
        if k < a.len() {
            assert((a + b)[k] == a[k]);
        } else {
            assert((a + b)[k] == b[k - a.len()]);
        }
    }
    assert(inlines_view(a + b) =~= inlines_view(a) + inlines_view(b));
}

/// Moves the inlines of `src` to the end of `dst`.
pub fn append_inlines(dst: &mut Vec<Inline>, src: Vec<Inline>)
    ensures
        inlines_view(final(dst)@) == inlines_view(old(dst)@) + inlines_view(src@),
{
    let mut src = src;
    let ghost s0 = src@;
    let ghost d0 = dst@;
    dst.append(&mut src);
    proof {
        assert(dst@ =~= d0 + s0);
        lemma_inlines_view_add(d0, s0);
    }
}

impl View for Inline {
    type V = InlineView;

    open spec fn view(&self) -> InlineView {
        inline_view(*self)
    }
}

/// The plain text of an inline: its words without any markup.
pub open spec fn inline_text(i: InlineView) -> Seq<char>
    decreases i, 0int,
{
    match i {
        InlineView::Text(s) => s,
        InlineView::Bold(v) => inlines_text(v),
        InlineView::Italic(v) => inlines_text(v),
        InlineView::Strikethrough(v) => inlines_text(v),
        InlineView::Code(s) => s,
        InlineView::Link { text, url: _ } => inlines_text(text),
        InlineView::Image { alt, src: _ } => alt,
        InlineView::Superscript(v) => inlines_text(v),
        InlineView::Subscript(v) => inlines_text(v),
    }
}

/// The plain texts of a run of inlines, concatenated.
pub open spec fn inlines_text(s: Seq<InlineView>) -> Seq<char>
    decreases s, 1int,
{
    if s.len() == 0 {
        seq![]
    } else {
        inlines_text(s.drop_last()) + inline_text(s.last())
    }
}

/// Appends the plain text of `v`.
pub fn push_inlines_text(out: &mut String, v: &Vec<Inline>)
    ensures
        final(out)@ == old(out)@ + inlines_text(inlines_view(v@)),
    decreases v,
{
    let mut k: usize = 0;
    while k < v.len()
        invariant
            k <= v@.len(),
            out@ == old(out)@ + inlines_text(inlines_view(v@.take(k as int))),
        decreases v.len() - k,
    {
        push_inline_text(out, &v[k]);
        proof {
            let pre = v@.take(k as int);
            assert(v@.take(k + 1).drop_last() =~= pre);
            assert(inlines_view(v@.take(k + 1)) == inlines_view(pre).push(inline_view(v@[k as int])));
            assert(inlines_view(pre).push(inline_view(v@[k as int])).drop_last() =~= inlines_view(pre));
        }
        k = k + 1;
    }
    assert(v@.take(k as int) =~= v@);
}

/// Appends the plain text of `i`.
pub fn push_inline_text(out: &mut String, i: &Inline)
    ensures
        final(out)@ == old(out)@ + inline_text(i@),
    decreases i,
{
    match i {
        Inline::Text(s) => push_str(out, s.as_str()),
        Inline::Bold(v) => push_inlines_text(out, v),
        Inline::Italic(v) => push_inlines_text(out, v),
        Inline::Strikethrough(v) => push_inlines_text(out, v),
        Inline::Code(s) => push_str(out, s.as_str()),
        Inline::Link { text, url: _ } => push_inlines_text(out, text),
        Inline::Image { alt, src: _ } => push_str(out, alt.as_str()),
        Inline::Superscript(v) => push_inlines_text(out, v),
        Inline::Subscript(v) => push_inlines_text(out, v),
    }
}

impl Inline {
    /// The plain text of the inline.
    pub fn plain_text(&self) -> (r: String)
        ensures
            r@ == inline_text(self@),
    {
        let mut out = String::new();
        push_inline_text(&mut out, self);
        assert(out@ =~= inline_text(self@));
        out
    }
}

/// A copy of an inline.
pub fn clone_inline(i: &Inline) -> (r: Inline)
    ensures
        r@ == i@,
    decreases i,
{
    match i {
        Inline::Text(s) => Inline::Text(s.clone()),
        Inline::Bold(v) => Inline::Bold(clone_inlines(v)),
        Inline::Italic(v) => Inline::Italic(clone_inlines(v)),
        Inline::Strikethrough(v) => Inline::Strikethrough(clone_inlines(v)),
        Inline::Code(s) => Inline::Code(s.clone()),
        Inline::Link { text, url } => Inline::Link { text: clone_inlines(text), url: url.clone() },
        Inline::Image { alt, src } => Inline::Image { alt: alt.clone(), src: src.clone() },
        Inline::Superscript(v) => Inline::Superscript(clone_inlines(v)),
        Inline::Subscript(v) => Inline::Subscript(clone_inlines(v)),
    }
}

/// A copy of a run of inlines.
pub fn clone_inlines(v: &Vec<Inline>) -> (r: Vec<Inline>)
    ensures
        inlines_view(r@) == inlines_view(v@),
    decreases v,
{
    let mut r: Vec<Inline> = Vec::new();
    let mut k: usize = 0;
    while k < v.len()
        invariant
            k <= v@.len(),
            r@.len() == k,
            inlines_view(r@) == inlines_view(v@.take(k as int)),
        decreases v.len() - k,
    {
        let c = clone_inline(&v[k]);
        let ghost before = r@;
        r.push(c);
        proof {
            assert(r@.drop_last() =~= before);
            assert(v@.take(k + 1).drop_last() =~= v@.take(k as int));
        }
        k = k + 1;
    }
    assert(v@.take(k as int) =~= v@);
    r
}

impl Clone for Inline {
    fn clone(&self) -> (r: Self)
        ensures
            r@ == self@,
    {
        clone_inline(self)
    }
}

/// The plain text of a run of inlines (`inlines.iter().map(plain_text).collect()`).
pub fn inlines_plain_text(v: &Vec<Inline>) -> (r: String)
    ensures
        r@ == inlines_text(inlines_view(v@)),
{
    let mut out = String::new();
    push_inlines_text(&mut out, v);
    assert(out@ =~= inlines_text(inlines_view(v@)));
    out
}

/// The values of the cells of a table row.
pub open spec fn cells_view(r: Seq<Vec<Inline>>) -> Seq<Seq<InlineView>> {
    r.map_values(|c: Vec<Inline>| inlines_view(c@))
}

/// The values of the rows of a table.
pub open spec fn rows_view(v: Seq<Vec<Vec<Inline>>>) -> Seq<Seq<Seq<InlineView>>> {
    v.map_values(|r: Vec<Vec<Inline>>| cells_view(r@))
}

/// A block of a document.
#[derive(Debug, PartialEq, Eq)]
#[allow(inconsistent_fields)]
pub enum Block {
    Paragraph(Vec<Inline>),
    Heading { level: u8, content: Vec<Inline> },
    Table { headers: Vec<Vec<Vec<Inline>>>, rows: Vec<Vec<Vec<Inline>>> },
    List { ordered: bool, items: Vec<Vec<Inline>> },
    Code { language: Option<String>, content: String },
    Blockquote(Vec<Inline>),
    Image { src: String, alt: String, width: Option<u32>, height: Option<u32> },
    HorizontalRule,
    TableFromCsv(String),
}

/// The mathematical value of a [`Block`].
#[allow(inconsistent_fields)]
pub enum BlockView {
    Paragraph(Seq<InlineView>),
    Heading { level: u8, content: Seq<InlineView> },
    Table { headers: Seq<Seq<Seq<InlineView>>>, rows: Seq<Seq<Seq<InlineView>>> },
    List { ordered: bool, items: Seq<Seq<InlineView>> },
    Code { language: Option<Seq<char>>, content: Seq<char> },
    Blockquote(Seq<InlineView>),
    Image { src: Seq<char>, alt: Seq<char>, width: Option<u32>, height: Option<u32> },
    HorizontalRule,
    TableFromCsv(Seq<char>),
}

/// The value of an optional string.
pub open spec fn opt_view(o: Option<String>) -> Option<Seq<char>> {
    match o {
        Some(s) => Some(s@),
        None => None,
    }
}

impl View for Block {
    type V = BlockView;

    open spec fn view(&self) -> BlockView {
        match *self {
            Block::Paragraph(v) => BlockView::Paragraph(inlines_view(v@)),
            Block::Heading { level, content } => BlockView::Heading {
                level,
                content: inlines_view(content@),
            },
            Block::Table { headers, rows } => BlockView::Table {
                headers: rows_view(headers@),
                rows: rows_view(rows@),
            },
            Block::List { ordered, items } => BlockView::List {
                ordered,
                items: cells_view(items@),
            },
            Block::Code { language, content } => BlockView::Code {
                language: opt_view(language),
                content: content@,
            },
            Block::Blockquote(v) => BlockView::Blockquote(inlines_view(v@)),
            Block::Image { src, alt, width, height } => BlockView::Image {
                src: src@,
                alt: alt@,
                width,
                height,
            },
            Block::HorizontalRule => BlockView::HorizontalRule,
            Block::TableFromCsv(t) => BlockView::TableFromCsv(t@),
        }
    }
}

/// The values of a sequence of blocks.
pub open spec fn blocks_view(v: Seq<Block>) -> Seq<BlockView> {
    v.map_values(|b: Block| b@)
}

/// A paragraph holding one text run.
pub open spec fn text_paragraph(t: Seq<char>) -> BlockView {
    BlockView::Paragraph(seq![InlineView::Text(t)])
}

/// A heading holding one text run.
pub open spec fn text_heading(level: u8, t: Seq<char>) -> BlockView {
    BlockView::Heading { level, content: seq![InlineView::Text(t)] }
}

/// A code block without a language.
pub open spec fn plain_code(t: Seq<char>) -> BlockView {
    BlockView::Code { language: None, content: t }
}

/// A one-element run holding a text inline.
pub fn text_run(text: &str) -> (r: Vec<Inline>)
    ensures
        inlines_view(r@) == seq![InlineView::Text(text@)],
{
    let mut v: Vec<Inline> = Vec::new();
    let t = text.to_owned();
    v.push(Inline::Text(t));
    proof {
        assert(v@.drop_last() =~= Seq::<Inline>::empty());
        assert(inlines_view(Seq::<Inline>::empty()) =~= Seq::<InlineView>::empty());
        assert(v@.last() == Inline::Text(t));
        assert(inline_view(v@.last()) == InlineView::Text(text@));
        assert(inlines_view(v@) =~= seq![InlineView::Text(text@)]);
    }
    v
}

impl Block {
    pub fn paragraph(text: &str) -> (r: Block)
        ensures
            r@ == text_paragraph(text@),
    {
        Block::Paragraph(text_run(text))
    }

    pub fn heading(level: u8, text: &str) -> (r: Block)
        ensures
            r@ == text_heading(level, text@),
    {
        Block::Heading { level, content: text_run(text) }
    }

    pub fn code(content: &str) -> (r: Block)
        ensures
            r@ == plain_code(content@),
    {
        Block::Code { language: None, content: content.to_owned() }
    }

    pub fn code_with_lang(lang: &str, content: &str) -> (r: Block)
        ensures
            r@ == (BlockView::Code { language: Some(lang@), content: content@ }),
    {
        Block::Code { language: Some(lang.to_owned()), content: content.to_owned() }
    }
}

/// Document metadata.
#[derive(Debug)]
pub struct Metadata {
    pub title: Option<String>,
    pub author: Option<String>,
    pub subject: Option<String>,
    pub creator: Option<String>,
    pub producer: Option<String>,
    pub date: Option<String>,
    pub page_count: Option<u32>,
    pub word_count: Option<u32>,
    pub char_count: Option<u64>,
    pub source_format: Option<String>,
    pub custom: HashMap<String, String>,
}

impl Metadata {
    /// Metadata with every field absent and no custom entries.
    pub open spec fn is_empty(&self) -> bool {
        &&& self.title is None
        &&& self.author is None
        &&& self.subject is None
        &&& self.creator is None
        &&& self.producer is None
        &&& self.date is None
        &&& self.page_count is None
        &&& self.word_count is None
        &&& self.char_count is None
        &&& self.source_format is None
        &&& self.custom@ == Map::<String, String>::empty()
    }

    /// Metadata that names only the source format.
    pub open spec fn only_source(&self, src: Seq<char>) -> bool {
        &&& self.title is None
        &&& self.author is None
        &&& self.subject is None
        &&& self.creator is None
        &&& self.producer is None
        &&& self.date is None
        &&& self.page_count is None
        &&& self.word_count is None
        &&& self.char_count is None
        &&& opt_view(self.source_format) == Some(src)
        &&& self.custom@ == Map::<String, String>::empty()
    }

    pub fn new() -> (r: Metadata)
        ensures
            r.is_empty(),
    {
        Metadata {
            title: None,
            author: None,
            subject: None,
            creator: None,
            producer: None,
            date: None,
            page_count: None,
            word_count: None,
            char_count: None,
            source_format: None,
            custom: HashMap::new(),
        }
    }

    /// Metadata that records only the source format.
    pub fn with_source(src: &str) -> (r: Metadata)
        ensures
            r.only_source(src@),
    {
        let mut m = Metadata::new();
        m.source_format = Some(src.to_owned());
        m
    }
}

impl Default for Metadata {
    fn default() -> (r: Metadata)
        ensures
            r.is_empty(),
    {
        Metadata::new()
    }
}

/// A document: metadata and a sequence of blocks.
#[derive(Debug)]
pub struct Document {
    pub metadata: Metadata,
    pub blocks: Vec<Block>,
}

impl Document {
    /// The values of the blocks.
    pub open spec fn blocks_view(&self) -> Seq<BlockView> {
        blocks_view(self.blocks@)
    }

    pub fn new() -> (r: Document)
        ensures
            r.metadata.is_empty(),
            r.blocks_view() == Seq::<BlockView>::empty(),
    {
        let d = Document { metadata: Metadata::new(), blocks: Vec::new() };
        assert(d.blocks_view() =~= Seq::<BlockView>::empty());
        d
    }

    pub fn push_block(&mut self, block: Block)
        ensures
            final(self).metadata == old(self).metadata,
            final(self).blocks_view() == old(self).blocks_view().push(block@),
    {
        self.blocks.push(block);
        assert(self.blocks_view() =~= old(self).blocks_view().push(block@));
    }

    pub fn push_text(&mut self, text: &str)
        ensures
            final(self).metadata == old(self).metadata,
            final(self).blocks_view() == old(self).blocks_view().push(text_paragraph(text@)),
    {
        self.push_block(Block::paragraph(text));
    }
}

/// The cells of a row, each followed by a tab.
pub open spec fn cells_tabbed(cells: Seq<Seq<InlineView>>) -> Seq<char>
    decreases cells.len(),
{
    if cells.len() == 0 {
        seq![]
    } else {
        cells_tabbed(cells.drop_last()) + inlines_text(cells.last()) + seq!['\t']
    }
}

/// The rows of a table, one line each.
pub open spec fn rows_tabbed(rows: Seq<Seq<Seq<InlineView>>>) -> Seq<char>
    decreases rows.len(),
{
    if rows.len() == 0 {
        seq![]
    } else {
        rows_tabbed(rows.drop_last()) + cells_tabbed(rows.last()) + seq!['\n']
    }
}

/// The items of a list, numbered from 1, one line each.
pub open spec fn numbered_items(items: Seq<Seq<InlineView>>) -> Seq<char>
    decreases items.len(),
{
    if items.len() == 0 {
        seq![]
    } else {
        numbered_items(items.drop_last()) + decimal(items.len()) + ". "@ + inlines_text(
            items.last(),
        ) + seq!['\n']
    }
}

/// The plain text of a block as `Document::plain_text` writes it.
pub open spec fn block_text(b: BlockView) -> Seq<char> {
    match b {
        BlockView::Paragraph(v) => inlines_text(v) + seq!['\n'],
        BlockView::Heading { level: _, content } => inlines_text(content) + seq!['\n'],
        BlockView::Table { headers, rows } => rows_tabbed(headers) + rows_tabbed(rows) + seq![
            '\n',
        ],
        BlockView::List { ordered: _, items } => numbered_items(items) + seq!['\n'],
        BlockView::Code { language: _, content } => content + seq!['\n'],
        BlockView::Blockquote(v) => inlines_text(v) + seq!['\n'],
        BlockView::Image { src: _, alt, width: _, height: _ } => alt + seq!['\n'],
        BlockView::HorizontalRule => "---\n"@,
        BlockView::TableFromCsv(t) => t + seq!['\n'],
    }
}

/// The plain text of a sequence of blocks.
pub open spec fn blocks_text(bs: Seq<BlockView>) -> Seq<char>
    decreases bs.len(),
{
    if bs.len() == 0 {
        seq![]
    } else {
        blocks_text(bs.drop_last()) + block_text(bs.last())
    }
}

/// Appends each cell's text followed by a tab.
pub fn push_cells_tabbed(out: &mut String, cells: &Vec<Vec<Inline>>)
    ensures
        final(out)@ == old(out)@ + cells_tabbed(cells_view(cells@)),
{
    let mut k: usize = 0;
    while k < cells.len()
        invariant
            k <= cells@.len(),
            out@ == old(out)@ + cells_tabbed(cells_view(cells@).take(k as int)),
        decreases cells.len() - k,
    {
        push_inlines_text(out, &cells[k]);
        push_char(out, '\t');
        proof {
            let cv = cells_view(cells@);
            assert(cv.take(k + 1).drop_last() =~= cv.take(k as int));
        }
        k = k + 1;
    }
    assert(cells_view(cells@).take(k as int) =~= cells_view(cells@));
}

/// Appends each row as a line of tab-terminated cells.
pub fn push_rows_tabbed(out: &mut String, rows: &Vec<Vec<Vec<Inline>>>)
    ensures
        final(out)@ == old(out)@ + rows_tabbed(rows_view(rows@)),
{
    let mut k: usize = 0;
    while k < rows.len()
        invariant
            k <= rows@.len(),
            out@ == old(out)@ + rows_tabbed(rows_view(rows@).take(k as int)),
        decreases rows.len() - k,
    {
        push_cells_tabbed(out, &rows[k]);
        push_char(out, '\n');
        proof {
            let rv = rows_view(rows@);
            assert(rv.take(k + 1).drop_last() =~= rv.take(k as int));
        }
        k = k + 1;
    }
    assert(rows_view(rows@).take(k as int) =~= rows_view(rows@));
}

/// Appends the items numbered from 1, one per line.
pub fn push_numbered_items(out: &mut String, items: &Vec<Vec<Inline>>)
    ensures
        final(out)@ == old(out)@ + numbered_items(cells_view(items@)),
{
    let mut k: usize = 0;
    while k < items.len()
        invariant
            k <= items@.len(),
            out@ == old(out)@ + numbered_items(cells_view(items@).take(k as int)),
        decreases items.len() - k,
    {
        push_decimal(out, (k as u64) + 1);
        push_str(out, ". ");
        push_inlines_text(out, &items[k]);
        push_char(out, '\n');
        proof {
            let iv = cells_view(items@);
            assert(iv.take(k + 1).drop_last() =~= iv.take(k as int));
            assert(iv.take(k + 1).len() == k + 1);
        }
        k = k + 1;
    }
    assert(cells_view(items@).take(k as int) =~= cells_view(items@));
}

/// Appends the plain text of one block.
pub fn push_block_text(out: &mut String, b: &Block)
    ensures
        final(out)@ == old(out)@ + block_text(b@),
{
    match b {
        Block::Paragraph(v) => {
            push_inlines_text(out, v);
            push_char(out, '\n');
        },
        Block::Heading { level: _, content } => {
            push_inlines_text(out, content);
            push_char(out, '\n');
        },
        Block::Table { headers, rows } => {
            push_rows_tabbed(out, headers);
            push_rows_tabbed(out, rows);
            push_char(out, '\n');
        },
        Block::List { ordered: _, items } => {
            push_numbered_items(out, items);
            push_char(out, '\n');
        },
        Block::Code { language: _, content } => {
            push_str(out, content.as_str());
            push_char(out, '\n');
        },
        Block::Blockquote(v) => {
            push_inlines_text(out, v);
            push_char(out, '\n');
        },
        Block::Image { src: _, alt, .. } => {
            push_str(out, alt.as_str());
            push_char(out, '\n');
        },
        Block::HorizontalRule => {
            push_str(out, "---\n");
        },
        Block::TableFromCsv(t) => {
            push_str(out, t.as_str());
            push_char(out, '\n');
        },
    }
    assert(out@ =~= old(out)@ + block_text(b@));
}

impl Document {
    /// The plain text of the whole document.
    pub fn plain_text(&self) -> (r: String)
        ensures
            r@ == blocks_text(self.blocks_view()),
    {
        let mut out = String::new();
        let mut k: usize = 0;
        while k < self.blocks.len()
            invariant
                k <= self.blocks@.len(),
                out@ == blocks_text(self.blocks_view().take(k as int)),
            decreases self.blocks.len() - k,
        {
            push_block_text(&mut out, &self.blocks[k]);
            proof {
                let bv = self.blocks_view();
                assert(bv.take(k + 1).drop_last() =~= bv.take(k as int));
            }
            k = k + 1;
        }
        assert(self.blocks_view().take(k as int) =~= self.blocks_view());
        out
    }
}

impl Default for Document {
    fn default() -> (r: Document)
        ensures
            r.metadata.is_empty(),
            r.blocks_view() == Seq::<BlockView>::empty(),
    {
        Document::new()
    }
}

} // verus!
