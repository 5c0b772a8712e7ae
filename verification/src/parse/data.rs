//! CSV, JSON and YAML input.
use vstd::prelude::*;
use crate::error::FlipError;
use crate::ir::{rows_view, text_run, Block, BlockView, Document, Inline, InlineView, Metadata};
use crate::parse::html::{line_paragraphs, push_line_paragraphs};
use crate::render::csv::records_view;
use crate::strutil::{chars_of, nonblank_lines, nonblank_lines_of, strings_view};

verus! {

/// The header fields and records `csv::Reader` (default settings) reads from
/// a text, or nothing when it reports an error.
pub uninterp spec fn csv_table(content: Seq<char>) -> Option<(Seq<Seq<char>>, Seq<Seq<Seq<char>>>)>;

/// Reads the header and every record with `csv::Reader::from_reader`. The
/// result is named `csv_table`.
#[verifier::external_body]
fn read_csv(content: &str) -> (r: Option<(Vec<String>, Vec<Vec<String>>)>)
    ensures
        match r {
            Some((h, rows)) => csv_table(content@) == Some((strings_view(h@), records_view(rows@))),
            None => csv_table(content@) is None,
        },
{
    let mut rdr = csv::Reader::from_reader(content.as_bytes());
    let header: Vec<String> = rdr.headers().ok()?.iter().map(|h| h.to_string()).collect();
    let rows: Option<Vec<Vec<String>>> = rdr
        .records()
        .map(|r| r.ok().map(|rec| rec.iter().map(|f| f.to_string()).collect()))
        .collect();
    Some((header, rows?))
}

/// A table cell holding one text run.
pub open spec fn text_cell(t: Seq<char>) -> Seq<InlineView> {
    seq![InlineView::Text(t)]
}

/// A row of text cells.
pub open spec fn text_cells(fields: Seq<Seq<char>>) -> Seq<Seq<InlineView>> {
    fields.map_values(|f: Seq<char>| text_cell(f))
}

/// The blocks read from a CSV header and records: one table, whose header is
/// the header row when it has fields, or nothing when there is neither a
/// header field nor a record.
pub open spec fn csv_blocks(header: Seq<Seq<char>>, records: Seq<Seq<Seq<char>>>) -> Seq<BlockView> {
    if header.len() == 0 && records.len() == 0 {
        seq![]
    } else {
        seq![
            BlockView::Table {
                headers: if header.len() == 0 {
                    seq![]
                } else {
                    seq![text_cells(header)]
                },
                rows: records.map_values(|r: Seq<Seq<char>>| text_cells(r)),
            },
        ]
    }
}

fn cells_of(fields: &Vec<String>) -> (r: Vec<Vec<Inline>>)
    ensures
        crate::ir::cells_view(r@) == text_cells(strings_view(fields@)),
{
    let mut out: Vec<Vec<Inline>> = Vec::new();
    let mut k: usize = 0;
    while k < fields.len()
        invariant
            k <= fields@.len(),
            crate::ir::cells_view(out@) == text_cells(strings_view(fields@.take(k as int))),
        decreases fields.len() - k,
    {
        let c = text_run(fields[k].as_str());
        let ghost o0 = out@;
        out.push(c);
        proof {
            assert(crate::ir::cells_view(out@) =~= crate::ir::cells_view(o0).push(
                text_cell(fields@[k as int]@),
            ));
            assert(text_cells(strings_view(fields@.take(k + 1))) =~= text_cells(
                strings_view(fields@.take(k as int)),
            ).push(text_cell(fields@[k as int]@)));
        }
        k = k + 1;
    }
    assert(fields@.take(k as int) =~= fields@);
    out
}

/// Builds the document for a CSV header and records.
pub fn csv_document(header: &Vec<String>, records: &Vec<Vec<String>>) -> (d: Document)
    ensures
        d.metadata.only_source("csv"@),
        d.blocks_view() == csv_blocks(strings_view(header@), records_view(records@)),
{
    let mut doc = Document::new();
    doc.metadata = Metadata::with_source("csv");
    let mut headers: Vec<Vec<Vec<Inline>>> = Vec::new();
    if header.len() > 0 {
        headers.push(cells_of(header));
    }
    let mut rows: Vec<Vec<Vec<Inline>>> = Vec::new();
    let mut k: usize = 0;
    while k < records.len()
        invariant
            k <= records@.len(),
            rows_view(rows@) == records_view(records@.take(k as int)).map_values(
                |r: Seq<Seq<char>>| text_cells(r),
            ),
        decreases records.len() - k,
    {
        let row = cells_of(&records[k]);
        let ghost r0 = rows@;
        rows.push(row);
        proof {
            assert(rows_view(rows@) =~= rows_view(r0).push(crate::ir::cells_view(row@)));
            assert(records_view(records@.take(k + 1)).map_values(
                |r: Seq<Seq<char>>| text_cells(r),
            ) =~= records_view(records@.take(k as int)).map_values(
                |r: Seq<Seq<char>>| text_cells(r),
            ).push(text_cells(strings_view(records@[k as int]@))));
        }
        k = k + 1;
    }
    assert(records@.take(k as int) =~= records@);
    if header.len() > 0 || records.len() > 0 {
        let ghost hv = rows_view(headers@);
        doc.push_block(Block::Table { headers, rows });
        proof {
            if header@.len() > 0 {
                assert(hv =~= seq![text_cells(strings_view(header@))]);
            } else {
                assert(hv =~= Seq::<Seq<Seq<InlineView>>>::empty());
            }
        }
    }
    assert(doc.blocks_view() =~= csv_blocks(strings_view(header@), records_view(records@)));
    doc
}

/// Reads a CSV text: its first record is the header.
pub fn parse_csv_str(content: &str) -> (r: Result<Document, FlipError>)
    ensures
        match csv_table(content@) {
            Some((h, rows)) => r matches Ok(d) && d.metadata.only_source("csv"@) && d.blocks_view()
                == csv_blocks(h, rows),
            None => r == Err::<Document, FlipError>(FlipError::Csv),
        },
{
    match read_csv(content) {
        Some((h, rows)) => Ok(csv_document(&h, &rows)),
        None => Err(FlipError::Csv),
    }
}

/// The text `serde_json::to_string_pretty` prints for the value
/// `serde_json::from_str` reads from a text, or nothing when either fails.
pub uninterp spec fn json_reformatted(content: Seq<char>) -> Option<Seq<char>>;

/// Parses the text as a `serde_json::Value` and pretty-prints it. The result
/// is named `json_reformatted`.
#[verifier::external_body]
fn reformat_json(content: &str) -> (r: Option<String>)
    ensures
        crate::ir::opt_view(r) == json_reformatted(content@),
{
    let v: serde_json::Value = serde_json::from_str(content).ok()?;
    serde_json::to_string_pretty(&v).ok()
}

/// The text `serde_yaml::to_string` prints for the value `serde_yaml::from_str`
/// reads from a text, or nothing when either fails.
pub uninterp spec fn yaml_reformatted(content: Seq<char>) -> Option<Seq<char>>;

/// Parses the text as a `serde_yaml::Value` and prints it again. The result is
/// named `yaml_reformatted`.
#[verifier::external_body]
fn reformat_yaml(content: &str) -> (r: Option<String>)
    ensures
        crate::ir::opt_view(r) == yaml_reformatted(content@),
{
    let v: serde_yaml::Value = serde_yaml::from_str(content).ok()?;
    serde_yaml::to_string(&v).ok()
}

/// A document of one paragraph per non-blank trimmed line of `text`.
pub fn lines_document(text: &str, source: &str) -> (d: Document)
    ensures
        d.metadata.only_source(source@),
        d.blocks_view() == line_paragraphs(nonblank_lines_of(text@)),
{
    let mut doc = Document::new();
    doc.metadata = Metadata::with_source(source);
    let cs = chars_of(text);
    let lines = nonblank_lines(&cs);
    push_line_paragraphs(&mut doc, &lines);
    assert(doc.blocks_view() =~= line_paragraphs(nonblank_lines_of(text@)));
    doc
}

/// Reads a JSON text: one paragraph per non-blank line of its pretty-printed
/// form.
pub fn parse_json_str(content: &str) -> (r: Result<Document, FlipError>)
    ensures
        match json_reformatted(content@) {
            Some(t) => r matches Ok(d) && d.metadata.only_source("json"@) && d.blocks_view()
                == line_paragraphs(nonblank_lines_of(t)),
            None => r == Err::<Document, FlipError>(FlipError::Json),
        },
{
    match reformat_json(content) {
        Some(t) => Ok(lines_document(t.as_str(), "json")),
        None => Err(FlipError::Json),
    }
}

/// Reads a YAML text: one paragraph per non-blank line of its printed form.
pub fn parse_yaml_str(content: &str) -> (r: Result<Document, FlipError>)
    ensures
        match yaml_reformatted(content@) {
            Some(t) => r matches Ok(d) && d.metadata.only_source("yaml"@) && d.blocks_view()
                == line_paragraphs(nonblank_lines_of(t)),
            None => r == Err::<Document, FlipError>(FlipError::Yaml),
        },
{
    match reformat_yaml(content) {
        Some(t) => Ok(lines_document(t.as_str(), "yaml")),
        None => Err(FlipError::Yaml),
    }
}

} // verus!
