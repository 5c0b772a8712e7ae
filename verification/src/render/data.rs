//! JSON and YAML output: the document as a tree of plain data, printed by
//! `serde_json` and `serde_yaml`.
use vstd::prelude::*;
use crate::error::FlipError;
use crate::ir::{
    blocks_view, cells_view, inlines_plain_text, inlines_text, inlines_view, opt_view, rows_view,
    Block, BlockView, Document, Inline, InlineView,
};
use crate::strutil::into_bytes;

verus! {

/// A tree of plain data: what JSON and YAML can hold. Map entries keep the
/// order in which they were written.
pub enum DataValue {
    Null,
    Bool(bool),
    Int(u64),
    Str(String),
    List(Vec<DataValue>),
    Object(Vec<(String, DataValue)>),
}

/// The value of a [`DataValue`].
pub enum DataView {
    Null,
    Bool(bool),
    Int(u64),
    Str(Seq<char>),
    List(Seq<DataView>),
    Object(Seq<(Seq<char>, DataView)>),
}

/// The value of a data tree.
pub open spec fn data_view(v: DataValue) -> DataView
    decreases v, 0int,
{
    match v {
        DataValue::Null => DataView::Null,
        DataValue::Bool(b) => DataView::Bool(b),
        DataValue::Int(n) => DataView::Int(n),
        DataValue::Str(s) => DataView::Str(s@),
        DataValue::List(l) => DataView::List(data_list_view(l@)),
        DataValue::Object(m) => DataView::Object(data_map_view(m@)),
    }
}

/// The values of a list of data trees.
pub open spec fn data_list_view(s: Seq<DataValue>) -> Seq<DataView>
    decreases s, 1int,
{
    if s.len() == 0 {
        seq![]
    } else {
        data_list_view(s.drop_last()).push(data_view(s.last()))
    }
}

/// The values of the entries of a map.
pub open spec fn data_map_view(s: Seq<(String, DataValue)>) -> Seq<(Seq<char>, DataView)>
    decreases s, 1int,
{
    if s.len() == 0 {
        seq![]
    } else {
        data_map_view(s.drop_last()).push((s.last().0@, data_view(s.last().1)))
    }
}

impl View for DataValue {
    type V = DataView;

    open spec fn view(&self) -> DataView {
        data_view(*self)
    }
}

/// The data of an optional string: the string, or null.
pub open spec fn opt_data(o: Option<Seq<char>>) -> DataView {
    match o {
        Some(s) => DataView::Str(s),
        None => DataView::Null,
    }
}

/// A growing list of data trees.
fn list_push(v: &mut Vec<DataValue>, x: DataValue)
    ensures
        data_list_view(final(v)@) == data_list_view(old(v)@).push(x@),
{
    let ghost v0 = v@;
    v.push(x);
    assert(v@.drop_last() =~= v0);
}

/// A growing list of map entries.
fn entry_push(v: &mut Vec<(String, DataValue)>, k: &str, x: DataValue)
    ensures
        data_map_view(final(v)@) == data_map_view(old(v)@).push((k@, x@)),
{
    let ghost v0 = v@;
    v.push((k.to_owned(), x));
    assert(v@.drop_last() =~= v0);
}

fn str_value(s: &str) -> (r: DataValue)
    ensures
        r@ == DataView::Str(s@),
{
    DataValue::Str(s.to_owned())
}

fn opt_value(o: &Option<String>) -> (r: DataValue)
    ensures
        r@ == opt_data(opt_view(*o)),
{
    match o {
        Some(s) => DataValue::Str(s.clone()),
        None => DataValue::Null,
    }
}

/// An object of the given type with one more entry.
pub open spec fn typed(t: Seq<char>, rest: Seq<(Seq<char>, DataView)>) -> DataView {
    DataView::Object(seq![("type"@, DataView::Str(t))] + rest)
}

/// The JSON data of an inline.
pub open spec fn json_inline(i: InlineView) -> DataView
    decreases i, 0int,
{
    match i {
        InlineView::Text(t) => typed("text"@, seq![("value"@, DataView::Str(t))]),
        InlineView::Bold(c) => typed(
            "bold"@,
            seq![("content"@, DataView::List(json_inline_list(c)))],
        ),
        InlineView::Italic(c) => typed(
            "italic"@,
            seq![("content"@, DataView::List(json_inline_list(c)))],
        ),
        InlineView::Strikethrough(c) => typed(
            "strikethrough"@,
            seq![("content"@, DataView::List(json_inline_list(c)))],
        ),
        InlineView::Code(t) => typed("code"@, seq![("value"@, DataView::Str(t))]),
        InlineView::Link { text, url } => typed(
            "link"@,
            seq![("text"@, DataView::List(json_inline_list(text))), ("url"@, DataView::Str(url))],
        ),
        InlineView::Image { alt, src } => typed(
            "image"@,
            seq![("alt"@, DataView::Str(alt)), ("src"@, DataView::Str(src))],
        ),
        InlineView::Superscript(c) => typed(
            "superscript"@,
            seq![("content"@, DataView::List(json_inline_list(c)))],
        ),
        InlineView::Subscript(c) => typed(
            "subscript"@,
            seq![("content"@, DataView::List(json_inline_list(c)))],
        ),
    }
}

/// The JSON data of a run of inlines, one element each.
pub open spec fn json_inline_list(s: Seq<InlineView>) -> Seq<DataView>
    decreases s, 1int,
{
    if s.len() == 0 {
        seq![]
    } else {
        json_inline_list(s.drop_last()).push(json_inline(s.last()))
    }
}

/// The JSON data of a run of inlines: an array.
pub open spec fn json_inlines(s: Seq<InlineView>) -> DataView {
    DataView::List(json_inline_list(s))
}

fn typed_start(t: &str) -> (r: Vec<(String, DataValue)>)
    ensures
        data_map_view(r@) == seq![("type"@, DataView::Str(t@))],
{
    let mut v: Vec<(String, DataValue)> = Vec::new();
    entry_push(&mut v, "type", str_value(t));
    assert(data_map_view(v@) =~= seq![("type"@, DataView::Str(t@))]);
    v
}

fn inline_obj(t: &str, key: &str, x: DataValue) -> (r: DataValue)
    ensures
        r@ == typed(t@, seq![(key@, x@)]),
{
    let mut v = typed_start(t);
    entry_push(&mut v, key, x);
    let r = DataValue::Object(v);
    assert(r@ == DataView::Object(data_map_view(v@)));
    assert(data_map_view(v@) =~= seq![("type"@, DataView::Str(t@))] + seq![(key@, x@)]);
    r
}

fn inline_obj2(t: &str, k1: &str, x1: DataValue, k2: &str, x2: DataValue) -> (r: DataValue)
    ensures
        r@ == typed(t@, seq![(k1@, x1@), (k2@, x2@)]),
{
    let mut v = typed_start(t);
    entry_push(&mut v, k1, x1);
    entry_push(&mut v, k2, x2);
    let r = DataValue::Object(v);
    assert(r@ == DataView::Object(data_map_view(v@)));
    assert(data_map_view(v@) =~= seq![("type"@, DataView::Str(t@))] + seq![
        (k1@, x1@),
        (k2@, x2@),
    ]);
    r
}

/// The JSON data of an inline.
pub fn inline_to_json(i: &Inline) -> (r: DataValue)
    ensures
        r@ == json_inline(i@),
    decreases i, 0int,
{
    match i {
        Inline::Text(t) => inline_obj("text", "value", str_value(t.as_str())),
        Inline::Bold(c) => inline_obj("bold", "content", inlines_to_json(c)),
        Inline::Italic(c) => inline_obj("italic", "content", inlines_to_json(c)),
        Inline::Strikethrough(c) => inline_obj("strikethrough", "content", inlines_to_json(c)),
        Inline::Code(t) => inline_obj("code", "value", str_value(t.as_str())),
        Inline::Link { text, url } => inline_obj2(
            "link",
            "text",
            inlines_to_json(text),
            "url",
            str_value(url.as_str()),
        ),
        Inline::Image { alt, src } => inline_obj2(
            "image",
            "alt",
            str_value(alt.as_str()),
            "src",
            str_value(src.as_str()),
        ),
        Inline::Superscript(c) => inline_obj("superscript", "content", inlines_to_json(c)),
        Inline::Subscript(c) => inline_obj("subscript", "content", inlines_to_json(c)),
    }
}

/// The JSON data of a run of inlines: an array with one element each.
pub fn inlines_to_json(v: &Vec<Inline>) -> (r: DataValue)
    ensures
        r@ == json_inlines(inlines_view(v@)),
    decreases v, 1int,
{
    let mut out: Vec<DataValue> = Vec::new();
    let mut k: usize = 0;
    while k < v.len()
        invariant
            k <= v@.len(),
            data_list_view(out@) == json_inline_list(inlines_view(v@.take(k as int))),
        decreases v.len() - k,
    {
        let x = inline_to_json(&v[k]);
        list_push(&mut out, x);
        proof {
            let pre = v@.take(k as int);
            assert(v@.take(k + 1).drop_last() =~= pre);
            assert(inlines_view(v@.take(k + 1)) == inlines_view(pre).push(v@[k as int]@));
            assert(inlines_view(pre).push(v@[k as int]@).drop_last() =~= inlines_view(pre));
        }
        k = k + 1;
    }
    assert(v@.take(k as int) =~= v@);
    DataValue::List(out)
}

/// The JSON data of table cells (or list items), one array each.
pub open spec fn json_cells(cells: Seq<Seq<InlineView>>) -> Seq<DataView> {
    cells.map_values(|c: Seq<InlineView>| json_inlines(c))
}

/// The JSON data of table rows, one array of cells each.
pub open spec fn json_table_rows(rows: Seq<Seq<Seq<InlineView>>>) -> Seq<DataView> {
    rows.map_values(|r: Seq<Seq<InlineView>>| DataView::List(json_cells(r)))
}

/// The JSON data of a block: an object with its `type` first.
pub open spec fn json_block(b: BlockView) -> DataView {
    match b {
        BlockView::Paragraph(c) => typed("paragraph"@, seq![("content"@, json_inlines(c))]),
        BlockView::Heading { level, content } => typed(
            "heading"@,
            seq![("level"@, DataView::Int(level as u64)), ("content"@, json_inlines(content))],
        ),
        BlockView::Code { language, content } => typed(
            "code"@,
            seq![("language"@, opt_data(language)), ("content"@, DataView::Str(content))],
        ),
        BlockView::List { ordered, items } => typed(
            "list"@,
            seq![("ordered"@, DataView::Bool(ordered)), ("items"@, DataView::List(json_cells(items)))],
        ),
        BlockView::Table { headers, rows } => typed(
            "table"@,
            seq![
                ("headers"@, DataView::List(json_table_rows(headers))),
                ("rows"@, DataView::List(json_table_rows(rows))),
            ],
        ),
        BlockView::Blockquote(c) => typed("blockquote"@, seq![("content"@, json_inlines(c))]),
        BlockView::Image { src, alt, width: _, height: _ } => typed(
            "image"@,
            seq![("src"@, DataView::Str(src)), ("alt"@, DataView::Str(alt))],
        ),
        BlockView::HorizontalRule => typed("horizontal_rule"@, seq![]),
        BlockView::TableFromCsv(t) => typed("csv"@, seq![("content"@, DataView::Str(t))]),
    }
}

/// The metadata object: title, author and source format, null when absent.
pub open spec fn meta_data(
    title: Option<Seq<char>>,
    author: Option<Seq<char>>,
    source: Option<Seq<char>>,
) -> DataView {
    DataView::Object(
        seq![
            ("title"@, opt_data(title)),
            ("author"@, opt_data(author)),
            ("source_format"@, opt_data(source)),
        ],
    )
}

/// The JSON data of a whole document.
pub open spec fn json_document(
    title: Option<Seq<char>>,
    author: Option<Seq<char>>,
    source: Option<Seq<char>>,
    bs: Seq<BlockView>,
) -> DataView {
    DataView::Object(
        seq![
            ("metadata"@, meta_data(title, author, source)),
            ("blocks"@, DataView::List(bs.map_values(|b: BlockView| json_block(b)))),
        ],
    )
}

fn cells_to_json(cells: &Vec<Vec<Inline>>) -> (r: Vec<DataValue>)
    ensures
        data_list_view(r@) == json_cells(cells_view(cells@)),
{
    let mut out: Vec<DataValue> = Vec::new();
    let mut k: usize = 0;
    while k < cells.len()
        invariant
            k <= cells@.len(),
            data_list_view(out@) == json_cells(cells_view(cells@.take(k as int))),
        decreases cells.len() - k,
    {
        list_push(&mut out, inlines_to_json(&cells[k]));
        proof {
            assert(json_cells(cells_view(cells@.take(k + 1))) =~= json_cells(
                cells_view(cells@.take(k as int)),
            ).push(json_inlines(inlines_view(cells@[k as int]@))));
        }
        k = k + 1;
    }
    assert(cells@.take(k as int) =~= cells@);
    out
}

fn rows_to_json(rows: &Vec<Vec<Vec<Inline>>>) -> (r: DataValue)
    ensures
        r@ == DataView::List(json_table_rows(rows_view(rows@))),
{
    let mut out: Vec<DataValue> = Vec::new();
    let mut k: usize = 0;
    while k < rows.len()
        invariant
            k <= rows@.len(),
            data_list_view(out@) == json_table_rows(rows_view(rows@.take(k as int))),
        decreases rows.len() - k,
    {
        let cells = cells_to_json(&rows[k]);
        let x = DataValue::List(cells);
        list_push(&mut out, x);
        proof {
            assert(json_table_rows(rows_view(rows@.take(k + 1))) =~= json_table_rows(
                rows_view(rows@.take(k as int)),
            ).push(DataView::List(json_cells(cells_view(rows@[k as int]@)))));
        }
        k = k + 1;
    }
    assert(rows@.take(k as int) =~= rows@);
    DataValue::List(out)
}

/// The JSON data of a block.
pub fn block_to_json(b: &Block) -> (r: DataValue)
    ensures
        r@ == json_block(b@),
{
    match b {
        Block::Paragraph(c) => inline_obj("paragraph", "content", inlines_to_json(c)),
        Block::Heading { level, content } => inline_obj2(
            "heading",
            "level",
            DataValue::Int(*level as u64),
            "content",
            inlines_to_json(content),
        ),
        Block::Code { language, content } => inline_obj2(
            "code",
            "language",
            opt_value(language),
            "content",
            str_value(content.as_str()),
        ),
        Block::List { ordered, items } => {
            let cells = cells_to_json(items);
            inline_obj2("list", "ordered", DataValue::Bool(*ordered), "items", DataValue::List(cells))
        },
        Block::Table { headers, rows } => inline_obj2(
            "table",
            "headers",
            rows_to_json(headers),
            "rows",
            rows_to_json(rows),
        ),
        Block::Blockquote(c) => inline_obj("blockquote", "content", inlines_to_json(c)),
        Block::Image { src, alt, .. } => inline_obj2(
            "image",
            "src",
            str_value(src.as_str()),
            "alt",
            str_value(alt.as_str()),
        ),
        Block::HorizontalRule => {
            let v = typed_start("horizontal_rule");
            let r = DataValue::Object(v);
            assert(data_map_view(v@) =~= seq![("type"@, DataView::Str("horizontal_rule"@))]
                + Seq::<(Seq<char>, DataView)>::empty());
            r
        },
        Block::TableFromCsv(t) => inline_obj("csv", "content", str_value(t.as_str())),
    }
}

fn meta_value(doc: &Document) -> (r: DataValue)
    ensures
        r@ == meta_data(
            opt_view(doc.metadata.title),
            opt_view(doc.metadata.author),
            opt_view(doc.metadata.source_format),
        ),
{
    let mut m: Vec<(String, DataValue)> = Vec::new();
    entry_push(&mut m, "title", opt_value(&doc.metadata.title));
    entry_push(&mut m, "author", opt_value(&doc.metadata.author));
    entry_push(&mut m, "source_format", opt_value(&doc.metadata.source_format));
    let r = DataValue::Object(m);
    assert(data_map_view(m@) =~= seq![
        ("title"@, opt_data(opt_view(doc.metadata.title))),
        ("author"@, opt_data(opt_view(doc.metadata.author))),
        ("source_format"@, opt_data(opt_view(doc.metadata.source_format))),
    ]);
    r
}

/// The JSON data of a document: its metadata and its blocks.
pub fn document_to_json(doc: &Document) -> (r: DataValue)
    ensures
        r@ == json_document(
            opt_view(doc.metadata.title),
            opt_view(doc.metadata.author),
            opt_view(doc.metadata.source_format),
            doc.blocks_view(),
        ),
{
    let mut out: Vec<DataValue> = Vec::new();
    let mut k: usize = 0;
    while k < doc.blocks.len()
        invariant
            k <= doc.blocks@.len(),
            data_list_view(out@) == blocks_view(doc.blocks@.take(k as int)).map_values(
                |b: BlockView| json_block(b),
            ),
        decreases doc.blocks.len() - k,
    {
        list_push(&mut out, block_to_json(&doc.blocks[k]));
        proof {
            assert(blocks_view(doc.blocks@.take(k + 1)).map_values(|b: BlockView| json_block(b))
                =~= blocks_view(doc.blocks@.take(k as int)).map_values(
                |b: BlockView| json_block(b),
            ).push(json_block(doc.blocks@[k as int]@)));
        }
        k = k + 1;
    }
    assert(doc.blocks@.take(k as int) =~= doc.blocks@);
    let mut m: Vec<(String, DataValue)> = Vec::new();
    entry_push(&mut m, "metadata", meta_value(doc));
    entry_push(&mut m, "blocks", DataValue::List(out));
    let r = DataValue::Object(m);
    assert(data_map_view(m@) =~= seq![
        (
            "metadata"@,
            meta_data(
                opt_view(doc.metadata.title),
                opt_view(doc.metadata.author),
                opt_view(doc.metadata.source_format),
            ),
        ),
        ("blocks"@, DataView::List(doc.blocks_view().map_values(|b: BlockView| json_block(b)))),
    ]);
    r
}

/// The YAML entry of a block: paragraphs, headings, code and quotes give an
/// object with `type`, `content` and `level` (and `language` for code that
/// names one); other blocks give nothing.
pub open spec fn yaml_block(b: BlockView) -> Option<DataView> {
    match b {
        BlockView::Paragraph(c) => Some(
            typed("paragraph"@, seq![("content"@, DataView::Str(inlines_text(c))), ("level"@, DataView::Null)]),
        ),
        BlockView::Heading { level, content } => Some(
            typed(
                "heading"@,
                seq![
                    ("content"@, DataView::Str(inlines_text(content))),
                    ("level"@, DataView::Int(level as u64)),
                ],
            ),
        ),
        BlockView::Code { language, content } => Some(
            typed(
                "code"@,
                seq![("content"@, DataView::Str(content)), ("level"@, DataView::Null)] + match language {
                    Some(l) => seq![("language"@, DataView::Str(l))],
                    None => seq![],
                },
            ),
        ),
        BlockView::Blockquote(c) => Some(
            typed("blockquote"@, seq![("content"@, DataView::Str(inlines_text(c))), ("level"@, DataView::Null)]),
        ),
        _ => None,
    }
}

/// The YAML entries of a sequence of blocks.
pub open spec fn yaml_blocks(bs: Seq<BlockView>) -> Seq<DataView>
    decreases bs.len(),
{
    if bs.len() == 0 {
        seq![]
    } else {
        match yaml_block(bs.last()) {
            Some(d) => yaml_blocks(bs.drop_last()).push(d),
            None => yaml_blocks(bs.drop_last()),
        }
    }
}

/// The YAML data of a whole document.
pub open spec fn yaml_document(
    title: Option<Seq<char>>,
    author: Option<Seq<char>>,
    source: Option<Seq<char>>,
    bs: Seq<BlockView>,
) -> DataView {
    DataView::Object(
        seq![
            ("metadata"@, meta_data(title, author, source)),
            ("blocks"@, DataView::List(yaml_blocks(bs))),
        ],
    )
}

fn text_entry(t: &str, c: &Vec<Inline>, level: DataValue) -> (r: DataValue)
    ensures
        r@ == typed(t@, seq![("content"@, DataView::Str(inlines_text(inlines_view(c@)))), ("level"@, level@)]),
{
    let text = inlines_plain_text(c);
    inline_obj2(t, "content", DataValue::Str(text), "level", level)
}

/// The YAML entry of a block, if it has one.
pub fn block_to_yaml(b: &Block) -> (r: Option<DataValue>)
    ensures
        match r {
            Some(d) => yaml_block(b@) == Some(d@),
            None => yaml_block(b@) is None,
        },
{
    match b {
        Block::Paragraph(c) => Some(text_entry("paragraph", c, DataValue::Null)),
        Block::Heading { level, content } => Some(
            text_entry("heading", content, DataValue::Int(*level as u64)),
        ),
        Block::Code { language, content } => {
            let mut v = typed_start("code");
            entry_push(&mut v, "content", str_value(content.as_str()));
            entry_push(&mut v, "level", DataValue::Null);
            match language {
                Some(l) => entry_push(&mut v, "language", str_value(l.as_str())),
                None => {},
            }
            let r = DataValue::Object(v);
            proof {
                let base = seq![("content"@, DataView::Str(content@)), ("level"@, DataView::Null)];
                match language {
                    Some(l) => {
                        assert(data_map_view(v@) =~= seq![("type"@, DataView::Str("code"@))] + (
                        base + seq![("language"@, DataView::Str(l@))]));
                    },
                    None => {
                        assert(data_map_view(v@) =~= seq![("type"@, DataView::Str("code"@))] + (
                        base + Seq::<(Seq<char>, DataView)>::empty()));
                    },
                }
            }
            Some(r)
        },
        Block::Blockquote(c) => Some(text_entry("blockquote", c, DataValue::Null)),
        _ => None,
    }
}

/// The YAML data of a document: its metadata and the entries of its blocks.
pub fn document_to_yaml(doc: &Document) -> (r: DataValue)
    ensures
        r@ == yaml_document(
            opt_view(doc.metadata.title),
            opt_view(doc.metadata.author),
            opt_view(doc.metadata.source_format),
            doc.blocks_view(),
        ),
{
    let mut out: Vec<DataValue> = Vec::new();
    let mut k: usize = 0;
    while k < doc.blocks.len()
        invariant
            k <= doc.blocks@.len(),
            data_list_view(out@) == yaml_blocks(blocks_view(doc.blocks@.take(k as int))),
        decreases doc.blocks.len() - k,
    {
        proof {
            assert(blocks_view(doc.blocks@.take(k + 1)).drop_last() =~= blocks_view(
                doc.blocks@.take(k as int),
            ));
            assert(blocks_view(doc.blocks@.take(k + 1)).last() == doc.blocks@[k as int]@);
        }
        match block_to_yaml(&doc.blocks[k]) {
            Some(d) => list_push(&mut out, d),
            None => {},
        }
        k = k + 1;
    }
    assert(doc.blocks@.take(k as int) =~= doc.blocks@);
    let mut m: Vec<(String, DataValue)> = Vec::new();
    entry_push(&mut m, "metadata", meta_value(doc));
    entry_push(&mut m, "blocks", DataValue::List(out));
    let r = DataValue::Object(m);
    assert(data_map_view(m@) =~= seq![
        (
            "metadata"@,
            meta_data(
                opt_view(doc.metadata.title),
                opt_view(doc.metadata.author),
                opt_view(doc.metadata.source_format),
            ),
        ),
        ("blocks"@, DataView::List(yaml_blocks(doc.blocks_view()))),
    ]);
    r
}

#[verifier::external_type_specification]
#[verifier::external_body]
pub struct ExJsonValue(serde_json::Value);

#[verifier::external_type_specification]
#[verifier::external_body]
pub struct ExYamlValue(serde_yaml::Value);

/// The `serde_json::Value` holding the same tree: numbers, strings, arrays and
/// objects one for one (the object's key order is `serde_json::Map`'s).
#[verifier::external_body]
fn json_value(v: &DataValue) -> serde_json::Value {
    match v {
        DataValue::Null => serde_json::Value::Null,
        DataValue::Bool(b) => serde_json::Value::Bool(*b),
        DataValue::Int(n) => serde_json::Value::from(*n),
        DataValue::Str(s) => serde_json::Value::String(s.clone()),
        DataValue::List(l) => serde_json::Value::Array(l.iter().map(json_value).collect()),
        DataValue::Object(m) => serde_json::Value::Object(
            m.iter().map(|(k, x)| (k.clone(), json_value(x))).collect(),
        ),
    }
}

/// The `serde_yaml::Value` holding the same tree, map entries in order.
#[verifier::external_body]
fn yaml_value(v: &DataValue) -> serde_yaml::Value {
    match v {
        DataValue::Null => serde_yaml::Value::Null,
        DataValue::Bool(b) => serde_yaml::Value::Bool(*b),
        DataValue::Int(n) => serde_yaml::Value::from(*n),
        DataValue::Str(s) => serde_yaml::Value::String(s.clone()),
        DataValue::List(l) => serde_yaml::Value::Sequence(l.iter().map(yaml_value).collect()),
        DataValue::Object(m) => serde_yaml::Value::Mapping(
            m.iter().map(|(k, x)| (serde_yaml::Value::String(k.clone()), yaml_value(x))).collect(),
        ),
    }
}

/// The text `serde_json::to_string_pretty` prints for a data tree, or nothing
/// when it fails.
pub uninterp spec fn json_pretty(v: DataView) -> Option<Seq<char>>;

/// The text `serde_yaml::to_string` prints for a data tree, or nothing when it
/// fails.
pub uninterp spec fn yaml_text(v: DataView) -> Option<Seq<char>>;

/// `serde_json::to_string_pretty` on the tree. The result is named
/// `json_pretty`. It does not fail: the documentation names a failing
/// `Serialize` impl and maps with keys that are not strings as the only
/// causes, and a `serde_json::Value` has neither.
#[verifier::external_body]
fn to_json_pretty(v: &DataValue) -> (r: Option<String>)
    ensures
        r is Some,
        opt_view(r) == json_pretty(v@),
{
    serde_json::to_string_pretty(&json_value(v)).ok()
}

/// `serde_yaml::to_string` on the tree. The result is named `yaml_text`. It
/// does not fail: the documentation names a failing `Serialize` impl as the
/// cause, and a `serde_yaml::Value` of nulls, booleans, numbers, strings,
/// sequences and string-keyed mappings serializes without one.
#[verifier::external_body]
fn to_yaml_string(v: &DataValue) -> (r: Option<String>)
    ensures
        r is Some,
        opt_view(r) == yaml_text(v@),
{
    serde_yaml::to_string(&yaml_value(v)).ok()
}

/// The JSON output for a data tree: its pretty-printed text as UTF-8 bytes,
/// or the JSON error when printing fails.
pub fn json_bytes_of(v: &DataValue) -> (r: Result<Vec<u8>, FlipError>)
    ensures
        r is Ok,
        match r {
            Ok(b) => json_pretty(v@) matches Some(t) && b@ == vstd::utf8::encode_utf8(t),
            Err(e) => e == FlipError::Json && json_pretty(v@) is None,
        },
{
    match to_json_pretty(v) {
        Some(t) => Ok(into_bytes(t)),
        None => Err(FlipError::Json),
    }
}

/// The YAML output for a data tree as UTF-8 bytes, or the YAML error.
pub fn yaml_bytes_of(v: &DataValue) -> (r: Result<Vec<u8>, FlipError>)
    ensures
        r is Ok,
        match r {
            Ok(b) => yaml_text(v@) matches Some(t) && b@ == vstd::utf8::encode_utf8(t),
            Err(e) => e == FlipError::Yaml && yaml_text(v@) is None,
        },
{
    match to_yaml_string(v) {
        Some(t) => Ok(into_bytes(t)),
        None => Err(FlipError::Yaml),
    }
}

/// The JSON output of a document.
pub fn render_json_bytes(doc: &Document) -> (r: Result<Vec<u8>, FlipError>)
    ensures
        r is Ok,
        ({
            let d = json_document(
                opt_view(doc.metadata.title),
                opt_view(doc.metadata.author),
                opt_view(doc.metadata.source_format),
                doc.blocks_view(),
            );
            match r {
                Ok(b) => json_pretty(d) matches Some(t) && b@ == vstd::utf8::encode_utf8(t),
                Err(e) => e == FlipError::Json && json_pretty(d) is None,
            }
        }),
{
    json_bytes_of(&document_to_json(doc))
}

/// The YAML output of a document.
pub fn render_yaml_bytes(doc: &Document) -> (r: Result<Vec<u8>, FlipError>)
    ensures
        r is Ok,
        ({
            let d = yaml_document(
                opt_view(doc.metadata.title),
                opt_view(doc.metadata.author),
                opt_view(doc.metadata.source_format),
                doc.blocks_view(),
            );
            match r {
                Ok(b) => yaml_text(d) matches Some(t) && b@ == vstd::utf8::encode_utf8(t),
                Err(e) => e == FlipError::Yaml && yaml_text(d) is None,
            }
        }),
{
    yaml_bytes_of(&document_to_yaml(doc))
}

} // verus!
