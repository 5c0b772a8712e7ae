//! Container formats written in memory: zip packages, Excel workbooks and
//! EPUB books. The bytes these crates write carry the time of writing (zip
//! entry times, book identifiers), so nothing is claimed of them; what is
//! verified is the order in which parts go in and that every failure the
//! writers report ends the write.
use vstd::prelude::*;
use crate::render::office::parts_view;

verus! {

/// A `zip::ZipWriter` over an in-memory buffer. (Verus does not take a
/// declaration of the writer type, whose parameter is bound by
/// `std::io::Write + std::io::Seek`.)
#[verifier::external_body]
pub struct ZipOut {
    w: zip::ZipWriter<std::io::Cursor<Vec<u8>>>,
}

/// The entries (name, text) a zip writer into memory has been given so far,
/// in order.
pub uninterp spec fn zip_out_parts(z: ZipOut) -> Seq<(Seq<char>, Seq<char>)>;

/// Whether `bytes` is an archive the `zip` crate writes, deflated, for the
/// entries (name, text) in order. The archive records the time it was written,
/// so the entries do not determine the bytes; this says only that the bytes
/// are such an archive of these entries.
pub uninterp spec fn zip_written(parts: Seq<(Seq<char>, Seq<char>)>, bytes: Seq<u8>) -> bool;

/// Entries the zip writer takes without failing: distinct names of fewer than
/// 60000 bytes (a local header with its name must stay under 64 KiB), and
/// texts under 4 GiB (an entry written without the large-file option may hold
/// no more).
pub open spec fn zip_parts_fit(parts: Seq<(Seq<char>, Seq<char>)>) -> bool {
    &&& forall|i: int, j: int| 0 <= i < j < parts.len() ==> #[trigger] parts[i].0 != #[trigger] parts[j].0
    &&& forall|i: int|
        0 <= i < parts.len() ==> crate::strutil::byte_len(#[trigger] parts[i].0) < 60000
            && crate::strutil::byte_len(parts[i].1) < u32::MAX
}

/// `ZipWriter::new` over an empty buffer: a writer holding no entry.
#[verifier::external_body]
fn zip_writer() -> (z: ZipOut)
    ensures
        zip_out_parts(z) == Seq::<(Seq<char>, Seq<char>)>::empty(),
{
    ZipOut { w: zip::ZipWriter::new(std::io::Cursor::new(Vec::new())) }
}

/// `ZipWriter::start_file` with deflate compression and otherwise default
/// options: when it succeeds, the writer holds one more entry, of that name
/// and no text yet. It fails on a name already written or one too long for a
/// local header; writing into memory fails otherwise only where an entry
/// passed 4 GiB, which `zip_write_text` rules out. Nothing is claimed of the
/// writer after a failure.
#[verifier::external_body]
fn zip_start_file(z: &mut ZipOut, name: &str) -> (ok: bool)
    ensures
        (forall|k: int| 0 <= k < zip_out_parts(*old(z)).len() ==> #[trigger] zip_out_parts(*old(z))[k].0 != name@)
            && crate::strutil::byte_len(name@) < 60000 ==> ok,
        ok ==> zip_out_parts(*final(z)) == zip_out_parts(*old(z)).push((name@, Seq::<char>::empty())),
{
    let options = zip::write::SimpleFileOptions::default().compression_method(
        zip::CompressionMethod::Deflated,
    );
    z.w.start_file(name, options).is_ok()
}

/// `Write::write_all` of the text's UTF-8 bytes into the entry being written:
/// when it succeeds and an entry was started, that last entry's text grows by
/// the text. It succeeds when an entry was started and stays under 4 GiB.
/// Nothing is claimed of the writer after a failure.
#[verifier::external_body]
fn zip_write_text(z: &mut ZipOut, text: &str) -> (ok: bool)
    ensures
        zip_out_parts(*old(z)).len() > 0 && crate::strutil::byte_len(zip_out_parts(*old(z)).last().1)
            + crate::strutil::byte_len(text@) < u32::MAX ==> ok,
        ok && zip_out_parts(*old(z)).len() > 0 ==> zip_out_parts(*final(z)) == zip_out_parts(
            *old(z),
        ).update(
            zip_out_parts(*old(z)).len() - 1,
            (zip_out_parts(*old(z)).last().0, zip_out_parts(*old(z)).last().1 + text@),
        ),
{
    std::io::Write::write_all(&mut z.w, text.as_bytes()).is_ok()
}

/// `ZipWriter::finish`: the bytes of an archive of the writer's entries
/// (`zip_written`). Writing the central directory into memory does not fail
/// (it switches to zip64 by itself when the archive needs it).
#[verifier::external_body]
fn zip_finish(z: ZipOut) -> (r: Option<Vec<u8>>)
    ensures
        r is Some,
        r matches Some(b) ==> zip_written(zip_out_parts(z), b@),
{
    Some(z.w.finish().ok()?.into_inner())
}

/// Writes the parts, in order, as entries (name, text) of a zip archive with
/// deflate compression; nothing as soon as the writer reports a failure.
pub(crate) fn zip_text_parts(parts: &Vec<(String, String)>) -> (r: Option<Vec<u8>>)
    ensures
        zip_parts_fit(parts_view(parts@)) ==> r is Some,
        r matches Some(b) ==> zip_written(parts_view(parts@), b@),
{
    let ghost pv = parts_view(parts@);
    let mut z = zip_writer();
    let mut k: usize = 0;
    while k < parts.len()
        invariant
            k <= parts@.len(),
            pv == parts_view(parts@),
            zip_out_parts(z) == pv.take(k as int),
        decreases parts.len() - k,
    {
        proof {
            assert(pv[k as int] == (parts@[k as int].0@, parts@[k as int].1@));
            if zip_parts_fit(pv) {
                assert forall|m: int| 0 <= m < zip_out_parts(z).len() implies #[trigger] zip_out_parts(z)[m].0
                    != parts@[k as int].0@ by {
                    assert(zip_out_parts(z)[m] == pv[m]);
                    assert(pv[m].0 != pv[k as int].0);
                }
                assert(crate::strutil::byte_len(pv[k as int].0) < 60000);
                assert(crate::strutil::byte_len(pv[k as int].1) < u32::MAX);
            }
        }
        if !zip_start_file(&mut z, parts[k].0.as_str()) {
            return None;
        }
        assert(crate::strutil::byte_len(Seq::<char>::empty()) == 0);
        assert(zip_out_parts(z).last() == (parts@[k as int].0@, Seq::<char>::empty()));
        if !zip_write_text(&mut z, parts[k].1.as_str()) {
            return None;
        }
        proof {
            assert(pv[k as int] == (parts@[k as int].0@, parts@[k as int].1@));
            assert(Seq::<char>::empty() + parts@[k as int].1@ =~= parts@[k as int].1@);
            assert(zip_out_parts(z) =~= pv.take(k + 1));
        }
        k = k + 1;
    }
    assert(pv.take(k as int) =~= pv);
    zip_finish(z)
}

#[verifier::external_type_specification]
#[verifier::external_body]
pub struct ExWorkbook(umya_spreadsheet::Workbook);

/// The values set on a workbook so far, in order: (sheet, address, text).
pub uninterp spec fn workbook_sets(book: umya_spreadsheet::Workbook) -> Seq<
    (Seq<char>, Seq<char>, Seq<char>),
>;

/// Whether a workbook has a sheet of this name.
pub uninterp spec fn workbook_has_sheet(book: umya_spreadsheet::Workbook, name: Seq<char>) -> bool;

/// Whether `bytes` is the file `writer::xlsx::write_writer` writes for a new
/// workbook (`new_file`) on which these values were set in order. (Nothing is
/// claimed that would make the bytes a function of the values.)
pub uninterp spec fn xlsx_written(sets: Seq<(Seq<char>, Seq<char>, Seq<char>)>, bytes: Seq<u8>) -> bool;

/// `umya_spreadsheet::new_file`: a new workbook with a sheet `Sheet1` and no
/// value set.
#[verifier::external_body]
fn new_workbook() -> (book: umya_spreadsheet::Workbook)
    ensures
        workbook_sets(book) == Seq::<(Seq<char>, Seq<char>, Seq<char>)>::empty(),
        workbook_has_sheet(book, "Sheet1"@),
{
    umya_spreadsheet::new_file()
}

/// Sets the value of the cell at `addr` of the sheet named `sheet`
/// (`Workbook::sheet_by_name_mut`, `Worksheet::cell_mut`, `Cell::set_value`);
/// `false`, and nothing set, when the workbook has no such sheet. `cell_mut`
/// panics on an address it cannot read, so the address must be one it reads.
#[verifier::external_body]
fn set_cell_value(book: &mut umya_spreadsheet::Workbook, sheet: &str, addr: &str, text: &str) -> (ok: bool)
    requires
        crate::render::sheet::sheet_address(addr@),
    ensures
        ok == workbook_has_sheet(*old(book), sheet@),
        forall|n: Seq<char>| #[trigger] workbook_has_sheet(*final(book), n) == workbook_has_sheet(*old(book), n),
        ok ==> workbook_sets(*final(book)) == workbook_sets(*old(book)).push((sheet@, addr@, text@)),
        !ok ==> workbook_sets(*final(book)) == workbook_sets(*old(book)),
{
    match book.sheet_by_name_mut(sheet) {
        Ok(s) => {
            s.cell_mut(addr).set_value(text);
            true
        },
        Err(_) => false,
    }
}

/// A generous size of what the values set take in the written parts: per
/// value 1000 bytes of markup and number text, and its address and text
/// escaped at most six-fold.
pub open spec fn xlsx_sets_size(sets: Seq<(Seq<char>, Seq<char>, Seq<char>)>) -> nat
    decreases sets.len(),
{
    if sets.len() == 0 {
        0
    } else {
        xlsx_sets_size(sets.drop_last()) + 1000 + 6 * (crate::strutil::byte_len(sets.last().1)
            + crate::strutil::byte_len(sets.last().2))
    }
}

/// Values small enough that every part of the workbook's file stays under
/// the 4 GiB an archive entry may hold.
pub open spec fn xlsx_fits(sets: Seq<(Seq<char>, Seq<char>, Seq<char>)>) -> bool {
    xlsx_sets_size(sets) < 0x8000_0000
}

/// `writer::xlsx::write_writer` into memory: the workbook's file
/// (`xlsx_written`), or nothing when writing fails. Its writers only fail
/// where the archive does: part names are not repeated, and within
/// `xlsx_fits` no part reaches the 4 GiB an entry may hold, so it succeeds.
#[verifier::external_body]
fn write_workbook(book: &umya_spreadsheet::Workbook) -> (r: Option<Vec<u8>>)
    ensures
        xlsx_fits(workbook_sets(*book)) ==> r is Some,
        r matches Some(b) ==> xlsx_written(workbook_sets(*book), b@),
{
    let mut out = std::io::Cursor::new(Vec::new());
    umya_spreadsheet::writer::xlsx::write_writer(book, &mut out).ok()?;
    Some(out.into_inner())
}

/// The values set for cells (address, text): each on `Sheet1`.
pub open spec fn sheet1_sets(cells: Seq<(Seq<char>, Seq<char>)>) -> Seq<(Seq<char>, Seq<char>, Seq<char>)> {
    cells.map_values(|c: (Seq<char>, Seq<char>)| ("Sheet1"@, c.0, c.1))
}

/// Sets each cell (address, text), in order, on `Sheet1` of a new workbook
/// and writes the workbook; nothing when writing fails.
pub(crate) fn xlsx_workbook(cells: &Vec<(String, String)>) -> (r: Option<Vec<u8>>)
    requires
        crate::render::sheet::sheet_addresses(crate::render::sheet::cells_of_view(cells@)),
    ensures
        r matches Some(b) ==> xlsx_written(
            sheet1_sets(crate::render::sheet::cells_of_view(cells@)),
            b@,
        ),
        xlsx_fits(sheet1_sets(crate::render::sheet::cells_of_view(cells@))) ==> r is Some,
{
    let ghost cv = crate::render::sheet::cells_of_view(cells@);
    let mut book = new_workbook();
    let mut k: usize = 0;
    while k < cells.len()
        invariant
            k <= cells@.len(),
            cv == crate::render::sheet::cells_of_view(cells@),
            crate::render::sheet::sheet_addresses(cv),
            workbook_has_sheet(book, "Sheet1"@),
            workbook_sets(book) == sheet1_sets(cv.take(k as int)),
        decreases cells.len() - k,
    {
        assert(cv[k as int].0 == cells@[k as int].0@);
        let ok = set_cell_value(&mut book, "Sheet1", cells[k].0.as_str(), cells[k].1.as_str());
        if !ok {
            return None;
        }
        proof {
            assert(sheet1_sets(cv.take(k + 1)) =~= sheet1_sets(cv.take(k as int)).push(
                ("Sheet1"@, cells@[k as int].0@, cells@[k as int].1@),
            ));
        }
        k = k + 1;
    }
    assert(cv.take(k as int) =~= cv);
    write_workbook(&book)
}

/// An `epub_builder::EpubBuilder` writing with `ZipLibrary`. (Verus does not
/// take a declaration of the builder type, whose parameter is bound by the
/// crate's `Zip` trait.)
#[verifier::external_body]
pub struct EpubOut {
    b: epub_builder::EpubBuilder<epub_builder::ZipLibrary>,
}

/// The metadata (key, value) an EPUB builder has been given so far, in order.
pub uninterp spec fn epub_out_metadata(e: EpubOut) -> Seq<(Seq<char>, Seq<char>)>;

/// The chapters (file name, title, body) an EPUB builder has been given so
/// far, in order.
pub uninterp spec fn epub_out_chapters(e: EpubOut) -> Seq<(Seq<char>, Seq<char>, Seq<char>)>;

/// Whether `bytes` is a book `epub_builder` generates from the metadata and
/// chapters given in order. A book carries a generated identifier and the time
/// it was made, so these do not determine the bytes; this says only that the
/// bytes are such a book.
pub uninterp spec fn epub_written(
    metadata: Seq<(Seq<char>, Seq<char>)>,
    chapters: Seq<(Seq<char>, Seq<char>, Seq<char>)>,
    bytes: Seq<u8>,
) -> bool;

/// Sizes under which the builder writes a book of this metadata and this one
/// chapter `chapter_1.xhtml`: at most two metadata values and the chapter's
/// title each under 256 MiB (escaped, they stay within the 4 GiB an archive
/// entry may hold), and the chapter's body under 4 GiB.
pub open spec fn epub_fits(
    metadata: Seq<(Seq<char>, Seq<char>)>,
    chapters: Seq<(Seq<char>, Seq<char>, Seq<char>)>,
) -> bool {
    &&& metadata.len() <= 2
    &&& forall|i: int|
        0 <= i < metadata.len() ==> crate::strutil::byte_len(#[trigger] metadata[i].1) < 0x1000_0000
    &&& chapters.len() == 1
    &&& chapters[0].0 == "chapter_1.xhtml"@
    &&& crate::strutil::byte_len(chapters[0].1) < 0x1000_0000
    &&& crate::strutil::byte_len(chapters[0].2) < 0xFFFF_FFFF
}

/// `ZipLibrary::new` and `EpubBuilder::new` on it: a builder given no metadata
/// and no chapter yet. Both only start fixed entries of an archive in memory,
/// so they succeed.
#[verifier::external_body]
fn epub_builder_new() -> (r: Option<EpubOut>)
    ensures
        r is Some,
        r matches Some(e) ==> epub_out_metadata(e) == Seq::<(Seq<char>, Seq<char>)>::empty()
            && epub_out_chapters(e) == Seq::<(Seq<char>, Seq<char>, Seq<char>)>::empty(),
{
    let zip = epub_builder::ZipLibrary::new().ok()?;
    Some(EpubOut { b: epub_builder::EpubBuilder::new(zip).ok()? })
}

/// `EpubBuilder::metadata`: when it succeeds, the builder has been given this
/// metadata too, and its chapters are as they were. The keys `title` and
/// `author` are always taken.
#[verifier::external_body]
fn epub_metadata(e: &mut EpubOut, key: &str, value: &str) -> (ok: bool)
    ensures
        key@ == "title"@ || key@ == "author"@ ==> ok,
        ok ==> epub_out_metadata(*final(e)) == epub_out_metadata(*old(e)).push((key@, value@)),
        ok ==> epub_out_chapters(*final(e)) == epub_out_chapters(*old(e)),
{
    e.b.metadata(key, value).is_ok()
}

/// `EpubBuilder::add_content` of `EpubContent::new(file, body)` titled
/// `title`: when it succeeds, the builder holds this chapter too, and its
/// metadata is as it was. The first chapter, `chapter_1.xhtml`, is a new
/// archive entry and is taken where its body is under the 4 GiB an entry may
/// hold.
#[verifier::external_body]
fn epub_add_chapter(e: &mut EpubOut, file: &str, title: &str, body: &str) -> (ok: bool)
    ensures
        epub_out_chapters(*old(e)).len() == 0 && file@ == "chapter_1.xhtml"@
            && crate::strutil::byte_len(body@) < 0xFFFF_FFFF ==> ok,
        ok ==> epub_out_chapters(*final(e)) == epub_out_chapters(*old(e)).push(
            (file@, title@, body@),
        ),
        ok ==> epub_out_metadata(*final(e)) == epub_out_metadata(*old(e)),
{
    let content = epub_builder::EpubContent::new(file, body.as_bytes()).title(title);
    e.b.add_content(content).is_ok()
}

/// `EpubBuilder::generate` into memory: a book of what the builder was given
/// (`epub_written`), or nothing when it fails. Its templates are given every
/// value they name, and what it writes goes to memory; within `epub_fits` each
/// entry stays under 4 GiB, and it succeeds.
#[verifier::external_body]
fn epub_generate(e: EpubOut) -> (r: Option<Vec<u8>>)
    ensures
        epub_fits(epub_out_metadata(e), epub_out_chapters(e)) ==> r is Some,
        r matches Some(b) ==> epub_written(epub_out_metadata(e), epub_out_chapters(e), b@),
{
    let mut e = e;
    let mut output = Vec::new();
    e.b.generate(&mut output).ok()?;
    Some(output)
}

/// The metadata an EPUB is given: its title, then its author when there is one.
pub open spec fn epub_metadata_of(title: Seq<char>, author: Option<Seq<char>>) -> Seq<
    (Seq<char>, Seq<char>),
> {
    seq![("title"@, title)] + match author {
        Some(a) => seq![("author"@, a)],
        None => Seq::<(Seq<char>, Seq<char>)>::empty(),
    }
}

/// The one chapter of an EPUB: `chapter_1.xhtml`, titled `Content`.
pub open spec fn epub_chapters_of(chapter: Seq<char>) -> Seq<(Seq<char>, Seq<char>, Seq<char>)> {
    seq![("chapter_1.xhtml"@, "Content"@, chapter)]
}

/// Builds an EPUB: the metadata `title` and, when given, `author`, then one
/// chapter `chapter_1.xhtml` titled `Content` holding `chapter`; nothing as
/// soon as the builder reports a failure.
pub(crate) fn epub_book(title: &str, author: Option<&str>, chapter: &str) -> (r: Option<Vec<u8>>)
    ensures
        r matches Some(b) ==> epub_written(
            epub_metadata_of(
                title@,
                match author {
                    Some(a) => Some(a@),
                    None => None,
                },
            ),
            epub_chapters_of(chapter@),
            b@,
        ),
        crate::strutil::byte_len(title@) < 0x1000_0000 && (match author {
            Some(a) => crate::strutil::byte_len(a@) < 0x1000_0000,
            None => true,
        }) && crate::strutil::byte_len(chapter@) < 0xFFFF_FFFF ==> r is Some,
{
    let mut e = match epub_builder_new() {
        Some(e) => e,
        None => {
            return None;
        },
    };
    if !epub_metadata(&mut e, "title", title) {
        return None;
    }
    if let Some(a) = author {
        if !epub_metadata(&mut e, "author", a) {
            return None;
        }
    }
    if !epub_add_chapter(&mut e, "chapter_1.xhtml", "Content", chapter) {
        return None;
    }
    proof {
        let av = match author {
            Some(a) => Some(a@),
            None => None::<Seq<char>>,
        };
        assert(epub_out_metadata(e) =~= epub_metadata_of(title@, av));
        assert(epub_out_chapters(e) =~= epub_chapters_of(chapter@));
        reveal_strlit("Content");
        assert(crate::strutil::byte_len("Content"@) < 0x1000_0000) by {
            reveal_with_fuel(crate::strutil::byte_len, 8);
        }
    }
    epub_generate(e)
}

} // verus!
