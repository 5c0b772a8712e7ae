//! Zip containers (DOCX, PPTX, XLSX, ODF, EPUB), read through the `zip` crate.
use vstd::prelude::*;
use crate::ir::opt_view;

verus! {

/// One entry of a zip archive: its name (absent when the entry could not be
/// opened) and its content as text (absent when it could not be read as UTF-8).
pub struct ZipEntry {
    pub name: Option<String>,
    pub text: Option<String>,
}

/// The value of an entry.
pub open spec fn entry_view(e: ZipEntry) -> (Option<Seq<char>>, Option<Seq<char>>) {
    (opt_view(e.name), opt_view(e.text))
}

/// The values of a list of entries.
pub open spec fn entries_view(v: Seq<ZipEntry>) -> Seq<(Option<Seq<char>>, Option<Seq<char>>)> {
    v.map_values(|e: ZipEntry| entry_view(e))
}

/// The entries of the zip archive held in `bytes`, in the archive's order, or
/// nothing when the bytes are not a readable zip archive.
pub uninterp spec fn zip_listing(bytes: Seq<u8>) -> Option<Seq<(Option<Seq<char>>, Option<Seq<char>>)>>;

/// The text of the entry named `name` in the zip archive held in `bytes`: the
/// outer option is absent when the archive cannot be read, the inner one when
/// there is no such entry or it is not UTF-8 text.
pub uninterp spec fn zip_named_text(bytes: Seq<u8>, name: Seq<char>) -> Option<Option<Seq<char>>>;

/// A zip archive opened from bytes in memory (`zip::ZipArchive` over a
/// cursor). (Verus does not take a declaration of the archive type, whose
/// parameter is bound by `std::io::Read + std::io::Seek`.)
#[verifier::external_body]
pub struct ZipIn {
    a: zip::ZipArchive<std::io::Cursor<Vec<u8>>>,
}

/// The entries of an open archive, in the archive's order: each with its
/// name and, when the name can be read, its text.
pub uninterp spec fn zip_in_entries(z: ZipIn) -> Seq<(Option<Seq<char>>, Option<Seq<char>>)>;

/// The text of the entry named `name` of an open archive, absent when there
/// is no such entry or it is not UTF-8 text.
pub uninterp spec fn zip_in_named(z: ZipIn, name: Seq<char>) -> Option<Seq<char>>;

/// `ZipArchive::new` over a copy of the bytes. It fails exactly when the
/// bytes are no readable archive; the archive it opens holds the entries
/// `zip_listing` names, and the texts `zip_named_text` names.
#[verifier::external_body]
fn zip_open(bytes: &[u8]) -> (r: Option<ZipIn>)
    ensures
        r is None <==> zip_listing(bytes@) is None,
        r is None ==> forall|n: Seq<char>| #[trigger] zip_named_text(bytes@, n) is None,
        r matches Some(z) ==> zip_listing(bytes@) == Some(zip_in_entries(z)),
        r matches Some(z) ==> forall|n: Seq<char>|
            #[trigger] zip_named_text(bytes@, n) == Some(zip_in_named(z, n)),
{
    Some(ZipIn { a: zip::ZipArchive::new(std::io::Cursor::new(bytes.to_vec())).ok()? })
}

/// `ZipArchive::len`: the number of entries.
#[verifier::external_body]
fn zip_count(z: &ZipIn) -> (n: usize)
    ensures
        n == zip_in_entries(*z).len(),
{
    z.a.len()
}

/// `ZipArchive::by_index` and `ZipFile::name`: the name of entry `i`, absent
/// when the entry cannot be opened or its name not read. Reading leaves the
/// entries as they are.
#[verifier::external_body]
fn zip_entry_name(z: &mut ZipIn, i: usize) -> (r: Option<String>)
    requires
        i < zip_in_entries(*old(z)).len(),
    ensures
        opt_view(r) == zip_in_entries(*old(z))[i as int].0,
        r is None ==> zip_in_entries(*old(z))[i as int].1 is None,
        zip_in_entries(*final(z)) == zip_in_entries(*old(z)),
        forall|n: Seq<char>| #[trigger] zip_in_named(*final(z), n) == zip_in_named(*old(z), n),
{
    match z.a.by_index(i) {
        Ok(f) => f.name().ok().map(|n| n.to_string()),
        Err(_) => None,
    }
}

/// `ZipArchive::by_index` and `Read::read_to_string`: the text of entry `i`,
/// absent when it cannot be read as UTF-8. Of an entry whose name can be read
/// it is the text its listing holds. Reading leaves the entries as they are.
#[verifier::external_body]
fn zip_entry_content(z: &mut ZipIn, i: usize) -> (r: Option<String>)
    requires
        i < zip_in_entries(*old(z)).len(),
    ensures
        zip_in_entries(*old(z))[i as int].0 is Some ==> opt_view(r) == zip_in_entries(
            *old(z),
        )[i as int].1,
        zip_in_entries(*final(z)) == zip_in_entries(*old(z)),
        forall|n: Seq<char>| #[trigger] zip_in_named(*final(z), n) == zip_in_named(*old(z), n),
{
    match z.a.by_index(i) {
        Ok(mut f) => {
            let mut t = String::new();
            std::io::Read::read_to_string(&mut f, &mut t).ok().map(|_| t)
        },
        Err(_) => None,
    }
}

/// `ZipArchive::by_name` and `Read::read_to_string`: the text of the entry
/// named `name`, named `zip_in_named`.
#[verifier::external_body]
fn zip_named_content(z: &mut ZipIn, name: &str) -> (r: Option<String>)
    ensures
        opt_view(r) == zip_in_named(*old(z), name@),
{
    match z.a.by_name(name) {
        Ok(mut f) => {
            let mut t = String::new();
            std::io::Read::read_to_string(&mut f, &mut t).ok().map(|_| t)
        },
        Err(_) => None,
    }
}

/// The entries of the zip archive in `bytes`, in order: each with its name,
/// and its text when the name could be read; nothing when the bytes are no
/// readable archive.
pub fn zip_entries(bytes: &[u8]) -> (r: Option<Vec<ZipEntry>>)
    ensures
        match r {
            Some(v) => zip_listing(bytes@) == Some(entries_view(v@)),
            None => zip_listing(bytes@) is None,
        },
{
    let mut z = match zip_open(bytes) {
        Some(z) => z,
        None => {
            return None;
        },
    };
    let ghost all = zip_in_entries(z);
    let n = zip_count(&z);
    let mut out: Vec<ZipEntry> = Vec::new();
    let mut i: usize = 0;
    while i < n
        invariant
            i <= n,
            n == all.len(),
            zip_in_entries(z) == all,
            entries_view(out@) == all.take(i as int),
        decreases n - i,
    {
        let name = zip_entry_name(&mut z, i);
        let text = match &name {
            Some(_) => zip_entry_content(&mut z, i),
            None => None,
        };
        let e = ZipEntry { name, text };
        let ghost o0 = out@;
        out.push(e);
        proof {
            assert(entries_view(out@) =~= entries_view(o0).push(entry_view(e)));
            assert(all.take(i + 1) =~= all.take(i as int).push(all[i as int]));
        }
        i = i + 1;
    }
    assert(all.take(i as int) =~= all);
    Some(out)
}

/// The text of the entry `name` of the zip archive in `bytes`: nothing when
/// the bytes are no readable archive, `Some(None)` when there is no such entry
/// or it is not UTF-8 text.
pub fn zip_entry_text(bytes: &[u8], name: &str) -> (r: Option<Option<String>>)
    ensures
        match r {
            Some(Some(t)) => zip_named_text(bytes@, name@) == Some(Some(t@)),
            Some(None) => zip_named_text(bytes@, name@) == Some(None::<Seq<char>>),
            None => zip_named_text(bytes@, name@) is None,
        },
{
    let mut z = match zip_open(bytes) {
        Some(z) => z,
        None => {
            return None;
        },
    };
    let ghost z0 = z;
    let t = zip_named_content(&mut z, name);
    assert(zip_named_text(bytes@, name@) == Some(zip_in_named(z0, name@)));
    Some(t)
}

} // verus!
