//! File paths, handled as strings and read by the Unix rules (`/` is the
//! only separator); what `std::path` computes of them is named.
use vstd::prelude::*;

verus! {

/// `Path::extension` of a path whose text after its last `/` is empty, `.`
/// or `..` (a trailing separator, or a last component that is not a name).
pub uninterp spec fn other_path_extension(p: Seq<char>) -> Option<Seq<char>>;

/// Where the path's last component starts: just after its last `/`. Paths
/// are read by the Unix rules, where `/` is the only separator.
pub open spec fn name_start(p: Seq<char>) -> int
    decreases p.len(),
{
    if p.len() == 0 {
        0
    } else if p.last() == '/' {
        p.len() as int
    } else {
        name_start(p.drop_last())
    }
}

/// The text of the path after its last `/`.
pub open spec fn last_segment(p: Seq<char>) -> Seq<char> {
    p.skip(name_start(p))
}

/// The position of the last `.` of `n`, or -1.
pub open spec fn last_dot(n: Seq<char>) -> int
    decreases n.len(),
{
    if n.len() == 0 {
        -1
    } else if n.last() == '.' {
        n.len() - 1
    } else {
        last_dot(n.drop_last())
    }
}

/// The extension of a file name, as `Path::extension` documents it: none
/// where the name has no dot, or its one dot starts it; else what follows
/// its last dot.
pub open spec fn name_extension(n: Seq<char>) -> Option<Seq<char>> {
    if last_dot(n) < 1 {
        None
    } else {
        Some(n.skip(last_dot(n) + 1))
    }
}

/// The extension of the path's file name (`Path::extension`). Where the text
/// after the last `/` is a name, that name is the file name, and the
/// extension is the one it gives.
pub open spec fn path_extension(p: Seq<char>) -> Option<Seq<char>> {
    if plain_file_name(last_segment(p)) {
        name_extension(last_segment(p))
    } else {
        other_path_extension(p)
    }
}

/// A name that `Path::set_file_name` takes as one normal component: not
/// empty, without `/` (the Unix separator), and neither `.` nor `..`.
pub open spec fn plain_file_name(n: Seq<char>) -> bool {
    &&& n.len() > 0
    &&& forall|i: int| 0 <= i < n.len() ==> #[trigger] n[i] != '/'
    &&& n != "."@
    &&& n != ".."@
}

/// The file name of the path without its extension (`Path::file_stem`).
pub uninterp spec fn path_file_stem(p: Seq<char>) -> Option<Seq<char>>;

/// The path with its file name replaced (`Path::with_file_name`).
pub uninterp spec fn path_with_file_name(p: Seq<char>, name: Seq<char>) -> Seq<char>;

/// The path `name` joined onto `dir` (`Path::join`).
pub uninterp spec fn path_join(dir: Seq<char>, name: Seq<char>) -> Seq<char>;

/// The file name of the path, or nothing (`Path::file_name`).
pub uninterp spec fn path_file_name(p: Seq<char>) -> Option<Seq<char>>;

/// Whether two paths have the same components (`Path` equality).
pub uninterp spec fn path_eq(a: Seq<char>, b: Seq<char>) -> bool;

/// `Path::extension` of a UTF-8 path (`path_extension`): the extension that
/// its file name gives, and none where it has no file name.
#[verifier::external_body]
pub fn extension(p: &str) -> (r: Option<String>)
    ensures
        match r {
            Some(e) => path_extension(p@) == Some(e@),
            None => path_extension(p@) is None,
        },
        !plain_file_name(last_segment(p@)) ==> match r {
            Some(e) => other_path_extension(p@) == Some(e@),
            None => other_path_extension(p@) is None,
        },
        match r {
            Some(e) => path_file_name(p@) matches Some(n) && name_extension(n) == Some(e@),
            None => match path_file_name(p@) {
                Some(n) => name_extension(n) is None,
                None => true,
            },
        },
{
    std::path::Path::new(p).extension().map(|e| e.to_string_lossy().into_owned())
}

/// `Path::file_stem` of a UTF-8 path; the result is named `path_file_stem`.
/// It is part of the last component, so it holds no `/`.
#[verifier::external_body]
pub fn file_stem(p: &str) -> (r: Option<String>)
    ensures
        match r {
            Some(e) => path_file_stem(p@) == Some(e@)
                && forall|i: int| 0 <= i < e@.len() ==> #[trigger] e@[i] != '/',
            None => path_file_stem(p@) is None,
        },
{
    std::path::Path::new(p).file_stem().map(|e| e.to_string_lossy().into_owned())
}

/// `Path::file_name` of a UTF-8 path; the result is named `path_file_name`.
#[verifier::external_body]
pub fn file_name(p: &str) -> (r: Option<String>)
    ensures
        match r {
            Some(e) => path_file_name(p@) == Some(e@),
            None => path_file_name(p@) is None,
        },
{
    std::path::Path::new(p).file_name().map(|e| e.to_string_lossy().into_owned())
}

/// `Path::with_file_name`; the result is named `path_with_file_name`. As
/// `PathBuf::set_file_name` documents, it is the path's parent with the name
/// pushed onto it. So, where that name is one normal component, the file
/// name of the result is the name given, and the result has the path's
/// parent: giving it another name gives what giving the path that name does.
/// Giving a path its own file name gives an equal path.
#[verifier::external_body]
pub fn with_file_name(p: &str, name: &str) -> (r: String)
    ensures
        r@ == path_with_file_name(p@, name@),
        plain_file_name(name@) ==> path_file_name(r@) == Some(name@),
        plain_file_name(name@) ==> forall|n: Seq<char>|
            plain_file_name(n) ==> #[trigger] path_with_file_name(r@, n) == path_with_file_name(
                p@,
                n,
            ),
        path_file_name(p@) == Some(name@) ==> path_eq(r@, p@),
{
    std::path::Path::new(p).with_file_name(name).to_string_lossy().into_owned()
}

/// `Path::join`; the result is named `path_join`.
#[verifier::external_body]
pub fn join(dir: &str, name: &str) -> (r: String)
    ensures
        r@ == path_join(dir@, name@),
{
    std::path::Path::new(dir).join(name).to_string_lossy().into_owned()
}

/// `Path` equality; the result is named `path_eq`. Equal paths have equal
/// components, so their final components, the file names, agree.
#[verifier::external_body]
pub fn same_path(a: &str, b: &str) -> (r: bool)
    ensures
        r == path_eq(a@, b@),
        r ==> path_file_name(a@) == path_file_name(b@),
{
    std::path::Path::new(a) == std::path::Path::new(b)
}

} // verus!
