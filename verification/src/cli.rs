//! Decisions of the command-line converter that do not touch the file system.
use vstd::prelude::*;
use crate::ir::{lemma_extension_letters, Format};
use crate::paths::{
    extension, file_stem, join, path_eq, path_extension, path_file_name, path_file_stem,
    path_join, path_with_file_name, plain_file_name, same_path, with_file_name,
};
use crate::strutil::push_str;

verus! {

/// Why no output path could be chosen.
#[derive(Debug, Clone, Copy, PartialEq, Eq, Structural)]
pub enum OutputPathError {
    /// The input path has no file name.
    InvalidFilename,
}

/// The extension an output file gets: that of the target format, else `fallback`.
pub open spec fn target_extension(to: Option<Format>, fallback: Seq<char>) -> Seq<char> {
    match to {
        Some(f) => f.spec_extension(),
        None => fallback,
    }
}

/// The output path for `input`, as the converter chooses it. `out_is_dir` says
/// whether `out` names an existing directory.
pub open spec fn output_path(
    input: Seq<char>,
    out: Option<Seq<char>>,
    out_is_dir: bool,
    to: Option<Format>,
    from: Format,
) -> Result<Seq<char>, OutputPathError> {
    match out {
        Some(dir) => if out_is_dir {
            match path_file_stem(input) {
                None => Err(OutputPathError::InvalidFilename),
                Some(stem) => {
                    let ext = target_extension(
                        to,
                        match path_extension(input) {
                            Some(e) => e,
                            None => seq![],
                        },
                    );
                    Ok(path_join(dir, stem + "."@ + ext))
                },
            }
        } else {
            Ok(dir)
        },
        None => match path_file_stem(input) {
            None => Err(OutputPathError::InvalidFilename),
            Some(stem) => {
                let ext = target_extension(to, from.spec_extension());
                let first = path_with_file_name(input, stem + "."@ + ext);
                if path_eq(first, input) {
                    Ok(path_with_file_name(input, stem + ".converted."@ + ext))
                } else {
                    Ok(first)
                }
            },
        },
    }
}

/// Whether the output beside `input` takes the `.converted` name: the plain
/// name would give the input path itself.
pub open spec fn converted_name_needed(input: Seq<char>, stem: Seq<char>, ext: Seq<char>) -> bool {
    path_eq(path_with_file_name(input, stem + "."@ + ext), input)
}

/// The file name of the output written beside `input`.
pub open spec fn beside_name(input: Seq<char>, stem: Seq<char>, ext: Seq<char>) -> Seq<char> {
    if converted_name_needed(input, stem, ext) {
        stem + ".converted."@ + ext
    } else {
        stem + "."@ + ext
    }
}

/// A stem, a dot and a format's extension make one normal file name, and so
/// does the same with `.converted.` in place of the dot.
proof fn lemma_output_names_plain(stem: Seq<char>, f: Format)
    requires
        forall|i: int| 0 <= i < stem.len() ==> #[trigger] stem[i] != '/',
    ensures
        plain_file_name(stem + "."@ + f.spec_extension()),
        plain_file_name(stem + ".converted."@ + f.spec_extension()),
{
    reveal_strlit(".");
    reveal_strlit("..");
    reveal_strlit(".converted.");
    let x = f.spec_extension();
    lemma_extension_letters(f);
    let a = stem + "."@ + x;
    let b = stem + ".converted."@ + x;
    assert forall|i: int| 0 <= i < a.len() implies #[trigger] a[i] != '/' by {
        if i < stem.len() {
            assert(a[i] == stem[i]);
        } else if i > stem.len() {
            assert(a[i] == x[i - stem.len() - 1]);
        }
    }
    assert forall|i: int| 0 <= i < b.len() implies #[trigger] b[i] != '/' by {
        if i < stem.len() {
            assert(b[i] == stem[i]);
        } else if i >= stem.len() + 11 {
            assert(b[i] == x[i - stem.len() - 11]);
        } else {
            assert(b[i] == ".converted."@[i - stem.len()]);
        }
    }
    if a == ".."@ {
        assert(a[1] == x[0]);
    }
    assert(a.len() != "."@.len());
    assert(b.len() != "."@.len());
    assert(b.len() != ".."@.len());
}

/// The value of an optional string slice.
pub open spec fn opt_str_view(o: Option<&str>) -> Option<Seq<char>> {
    match o {
        Some(d) => Some(d@),
        None => None,
    }
}

/// Chooses where the conversion of `input` is written. With no output given,
/// the output stays in the input's directory under the input's stem and the
/// target extension, and takes the `.converted` name exactly where the plain
/// one is the input's own file name, so that it never is the input.
pub fn determine_output_path(
    input: &str,
    out: Option<&str>,
    out_is_dir: bool,
    to_format: Option<Format>,
    from_format: Format,
) -> (r: Result<String, OutputPathError>)
    ensures
        match r {
            Ok(p) => output_path(input@, opt_str_view(out), out_is_dir, to_format, from_format)
                == Ok::<Seq<char>, OutputPathError>(p@),
            Err(e) => output_path(input@, opt_str_view(out), out_is_dir, to_format, from_format)
                == Err::<Seq<char>, OutputPathError>(e),
        },
        out is None ==> match path_file_stem(input@) {
            Some(stem) => r matches Ok(p) && {
                let ext = target_extension(to_format, from_format.spec_extension());
                &&& path_file_name(p@) == Some(beside_name(input@, stem, ext))
                &&& converted_name_needed(input@, stem, ext) <==> path_file_name(input@) == Some(
                    stem + "."@ + ext,
                )
                &&& forall|n: Seq<char>|
                    plain_file_name(n) ==> #[trigger] path_with_file_name(p@, n)
                        == path_with_file_name(input@, n)
                &&& !converted_name_needed(input@, stem, ext) ==> !path_eq(p@, input@)
                &&& !path_eq(p@, input@) || path_file_name(p@) != path_file_name(input@)
            },
            None => r is Err,
        },
{
    if let Some(dir) = out {
        if out_is_dir {
            let stem = match file_stem(input) {
                Some(s) => s,
                None => return Err(OutputPathError::InvalidFilename),
            };
            let mut name = String::new();
            push_str(&mut name, stem.as_str());
            push_str(&mut name, ".");
            match to_format {
                Some(f) => push_str(&mut name, f.extension()),
                None => match extension(input) {
                    Some(e) => push_str(&mut name, e.as_str()),
                    None => {},
                },
            }
            proof {
                let ghost e = match path_extension(input@) {
                    Some(e) => e,
                    None => Seq::<char>::empty(),
                };
                assert(name@ =~= stem@ + "."@ + target_extension(to_format, e));
            }
            return Ok(join(dir, name.as_str()));
        }
        return Ok(dir.to_owned());
    }
    let stem = match file_stem(input) {
        Some(s) => s,
        None => return Err(OutputPathError::InvalidFilename),
    };
    let ext_format = match to_format {
        Some(f) => f,
        None => from_format,
    };
    let ext = ext_format.extension();
    proof {
        lemma_output_names_plain(stem@, ext_format);
    }
    let mut name = String::new();
    push_str(&mut name, stem.as_str());
    push_str(&mut name, ".");
    push_str(&mut name, ext);
    assert(name@ =~= stem@ + "."@ + ext@);
    let first = with_file_name(input, name.as_str());
    if same_path(first.as_str(), input) {
        let mut name2 = String::new();
        push_str(&mut name2, stem.as_str());
        push_str(&mut name2, ".converted.");
        push_str(&mut name2, ext);
        let second = with_file_name(input, name2.as_str());
        proof {
            assert(name2@ =~= stem@ + ".converted."@ + ext@);
            assert(".converted."@.len() != "."@.len()) by {
                reveal_strlit(".");
                reveal_strlit(".converted.");
            }
            assert(name2@ != name@) by {
                reveal_strlit(".");
                reveal_strlit(".converted.");
            }
        }
        return Ok(second);
    }
    Ok(first)
}

/// The name of a format as the format list prints it (its variant name).
pub open spec fn spec_format_label(f: Format) -> Seq<char> {
    match f {
        Format::Pdf => "Pdf"@,
        Format::Docx => "Docx"@,
        Format::Xlsx => "Xlsx"@,
        Format::Pptx => "Pptx"@,
        Format::Html => "Html"@,
        Format::Markdown => "Markdown"@,
        Format::Csv => "Csv"@,
        Format::Text => "Text"@,
        Format::Epub => "Epub"@,
        Format::Odt => "Odt"@,
        Format::Ods => "Ods"@,
        Format::Odp => "Odp"@,
        Format::Rtf => "Rtf"@,
        Format::Svg => "Svg"@,
        Format::Json => "Json"@,
        Format::Yaml => "Yaml"@,
        Format::Latex => "Latex"@,
        Format::Png => "Png"@,
        Format::Jpeg => "Jpeg"@,
        Format::Webp => "Webp"@,
        Format::Gif => "Gif"@,
        Format::Bmp => "Bmp"@,
        Format::Tiff => "Tiff"@,
    }
}

/// The name of a format as the format list prints it.
pub fn format_label(f: Format) -> (r: &'static str)
    ensures
        r@ == spec_format_label(f),
{
    match f {
        Format::Pdf => "Pdf",
        Format::Docx => "Docx",
        Format::Xlsx => "Xlsx",
        Format::Pptx => "Pptx",
        Format::Html => "Html",
        Format::Markdown => "Markdown",
        Format::Csv => "Csv",
        Format::Text => "Text",
        Format::Epub => "Epub",
        Format::Odt => "Odt",
        Format::Ods => "Ods",
        Format::Odp => "Odp",
        Format::Rtf => "Rtf",
        Format::Svg => "Svg",
        Format::Json => "Json",
        Format::Yaml => "Yaml",
        Format::Latex => "Latex",
        Format::Png => "Png",
        Format::Jpeg => "Jpeg",
        Format::Webp => "Webp",
        Format::Gif => "Gif",
        Format::Bmp => "Bmp",
        Format::Tiff => "Tiff",
    }
}

/// The column label of a format in the conversion matrix: the first four
/// characters of its name.
pub fn matrix_label(f: Format) -> (r: String)
    ensures
        r@ == if spec_format_label(f).len() <= 4 {
            spec_format_label(f)
        } else {
            spec_format_label(f).take(4)
        },
{
    let cs = crate::strutil::chars_of(format_label(f));
    let n = if cs.len() <= 4 {
        cs.len()
    } else {
        4
    };
    let t = crate::strutil::copy_range(&cs, 0, n);
    proof {
        if cs@.len() <= 4 {
            assert(cs@.subrange(0, n as int) =~= cs@);
        } else {
            assert(cs@.subrange(0, 4) =~= cs@.take(4));
        }
    }
    crate::strutil::string_of(&t)
}

/// Whether the conversion matrix marks a conversion as supported: every
/// conversion between two different formats is.
pub fn matrix_supported(from: Format, to: Format) -> (r: bool)
    ensures
        r == (from != to),
{
    from != to
}

/// The format an output file is written in: the one asked for, else the one
/// its path names, else plain text.
pub fn choose_output_format(to: Option<Format>, output_path: &str) -> (r: Format)
    ensures
        r == match to {
            Some(f) => f,
            None => match crate::ir::format_of_path(output_path@) {
                Some(f) => f,
                None => Format::Text,
            },
        },
{
    match to {
        Some(f) => f,
        None => match crate::ir::detect_format(output_path) {
            Some(f) => f,
            None => Format::Text,
        },
    }
}

/// The document made of text read from standard input: one paragraph holding
/// all of it.
pub fn stdin_document(text: &str) -> (d: crate::ir::Document)
    ensures
        d.metadata.is_empty(),
        d.blocks_view() == seq![crate::ir::text_paragraph(text@)],
{
    let mut d = crate::ir::Document::new();
    d.push_block(crate::ir::Block::paragraph(text));
    d
}

} // verus!
