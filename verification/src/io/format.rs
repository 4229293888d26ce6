use vstd::prelude::*;

use crate::io::text::{ascii_lower_seq, chars_of, eq_ignore_ascii_case};

verus! {

/// The two point-stream formats.
#[derive(Clone, Copy, Debug, PartialEq, Eq, Structural)]
pub enum Format {
    Csv,
    Ndjson,
}

/// Why a format could not be chosen.
#[derive(Clone, Copy, Debug, PartialEq, Eq, Structural)]
pub enum FormatError {
    /// No explicit format and no recognised file extension.
    CannotInferInput,
}

impl FormatError {
    /// The message shown to a user.
    pub fn message(&self) -> (m: String)
        ensures
            m@ == format_error_text(*self),
    {
        String::from_str("unable to infer input format; use --input-format")
    }
}

/// What `FormatError::message` returns.
pub open spec fn format_error_text(e: FormatError) -> Seq<char> {
    "unable to infer input format; use --input-format"@
}

/// The extension of a path, as `std::path::Path::extension` finds it: the part
/// of the file name after its last `.`, if the file name has a `.` that is not
/// its first character.
pub uninterp spec fn path_extension_of(path: Seq<char>) -> Option<Seq<char>>;

/// Calls `std::path::Path::extension` on `path`. The contract claims only that
/// the result is a function of the path's characters (`path_extension_of`);
/// an extension that is not valid UTF-8 comes back with replacement
/// characters, as `OsStr::to_string_lossy` makes it.
#[verifier::external_body]
fn path_extension(path: &str) -> (ext: Option<String>)
    ensures
        match ext {
            Some(e) => path_extension_of(path@) == Some(e@),
            None => path_extension_of(path@) is None,
        },
{
    std::path::Path::new(path).extension().map(|e| e.to_string_lossy().into_owned())
}

/// The format named by a file extension, compared without ASCII case.
pub open spec fn format_of_extension(ext: Seq<char>) -> Option<Format> {
    let l = ascii_lower_seq(ext);
    if l == seq!['c', 's', 'v'] {
        Some(Format::Csv)
    } else if l == seq!['n', 'd', 'j', 's', 'o', 'n'] || l == seq!['j', 's', 'o', 'n', 'l'] {
        Some(Format::Ndjson)
    } else {
        None
    }
}

/// The format that the extension of `path` names, if any.
pub open spec fn inferred_format(path: Seq<char>) -> Option<Format> {
    match path_extension_of(path) {
        Some(ext) => format_of_extension(ext),
        None => None,
    }
}

/// The format named by the extension of `path`: `csv` gives CSV, `ndjson` and
/// `jsonl` give NDJSON, in any ASCII case; anything else gives none.
pub fn infer_format_from_path(path: &str) -> (f: Option<Format>)
    ensures
        f == inferred_format(path@),
{
    match path_extension(path) {
        None => None,
        Some(ext) => {
            let e = chars_of(ext.as_str());
            let csv: Vec<char> = vec!['c', 's', 'v'];
            let ndjson: Vec<char> = vec!['n', 'd', 'j', 's', 'o', 'n'];
            let jsonl: Vec<char> = vec!['j', 's', 'o', 'n', 'l'];
            assert(csv@ =~= seq!['c', 's', 'v']);
            assert(ndjson@ =~= seq!['n', 'd', 'j', 's', 'o', 'n']);
            assert(jsonl@ =~= seq!['j', 's', 'o', 'n', 'l']);
            if eq_ignore_ascii_case(&e, &csv) {
                Some(Format::Csv)
            } else if eq_ignore_ascii_case(&e, &ndjson) || eq_ignore_ascii_case(&e, &jsonl) {
                Some(Format::Ndjson)
            } else {
                None
            }
        },
    }
}

/// The input format: the explicit one if given, else the one the input path's
/// extension names; an error if neither gives one.
pub open spec fn input_format_choice(path: Option<Seq<char>>, explicit: Option<Format>) -> Result<
    Format,
    FormatError,
> {
    match explicit {
        Some(f) => Ok(f),
        None => match path {
            Some(p) => match inferred_format(p) {
                Some(f) => Ok(f),
                None => Err(FormatError::CannotInferInput),
            },
            None => Err(FormatError::CannotInferInput),
        },
    }
}

/// The output format: the explicit one if given, else the one the output
/// path's extension names, else `fallback`.
pub open spec fn output_format_choice(
    path: Option<Seq<char>>,
    explicit: Option<Format>,
    fallback: Format,
) -> Format {
    match explicit {
        Some(f) => f,
        None => match path {
            Some(p) => match inferred_format(p) {
                Some(f) => f,
                None => fallback,
            },
            None => fallback,
        },
    }
}

/// How the extensions name formats, said without `format_of_extension`:
/// `csv` names CSV and `ndjson` and `jsonl` name NDJSON, in lowercase and in
/// uppercase; a path whose extension names a format gets that format as its
/// input and (with no explicit format) its output format, whatever the
/// fallback; an explicit format always wins.
pub proof fn lemma_extension_formats(path: Seq<char>, explicit: Format, fallback: Format)
    ensures
        format_of_extension(seq!['c', 's', 'v']) == Some(Format::Csv),
        format_of_extension(seq!['C', 'S', 'V']) == Some(Format::Csv),
        format_of_extension(seq!['n', 'd', 'j', 's', 'o', 'n']) == Some(Format::Ndjson),
        format_of_extension(seq!['N', 'D', 'J', 'S', 'O', 'N']) == Some(Format::Ndjson),
        format_of_extension(seq!['j', 's', 'o', 'n', 'l']) == Some(Format::Ndjson),
        format_of_extension(seq!['J', 'S', 'O', 'N', 'L']) == Some(Format::Ndjson),
        format_of_extension(seq!['j', 's', 'o', 'n']) is None,
        forall|e: Seq<char>|
            path_extension_of(path) == Some(e) && ascii_lower_seq(e) == seq!['c', 's', 'v'] ==> {
                &&& output_format_choice(Some(path), None, fallback) == Format::Csv
                &&& input_format_choice(Some(path), None) == Ok::<Format, FormatError>(Format::Csv)
            },
        forall|e: Seq<char>|
            path_extension_of(path) == Some(e) && (ascii_lower_seq(e) == seq!['n', 'd', 'j', 's', 'o', 'n']
                || ascii_lower_seq(e) == seq!['j', 's', 'o', 'n', 'l']) ==> {
                &&& output_format_choice(Some(path), None, fallback) == Format::Ndjson
                &&& input_format_choice(Some(path), None) == Ok::<Format, FormatError>(Format::Ndjson)
            },
        path_extension_of(path) is None ==> output_format_choice(Some(path), None, fallback) == fallback,
        output_format_choice(Some(path), Some(explicit), fallback) == explicit,
        input_format_choice(Some(path), Some(explicit)) == Ok::<Format, FormatError>(explicit),
{
    assert(ascii_lower_seq(seq!['c', 's', 'v']) =~= seq!['c', 's', 'v']);
    assert(ascii_lower_seq(seq!['C', 'S', 'V']) =~= seq!['c', 's', 'v']);
    assert(ascii_lower_seq(seq!['n', 'd', 'j', 's', 'o', 'n']) =~= seq!['n', 'd', 'j', 's', 'o', 'n']);
    assert(ascii_lower_seq(seq!['N', 'D', 'J', 'S', 'O', 'N']) =~= seq!['n', 'd', 'j', 's', 'o', 'n']);
    assert(ascii_lower_seq(seq!['j', 's', 'o', 'n', 'l']) =~= seq!['j', 's', 'o', 'n', 'l']);
    assert(ascii_lower_seq(seq!['J', 'S', 'O', 'N', 'L']) =~= seq!['j', 's', 'o', 'n', 'l']);
    assert(ascii_lower_seq(seq!['j', 's', 'o', 'n']) =~= seq!['j', 's', 'o', 'n']);
    assert(ascii_lower_seq(seq!['j', 's', 'o', 'n']).len() == 4);
}

/// The view of an optional path.
pub open spec fn path_view(path: Option<&str>) -> Option<Seq<char>> {
    match path {
        Some(p) => Some(p@),
        None => None,
    }
}

/// Chooses the input format; fails exactly when no explicit format is given
/// and the path is absent or has no recognised extension.
pub fn resolve_input_format(input_path: Option<&str>, explicit: Option<Format>) -> (r: Result<
    Format,
    FormatError,
>)
    ensures
        r == input_format_choice(path_view(input_path), explicit),
{
    if let Some(fmt) = explicit {
        return Ok(fmt);
    }
    if let Some(path) = input_path {
        if let Some(fmt) = infer_format_from_path(path) {
            return Ok(fmt);
        }
    }
    Err(FormatError::CannotInferInput)
}

/// Chooses the output format; it always succeeds.
pub fn resolve_output_format(
    output_path: Option<&str>,
    explicit: Option<Format>,
    fallback: Format,
) -> (r: Result<Format, FormatError>)
    ensures
        r == Ok::<Format, FormatError>(output_format_choice(path_view(output_path), explicit, fallback)),
        explicit matches Some(f) ==> r == Ok::<Format, FormatError>(f),
        explicit is None ==> match output_path {
            Some(p) => match inferred_format(p@) {
                Some(f) => r == Ok::<Format, FormatError>(f),
                None => r == Ok::<Format, FormatError>(fallback),
            },
            None => r == Ok::<Format, FormatError>(fallback),
        },
{
    if let Some(fmt) = explicit {
        return Ok(fmt);
    }
    if let Some(path) = output_path {
        if let Some(fmt) = infer_format_from_path(path) {
            return Ok(fmt);
        }
    }
    Ok(fallback)
}

} // verus!
