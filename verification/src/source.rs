//! Which files hold programs of the language.

use vstd::prelude::*;

verus! {

/// A file was named that is not a program of the language.
#[derive(PartialEq, Eq, Debug, Clone, Copy, Structural)]
pub enum SourceError {
    /// The file's name does not end in the extension `lala`.
    NotLalaFile,
}

/// Whether `needle` stands somewhere in `text`, character after character.
pub open spec fn occurs_in(needle: Seq<char>, text: Seq<char>) -> bool {
    exists|i: int|
        0 <= i <= text.len() - needle.len() && #[trigger] text.subrange(i, i + needle.len())
            == needle
}

/// Calls `std::path::Path::extension` on `path` and hands the extension on
/// where it is text. The extension is the part of the file name behind its
/// last dot, so an extension that comes back holds no dot and stands in
/// `path` right behind one. Whether one comes back is not claimed: how a
/// path falls into components, and so what its file name is, is the
/// platform's business.
#[verifier::external_body]
fn path_extension(path: &str) -> (ext: Option<&str>)
    ensures
        match ext {
            Some(found) => !found@.contains('.') && occurs_in(seq!['.'] + found@, path@),
            None => true,
        },
{
    match std::path::Path::new(path).extension() {
        Some(ext) => ext.to_str(),
        None => None,
    }
}

/// Accepts the extension `lala` and nothing else, not even a missing one.
pub fn check_extension<'a>(ext: Option<&'a str>) -> (r: Result<&'a str, SourceError>)
    ensures
        match ext {
            Some(found) => if found@ == "lala"@ {
                r == Ok::<&str, SourceError>(found)
            } else {
                r == Err::<&str, SourceError>(SourceError::NotLalaFile)
            },
            None => r == Err::<&str, SourceError>(SourceError::NotLalaFile),
        },
{
    match ext {
        Some(found) => {
            if found.to_owned() == "lala".to_owned() {
                Ok(found)
            } else {
                Err(SourceError::NotLalaFile)
            }
        },
        None => Err(SourceError::NotLalaFile),
    }
}

/// The extension of the file that `path` names, if it is `lala`: the
/// extension is accepted only where it reads `lala` and stands in `path`
/// behind a dot, and every other path is refused as no program.
pub fn get_extension(path: &str) -> (r: Result<&str, SourceError>)
    ensures
        match r {
            Ok(ext) => ext@ == "lala"@ && occurs_in(seq!['.'] + ext@, path@),
            Err(e) => e == SourceError::NotLalaFile,
        },
{
    check_extension(path_extension(path))
}

} // verus!
