//! Paths of the `camino` crate, which are known to be text.

use camino::Utf8PathBuf;
use vstd::prelude::*;

verus! {

/// `camino::Utf8PathBuf`, a path that holds valid UTF-8.
#[verifier::external_type_specification]
#[verifier::external_body]
pub struct ExUtf8PathBuf(Utf8PathBuf);

/// The characters that a path holds: what `Utf8Path::as_str` returns.
pub uninterp spec fn path_text(path: Utf8PathBuf) -> Seq<char>;

/// `Utf8PathBuf::from` on a string: the path that holds the string's
/// characters, unchanged.
#[verifier::external_body]
pub(crate) fn path_from(text: String) -> (path: Utf8PathBuf)
    ensures
        path_text(path) == text@,
{
    Utf8PathBuf::from(text)
}

/// `Utf8Path::as_str`: the characters that the path holds.
#[verifier::external_body]
pub(crate) fn path_str(path: &Utf8PathBuf) -> (text: &str)
    ensures
        text@ == path_text(*path),
{
    path.as_str()
}

} // verus!
