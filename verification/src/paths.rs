//! Output paths of chapters. A path is carried as `std::path::PathBuf`;
//! what the library needs to know of one is named here.

use std::path::PathBuf;
use vstd::prelude::*;

verus! {

/// `std::path::PathBuf`, of which only the names below speak.
#[verifier::external_type_specification]
#[verifier::external_body]
pub struct ExPathBuf(std::path::PathBuf);

/// The text of a path, or `None` where the path is not valid Unicode.
pub uninterp spec fn path_text(path: PathBuf) -> Option<Seq<char>>;

/// Whether a path has a parent, that is whether it is neither empty nor ends
/// in a root.
pub uninterp spec fn path_has_parent(path: PathBuf) -> bool;

/// The relative path that leads from the directory of `path` back to the root.
pub uninterp spec fn path_root_prefix(path: PathBuf) -> Seq<char>;

/// `n` times the segment `../`.
pub open spec fn parent_steps(n: nat) -> Seq<char>
    decreases n,
{
    if n == 0 {
        Seq::empty()
    } else {
        parent_steps((n - 1) as nat) + seq!['.', '.', '/']
    }
}

/// The way from a chapter's directory back to the root: empty for a path
/// without a parent.
pub open spec fn chapter_prefix(path: PathBuf) -> Seq<char> {
    if path_has_parent(path) {
        path_root_prefix(path)
    } else {
        Seq::empty()
    }
}

/// `PathBuf::clone` returns an equal path.
pub assume_specification[ <PathBuf as Clone>::clone ](path: &PathBuf) -> (copy: PathBuf)
    ensures
        copy == *path,
;

/// `Path::to_str`, with the slice copied into a `String`: the text of the
/// path where it is valid Unicode, `None` where it is not.
#[verifier::external_body]
pub(crate) fn path_to_text(path: &PathBuf) -> (text: Option<String>)
    ensures
        match text {
            Some(t) => path_text(*path) == Some(t@),
            None => path_text(*path) is None,
        },
{
    path.to_str().map(|s| s.to_string())
}

/// `PathBuf::from` on a `String`: the path whose text is that string.
#[verifier::external_body]
pub(crate) fn path_from_text(text: String) -> (path: PathBuf)
    ensures
        path_text(path) == Some(text@),
{
    PathBuf::from(text)
}

/// `Path::parent`, asked only whether there is one.
#[verifier::external_body]
pub(crate) fn has_parent(path: &PathBuf) -> (b: bool)
    ensures
        b == path_has_parent(*path),
{
    path.parent().is_some()
}

/// `mdbook::utils::fs::path_to_root`: one `../` for each directory between
/// the root and the file. The function panics on a path without a parent,
/// which `requires` leaves out. Which directories count is left to the name;
/// that the result is made of whole `../` segments is stated.
#[verifier::external_body]
pub(crate) fn root_prefix(path: &PathBuf) -> (prefix: String)
    requires
        path_has_parent(*path),
    ensures
        prefix@ == path_root_prefix(*path),
        exists|n: nat| prefix@ == parent_steps(n),
{
    mdbook::utils::fs::path_to_root(path)
}

/// The way from the directory of `path` back to the root, made of `../`
/// segments; empty for a path without a parent.
pub fn root_of(path: &PathBuf) -> (prefix: String)
    ensures
        prefix@ == chapter_prefix(*path),
        exists|n: nat| prefix@ == parent_steps(n),
{
    if has_parent(path) {
        root_prefix(path)
    } else {
        let prefix = String::new();
        assert(prefix@ == parent_steps(0));
        prefix
    }
}

} // verus!
