//! File-system paths as the library carries them: `std::path::PathBuf`
//! values, joined and copied through `std`, never looked into.

use vstd::prelude::*;
use std::path::PathBuf;

verus! {

#[verifier::external_type_specification]
#[verifier::external_body]
pub struct ExPathBuf(std::path::PathBuf);

/// Result of `Path::join` on a directory and a relative name.
pub uninterp spec fn joined_path(dir: PathBuf, name: Seq<char>) -> PathBuf;

/// `Path::join`: the path of `name` inside `dir`. The result depends on the
/// two arguments alone and is named, not spelled out.
#[verifier::external_body]
pub fn join_path(dir: &PathBuf, name: &str) -> (r: PathBuf)
    ensures
        r == joined_path(*dir, name@),
{
    dir.join(name)
}

/// `PathBuf::clone` gives an equal path.
pub assume_specification[ <std::path::PathBuf as std::clone::Clone>::clone ](p: &PathBuf) -> (r: PathBuf)
    ensures
        r == *p,
;

/// Result of `Path::display` rendered to a string.
pub uninterp spec fn displayed_path(p: PathBuf) -> Seq<char>;

/// `Path::display().to_string()`: the path as text, with any invalid UTF-8
/// replaced. The text depends on the path alone and is named.
#[verifier::external_body]
pub fn display_path(p: &PathBuf) -> (r: String)
    ensures
        r@ == displayed_path(*p),
{
    p.display().to_string()
}

} // verus!

verus! {

/// Result of `Path::ancestors`: the path itself, then each parent in turn.
pub uninterp spec fn ancestors_of(p: PathBuf) -> Seq<PathBuf>;

/// `Path::ancestors`, each ancestor as an owned path. The list depends on
/// the path alone (no file-system access) and is named.
#[verifier::external_body]
pub fn ancestors(p: &PathBuf) -> (r: Vec<PathBuf>)
    ensures
        r@ == ancestors_of(*p),
{
    p.ancestors().map(|a| a.to_path_buf()).collect()
}

/// Result of `Path::file_name` as text (lossy), if the path has one.
pub uninterp spec fn file_name_of(p: PathBuf) -> Option<Seq<char>>;

/// `Path::file_name`, converted with `to_string_lossy`. Depends on the path
/// alone and is named.
#[verifier::external_body]
pub fn file_name(p: &PathBuf) -> (r: Option<String>)
    ensures
        match r {
            Some(s) => file_name_of(*p) == Some(s@),
            None => file_name_of(*p) is None,
        },
{
    p.file_name().map(|n| n.to_string_lossy().into_owned())
}

/// Result of `Path::starts_with`: whether `base`'s components begin `p`.
pub uninterp spec fn path_prefix(base: PathBuf, p: PathBuf) -> bool;

/// `Path::starts_with`: whether `base` is a whole-component prefix of `p`.
/// It compares components only, with no file-system access, and is named.
#[verifier::external_body]
pub fn starts_with(p: &PathBuf, base: &PathBuf) -> (r: bool)
    ensures
        r == path_prefix(*base, *p),
{
    p.starts_with(base)
}


} // verus!
