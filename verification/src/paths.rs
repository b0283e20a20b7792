//! Where a browser finds a document's assets and where its links lead: the document's
//! directory, its file name for the navigation bar, and a link target placed in that
//! directory. Splitting a path into components is `std::path`'s; what is made of the parts
//! is stated here.
use vstd::prelude::*;
use crate::text::{string_of, append_str, copy_string};

verus! {

/// `Path::parent` read as text: the path without its final component, `None` when it ends
/// in a root or prefix or is empty.
pub uninterp spec fn path_parent(path: Seq<char>) -> Option<Seq<char>>;

/// `Path::file_name` read as text: the final component, `None` when there is none (the path
/// ends in `..`, or is a root or empty).
pub uninterp spec fn path_file_name(path: Seq<char>) -> Option<Seq<char>>;

/// Calls `Path::parent` on `path`; the parent is a part of `path`, so its text is valid
/// UTF-8 and is taken over unchanged.
#[verifier::external_body]
fn parent_of(path: &str) -> (r: Option<String>)
    ensures
        r matches Some(p) ==> path_parent(path@) == Some(p@),
        r is None ==> path_parent(path@) is None,
{
    std::path::Path::new(path).parent().map(|p| p.to_string_lossy().to_string())
}

/// Calls `Path::file_name` on `path`; the name is a part of `path`, so its text is valid
/// UTF-8 and is taken over unchanged.
#[verifier::external_body]
fn file_name_of(path: &str) -> (r: Option<String>)
    ensures
        r matches Some(n) ==> path_file_name(path@) == Some(n@),
        r is None ==> path_file_name(path@) is None,
{
    std::path::Path::new(path).file_name().map(|n| n.to_string_lossy().to_string())
}

/// The directory part of `path`, or nothing when it has no parent.
pub open spec fn dir_of(path: Seq<char>) -> Seq<char> {
    match path_parent(path) {
        Some(p) => p,
        None => Seq::empty(),
    }
}

/// Where a link to `target` from the document at `current` leads: the target itself when
/// the document has no directory, else the directory, a slash and the target.
pub open spec fn link_target_path(current: Seq<char>, target: Seq<char>) -> Seq<char> {
    let base = dir_of(current);
    if base.len() == 0 {
        target
    } else {
        base + "/"@ + target
    }
}

/// The directory of the document at `path` (its assets are found there); empty when it has
/// none.
pub fn parent_dir(path: &str) -> (r: String)
    ensures
        r@ == dir_of(path@),
{
    match parent_of(path) {
        Some(p) => p,
        None => String::new(),
    }
}

/// The file name of `path`, shown in the navigation bar; empty when it has none.
pub fn file_name(path: &str) -> (r: String)
    ensures
        r@ == match path_file_name(path@) {
            Some(n) => n,
            None => Seq::empty(),
        },
{
    match file_name_of(path) {
        Some(n) => n,
        None => String::new(),
    }
}

/// Where a link to `target` from the document at `current` leads.
pub fn link_path(current: &str, target: &str) -> (r: String)
    ensures
        r@ == link_target_path(current@, target@),
{
    let base = parent_dir(current);
    if base.as_str().is_empty() {
        string_of(target)
    } else {
        let mut r = copy_string(&base);
        append_str(&mut r, "/");
        append_str(&mut r, target);
        proof {
            reveal_strlit("/");
        }
        r
    }
}

} // verus!
