//! The lines of a document shown around an error: the line before it, the line itself and
//! the line after it.
use vstd::prelude::*;
use crate::text::{lines, lines_of, copy_string};

verus! {

/// Line `n`, counting from 1, of the lines `ls`; `None` when there is no such line.
pub open spec fn nth_line(ls: Seq<Seq<char>>, n: int) -> Option<Seq<char>> {
    if 1 <= n <= ls.len() {
        Some(ls[n - 1])
    } else {
        None
    }
}

pub open spec fn text_of(o: Option<String>) -> Option<Seq<char>> {
    match o {
        Some(t) => Some(t@),
        None => None,
    }
}

/// The lines around an error: each is `None` where the document has no such line.
pub struct Excerpt {
    pub before: Option<String>,
    pub at: Option<String>,
    pub after: Option<String>,
}

/// Line `n`, counting from 1, of the lines `ls`.
fn line_at(ls: &Vec<String>, n: usize) -> (r: Option<String>)
    ensures
        text_of(r) == nth_line(ls@.map_values(|l: String| l@), n as int),
{
    if n >= 1 && n <= ls.len() {
        let t = copy_string(&ls[n - 1]);
        Some(t)
    } else {
        None
    }
}

/// The excerpt of `source` around line `line`, counting from 1, split into lines as
/// `str::lines` splits them.
pub fn source_context(source: &str, line: usize) -> (e: Excerpt)
    requires
        line >= 1,
    ensures
        text_of(e.before) == nth_line(lines_of(source@), line - 1),
        text_of(e.at) == nth_line(lines_of(source@), line as int),
        text_of(e.after) == nth_line(lines_of(source@), line + 1),
{
    let ls = lines(source);
    let before = line_at(&ls, line - 1);
    let at = line_at(&ls, line);
    let after = if line < usize::MAX {
        line_at(&ls, line + 1)
    } else {
        None
    };
    Excerpt { before, at, after }
}

} // verus!
