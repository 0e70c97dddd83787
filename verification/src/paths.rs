//! File paths as text, with `/` between their parts.
use vstd::prelude::*;
use vstd::string::StringExecFns;

use crate::text::chars_of;

verus! {

/// The path `rel` below `dir`: an absolute `rel` stands alone, and one slash separates the two.
pub open spec fn joined(dir: Seq<char>, rel: Seq<char>) -> Seq<char> {
    if rel.len() > 0 && rel[0] == '/' {
        rel
    } else if dir.len() == 0 || dir.last() == '/' {
        dir + rel
    } else {
        dir + "/"@ + rel
    }
}

/// The path `rel` below `dir`.
pub fn join(dir: &str, rel: &str) -> (r: String)
    ensures
        r@ == joined(dir@, rel@),
{
    let d: Vec<char> = chars_of(dir);
    let e: Vec<char> = chars_of(rel);
    if e.len() > 0 && e[0] == '/' {
        return rel.to_owned();
    }
    let mut out: String = dir.to_owned();
    if d.len() > 0 && d[d.len() - 1] != '/' {
        out.append("/");
    }
    out.append(rel);
    out
}

} // verus!
