//! Terminal styling of plain text.

use vstd::prelude::*;

use crate::text::concat;

verus! {

/// A text in bold, where styling is on.
pub open spec fn in_bold(s: Seq<char>, color: bool) -> Seq<char> {
    if color {
        "\x1b[1m"@ + s + "\x1b[0m"@
    } else {
        s
    }
}

/// A dimmed text, where styling is on.
pub open spec fn dimmed(s: Seq<char>, color: bool) -> Seq<char> {
    if color {
        "\x1b[2m"@ + s + "\x1b[0m"@
    } else {
        s
    }
}

/// Sets a text in bold, where styling is on.
pub fn bold(s: &str, color: bool) -> (r: String)
    ensures
        r@ == in_bold(s@, color),
{
    if color {
        let mut out = concat("\x1b[1m", s);
        out.push_str("\x1b[0m");
        out
    } else {
        s.to_owned()
    }
}

/// Dims a text, where styling is on.
pub fn dim(s: &str, color: bool) -> (r: String)
    ensures
        r@ == dimmed(s@, color),
{
    if color {
        let mut out = concat("\x1b[2m", s);
        out.push_str("\x1b[0m");
        out
    } else {
        s.to_owned()
    }
}

} // verus!
