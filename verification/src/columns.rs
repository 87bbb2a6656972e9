//! Text padded to a width in terminal columns, where wide characters take two.
use vstd::prelude::*;

use crate::text::{push_char, push_str};

verus! {

/// How many terminal columns a string takes, as `unicode_width` counts them.
pub uninterp spec fn display_width(text: Seq<char>) -> usize;

/// The width of `text` in columns, from `unicode_width::UnicodeWidthStr::width`.
/// Claimed: the width depends on the characters of `text` alone; its value is left to
/// the crate (wide characters count two, ambiguous ones one).
#[verifier::external_body]
fn str_width(text: &str) -> (width: usize)
    ensures
        width == display_width(text@),
{
    unicode_width::UnicodeWidthStr::width(text)
}

/// `text`, `shown` columns wide, followed by spaces up to `width` columns; as it is when it
/// already takes `width` columns or more.
pub open spec fn padded(text: Seq<char>, shown: int, width: int) -> Seq<char> {
    if shown >= width {
        text
    } else {
        text + Seq::new((width - shown) as nat, |i: int| ' ')
    }
}

/// `text`, which takes `shown` columns, padded with spaces on the right to `width` columns.
pub fn pad_to_columns(text: &str, shown: usize, width: usize) -> (out: String)
    ensures
        out@ == padded(text@, shown as int, width as int),
{
    let mut out = String::new();
    push_str(&mut out, text);
    if shown >= width {
        return out;
    }
    let missing = width - shown;
    let mut count: usize = 0;
    while count < missing
        invariant
            count <= missing,
            missing == width - shown,
            out@ == text@ + Seq::new(count as nat, |i: int| ' '),
        decreases missing - count,
    {
        push_char(&mut out, ' ');
        count += 1;
        proof {
            assert(out@ =~= text@ + Seq::new(count as nat, |i: int| ' '));
        }
    }
    out
}

/// `s` padded with spaces on the right to `width` terminal columns, so that columns of
/// text holding wide characters line up.
pub fn pad_to_width(s: &str, width: usize) -> (out: String)
    ensures
        out@ == padded(s@, display_width(s@) as int, width as int),
{
    let shown = str_width(s);
    pad_to_columns(s, shown, width)
}

} // verus!
