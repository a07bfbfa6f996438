//! Paragraphs are wrapped and indented by the `textwrap` crate. What it
//! returns is named here and not described: nothing in this library depends
//! on where a line is broken.
use vstd::prelude::*;

verus! {

/// What `textwrap::fill` makes of `text` for lines of `width` columns.
pub uninterp spec fn filled(text: Seq<char>, width: usize) -> Seq<char>;

/// What `textwrap::indent` makes of `text` with `prefix` before its lines.
pub uninterp spec fn indented(text: Seq<char>, prefix: Seq<char>) -> Seq<char>;

/// Calls `textwrap::fill` with a plain width, that is with the crate's
/// default options for that width. The result depends on `text` and
/// `width` alone; the contract gives it its name and claims nothing else.
#[verifier::external_body]
pub(crate) fn fill(text: &str, width: usize) -> (wrapped: String)
    ensures
        wrapped@ == filled(text@, width),
{
    textwrap::fill(text, width)
}

/// Calls `textwrap::indent`. The result depends on `text` and `prefix`
/// alone; the contract gives it its name and claims nothing else.
#[verifier::external_body]
pub(crate) fn indent(text: &str, prefix: &str) -> (shifted: String)
    ensures
        shifted@ == indented(text@, prefix@),
{
    textwrap::indent(text, prefix)
}

/// Calls `textwrap::termwidth`: the width of the terminal, or 80 where
/// there is none. It may differ from call to call, so nothing is claimed of
/// it.
#[verifier::external_body]
pub(crate) fn terminal_width() -> usize {
    textwrap::termwidth()
}

} // verus!
