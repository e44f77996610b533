//! Surrounding whitespace, and what is left of a text without it.

use vstd::prelude::*;

verus! {

/// The characters with the Unicode property `White_Space`.
pub open spec fn is_white_space(c: char) -> bool {
    let code = c as u32;
    ||| 0x09 <= code <= 0x0d
    ||| code == 0x20
    ||| code == 0x85
    ||| code == 0xa0
    ||| code == 0x1680
    ||| 0x2000 <= code <= 0x200a
    ||| code == 0x2028
    ||| code == 0x2029
    ||| code == 0x202f
    ||| code == 0x205f
    ||| code == 0x3000
}

/// `text` from its first character that is no whitespace.
pub open spec fn skip_leading(text: Seq<char>) -> Seq<char>
    decreases text.len(),
{
    if text.len() > 0 && is_white_space(text[0]) {
        skip_leading(text.drop_first())
    } else {
        text
    }
}

/// `text` up to its last character that is no whitespace.
pub open spec fn skip_trailing(text: Seq<char>) -> Seq<char>
    decreases text.len(),
{
    if text.len() > 0 && is_white_space(text.last()) {
        skip_trailing(text.drop_last())
    } else {
        text
    }
}

/// `text` without the whitespace at its two ends.
pub open spec fn trimmed(text: Seq<char>) -> Seq<char> {
    skip_trailing(skip_leading(text))
}

/// A text is bare when neither end of it is whitespace.
pub open spec fn is_bare(text: Seq<char>) -> bool {
    text.len() > 0 ==> !is_white_space(text[0]) && !is_white_space(text.last())
}

/// Calls `str::trim`. The contract says that the slice returned is the
/// argument without its leading and trailing characters of the Unicode
/// property `White_Space`, the characters between them unchanged.
#[verifier::external_body]
pub(crate) fn trim(text: &str) -> (inner: &str)
    ensures
        inner@ == trimmed(text@),
{
    text.trim()
}

/// Trimming leaves a bare text as it is.
pub proof fn lemma_trimmed_of_bare(text: Seq<char>)
    requires
        is_bare(text),
    ensures
        trimmed(text) == text,
{
}

proof fn lemma_skip_leading_starts_bare(text: Seq<char>)
    ensures
        skip_leading(text).len() > 0 ==> !is_white_space(skip_leading(text)[0]),
    decreases text.len(),
{
    if text.len() > 0 && is_white_space(text[0]) {
        lemma_skip_leading_starts_bare(text.drop_first());
    }
}

proof fn lemma_skip_trailing_keeps_start(text: Seq<char>)
    ensures
        skip_trailing(text).len() <= text.len(),
        skip_trailing(text).len() > 0 ==> skip_trailing(text)[0] == text[0] && !is_white_space(
            skip_trailing(text).last(),
        ),
    decreases text.len(),
{
    if text.len() > 0 && is_white_space(text.last()) {
        lemma_skip_trailing_keeps_start(text.drop_last());
    }
}

/// What trimming returns is bare, so trimming it again changes nothing.
pub proof fn lemma_trimmed_is_bare(text: Seq<char>)
    ensures
        is_bare(trimmed(text)),
        trimmed(trimmed(text)) == trimmed(text),
{
    lemma_skip_leading_starts_bare(text);
    lemma_skip_trailing_keeps_start(skip_leading(text));
    lemma_trimmed_of_bare(trimmed(text));
}

} // verus!
