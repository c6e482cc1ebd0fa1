use unicode_segmentation::UnicodeSegmentation;
use vstd::prelude::*;

verus! {

/// Whether `c` is a letter or a digit of any script, as the standard
/// library's `char::is_alphanumeric` tells it.
pub uninterp spec fn is_alphanumeric(c: char) -> bool;

/// Whether `c` is a letter or a digit.
///
/// Trusted: `char::is_alphanumeric` of the standard library. It decides by
/// the Unicode tables compiled into the library, from the character alone;
/// the contract gives that answer a name and claims nothing else of it.
#[verifier::external_body]
pub(crate) fn char_is_alphanumeric(c: char) -> (r: bool)
    ensures
        r == is_alphanumeric(c),
{
    c.is_alphanumeric()
}

/// The grapheme clusters that `text` splits into, in order: the extended
/// ones if `extended`, the legacy ones otherwise.
pub uninterp spec fn graphemes(text: Seq<char>, extended: bool) -> Seq<Seq<char>>;

/// Splits `text` into its grapheme clusters.
///
/// Trusted: `UnicodeSegmentation::graphemes` of the crate
/// `unicode-segmentation`, which walks the clusters of a string by the
/// boundary rules of Unicode Annex 29. The clusters depend on the text and
/// on the flag alone; the contract gives them a name and claims nothing
/// else of them.
#[verifier::external_body]
pub(crate) fn grapheme_clusters(text: &str, extended: bool) -> (clusters: Vec<String>)
    ensures
        clusters.deep_view() == graphemes(text@, extended),
{
    UnicodeSegmentation::graphemes(text, extended).map(|cluster| cluster.to_owned()).collect()
}

/// The text `text` with each of its lines indented by `prefix`, as the
/// crate `textwrap` indents it.
pub uninterp spec fn indented(text: Seq<char>, prefix: Seq<char>) -> Seq<char>;

/// Indents each line of `text` by `prefix`.
///
/// Trusted: `textwrap::indent`, which puts the prefix before every line of
/// the text, and before a line of white space only the prefix without the
/// white space it ends in. What counts as white space is Unicode's matter,
/// so the contract gives the result a name and claims nothing else of it;
/// it depends on the two arguments alone.
#[verifier::external_body]
pub(crate) fn indent(text: &str, prefix: &str) -> (r: String)
    ensures
        r@ == indented(text@, prefix@),
{
    textwrap::indent(text, prefix)
}

/// Appends one character to a string.
///
/// Trusted: `String::push` of the standard library, which is documented to
/// append the given character to the end of the string.
#[verifier::external_body]
pub(crate) fn push_char(s: &mut String, c: char)
    ensures
        final(s)@ == old(s)@.push(c),
{
    s.push(c)
}

/// The characters of a string slice, in order.
pub fn chars_of(s: &str) -> (v: Vec<char>)
    ensures
        v@ == s@,
{
    let mut v: Vec<char> = Vec::new();
    for c in it: s.chars()
        invariant
            v@ == it.seq().take(it.index() as int),
    {
        v.push(c);
    }
    v
}

} // verus!
