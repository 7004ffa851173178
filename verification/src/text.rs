use vstd::prelude::*;

verus! {

/// Whether `a` and `b` hold the same characters.
///
/// Trusted: calls `==` of std on two string slices, which compares them by
/// content.
#[verifier::external_body]
pub(crate) fn str_eq(a: &str, b: &str) -> (same: bool)
    ensures
        same == (a@ == b@),
{
    a == b
}

/// Whether `text` begins with `prefix`.
///
/// Trusted: calls `str::starts_with` of std with a string slice as the
/// pattern, which says whether the pattern matches a prefix of the slice.
#[verifier::external_body]
pub(crate) fn has_prefix(text: &str, prefix: &str) -> (yes: bool)
    ensures
        yes == prefix@.is_prefix_of(text@),
{
    text.starts_with(prefix)
}

/// Splits `text` at the last occurrence of `delimiter`.
///
/// Trusted: calls `str::rsplit_once` of std with a `char` as the delimiter.
/// It returns nothing where the delimiter does not occur, and otherwise what
/// stands before its last occurrence and what stands behind it.
#[verifier::external_body]
pub(crate) fn split_at_last<'a>(text: &'a str, delimiter: char) -> (parts: Option<
    (&'a str, &'a str),
>)
    ensures
        parts is None <==> !text@.contains(delimiter),
        parts matches Some((head, tail)) ==> text@ == head@ + seq![delimiter] + tail@
            && !tail@.contains(delimiter),
{
    text.rsplit_once(delimiter)
}

/// Puts `c` at the end of `text`.
///
/// Trusted: calls `String::push` of std, which appends the given `char` to
/// the end of the string.
#[verifier::external_body]
pub(crate) fn push_char(text: &mut String, c: char)
    ensures
        final(text)@ == old(text)@.push(c),
{
    text.push(c)
}

/// Takes the last character off `text`.
///
/// Trusted: calls `String::pop` of std, which removes the last character
/// and returns it, and returns nothing where the string is empty.
#[verifier::external_body]
pub(crate) fn pop_char(text: &mut String) -> (last: Option<char>)
    ensures
        old(text)@.len() == 0 ==> last is None && final(text)@ == old(text)@,
        old(text)@.len() > 0 ==> last == Some(old(text)@.last()) && final(text)@ == old(
            text,
        )@.drop_last(),
{
    text.pop()
}

} // verus!
