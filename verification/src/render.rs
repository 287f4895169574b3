//! Text that the standard library renders.
use vstd::prelude::*;
use vstd::utf8::{decode_utf8, valid_utf8};

verus! {

/// The text that `String::from_utf8_lossy` makes of `bytes`.
pub uninterp spec fn lossy_text(bytes: Seq<u8>) -> Seq<char>;

/// The text that the `Debug` formatting of strings makes of `s`.
pub uninterp spec fn debug_text(s: Seq<char>) -> Seq<char>;

/// Whether `text` is how `bytes` are shown: decoded as they stand where they are valid
/// UTF-8, else with a replacement character among the text.
pub open spec fn shows(text: Seq<char>, bytes: Seq<u8>) -> bool {
    &&& text == lossy_text(bytes)
    &&& valid_utf8(bytes) ==> text == decode_utf8(bytes)
    &&& !valid_utf8(bytes) ==> text.contains('\u{fffd}')
}

/// Whether `text` is how an optional path is shown: absent exactly where the path is.
pub open spec fn shows_path(text: Option<String>, path: Option<Vec<u8>>) -> bool {
    match (text, path) {
        (Some(s), Some(bytes)) => shows(s@, bytes@),
        (None, None) => true,
        _ => false,
    }
}

/// Calls `String::from_utf8_lossy`. Trusted of it: the text depends on the bytes
/// alone, bytes that are valid UTF-8 are decoded as they stand, and of other bytes
/// the text holds a replacement character. How many it holds, and where, is left
/// unsaid.
#[verifier::external_body]
pub(crate) fn text_lossy(bytes: &[u8]) -> (s: String)
    ensures
        s@ == lossy_text(bytes@),
        valid_utf8(bytes@) ==> s@ == decode_utf8(bytes@),
        !valid_utf8(bytes@) ==> s@.contains('\u{fffd}'),
{
    String::from_utf8_lossy(bytes).into_owned()
}

/// Formats with `{:?}`, the `Debug` implementation of `str`. Trusted of it: the
/// text depends on the string alone. Which characters are escaped, and how, is
/// left unsaid.
#[verifier::external_body]
pub(crate) fn text_debug(s: &str) -> (shown: String)
    ensures
        shown@ == debug_text(s@),
{
    format!("{:?}", s)
}

} // verus!
