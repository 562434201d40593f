//! Bytes as text.

use vstd::prelude::*;

verus! {

/// `std::str::from_utf8`: the text that the bytes encode, or nothing where they are not UTF-8.
#[verifier::external_body]
pub(crate) fn utf8_text(bytes: &[u8]) -> (r: Option<&str>)
    ensures
        r is Some <==> vstd::utf8::valid_utf8(bytes@),
        r is Some ==> r->0@ == vstd::utf8::decode_utf8(bytes@),
{
    std::str::from_utf8(bytes).ok()
}

/// The text that `String::from_utf8_lossy` makes of the bytes.
pub uninterp spec fn lossy_text(bytes: Seq<u8>) -> Seq<char>;

/// `String::from_utf8_lossy`: bytes that are UTF-8 are decoded as they are, also where bytes follow them that
/// are not. What takes the place of other bytes is left to the name `lossy_text`; it depends on the bytes
/// alone.
#[verifier::external_body]
pub(crate) fn utf8_text_lossy(bytes: &[u8]) -> (r: String)
    ensures
        r@ == lossy_text(bytes@),
        vstd::utf8::valid_utf8(bytes@) ==> r@ == vstd::utf8::decode_utf8(bytes@),
        forall|i: int|
            0 <= i <= bytes@.len() && #[trigger] vstd::utf8::valid_utf8(bytes@.take(i))
                ==> vstd::utf8::decode_utf8(bytes@.take(i)).is_prefix_of(r@),
{
    String::from_utf8_lossy(bytes).into_owned()
}

} // verus!
