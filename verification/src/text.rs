use vstd::prelude::*;

verus! {

/// Relies on core::str::from_utf8: ASCII bytes are valid UTF-8 and decode to
/// one character per byte, each with the byte's own code point. The unwrap
/// cannot fail because every byte is below 128.
#[verifier::external_body]
pub(crate) fn ascii_to_str(b: &[u8]) -> (r: &str)
    requires
        forall|i: int| 0 <= i < b@.len() ==> b@[i] < 128,
    ensures
        r@.len() == b@.len(),
        forall|i: int| 0 <= i < b@.len() ==> r@[i] as int == b@[i] as int,
{
    core::str::from_utf8(b).unwrap()
}

/// The characters that String::from_utf8_lossy yields for a byte sequence:
/// a function of the bytes alone, left uninterpreted here.
pub uninterp spec fn utf8_lossy_of(bytes: Seq<u8>) -> Seq<char>;

/// Relies on String::from_utf8_lossy: the result depends on the bytes alone,
/// and bytes that are all ASCII decode to one character per byte, each with
/// the byte's own code point.
#[verifier::external_body]
pub(crate) fn utf8_lossy_to_string(b: &[u8]) -> (r: String)
    ensures
        r@ == utf8_lossy_of(b@),
        (forall|i: int| 0 <= i < b@.len() ==> b@[i] < 128) ==> (r@.len() == b@.len() && forall|
            i: int,
        | 0 <= i < b@.len() ==> r@[i] as int == b@[i] as int),
{
    String::from_utf8_lossy(b).into_owned()
}

} // verus!
