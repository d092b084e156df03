//! Lossy text decoding of raw byte strings, used only for display: the
//! formats this crate reads assume no encoding for names and cells.

use vstd::prelude::*;

verus! {

/// The characters that lossy UTF-8 decoding yields for these bytes: valid
/// UTF-8 sequences decode to their characters and every invalid sequence
/// is replaced. The result depends on the bytes alone.
pub uninterp spec fn lossy_of(bytes: Seq<u8>) -> Seq<char>;

/// Relies on String::from_utf8_lossy: the decoding is a pure function of
/// the bytes; it maps ASCII bytes to the same characters and yields an
/// empty string exactly for empty input.
#[verifier::external_body]
pub fn lossy_utf8(bytes: &[u8]) -> (r: String)
    ensures
        r@ == lossy_of(bytes@),
        (forall|i: int| 0 <= i < bytes@.len() ==> bytes@[i] < 0x80) ==> r@ == bytes@.map_values(
            |b: u8| b as char,
        ),
        r@.len() == 0 <==> bytes@.len() == 0,
{
    String::from_utf8_lossy(bytes).into_owned()
}

} // verus!
