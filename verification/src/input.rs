//! Lines of input: the bytes that were read, and the text they stand for.

use vstd::prelude::*;
use vstd::utf8::{decode_utf8, valid_utf8};
use bstr::ByteSlice;

verus! {

/// The text that bytes stand for: what they encode in UTF-8, with the
/// replacement character U+FFFD in place of each part that encodes nothing.
pub uninterp spec fn lossy_text(bytes: Seq<u8>) -> Seq<char>;

/// `bstr::ByteSlice::to_str_lossy`: the text that `bytes` stand for. Bytes
/// that are UTF-8 from end to end are taken as they are, so their text is
/// what they encode.
#[verifier::external_body]
fn to_str_lossy(bytes: &[u8]) -> (text: String)
    ensures
        text@ == lossy_text(bytes@),
        valid_utf8(bytes@) ==> text@ == decode_utf8(bytes@),
{
    bytes.to_str_lossy().into_owned()
}

/// The text of a line that was read as bytes. No line is refused: what is
/// not UTF-8 in it is replaced.
pub fn decode_line(bytes: &[u8]) -> (text: String)
    ensures
        text@ == lossy_text(bytes@),
        valid_utf8(bytes@) ==> text@ == decode_utf8(bytes@),
{
    to_str_lossy(bytes)
}

} // verus!
