//! Byte strings that are shown as text.
use vstd::prelude::*;

verus! {

/// The text that a lossy UTF-8 decoding of `b` gives.
pub uninterp spec fn lossy_utf8_of(b: Seq<u8>) -> Seq<char>;

/// Relies on bstr's `ByteSlice::to_str_lossy`: decodes `b` as UTF-8, with a
/// replacement character for each invalid sequence; the result depends on the
/// bytes alone.
#[verifier::external_body]
fn lossy_text(b: &[u8]) -> (r: String)
    ensures
        r@ == lossy_utf8_of(b@),
{
    bstr::ByteSlice::to_str_lossy(b).into_owned()
}

/// The characters of ASCII bytes, one for each byte.
pub open spec fn ascii_chars(b: Seq<u8>) -> Seq<char> {
    Seq::new(b.len(), |i: int| b[i] as char)
}

/// Relies on std's `String::from_utf8`: ASCII bytes are valid UTF-8, and each
/// becomes the character of the same value.
#[verifier::external_body]
pub(crate) fn ascii_string(b: Vec<u8>) -> (r: String)
    requires
        forall|i: int| 0 <= i < b@.len() ==> b@[i] < 128,
    ensures
        r@ == ascii_chars(b@),
{
    String::from_utf8(b).unwrap_or_default()
}

/// A view of bytes of a log line, which may not be valid UTF-8.
#[derive(Clone, Copy, Debug, PartialEq, Eq, Default)]
pub struct ShowLossyStr<'a>(pub &'a [u8]);

impl<'a> View for ShowLossyStr<'a> {
    type V = Seq<u8>;

    open spec fn view(&self) -> Seq<u8> {
        self.0@
    }
}

impl<'a> ShowLossyStr<'a> {
    /// The bytes, decoded as UTF-8 with invalid sequences replaced.
    pub fn to_str_lossy(&self) -> (r: String)
        ensures
            r@ == lossy_utf8_of(self@),
    {
        lossy_text(self.0)
    }

    /// The bytes viewed.
    pub fn as_bytes(&self) -> (r: &'a [u8])
        ensures
            r@ == self@,
    {
        self.0
    }
}

} // verus!
