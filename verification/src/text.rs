//! Bytes read as text, one character per byte.

use vstd::prelude::*;

verus! {

/// `String::push` appends one character to the end of the string.
pub assume_specification[ String::push ](s: &mut String, ch: char)
    ensures
        final(s)@ == old(s)@.push(ch),
;

/// The characters that `bytes` stand for when each byte is the number of one
/// character.
pub open spec fn bytes_as_text(bytes: Seq<u8>) -> Seq<char> {
    Seq::new(bytes.len(), |i: int| bytes[i] as char)
}

/// Builds the string whose characters are the bytes of `bytes`, in order.
pub fn text_of_bytes(bytes: &[u8]) -> (s: String)
    ensures
        s@ == bytes_as_text(bytes@),
{
    let mut s = String::new();
    let mut i: usize = 0;
    while i < bytes.len()
        invariant
            0 <= i <= bytes@.len(),
            s@ == bytes_as_text(bytes@.take(i as int)),
        decreases bytes@.len() - i,
    {
        let ch: char = bytes[i] as char;
        s.push(ch);
        assert(s@ =~= bytes_as_text(bytes@.take(i + 1)));
        i += 1;
    }
    assert(bytes@.take(i as int) =~= bytes@);
    s
}

} // verus!
