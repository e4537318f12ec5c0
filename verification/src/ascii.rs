//! Texts of ASCII characters, seen as bytes.

use vstd::prelude::*;

verus! {

/// The bytes of a text of ASCII characters.
pub open spec fn ascii_bytes(text: Seq<char>) -> Seq<u8> {
    Seq::new(text.len(), |i: int| text[i] as u8)
}

} // verus!
