//! UTF-8 label encoding.
use vstd::prelude::*;

verus! {

/// Encode text as UTF-8, null-terminated.
pub fn encode(text: &str) -> (r: Vec<u8>)
    ensures
        r@ == vstd::utf8::encode_utf8(text@).push(0u8),
{
    let bytes = text.as_bytes();
    let mut buf: Vec<u8> = Vec::new();
    crate::bytes::push_bytes(&mut buf, bytes);
    buf.push(0x00);
    buf
}

} // verus!
