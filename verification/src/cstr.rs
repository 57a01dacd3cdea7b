//! Byte-string length: the index of the first NUL byte, as C's
//! `strlen` computes it over a terminated buffer.
use vstd::prelude::*;

verus! {

/// The index of the first zero byte of `bytes`, which must contain
/// one within the first `i32::MAX + 1` positions (an unterminated
/// buffer would be read past its end).
pub fn strlen(bytes: &[u8]) -> (r: i32)
    requires
        exists|i: int| 0 <= i <= 0x7FFF_FFFF && i < bytes@.len() && bytes@[i] == 0,
    ensures
        0 <= r < bytes@.len(),
        bytes@[r as int] == 0,
        forall|j: int| 0 <= j < r ==> bytes@[j] != 0,
{
    let ghost w = choose|i: int| 0 <= i <= 0x7FFF_FFFF && i < bytes@.len() && bytes@[i] == 0;
    let mut len: usize = 0;
    while bytes[len] != 0
        invariant
            0 <= len <= w,
            w <= 0x7FFF_FFFF,
            w < bytes@.len(),
            bytes@[w] == 0,
            forall|j: int| 0 <= j < len ==> bytes@[j] != 0,
        decreases w - len,
    {
        len = len + 1;
    }
    len as i32
}

} // verus!
