//! Byte-alignment arithmetic shared by the block and option decoders.

use vstd::prelude::*;

verus! {

/// Whether a byte count sits on a 32-bit boundary.
pub open spec fn is_aligned(n: int) -> bool {
    n % 4 == 0
}

/// The number of bytes that bring a field of `n` bytes up to the next
/// 32-bit boundary.
pub open spec fn padding_of(n: int) -> int {
    (4 - n % 4) % 4
}

/// `padding_of(n)` is one of 0, 1, 2, 3, it aligns `n`, and no smaller
/// non-negative count does.
pub proof fn lemma_padding_is_least(n: int, p: int)
    requires
        0 <= n,
        0 <= p,
        is_aligned(n + p),
    ensures
        0 <= padding_of(n) < 4,
        is_aligned(n + padding_of(n)),
        padding_of(n) <= p,
{
}

/// Rounds a byte count up to a multiple of four and returns how many bytes
/// had to be added.
pub fn pad_to_32bits(length: usize) -> (padding: usize)
    ensures
        padding == padding_of(length as int),
        padding < 4,
        (length + padding) % 4 == 0,
        forall|p: int| 0 <= p && #[trigger] is_aligned(length + p) ==> padding <= p,
{
    let over: usize = length % 4;
    if over == 0 {
        0
    } else {
        4 - over
    }
}

} // verus!
