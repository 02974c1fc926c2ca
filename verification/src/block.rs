//! The outer framing of a block, as the block iterator hands it on.

use vstd::prelude::*;

verus! {

/// One block as cut out of a capture: its type code, the length that
/// stands before the body, the body, and the length that is repeated after
/// it. Both lengths count the twelve bytes of framing as well. Whoever
/// builds a `RawBlock` is the one to compare them; the decoders hand both
/// on as they are.
#[derive(Debug)]
pub struct RawBlock<'a> {
    pub ty: u32,
    pub block_length: u32,
    pub body: &'a [u8],
    pub check_length: u32,
}

} // verus!
