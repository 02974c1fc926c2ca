//! Little-endian integers and runs of bytes on the wire.
//!
//! The integer readers are nom's; what they compute is stated here over
//! byte sequences, together with the encoding that they invert.

use crate::error::ParseError;
use vstd::prelude::*;

verus! {

/// The value of the first two bytes of `s`, least significant byte first.
pub open spec fn le_u16_value(s: Seq<u8>) -> int
    recommends
        s.len() >= 2,
{
    s[0] as int + 0x100 * (s[1] as int)
}

/// The value of the first four bytes of `s`, least significant byte first.
pub open spec fn le_u32_value(s: Seq<u8>) -> int
    recommends
        s.len() >= 4,
{
    s[0] as int + 0x100 * (s[1] as int) + 0x1_0000 * (s[2] as int) + 0x100_0000 * (s[3] as int)
}

/// The two bytes that carry `v` on the wire.
pub open spec fn le_u16_bytes(v: u16) -> Seq<u8> {
    seq![(v as int % 0x100) as u8, (v as int / 0x100) as u8]
}

/// The four bytes that carry `v` on the wire.
pub open spec fn le_u32_bytes(v: u32) -> Seq<u8> {
    seq![
        (v as int % 0x100) as u8,
        (v as int / 0x100 % 0x100) as u8,
        (v as int / 0x1_0000 % 0x100) as u8,
        (v as int / 0x100_0000) as u8,
    ]
}

/// A four-byte value always fits a `u32`.
pub proof fn lemma_le_u32_value_range(s: Seq<u8>)
    ensures
        0 <= le_u32_value(s) <= u32::MAX,
{
}

/// Reading what `le_u16_bytes` wrote gives the value back, whatever follows.
pub proof fn lemma_le_u16_roundtrip(v: u16, tail: Seq<u8>)
    ensures
        le_u16_bytes(v).len() == 2,
        le_u16_value(le_u16_bytes(v) + tail) == v,
{
    let s = le_u16_bytes(v) + tail;
    assert(s[0] == le_u16_bytes(v)[0]);
    assert(s[1] == le_u16_bytes(v)[1]);
}

/// Reading what `le_u32_bytes` wrote gives the value back, whatever follows.
pub proof fn lemma_le_u32_roundtrip(v: u32, tail: Seq<u8>)
    ensures
        le_u32_bytes(v).len() == 4,
        le_u32_value(le_u32_bytes(v) + tail) == v,
{
    let s = le_u32_bytes(v) + tail;
    assert(s[0] == le_u32_bytes(v)[0]);
    assert(s[1] == le_u32_bytes(v)[1]);
    assert(s[2] == le_u32_bytes(v)[2]);
    assert(s[3] == le_u32_bytes(v)[3]);
}

/// Calls `nom::le_u16`. With fewer than two bytes nom asks for more input,
/// which is reported as `Incomplete`; otherwise it returns the input after
/// its first two bytes, and those two bytes as a little-endian number.
#[verifier::external_body]
pub(crate) fn le_u16<'a>(input: &'a [u8]) -> (r: Result<(&'a [u8], u16), ParseError>)
    ensures
        input@.len() < 2 ==> r is Err && r->Err_0 == ParseError::Incomplete,
        input@.len() >= 2 ==> r is Ok && r->Ok_0.0@ == input@.skip(2) && r->Ok_0.1
            == le_u16_value(input@),
{
    match nom::le_u16(input) {
        Ok((rest, value)) => Ok((rest, value)),
        Err(nom::Err::Incomplete(_)) => Err(ParseError::Incomplete),
        Err(nom::Err::Error(_)) => Err(ParseError::Error),
        Err(nom::Err::Failure(_)) => Err(ParseError::Failure),
    }
}

/// Calls `nom::le_u32`. With fewer than four bytes nom asks for more input,
/// which is reported as `Incomplete`; otherwise it returns the input after
/// its first four bytes, and those four bytes as a little-endian number.
#[verifier::external_body]
pub(crate) fn le_u32<'a>(input: &'a [u8]) -> (r: Result<(&'a [u8], u32), ParseError>)
    ensures
        input@.len() < 4 ==> r is Err && r->Err_0 == ParseError::Incomplete,
        input@.len() >= 4 ==> r is Ok && r->Ok_0.0@ == input@.skip(4) && r->Ok_0.1
            == le_u32_value(input@),
{
    match nom::le_u32(input) {
        Ok((rest, value)) => Ok((rest, value)),
        Err(nom::Err::Incomplete(_)) => Err(ParseError::Incomplete),
        Err(nom::Err::Error(_)) => Err(ParseError::Error),
        Err(nom::Err::Failure(_)) => Err(ParseError::Failure),
    }
}

/// Splits `input` after its first `count` bytes: the rest, then the bytes
/// taken. Input shorter than `count` is `Incomplete`.
pub fn take<'a>(input: &'a [u8], count: usize) -> (r: Result<(&'a [u8], &'a [u8]), ParseError>)
    ensures
        input@.len() < count ==> r is Err && r->Err_0 == ParseError::Incomplete,
        input@.len() >= count ==> r is Ok && r->Ok_0.0@ == input@.skip(count as int)
            && r->Ok_0.1@ == input@.take(count as int),
{
    let len: usize = input.len();
    if len < count {
        Err(ParseError::Incomplete)
    } else {
        let taken = vstd::slice::slice_subrange(input, 0, count);
        let rest = vstd::slice::slice_subrange(input, count, len);
        Ok((rest, taken))
    }
}

} // verus!
