//! The Enhanced Packet Block: one captured packet and what is known of it.
//!
//! The body holds five little-endian 32-bit fields (interface, timestamp
//! high and low, captured length, packet length), the captured bytes,
//! padding up to the next 32-bit boundary, and then, if anything is left,
//! a list of options.

use crate::block::RawBlock;
use crate::error::ParseError;
use crate::wire::{
    le_u32, le_u32_bytes, le_u32_value, lemma_le_u32_roundtrip, lemma_le_u32_value_range, take,
};
use crate::options::{
    encoded_entry, end_of_options, lemma_one_option_then_end, lemma_truncated_entry, options_of,
    parse_options, OptView, Options, END_OF_OPTIONS,
};
use crate::util::{pad_to_32bits, padding_of};
use vstd::prelude::*;

verus! {

/// The type code of an Enhanced Packet Block.
pub const TY: u32 = 0x00000006;

/// An Enhanced Packet Block is the standard container for storing the
/// packets coming from the network.
#[derive(Debug)]
pub struct EnhancedPacket<'a> {
    pub ty: u32,
    pub block_length: u32,
    pub interface_id: u32,
    pub timestamp_hi: u32,
    pub timestamp_lo: u32,
    pub captured_len: u32,
    pub packet_len: u32,
    pub data: &'a [u8],
    pub options: Option<Options<'a>>,
    pub check_length: u32,
}

/// What a block says, apart from where its bytes live.
pub struct EnhancedPacketView {
    pub ty: u32,
    pub block_length: u32,
    pub interface_id: u32,
    pub timestamp_hi: u32,
    pub timestamp_lo: u32,
    pub captured_len: u32,
    pub packet_len: u32,
    pub data: Seq<u8>,
    pub options: Option<Seq<OptView>>,
    pub check_length: u32,
}

impl<'a> View for EnhancedPacket<'a> {
    type V = EnhancedPacketView;

    open spec fn view(&self) -> EnhancedPacketView {
        EnhancedPacketView {
            ty: self.ty,
            block_length: self.block_length,
            interface_id: self.interface_id,
            timestamp_hi: self.timestamp_hi,
            timestamp_lo: self.timestamp_lo,
            captured_len: self.captured_len,
            packet_len: self.packet_len,
            data: self.data@,
            options: match self.options {
                Some(list) => Some(list@),
                None => None,
            },
            check_length: self.check_length,
        }
    }
}

/// The `index`-th of the fixed fields of `body`, counted from zero.
pub open spec fn fixed_field(body: Seq<u8>, index: int) -> int
    recommends
        0 <= index < 5,
        body.len() >= 20,
{
    le_u32_value(body.skip(4 * index))
}

/// The captured length that `body` declares.
pub open spec fn declared_captured_len(body: Seq<u8>) -> int
    recommends
        body.len() >= 20,
{
    fixed_field(body, 3)
}

/// Where in `body` the trailer starts: after the fixed fields, the
/// captured bytes and their padding.
pub open spec fn trailer_start(body: Seq<u8>) -> int
    recommends
        body.len() >= 20,
{
    20 + declared_captured_len(body) + padding_of(declared_captured_len(body))
}

/// Whether `body` holds its fixed fields, the captured bytes that they
/// declare, and the padding.
pub open spec fn body_complete(body: Seq<u8>) -> bool {
    body.len() >= 20 && body.len() >= trailer_start(body)
}

/// What follows the padding in a complete body.
pub open spec fn trailer_of(body: Seq<u8>) -> Seq<u8>
    recommends
        body_complete(body),
{
    body.skip(trailer_start(body))
}

/// The block that the fixed fields and the captured bytes of a complete
/// body give, before any option is looked at.
pub open spec fn without_options(
    body: Seq<u8>,
    block_length: u32,
    check_length: u32,
) -> EnhancedPacketView
    recommends
        body_complete(body),
{
    EnhancedPacketView {
        ty: TY,
        block_length,
        interface_id: fixed_field(body, 0) as u32,
        timestamp_hi: fixed_field(body, 1) as u32,
        timestamp_lo: fixed_field(body, 2) as u32,
        captured_len: fixed_field(body, 3) as u32,
        packet_len: fixed_field(body, 4) as u32,
        data: body.subrange(20, 20 + declared_captured_len(body)),
        options: None,
        check_length,
    }
}

/// What a body decodes to under the given framing lengths: the bytes left
/// over, and the block. `None` where the body is not complete.
///
/// A trailer that decodes as a list of options gives the options, and
/// leaves over what follows the list. Any other trailer gives no options
/// and is left over whole, so that an empty trailer and a broken one can
/// be told apart by what is left.
pub open spec fn decoded(body: Seq<u8>, block_length: u32, check_length: u32) -> Option<
    (Seq<u8>, EnhancedPacketView),
> {
    if !body_complete(body) {
        None
    } else {
        let fixed = without_options(body, block_length, check_length);
        match options_of(trailer_of(body)) {
            Some((found, rest)) => Some(
                (rest, EnhancedPacketView { options: Some(found), ..fixed }),
            ),
            None => Some((trailer_of(body), fixed)),
        }
    }
}

/// Decodes the body of an Enhanced Packet Block: the bytes left over, and
/// the block with both of its framing lengths zero. A body that ends
/// before its padding does is `Incomplete`; nothing else fails.
pub fn enhanced_packet_body<'a>(input: &'a [u8]) -> (r: Result<
    (&'a [u8], EnhancedPacket<'a>),
    ParseError,
>)
    ensures
        r is Ok <==> body_complete(input@),
        match decoded(input@, 0, 0) {
            Some((rest, packet)) => r is Ok && r->Ok_0.0@ == rest && r->Ok_0.1@ == packet,
            None => r is Err && r->Err_0 == ParseError::Incomplete,
        },
{
    let (after_interface, interface_id) = match le_u32(input) {
        Ok(found) => found,
        Err(e) => { return Err(e); },
    };
    let (after_hi, timestamp_hi) = match le_u32(after_interface) {
        Ok(found) => found,
        Err(e) => { return Err(e); },
    };
    let (after_lo, timestamp_lo) = match le_u32(after_hi) {
        Ok(found) => found,
        Err(e) => { return Err(e); },
    };
    let (after_captured, captured_len) = match le_u32(after_lo) {
        Ok(found) => found,
        Err(e) => { return Err(e); },
    };
    let (after_fixed, packet_len) = match le_u32(after_captured) {
        Ok(found) => found,
        Err(e) => { return Err(e); },
    };
    proof {
        assert(input@.skip(0) == input@);
        assert(after_hi@ == input@.skip(8));
        assert(after_lo@ == input@.skip(12));
        assert(after_captured@ == input@.skip(16));
        assert(after_fixed@ == input@.skip(20));
    }
    let (after_data, data) = match take(after_fixed, captured_len as usize) {
        Ok(found) => found,
        Err(e) => { return Err(e); },
    };
    let (trailer, _padding) = match take(after_data, pad_to_32bits(captured_len as usize)) {
        Ok(found) => found,
        Err(e) => { return Err(e); },
    };
    proof {
        assert(data@ == input@.subrange(20, 20 + declared_captured_len(input@)));
        assert(trailer@ == trailer_of(input@));
    }
    let (rest, options) = match parse_options(trailer) {
        Ok((rest, list)) => (rest, Some(list)),
        Err(_) => (trailer, None),
    };
    Ok(
        (
            rest,
            EnhancedPacket {
                ty: TY,
                block_length: 0,
                interface_id,
                timestamp_hi,
                timestamp_lo,
                captured_len,
                packet_len,
                data,
                options,
                check_length: 0,
            },
        ),
    )
}

/// Decodes a block as an Enhanced Packet Block. The body is decoded as
/// `enhanced_packet_body` does it; the two framing lengths are taken over
/// from `blk` as they are, equal or not.
pub fn parse<'a>(blk: RawBlock<'a>) -> (r: Result<(&'a [u8], EnhancedPacket<'a>), ParseError>)
    ensures
        r is Ok <==> body_complete(blk.body@),
        match decoded(blk.body@, blk.block_length, blk.check_length) {
            Some((rest, packet)) => r is Ok && r->Ok_0.0@ == rest && r->Ok_0.1@ == packet,
            None => r is Err && r->Err_0 == ParseError::Incomplete,
        },
{
    match enhanced_packet_body(blk.body) {
        Ok((left, mut block)) => {
            block.block_length = blk.block_length;
            block.check_length = blk.check_length;
            Ok((left, block))
        },
        Err(e) => Err(e),
    }
}

/// The bytes of a body on the wire, up to its trailer. The captured length
/// written is the length of `data`; `padding` stands for the bytes that
/// align the data, whatever they hold.
pub open spec fn encoded_body(
    interface_id: u32,
    timestamp_hi: u32,
    timestamp_lo: u32,
    packet_len: u32,
    data: Seq<u8>,
    padding: Seq<u8>,
) -> Seq<u8>
    recommends
        data.len() <= u32::MAX,
        padding.len() == padding_of(data.len() as int),
{
    le_u32_bytes(interface_id) + le_u32_bytes(timestamp_hi) + le_u32_bytes(timestamp_lo)
        + le_u32_bytes(data.len() as u32) + le_u32_bytes(packet_len) + data + padding
}

/// A body that ends inside its fixed fields does not decode.
pub proof fn lemma_short_fixed_fields(body: Seq<u8>, block_length: u32, check_length: u32)
    requires
        body.len() < 20,
    ensures
        decoded(body, block_length, check_length) is None,
{
}

/// A body that declares more captured bytes than follow its fixed fields
/// does not decode.
pub proof fn lemma_short_payload(body: Seq<u8>, block_length: u32, check_length: u32)
    requires
        body.len() >= 20,
        declared_captured_len(body) > body.len() - 20,
    ensures
        decoded(body, block_length, check_length) is None,
{
}

/// A body that ends with its padding decodes to a block without options,
/// and leaves nothing over.
pub proof fn lemma_no_trailer(body: Seq<u8>, block_length: u32, check_length: u32)
    requires
        body.len() >= 20,
        body.len() == trailer_start(body),
    ensures
        decoded(body, block_length, check_length) == Some(
            (Seq::<u8>::empty(), without_options(body, block_length, check_length)),
        ),
{
    assert(trailer_of(body) =~= Seq::<u8>::empty());
}

/// A complete body always decodes, and whatever its trailer holds, the
/// fixed fields, the captured bytes and the framing lengths come out as
/// the body and the framing have them. The trailer decides the options
/// and what is left over, nothing else.
pub proof fn lemma_trailer_decides_options_only(
    body: Seq<u8>,
    block_length: u32,
    check_length: u32,
)
    requires
        body_complete(body),
    ensures
        decoded(body, block_length, check_length) is Some,
        decoded(body, block_length, check_length).unwrap().1 == (EnhancedPacketView {
            options: decoded(body, block_length, check_length).unwrap().1.options,
            ..without_options(body, block_length, check_length)
        }),
        decoded(body, block_length, check_length).unwrap().1.data.len() == decoded(
            body,
            block_length,
            check_length,
        ).unwrap().1.captured_len,
{
    lemma_le_u32_value_range(body.skip(12));
}

/// A trailer that does not decode as a list of options costs the block
/// its options and nothing else: the block decodes without them, and the
/// trailer is left over whole.
pub proof fn lemma_broken_trailer_is_absorbed(
    body: Seq<u8>,
    block_length: u32,
    check_length: u32,
)
    requires
        body_complete(body),
        options_of(trailer_of(body)) is None,
    ensures
        decoded(body, block_length, check_length) == Some(
            (trailer_of(body), without_options(body, block_length, check_length)),
        ),
{
}

/// The plainest broken trailer is a single entry cut short: the block
/// decodes without options, and the cut entry is left over.
pub proof fn lemma_truncated_option_is_absorbed(
    body: Seq<u8>,
    block_length: u32,
    check_length: u32,
    code: u16,
    value: Seq<u8>,
    padding: Seq<u8>,
    kept: int,
)
    requires
        body_complete(body),
        value.len() <= u16::MAX,
        padding.len() == padding_of(value.len() as int),
        0 <= kept < encoded_entry(code, value, padding).len(),
        trailer_of(body) == encoded_entry(code, value, padding).take(kept),
    ensures
        decoded(body, block_length, check_length) == Some(
            (trailer_of(body), without_options(body, block_length, check_length)),
        ),
{
    lemma_truncated_entry(code, value, padding, kept);
}

/// Where a block has no options, what is left over tells why: nothing is
/// left exactly where there was no trailer, and otherwise the trailer that
/// did not decode is left whole.
pub proof fn lemma_leftover_tells_empty_from_broken(
    body: Seq<u8>,
    block_length: u32,
    check_length: u32,
)
    requires
        body_complete(body),
        decoded(body, block_length, check_length).unwrap().1.options is None,
    ensures
        decoded(body, block_length, check_length).unwrap().0 == trailer_of(body),
        decoded(body, block_length, check_length).unwrap().0.len() == 0 <==> body.len()
            == trailer_start(body),
{
}

/// A trailer of one entry and the entry that ends the list gives the
/// block exactly that option, its value byte for byte, and leaves over
/// what follows the list.
pub proof fn lemma_one_option_trailer(
    body: Seq<u8>,
    block_length: u32,
    check_length: u32,
    code: u16,
    value: Seq<u8>,
    padding: Seq<u8>,
    tail: Seq<u8>,
)
    requires
        body_complete(body),
        code != END_OF_OPTIONS,
        value.len() <= u16::MAX,
        padding.len() == padding_of(value.len() as int),
        trailer_of(body) == encoded_entry(code, value, padding) + end_of_options() + tail,
    ensures
        decoded(body, block_length, check_length) == Some(
            (
                tail,
                EnhancedPacketView {
                    options: Some(seq![OptView { code, value }]),
                    ..without_options(body, block_length, check_length)
                },
            ),
        ),
{
    lemma_one_option_then_end(code, value, padding, tail);
}

/// Where the parts of five four-byte fields, data, padding and a trailer
/// lie once they are joined.
proof fn lemma_joined_layout(
    fields: Seq<Seq<u8>>,
    data: Seq<u8>,
    padding: Seq<u8>,
    trailer: Seq<u8>,
)
    requires
        fields.len() == 5,
        forall|i: int| 0 <= i < 5 ==> (#[trigger] fields[i]).len() == 4,
    ensures
        ({
            let body = fields[0] + fields[1] + fields[2] + fields[3] + fields[4] + data + padding
                + trailer;
            let after_fixed = data + padding + trailer;
            &&& body.len() == 20 + data.len() + padding.len() + trailer.len()
            &&& body.skip(0) == fields[0] + (fields[1] + (fields[2] + (fields[3] + (fields[4]
                + after_fixed))))
            &&& body.skip(4) == fields[1] + (fields[2] + (fields[3] + (fields[4] + after_fixed)))
            &&& body.skip(8) == fields[2] + (fields[3] + (fields[4] + after_fixed))
            &&& body.skip(12) == fields[3] + (fields[4] + after_fixed)
            &&& body.skip(16) == fields[4] + after_fixed
            &&& body.subrange(20, 20 + data.len() as int) == data
            &&& body.skip(20 + data.len() as int + padding.len() as int) == trailer
        }),
{
    let body = fields[0] + fields[1] + fields[2] + fields[3] + fields[4] + data + padding
        + trailer;
    let after_fixed = data + padding + trailer;
    assert(fields[0].len() == 4 && fields[1].len() == 4 && fields[2].len() == 4 && fields[3].len()
        == 4 && fields[4].len() == 4);
    assert(body.skip(0) =~= fields[0] + (fields[1] + (fields[2] + (fields[3] + (fields[4]
        + after_fixed)))));
    assert(body.skip(4) =~= fields[1] + (fields[2] + (fields[3] + (fields[4] + after_fixed))));
    assert(body.skip(8) =~= fields[2] + (fields[3] + (fields[4] + after_fixed)));
    assert(body.skip(12) =~= fields[3] + (fields[4] + after_fixed));
    assert(body.skip(16) =~= fields[4] + after_fixed);
    assert(body.subrange(20, 20 + data.len() as int) =~= data);
    assert(body.skip(20 + data.len() as int + padding.len() as int) =~= trailer);
}

/// The fixed fields and the trailer of an encoded body, with `trailer`
/// behind it, are the ones that were encoded.
pub proof fn lemma_encoded_body_reads_back(
    interface_id: u32,
    timestamp_hi: u32,
    timestamp_lo: u32,
    packet_len: u32,
    data: Seq<u8>,
    padding: Seq<u8>,
    trailer: Seq<u8>,
    block_length: u32,
    check_length: u32,
)
    requires
        data.len() <= u32::MAX,
        padding.len() == padding_of(data.len() as int),
    ensures
        body_complete(
            encoded_body(interface_id, timestamp_hi, timestamp_lo, packet_len, data, padding)
                + trailer,
        ),
        trailer_of(
            encoded_body(interface_id, timestamp_hi, timestamp_lo, packet_len, data, padding)
                + trailer,
        ) == trailer,
        without_options(
            encoded_body(interface_id, timestamp_hi, timestamp_lo, packet_len, data, padding)
                + trailer,
            block_length,
            check_length,
        ) == (EnhancedPacketView {
            ty: TY,
            block_length,
            interface_id,
            timestamp_hi,
            timestamp_lo,
            captured_len: data.len() as u32,
            packet_len,
            data,
            options: None,
            check_length,
        }),
{
    let captured_len = data.len() as u32;
    let body = encoded_body(interface_id, timestamp_hi, timestamp_lo, packet_len, data, padding)
        + trailer;
    let fields = seq![
        le_u32_bytes(interface_id),
        le_u32_bytes(timestamp_hi),
        le_u32_bytes(timestamp_lo),
        le_u32_bytes(captured_len),
        le_u32_bytes(packet_len),
    ];
    let after_fixed = data + padding + trailer;
    let after_captured = fields[4] + after_fixed;
    let after_lo = fields[3] + after_captured;
    let after_hi = fields[2] + after_lo;
    let after_interface = fields[1] + after_hi;
    lemma_le_u32_roundtrip(interface_id, after_interface);
    lemma_le_u32_roundtrip(timestamp_hi, after_hi);
    lemma_le_u32_roundtrip(timestamp_lo, after_lo);
    lemma_le_u32_roundtrip(captured_len, after_captured);
    lemma_le_u32_roundtrip(packet_len, after_fixed);
    lemma_joined_layout(fields, data, padding, trailer);
    assert(fixed_field(body, 0) == interface_id);
    assert(fixed_field(body, 1) == timestamp_hi);
    assert(fixed_field(body, 2) == timestamp_lo);
    assert(fixed_field(body, 3) == captured_len);
    assert(fixed_field(body, 4) == packet_len);
}

/// Decoding gives back what was encoded: a body built from the fixed
/// fields, the captured bytes, their padding and no options decodes to
/// those fields and those bytes, without options, and leaves nothing over.
pub proof fn lemma_decode_inverts_encode(
    interface_id: u32,
    timestamp_hi: u32,
    timestamp_lo: u32,
    packet_len: u32,
    data: Seq<u8>,
    padding: Seq<u8>,
    block_length: u32,
    check_length: u32,
)
    requires
        data.len() <= u32::MAX,
        padding.len() == padding_of(data.len() as int),
    ensures
        decoded(
            encoded_body(interface_id, timestamp_hi, timestamp_lo, packet_len, data, padding),
            block_length,
            check_length,
        ) == Some(
            (
                Seq::<u8>::empty(),
                EnhancedPacketView {
                    ty: TY,
                    block_length,
                    interface_id,
                    timestamp_hi,
                    timestamp_lo,
                    captured_len: data.len() as u32,
                    packet_len,
                    data,
                    options: None,
                    check_length,
                },
            ),
        ),
{
    let body = encoded_body(interface_id, timestamp_hi, timestamp_lo, packet_len, data, padding);
    lemma_encoded_body_reads_back(
        interface_id,
        timestamp_hi,
        timestamp_lo,
        packet_len,
        data,
        padding,
        Seq::empty(),
        block_length,
        check_length,
    );
    assert(body + Seq::<u8>::empty() =~= body);
}

} // verus!
