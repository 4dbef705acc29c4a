//! What the first bytes of a frame say: the header, as a function of the
//! bytes seen so far.

use crate::mask::mask_word;
use crate::proto::{OpCode, ProtocolError};
use crate::wire::be_value;
use vstd::prelude::*;

verus! {

/// The fields of a frame header.
#[derive(Debug, Clone, Copy, PartialEq, Eq, Structural)]
pub struct FrameHeader {
    /// Length of the header in bytes: 2 to 14.
    pub idx: usize,
    /// Whether the frame is the last of its message.
    pub finished: bool,
    /// Kind of the frame; never `Bad`.
    pub opcode: OpCode,
    /// Length of the payload that follows the header.
    pub length: usize,
    /// The mask word of a frame sent by a client: the four key bytes, the
    /// first of them in the word's least significant byte.
    pub mask: Option<u32>,
}

/// What a window of bytes says about the header that starts it.
pub enum HeaderReading {
    /// The window ends before the header does: more bytes are needed.
    Short,
    /// The bytes seen break a rule of the protocol.
    Invalid(ProtocolError),
    /// The header lies within the window.
    Complete(FrameHeader),
}

/// Bit 7 of the first byte: the frame ends its message.
pub open spec fn fin_bit(first: u8) -> bool {
    first >= 0x80
}

/// Bits 0 to 3 of the first byte: the wire value of the frame kind.
pub open spec fn kind_bits(first: u8) -> u8 {
    first % 16
}

/// Bit 7 of the second byte: a mask key follows the length.
pub open spec fn mask_bit(second: u8) -> bool {
    second >= 0x80
}

/// Bits 0 to 6 of the second byte: the payload length itself up to 125,
/// or 126 or 127 to announce an extended length.
pub open spec fn base_len(second: u8) -> u8 {
    second % 128
}

/// The number of bytes that spell an extended length: two after a base
/// length of 126, eight after 127, none otherwise.
pub open spec fn extended_len(second: u8) -> int {
    if base_len(second) == 126 {
        2
    } else if base_len(second) == 127 {
        8
    } else {
        0
    }
}

/// The payload length that the start of `window` declares: the base length,
/// or the number spelled by the bytes of the extended length.
pub open spec fn declared_len(window: Seq<u8>) -> nat {
    if extended_len(window[1]) == 0 {
        base_len(window[1]) as nat
    } else {
        be_value(window.subrange(2, 2 + extended_len(window[1])))
    }
}

/// The fields of the two fixed header bytes are what masking those bytes
/// gives.
pub proof fn lemma_header_bits(first: u8, second: u8)
    ensures
        (first & 0x80 != 0) == fin_bit(first),
        first & 0x0F == kind_bits(first),
        (second & 0x80 != 0) == mask_bit(second),
        second & 0x7F == base_len(second),
{
    assert((first & 0x80 != 0) == (first >= 0x80)) by (bit_vector);
    assert(first & 0x0F == first % 16) by (bit_vector);
    assert((second & 0x80 != 0) == (second >= 0x80)) by (bit_vector);
    assert(second & 0x7F == second % 128) by (bit_vector);
}

/// Reads the header at the start of `window`, for an endpoint that is a
/// server or a client, with `max_size` as the largest payload accepted.
///
/// The checks come in a fixed order, each as soon as its bytes are there:
/// the direction of masking, the frame kind, the length against the
/// ceiling, and only then the mask key. So a header that declares too long
/// a payload is refused before its key or payload has arrived.
pub open spec fn decode_header(window: Seq<u8>, server: bool, max_size: usize) -> HeaderReading {
    if window.len() < 2 {
        HeaderReading::Short
    } else if !mask_bit(window[1]) && server {
        HeaderReading::Invalid(ProtocolError::UnmaskedFrame)
    } else if mask_bit(window[1]) && !server {
        HeaderReading::Invalid(ProtocolError::MaskedFrame)
    } else if OpCode::of(kind_bits(window[0])) == OpCode::Bad {
        HeaderReading::Invalid(ProtocolError::InvalidOpcode(kind_bits(window[0])))
    } else if window.len() < 2 + extended_len(window[1]) {
        HeaderReading::Short
    } else {
        let idx = 2 + extended_len(window[1]);
        let length = declared_len(window);
        if length > max_size {
            HeaderReading::Invalid(ProtocolError::Overflow)
        } else if !server {
            HeaderReading::Complete(
                FrameHeader {
                    idx: idx as usize,
                    finished: fin_bit(window[0]),
                    opcode: OpCode::of(kind_bits(window[0])),
                    length: length as usize,
                    mask: None,
                },
            )
        } else if window.len() < idx + 4 {
            HeaderReading::Short
        } else {
            HeaderReading::Complete(
                FrameHeader {
                    idx: (idx + 4) as usize,
                    finished: fin_bit(window[0]),
                    opcode: OpCode::of(kind_bits(window[0])),
                    length: length as usize,
                    mask: Some(mask_word(window.subrange(idx, idx + 4))),
                },
            )
        }
    }
}

/// A header that was read stays as read, whatever follows: once a window
/// holds enough to decide, a longer window that starts with the same bytes
/// decides alike.
pub proof fn lemma_decode_header_prefix(
    window: Seq<u8>,
    longer: Seq<u8>,
    server: bool,
    max_size: usize,
)
    requires
        window.len() <= longer.len(),
        window == longer.subrange(0, window.len() as int),
        decode_header(window, server, max_size) != HeaderReading::Short,
    ensures
        decode_header(longer, server, max_size) == decode_header(window, server, max_size),
{
    assert(window[0] == longer[0]);
    assert(window[1] == longer[1]);
    let ext = extended_len(window[1]);
    if ext + 2 <= window.len() {
        assert(window.subrange(2, 2 + ext) =~= longer.subrange(2, 2 + ext));
        if ext + 6 <= window.len() {
            assert(window.subrange(2 + ext, 6 + ext) =~= longer.subrange(2 + ext, 6 + ext));
        }
    }
}

/// A complete header is 2 to 14 bytes long, lies within its window, names a
/// frame kind, keeps its payload under the ceiling, and carries a mask
/// exactly when a server reads it.
pub proof fn lemma_decode_header_complete(window: Seq<u8>, server: bool, max_size: usize)
    ensures
        match decode_header(window, server, max_size) {
            HeaderReading::Complete(h) => {
                &&& 2 <= h.idx <= 14
                &&& h.idx <= window.len()
                &&& h.opcode != OpCode::Bad
                &&& h.length <= max_size
                &&& h.mask.is_some() == server
                &&& h.mask.is_some() == mask_bit(window[1])
            },
            _ => true,
        },
{
}

} // verus!
