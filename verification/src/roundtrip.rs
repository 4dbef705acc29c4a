//! Decoding undoes encoding.

use crate::frame::{
    decode_frame, first_byte, frame_bytes, length_bytes, protocol_close, Decoded, FrameView,
};
use crate::header::{base_len, decode_header, extended_len, FrameHeader, HeaderReading};
use crate::mask::{lemma_mask_involution, lemma_mask_key, mask_key, masked};
use crate::poll::Async;
use crate::proto::{OpCode, ProtocolError};
use crate::wire::{be_bytes, lemma_be_value_of_bytes, lemma_radix_values};
use vstd::prelude::*;

verus! {

/// The length of the header that `frame_bytes` writes: two bytes, the
/// extended length if the payload needs one, and the mask key if there is
/// one.
pub open spec fn header_len(payload_len: nat, masking: bool) -> nat {
    let ext: nat = if payload_len < 126 {
        0
    } else if payload_len <= 65535 {
        2
    } else {
        8
    };
    let key: nat = if masking {
        4
    } else {
        0
    };
    2 + ext + key
}

/// The header of an encoded frame reads back as it was written, whatever
/// follows the frame: same final flag, kind, payload length and mask, and
/// the header's own length. This holds for the endpoint that the frame is
/// meant for, a server if it is masked and a client if not, and where the
/// payload is within the ceiling.
pub proof fn lemma_header_roundtrip(
    payload: Seq<u8>,
    opcode: OpCode,
    finished: bool,
    mask: Option<u32>,
    rest: Seq<u8>,
    max_size: usize,
)
    requires
        opcode != OpCode::Bad,
        payload.len() <= max_size,
    ensures
        header_len(payload.len(), mask.is_some()) + payload.len() == frame_bytes(
            payload,
            opcode,
            finished,
            mask,
        ).len(),
        decode_header(
            frame_bytes(payload, opcode, finished, mask) + rest,
            mask.is_some(),
            max_size,
        ) == HeaderReading::Complete(
            FrameHeader {
                idx: header_len(payload.len(), mask.is_some()) as usize,
                finished,
                opcode,
                length: payload.len() as usize,
                mask,
            },
        ),
{
    let masking = mask.is_some();
    let len = payload.len();
    let lb = length_bytes(len, masking);
    let window = frame_bytes(payload, opcode, finished, mask) + rest;
    let base: u8 = if len < 126 {
        len as u8
    } else if len <= 65535 {
        126
    } else {
        127
    };
    let ext = extended_len(lb[0]);
    lemma_radix_values();
    if len >= 126 {
        if len <= 65535 {
            lemma_be_value_of_bytes(len, 2);
        } else {
            lemma_be_value_of_bytes(len, 8);
        }
    }
    assert(lb.len() == 1 + ext);
    assert(window[0] == first_byte(opcode, finished));
    assert(window[1] == lb[0]);
    assert(base_len(window[1]) == base);
    if ext > 0 {
        assert(window.subrange(2, 2 + ext) =~= be_bytes(len, ext as nat));
    }
    match mask {
        Some(m) => {
            lemma_mask_key(m);
            assert(window.subrange(2 + ext, 2 + ext + 4) =~= mask_key(m));
        },
        None => {},
    }
}

/// Encoding a frame and decoding the bytes, followed by whatever bytes,
/// gives back the frame: same final flag, same kind, same payload, and
/// exactly the frame's bytes consumed. This holds with and without a mask,
/// for the endpoint that the frame is meant for, where the payload is
/// within the ceiling and, for a control frame, within 125 bytes.
pub proof fn lemma_roundtrip(
    payload: Seq<u8>,
    opcode: OpCode,
    finished: bool,
    mask: Option<u32>,
    rest: Seq<u8>,
    ended: bool,
    max_size: usize,
)
    requires
        opcode != OpCode::Bad,
        payload.len() <= max_size,
        opcode.is_control() ==> payload.len() <= 125,
    ensures
        decode_frame(
            frame_bytes(payload, opcode, finished, mask) + rest,
            ended,
            mask.is_some(),
            max_size,
        ) == (Decoded {
            outcome: Ok(Async::Ready(Some(FrameView { finished, opcode, payload }))),
            consumed: frame_bytes(payload, opcode, finished, mask).len(),
        }),
{
    lemma_header_roundtrip(payload, opcode, finished, mask, rest, max_size);
    let encoded = frame_bytes(payload, opcode, finished, mask);
    let window = encoded + rest;
    let idx = header_len(payload.len(), mask.is_some()) as int;
    let end = idx + payload.len();
    match mask {
        Some(m) => {
            lemma_mask_involution(payload, m);
            assert(window.subrange(idx, end) =~= masked(payload, m));
        },
        None => {
            assert(window.subrange(idx, end) =~= payload);
        },
    }
    if payload.len() == 0 {
        assert(payload =~= Seq::<u8>::empty());
    }
}

/// A ping or pong of more than 125 bytes, once encoded, is refused on
/// decoding for its length, after its bytes have been consumed.
pub proof fn lemma_long_ping_refused(
    payload: Seq<u8>,
    opcode: OpCode,
    finished: bool,
    mask: Option<u32>,
    rest: Seq<u8>,
    ended: bool,
    max_size: usize,
)
    requires
        opcode == OpCode::Ping || opcode == OpCode::Pong,
        125 < payload.len() <= max_size,
    ensures
        decode_frame(
            frame_bytes(payload, opcode, finished, mask) + rest,
            ended,
            mask.is_some(),
            max_size,
        ) == (Decoded {
            outcome: Err(ProtocolError::InvalidLength(payload.len() as usize)),
            consumed: frame_bytes(payload, opcode, finished, mask).len(),
        }),
{
    lemma_header_roundtrip(payload, opcode, finished, mask, rest, max_size);
}

/// A close of more than 125 bytes, once encoded, decodes to a close
/// without code or reason, not to an error.
pub proof fn lemma_long_close_replaced(
    payload: Seq<u8>,
    finished: bool,
    mask: Option<u32>,
    rest: Seq<u8>,
    ended: bool,
    max_size: usize,
)
    requires
        125 < payload.len() <= max_size,
    ensures
        decode_frame(
            frame_bytes(payload, OpCode::Close, finished, mask) + rest,
            ended,
            mask.is_some(),
            max_size,
        ) == (Decoded {
            outcome: Ok(Async::Ready(Some(protocol_close()))),
            consumed: frame_bytes(payload, OpCode::Close, finished, mask).len(),
        }),
{
    lemma_header_roundtrip(payload, OpCode::Close, finished, mask, rest, max_size);
}

} // verus!
