//! Frames: decoding them from buffered input and encoding them for the
//! wire.

use crate::header::{
    declared_len, decode_header, extended_len, kind_bits, lemma_decode_header_prefix,
    lemma_header_bits, mask_bit, FrameHeader, HeaderReading,
};
use crate::buffer::{contents, into_vec, put_slice, with_capacity};
use crate::mask::{apply_mask, key_bytes, key_word, mask_key, masked, random_mask};
use crate::payload::PayloadBuffer;
use crate::poll::Async;
use crate::proto::{CloseCode, OpCode, ProtocolError};
use crate::wire::{be_bytes, lemma_be_bytes_len, read_uint, write_u16, write_u64};
use vstd::prelude::*;
use vstd::slice::slice_subrange;
use vstd::string::StringSliceAdditionalSpecFns;

verus! {

/// One frame: whether it ends its message, its kind, and its payload.
#[derive(Debug)]
pub struct Frame {
    finished: bool,
    opcode: OpCode,
    payload: Vec<u8>,
}

/// A frame as a value: its payload as a sequence of bytes.
pub struct FrameView {
    /// Whether the frame is the last of its message.
    pub finished: bool,
    /// Kind of the frame.
    pub opcode: OpCode,
    /// The payload, unmasked.
    pub payload: Seq<u8>,
}

impl View for Frame {
    type V = FrameView;

    closed spec fn view(&self) -> FrameView {
        FrameView { finished: self.finished, opcode: self.opcode, payload: self.payload@ }
    }
}

/// The frame that stands for a close without code or reason.
pub open spec fn protocol_close() -> FrameView {
    FrameView { finished: true, opcode: OpCode::Close, payload: Seq::empty() }
}

/// A payload as it is handed out: with the mask taken off, where it came
/// with one.
pub open spec fn unmasked(payload: Seq<u8>, mask: Option<u32>) -> Seq<u8> {
    match mask {
        Some(m) => masked(payload, m),
        None => payload,
    }
}

/// The result of one attempt to decode a frame: what the caller is told,
/// and how many bytes have left the buffer.
pub struct Decoded {
    /// A frame, the end of the stream (`Ready(None)`), the need for more
    /// bytes (`NotReady`), or a violation of the protocol.
    pub outcome: Result<Async<Option<FrameView>>, ProtocolError>,
    /// The number of bytes consumed from the front of the buffer.
    pub consumed: nat,
}

/// What to say where bytes are missing: the end of the stream if it has
/// ended, else that more are needed. Nothing is consumed.
pub open spec fn starved(ended: bool) -> Decoded {
    Decoded {
        outcome: Ok(
            if ended {
                Async::Ready(None)
            } else {
                Async::NotReady
            },
        ),
        consumed: 0,
    }
}

/// Decodes the frame at the front of `bytes`, the bytes buffered so far on
/// a stream that has or has not ended.
///
/// Nothing is consumed until header and payload are both there; then both
/// are, also where the frame is a control frame with too long a payload: a
/// ping or pong of more than 125 bytes is an error, and a close of more
/// than 125 bytes is taken for a close without code or reason.
pub open spec fn decode_frame(bytes: Seq<u8>, ended: bool, server: bool, max_size: usize) -> Decoded {
    match decode_header(bytes, server, max_size) {
        HeaderReading::Short => starved(ended),
        HeaderReading::Invalid(e) => Decoded { outcome: Err(e), consumed: 0 },
        HeaderReading::Complete(h) => {
            let end = h.idx + h.length;
            if bytes.len() < end {
                starved(ended)
            } else if h.length == 0 {
                Decoded {
                    outcome: Ok(
                        Async::Ready(
                            Some(
                                FrameView {
                                    finished: h.finished,
                                    opcode: h.opcode,
                                    payload: Seq::empty(),
                                },
                            ),
                        ),
                    ),
                    consumed: h.idx as nat,
                }
            } else if (h.opcode == OpCode::Ping || h.opcode == OpCode::Pong) && h.length > 125 {
                Decoded {
                    outcome: Err(ProtocolError::InvalidLength(h.length)),
                    consumed: end as nat,
                }
            } else if h.opcode == OpCode::Close && h.length > 125 {
                Decoded { outcome: Ok(Async::Ready(Some(protocol_close()))), consumed: end as nat }
            } else {
                Decoded {
                    outcome: Ok(
                        Async::Ready(
                            Some(
                                FrameView {
                                    finished: h.finished,
                                    opcode: h.opcode,
                                    payload: unmasked(bytes.subrange(h.idx as int, end), h.mask),
                                },
                            ),
                        ),
                    ),
                    consumed: end as nat,
                }
            }
        },
    }
}

/// A masked frame is refused by a client, and an unmasked one by a server,
/// as soon as its first two bytes are there: whatever its kind, whatever
/// follows, and with nothing consumed.
pub proof fn lemma_role_enforced(bytes: Seq<u8>, ended: bool, server: bool, max_size: usize)
    requires
        bytes.len() >= 2,
        mask_bit(bytes[1]) != server,
    ensures
        decode_frame(bytes, ended, server, max_size) == (Decoded {
            outcome: Err(
                if server {
                    ProtocolError::UnmaskedFrame
                } else {
                    ProtocolError::MaskedFrame
                },
            ),
            consumed: 0,
        }),
{
}

/// A frame that declares a payload above the ceiling is refused as soon as
/// its length can be read: before its mask key or any byte of its payload
/// has arrived, whether or not they ever do, and with nothing consumed.
pub proof fn lemma_overflow_refused(bytes: Seq<u8>, ended: bool, server: bool, max_size: usize)
    requires
        bytes.len() >= 2,
        bytes.len() >= 2 + extended_len(bytes[1]),
        mask_bit(bytes[1]) == server,
        OpCode::of(kind_bits(bytes[0])) != OpCode::Bad,
        declared_len(bytes) > max_size,
    ensures
        decode_frame(bytes, ended, server, max_size) == (Decoded {
            outcome: Err(ProtocolError::Overflow),
            consumed: 0,
        }),
{
}

/// Bytes that arrive cut in two at any point decode as they would have in
/// one piece: only the bytes buffered count, not the chunks they came in.
pub proof fn lemma_split_unseen(
    buffered: Seq<u8>,
    arriving: Seq<u8>,
    cut: int,
    ended: bool,
    server: bool,
    max_size: usize,
)
    requires
        0 <= cut <= arriving.len(),
    ensures
        decode_frame(
            buffered + arriving.subrange(0, cut) + arriving.subrange(cut, arriving.len() as int),
            ended,
            server,
            max_size,
        ) == decode_frame(buffered + arriving, ended, server, max_size),
{
    assert(buffered + arriving.subrange(0, cut) + arriving.subrange(cut, arriving.len() as int)
        =~= buffered + arriving);
}

/// The first byte of a frame: its kind in the low four bits, and bit 7 set
/// if it ends its message.
pub open spec fn first_byte(opcode: OpCode, finished: bool) -> u8 {
    if finished {
        (0x80 + opcode.code()) as u8
    } else {
        opcode.code()
    }
}

/// The bytes that declare a payload length, in the shortest of the three
/// forms: the length itself below 126; 126 and two bytes up to 65535; 127
/// and eight bytes above. Bit 7 of the first of them says whether a mask
/// key follows.
pub open spec fn length_bytes(len: nat, masking: bool) -> Seq<u8> {
    let flag: nat = if masking {
        0x80
    } else {
        0
    };
    if len < 126 {
        seq![(flag + len) as u8]
    } else if len <= 65535 {
        seq![(flag + 126) as u8] + be_bytes(len, 2)
    } else {
        seq![(flag + 127) as u8] + be_bytes(len, 8)
    }
}

/// The wire form of one frame: first byte, length, and then either the
/// payload as it is, or the mask key and the payload masked with it.
pub open spec fn frame_bytes(
    payload: Seq<u8>,
    opcode: OpCode,
    finished: bool,
    mask: Option<u32>,
) -> Seq<u8> {
    seq![first_byte(opcode, finished)] + length_bytes(payload.len(), mask.is_some()) + match mask {
        Some(m) => mask_key(m) + masked(payload, m),
        None => payload,
    }
}

/// The payload of a close frame: the status code in two bytes, most
/// significant first, and the reason; nothing at all for `Empty`, whatever
/// the reason.
pub open spec fn close_payload(code: CloseCode, reason: Seq<u8>) -> Seq<u8> {
    if code == CloseCode::Empty {
        Seq::empty()
    } else {
        be_bytes(code.code() as nat, 2) + reason
    }
}

/// The outcome of `Frame::parse` with the frame, if there is one, taken as
/// a value.
pub open spec fn outcome_view(r: Result<Async<Option<Frame>>, ProtocolError>) -> Result<
    Async<Option<FrameView>>,
    ProtocolError,
> {
    match r {
        Ok(Async::Ready(Some(frame))) => Ok(Async::Ready(Some(frame@))),
        Ok(Async::Ready(None)) => Ok(Async::Ready(None)),
        Ok(Async::NotReady) => Ok(Async::NotReady),
        Err(e) => Err(e),
    }
}

impl Default for Frame {
    /// A close without code or reason.
    fn default() -> (frame: Frame)
        ensures
            frame@ == protocol_close(),
    {
        Frame { finished: true, opcode: OpCode::Close, payload: Vec::new() }
    }
}

impl Frame {
    /// Whether the frame is the last of its message.
    pub fn finished(&self) -> (finished: bool)
        ensures
            finished == self@.finished,
    {
        self.finished
    }

    /// Kind of the frame.
    pub fn opcode(&self) -> (opcode: OpCode)
        ensures
            opcode == self@.opcode,
    {
        self.opcode
    }

    /// The payload, unmasked.
    pub fn payload(&self) -> (payload: &[u8])
        ensures
            payload@ == self@.payload,
    {
        self.payload.as_slice()
    }

    /// Takes the frame apart into its three fields.
    pub fn unpack(self) -> (parts: (bool, OpCode, Vec<u8>))
        ensures
            parts.0 == self@.finished,
            parts.1 == self@.opcode,
            parts.2@ == self@.payload,
    {
        (self.finished, self.opcode, self.payload)
    }

    /// Decodes the frame at the front of the buffered input.
    ///
    /// The header is first looked for in the front chunk as it lies, and
    /// gathered across chunks only if that chunk ends too early; how the
    /// input was cut into chunks does not show in the result.
    pub fn parse(pl: &mut PayloadBuffer, server: bool, max_size: usize) -> (r: Result<
        Async<Option<Frame>>,
        ProtocolError,
    >)
        requires
            old(pl).wf(),
        ensures
            final(pl).wf(),
            final(pl).ended() == old(pl).ended(),
            outcome_view(r) == decode_frame(
                old(pl).bytes(),
                old(pl).ended(),
                server,
                max_size,
            ).outcome,
            final(pl).bytes() == old(pl).bytes().skip(
                decode_frame(old(pl).bytes(), old(pl).ended(), server, max_size).consumed as int,
            ),
    {
        proof {
            pl.lemma_len_fits();
            assert(pl.bytes().skip(0) =~= pl.bytes());
        }
        let header = match Frame::read_md(pl, server, max_size) {
            Ok(Async::Ready(Some(item))) => item,
            Ok(Async::NotReady) => return Ok(Async::NotReady),
            Ok(Async::Ready(None)) => return Ok(Async::Ready(None)),
            Err(e) => return Err(e),
        };
        let FrameHeader { idx, finished, opcode, length, mask } = header;

        let end = match idx.checked_add(length) {
            Some(end) => end,
            None => return Ok(
                if pl.is_eof() {
                    Async::Ready(None)
                } else {
                    Async::NotReady
                },
            ),
        };
        match pl.can_read(end) {
            Async::Ready(Some(true)) => (),
            Async::Ready(None) => return Ok(Async::Ready(None)),
            Async::Ready(Some(false)) | Async::NotReady => return Ok(Async::NotReady),
        }

        // the header goes first
        pl.drop_payload(idx);

        // an empty payload needs no read
        if length == 0 {
            return Ok(Async::Ready(Some(Frame { finished, opcode, payload: Vec::new() })));
        }
        let mut data = pl.read_exact(length);
        assert(data@ =~= old(pl).bytes().subrange(idx as int, end as int));
        assert(pl.bytes() =~= old(pl).bytes().skip(end as int));

        // a control frame carries at most 125 bytes
        if length > 125 {
            match opcode {
                OpCode::Ping | OpCode::Pong => {
                    return Err(ProtocolError::InvalidLength(length));
                },
                OpCode::Close => {
                    return Ok(Async::Ready(Some(Frame::default())));
                },
                _ => (),
            }
        }

        // take the mask off
        if let Some(mask) = mask {
            apply_mask(&mut data, mask);
        }
        Ok(Async::Ready(Some(Frame { finished, opcode, payload: data })))
    }

    /// The wire form of a close frame with a status code and a reason.
    /// With `genmask` the frame is masked with a fresh random key.
    pub fn close(code: CloseCode, reason: &str, genmask: bool) -> (bytes: Vec<u8>)
        requires
            reason.spec_bytes().len() + 16 <= isize::MAX,
        ensures
            !genmask ==> bytes@ == frame_bytes(
                close_payload(code, reason.spec_bytes()),
                OpCode::Close,
                true,
                None,
            ),
            genmask ==> exists|mask: u32|
                bytes@ == #[trigger] frame_bytes(
                    close_payload(code, reason.spec_bytes()),
                    OpCode::Close,
                    true,
                    Some(mask),
                ),
    {
        let mut payload: Vec<u8> = Vec::new();
        if let CloseCode::Empty = code {
        } else {
            let raw = write_u16(code.to_u16());
            payload.extend_from_slice(raw.as_slice());
            payload.extend_from_slice(reason.as_bytes());
            proof {
                lemma_be_bytes_len(code.code() as nat, 2);
            }
            assert(payload@ =~= close_payload(code, reason.spec_bytes()));
        }
        let ghost body = payload@;
        assert(body =~= close_payload(code, reason.spec_bytes()));
        let bytes = Frame::message(payload, OpCode::Close, true, genmask);
        proof {
            if genmask {
                let mask = choose|mask: u32|
                    bytes@ == #[trigger] frame_bytes(body, OpCode::Close, true, Some(mask));
                assert(bytes@ == frame_bytes(
                    close_payload(code, reason.spec_bytes()),
                    OpCode::Close,
                    true,
                    Some(mask),
                ));
            }
        }
        bytes
    }

    /// The wire form of a frame with the given payload. With `genmask` the
    /// frame is masked with a fresh random key.
    pub fn message(data: Vec<u8>, code: OpCode, finished: bool, genmask: bool) -> (bytes: Vec<u8>)
        requires
            code != OpCode::Bad,
            data@.len() + 14 <= isize::MAX,
        ensures
            !genmask ==> bytes@ == frame_bytes(data@, code, finished, None),
            genmask ==> exists|mask: u32|
                bytes@ == #[trigger] frame_bytes(data@, code, finished, Some(mask)),
    {
        let mask = if genmask {
            Some(random_mask())
        } else {
            None
        };
        Frame::encode(data, code, finished, mask)
    }

    /// The wire form of a frame with the given payload, masked with the
    /// given key if there is one.
    pub fn encode(data: Vec<u8>, code: OpCode, finished: bool, mask: Option<u32>) -> (bytes: Vec<
        u8,
    >)
        requires
            code != OpCode::Bad,
            data@.len() + 14 <= isize::MAX,
        ensures
            bytes@ == frame_bytes(data@, code, finished, mask),
    {
        let one: u8 = if finished {
            0x80 | code.to_u8()
        } else {
            code.to_u8()
        };
        let payload_len = data.len();
        proof {
            let c = code.code();
            assert(c < 16 ==> 0x80u8 | c == 0x80 + c) by (bit_vector);
        }
        let two: u8 = if mask.is_some() {
            0x80
        } else {
            0
        };
        assert(0x80u8 | 126 == 0x80 + 126 && 0u8 | 126 == 126 && 0x80u8 | 127 == 0x80 + 127 && 0u8
            | 127 == 127) by (bit_vector);
        let p_len: usize = if mask.is_some() {
            payload_len + 4
        } else {
            payload_len
        };

        let mut buf = if payload_len < 126 {
            let mut buf = with_capacity(p_len + 2);
            let base = payload_len as u8;
            assert(base < 126 ==> 0x80u8 | base == 0x80 + base && 0u8 | base == base)
                by (bit_vector);
            let start = [one, two | base];
            put_slice(&mut buf, start.as_slice());
            buf
        } else if payload_len <= 65_535 {
            let mut buf = with_capacity(p_len + 4);
            let start = [one, two | 126];
            put_slice(&mut buf, start.as_slice());
            let ext = write_u16(payload_len as u16);
            proof {
                lemma_be_bytes_len(payload_len as nat, 2);
            }
            put_slice(&mut buf, ext.as_slice());
            buf
        } else {
            let mut buf = with_capacity(p_len + 10);
            let start = [one, two | 127];
            put_slice(&mut buf, start.as_slice());
            let ext = write_u64(payload_len as u64);
            proof {
                lemma_be_bytes_len(payload_len as nat, 8);
            }
            put_slice(&mut buf, ext.as_slice());
            buf
        };
        assert(contents(buf) =~= seq![first_byte(code, finished)] + length_bytes(
            data@.len(),
            mask.is_some(),
        ));

        match mask {
            Some(mask) => {
                let key = key_bytes(mask);
                put_slice(&mut buf, key.as_slice());
                let mut body = data;
                apply_mask(&mut body, mask);
                put_slice(&mut buf, body.as_slice());
            },
            None => {
                put_slice(&mut buf, data.as_slice());
            },
        }
        into_vec(buf)
    }

    /// Reads the frame header at the front of the buffered input, without
    /// consuming anything: from the front chunk as it lies if that holds
    /// the whole header, else gathered across chunks.
    fn read_md(pl: &PayloadBuffer, server: bool, max_size: usize) -> (r: Result<
        Async<Option<FrameHeader>>,
        ProtocolError,
    >)
        requires
            pl.wf(),
        ensures
            match decode_header(pl.bytes(), server, max_size) {
                HeaderReading::Short => r == Ok::<_, ProtocolError>(
                    if pl.ended() {
                        Async::<Option<FrameHeader>>::Ready(None)
                    } else {
                        Async::<Option<FrameHeader>>::NotReady
                    },
                ),
                HeaderReading::Invalid(e) => r == Err::<Async<Option<FrameHeader>>, _>(e),
                HeaderReading::Complete(h) => r == Ok::<_, ProtocolError>(Async::Ready(Some(h))),
            },
    {
        proof {
            pl.lemma_front_is_prefix();
        }
        // the front chunk alone, with nothing copied
        let result = match pl.get_chunk() {
            Async::NotReady => return Ok(Async::NotReady),
            Async::Ready(None) => return Ok(Async::Ready(None)),
            Async::Ready(Some(chunk)) => {
                proof {
                    if decode_header(chunk@, server, max_size) != HeaderReading::Short {
                        lemma_decode_header_prefix(chunk@, pl.bytes(), server, max_size);
                    }
                }
                match Frame::read_chunk_md(chunk, server, max_size) {
                    Ok(result) => result,
                    Err(e) => return Err(e),
                }
            },
        };
        match result {
            // the header may straddle chunks
            Async::NotReady => Frame::read_copy_md(pl, server, max_size),
            Async::Ready(item) => Ok(Async::Ready(Some(item))),
        }
    }

    /// Reads a frame header from bytes that lie in one piece.
    ///
    /// Says `NotReady` where the piece ends before the header does, and
    /// never fails for want of bytes alone.
    pub fn read_chunk_md(chunk: &[u8], server: bool, max_size: usize) -> (r: Result<
        Async<FrameHeader>,
        ProtocolError,
    >)
        ensures
            match decode_header(chunk@, server, max_size) {
                HeaderReading::Short => r == Ok::<_, ProtocolError>(Async::<FrameHeader>::NotReady),
                HeaderReading::Invalid(e) => r == Err::<Async<FrameHeader>, _>(e),
                HeaderReading::Complete(h) => r == Ok::<_, ProtocolError>(Async::Ready(h)),
            },
    {
        let chunk_len = chunk.len();

        let mut idx: usize = 2;
        if chunk_len < 2 {
            return Ok(Async::NotReady);
        }
        let first = chunk[0];
        let second = chunk[1];
        proof {
            lemma_header_bits(first, second);
        }
        let finished = first & 0x80 != 0;

        // direction of masking
        let masked = second & 0x80 != 0;
        if !masked && server {
            return Err(ProtocolError::UnmaskedFrame);
        } else if masked && !server {
            return Err(ProtocolError::MaskedFrame);
        }
        // frame kind
        let opcode = OpCode::from_u8(first & 0x0F);

        if let OpCode::Bad = opcode {
            return Err(ProtocolError::InvalidOpcode(first & 0x0F));
        }
        let len = second & 0x7F;
        let length: u64 = if len == 126 {
            if chunk_len < 4 {
                return Ok(Async::NotReady);
            }
            let tail = slice_subrange(chunk, idx, chunk_len);
            assert(tail@.subrange(0, 2) =~= chunk@.subrange(2, 4));
            let len = read_uint(tail, 2);
            idx += 2;
            len
        } else if len == 127 {
            if chunk_len < 10 {
                return Ok(Async::NotReady);
            }
            let tail = slice_subrange(chunk, idx, chunk_len);
            assert(tail@.subrange(0, 8) =~= chunk@.subrange(2, 10));
            let len = read_uint(tail, 8);
            idx += 8;
            len
        } else {
            len as u64
        };

        // the ceiling comes before the mask key
        if length > max_size as u64 {
            return Err(ProtocolError::Overflow);
        }
        let mask = if server {
            if chunk_len < idx + 4 {
                return Ok(Async::NotReady);
            }
            let key = slice_subrange(chunk, idx, idx + 4);
            let mask = key_word(key);
            idx += 4;
            Some(mask)
        } else {
            None
        };

        Ok(Async::Ready(FrameHeader { idx, finished, opcode, length: length as usize, mask }))
    }

    /// Reads a frame header from the front of the buffered bytes, across
    /// the boundaries of chunks, without consuming anything.
    ///
    /// It copies no more than it has found to need: two bytes, then with
    /// an extended length four or ten, then four more for the mask key.
    /// Where the header is not yet all there, it says `Ready(None)` once
    /// the stream has ended and `NotReady` before.
    pub fn read_copy_md(pl: &PayloadBuffer, server: bool, max_size: usize) -> (r: Result<
        Async<Option<FrameHeader>>,
        ProtocolError,
    >)
        requires
            pl.wf(),
        ensures
            match decode_header(pl.bytes(), server, max_size) {
                HeaderReading::Short => r == Ok::<_, ProtocolError>(
                    if pl.ended() {
                        Async::<Option<FrameHeader>>::Ready(None)
                    } else {
                        Async::<Option<FrameHeader>>::NotReady
                    },
                ),
                HeaderReading::Invalid(e) => r == Err::<Async<Option<FrameHeader>>, _>(e),
                HeaderReading::Complete(h) => r == Ok::<_, ProtocolError>(Async::Ready(Some(h))),
            },
    {
        let mut idx: usize = 2;
        let buf = match pl.copy(2) {
            Async::Ready(Some(buf)) => buf,
            Async::Ready(None) => return Ok(Async::Ready(None)),
            Async::NotReady => return Ok(Async::NotReady),
        };
        let first = buf[0];
        let second = buf[1];
        proof {
            lemma_header_bits(first, second);
        }
        let finished = first & 0x80 != 0;

        // direction of masking
        let masked = second & 0x80 != 0;
        if !masked && server {
            return Err(ProtocolError::UnmaskedFrame);
        } else if masked && !server {
            return Err(ProtocolError::MaskedFrame);
        }
        // frame kind
        let opcode = OpCode::from_u8(first & 0x0F);

        if let OpCode::Bad = opcode {
            return Err(ProtocolError::InvalidOpcode(first & 0x0F));
        }
        let len = second & 0x7F;
        let length: u64 = if len == 126 {
            let buf = match pl.copy(4) {
                Async::Ready(Some(buf)) => buf,
                Async::Ready(None) => return Ok(Async::Ready(None)),
                Async::NotReady => return Ok(Async::NotReady),
            };
            let tail = slice_subrange(buf.as_slice(), idx, 4);
            assert(tail@.subrange(0, 2) =~= pl.bytes().subrange(2, 4));
            let len = read_uint(tail, 2);
            idx += 2;
            len
        } else if len == 127 {
            let buf = match pl.copy(10) {
                Async::Ready(Some(buf)) => buf,
                Async::Ready(None) => return Ok(Async::Ready(None)),
                Async::NotReady => return Ok(Async::NotReady),
            };
            let tail = slice_subrange(buf.as_slice(), idx, 10);
            assert(tail@.subrange(0, 8) =~= pl.bytes().subrange(2, 10));
            let len = read_uint(tail, 8);
            idx += 8;
            len
        } else {
            len as u64
        };

        // the ceiling comes before the mask key
        if length > max_size as u64 {
            return Err(ProtocolError::Overflow);
        }
        let mask = if server {
            let buf = match pl.copy(idx + 4) {
                Async::Ready(Some(buf)) => buf,
                Async::Ready(None) => return Ok(Async::Ready(None)),
                Async::NotReady => return Ok(Async::NotReady),
            };
            let key = slice_subrange(buf.as_slice(), idx, idx + 4);
            assert(key@ =~= pl.bytes().subrange(idx as int, idx + 4));
            let mask = key_word(key);
            idx += 4;
            Some(mask)
        } else {
            None
        };

        Ok(Async::Ready(Some(FrameHeader { idx, finished, opcode, length: length as usize, mask })))
    }
}

} // verus!
