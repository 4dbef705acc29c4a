//! WebSocket framing: decoding a buffered byte stream into frames and
//! encoding frames into their wire form, with the protocol's structural
//! rules stated as contracts and proved.
//!
//! - [`proto`]: frame kinds, close codes, and the errors of decoding.
//! - [`mask`]: the four-byte XOR mask.
//! - [`wire`]: big-endian lengths, read and written by `byteorder`.
//! - [`buffer`]: the `bytes::BytesMut` that an outgoing frame is built in.
//! - [`payload`]: the chunked input that frames are decoded from.
//! - [`header`]: what the first bytes of a frame say.
//! - [`frame`]: frames, `Frame::parse` and `Frame::message`.
//! - [`roundtrip`]: decoding undoes encoding.
//!
//! Nothing here does I/O or waits. Input is fed chunk by chunk as the
//! transport delivers it; decoding says `NotReady` where bytes are missing
//! and leaves the buffer as it was, so that the same call can be made again
//! once more have arrived.

pub mod buffer;
pub mod frame;
pub mod header;
pub mod mask;
pub mod payload;
pub mod poll;
pub mod proto;
pub mod roundtrip;
pub mod wire;
