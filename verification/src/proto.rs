//! Frame kinds, close status codes and the errors of decoding.

use vstd::prelude::*;

verus! {

/// Purpose of a frame, carried in the low four bits of its first byte.
#[derive(Debug, Clone, Copy, PartialEq, Eq, Structural)]
pub enum OpCode {
    /// Continuation of a fragmented message.
    Continue,
    /// Text data.
    Text,
    /// Binary data.
    Binary,
    /// Close of the connection.
    Close,
    /// Ping.
    Ping,
    /// Pong.
    Pong,
    /// Any four-bit value that names no frame kind. It is only ever
    /// detected, never sent.
    Bad,
}

impl OpCode {
    /// The frame kind that a four-bit wire value names; `Bad` for the
    /// reserved values 3 to 7 and 11 to 15 (and anything above).
    pub open spec fn of(byte: u8) -> OpCode {
        if byte == 0 {
            OpCode::Continue
        } else if byte == 1 {
            OpCode::Text
        } else if byte == 2 {
            OpCode::Binary
        } else if byte == 8 {
            OpCode::Close
        } else if byte == 9 {
            OpCode::Ping
        } else if byte == 10 {
            OpCode::Pong
        } else {
            OpCode::Bad
        }
    }

    /// The wire value of a frame kind. `Bad` has none; it is given 8 here
    /// only so that the function is total, and no function sends it.
    pub open spec fn code(self) -> u8 {
        match self {
            OpCode::Continue => 0,
            OpCode::Text => 1,
            OpCode::Binary => 2,
            OpCode::Close => 8,
            OpCode::Ping => 9,
            OpCode::Pong => 10,
            OpCode::Bad => 8,
        }
    }

    /// Close, ping and pong are control frames.
    pub open spec fn is_control(self) -> bool {
        self == OpCode::Close || self == OpCode::Ping || self == OpCode::Pong
    }

    /// Maps a wire value to its frame kind.
    pub fn from_u8(byte: u8) -> (op: OpCode)
        ensures
            op == OpCode::of(byte),
    {
        match byte {
            0 => OpCode::Continue,
            1 => OpCode::Text,
            2 => OpCode::Binary,
            8 => OpCode::Close,
            9 => OpCode::Ping,
            10 => OpCode::Pong,
            _ => OpCode::Bad,
        }
    }

    /// The wire value of a frame kind that can be sent.
    pub fn to_u8(self) -> (byte: u8)
        requires
            self != OpCode::Bad,
        ensures
            byte == self.code(),
            byte < 16,
            OpCode::of(byte) == self,
    {
        match self {
            OpCode::Continue => 0,
            OpCode::Text => 1,
            OpCode::Binary => 2,
            OpCode::Close => 8,
            OpCode::Ping => 9,
            OpCode::Pong => 10,
            OpCode::Bad => 8,
        }
    }
}

/// Status code of a close frame.
#[derive(Debug, Clone, Copy, PartialEq, Eq, Structural)]
pub enum CloseCode {
    /// 1000: the purpose of the connection has been fulfilled.
    Normal,
    /// 1001: the endpoint is going away.
    Away,
    /// 1002: protocol error.
    Protocol,
    /// 1003: a kind of data that the endpoint cannot accept.
    Unsupported,
    /// 1005: no status code was present.
    Status,
    /// 1006: the connection was lost without a close frame.
    Abnormal,
    /// 1007: data inconsistent with the type of the message.
    Invalid,
    /// 1008: a message that violates the endpoint's policy.
    Policy,
    /// 1009: a message too big to process.
    Size,
    /// 1010: an extension that the server did not negotiate.
    Extension,
    /// 1011: an unexpected condition on the server.
    Error,
    /// 1012: the server is restarting.
    Restart,
    /// 1013: the server is overloaded; try again later.
    Again,
    /// 1015: failure of the TLS handshake.
    Tls,
    /// No code and no reason: the close frame has an empty payload.
    Empty,
}

impl CloseCode {
    /// The sixteen-bit value of a status code; 0 for `Empty`.
    pub open spec fn code(self) -> u16 {
        match self {
            CloseCode::Normal => 1000,
            CloseCode::Away => 1001,
            CloseCode::Protocol => 1002,
            CloseCode::Unsupported => 1003,
            CloseCode::Status => 1005,
            CloseCode::Abnormal => 1006,
            CloseCode::Invalid => 1007,
            CloseCode::Policy => 1008,
            CloseCode::Size => 1009,
            CloseCode::Extension => 1010,
            CloseCode::Error => 1011,
            CloseCode::Restart => 1012,
            CloseCode::Again => 1013,
            CloseCode::Tls => 1015,
            CloseCode::Empty => 0,
        }
    }

    /// The status code that a sixteen-bit value names, if it names one.
    pub open spec fn of(value: u16) -> Option<CloseCode> {
        if value == 1000 {
            Some(CloseCode::Normal)
        } else if value == 1001 {
            Some(CloseCode::Away)
        } else if value == 1002 {
            Some(CloseCode::Protocol)
        } else if value == 1003 {
            Some(CloseCode::Unsupported)
        } else if value == 1005 {
            Some(CloseCode::Status)
        } else if value == 1006 {
            Some(CloseCode::Abnormal)
        } else if value == 1007 {
            Some(CloseCode::Invalid)
        } else if value == 1008 {
            Some(CloseCode::Policy)
        } else if value == 1009 {
            Some(CloseCode::Size)
        } else if value == 1010 {
            Some(CloseCode::Extension)
        } else if value == 1011 {
            Some(CloseCode::Error)
        } else if value == 1012 {
            Some(CloseCode::Restart)
        } else if value == 1013 {
            Some(CloseCode::Again)
        } else if value == 1015 {
            Some(CloseCode::Tls)
        } else if value == 0 {
            Some(CloseCode::Empty)
        } else {
            None
        }
    }

    /// The sixteen-bit value of a status code.
    pub fn to_u16(self) -> (value: u16)
        ensures
            value == self.code(),
            CloseCode::of(value) == Some(self),
    {
        match self {
            CloseCode::Normal => 1000,
            CloseCode::Away => 1001,
            CloseCode::Protocol => 1002,
            CloseCode::Unsupported => 1003,
            CloseCode::Status => 1005,
            CloseCode::Abnormal => 1006,
            CloseCode::Invalid => 1007,
            CloseCode::Policy => 1008,
            CloseCode::Size => 1009,
            CloseCode::Extension => 1010,
            CloseCode::Error => 1011,
            CloseCode::Restart => 1012,
            CloseCode::Again => 1013,
            CloseCode::Tls => 1015,
            CloseCode::Empty => 0,
        }
    }

    /// Maps a sixteen-bit value to its status code; `None` for a value that
    /// is not assigned.
    pub fn from_u16(value: u16) -> (code: Option<CloseCode>)
        ensures
            code == CloseCode::of(value),
    {
        match value {
            1000 => Some(CloseCode::Normal),
            1001 => Some(CloseCode::Away),
            1002 => Some(CloseCode::Protocol),
            1003 => Some(CloseCode::Unsupported),
            1005 => Some(CloseCode::Status),
            1006 => Some(CloseCode::Abnormal),
            1007 => Some(CloseCode::Invalid),
            1008 => Some(CloseCode::Policy),
            1009 => Some(CloseCode::Size),
            1010 => Some(CloseCode::Extension),
            1011 => Some(CloseCode::Error),
            1012 => Some(CloseCode::Restart),
            1013 => Some(CloseCode::Again),
            1015 => Some(CloseCode::Tls),
            0 => Some(CloseCode::Empty),
            _ => None,
        }
    }
}

/// A structural violation found while decoding. Each is fatal to the
/// connection: after one, the byte stream offers no point to resume from.
#[derive(Debug, Clone, Copy, PartialEq, Eq, Structural)]
pub enum ProtocolError {
    /// A server received a frame without a mask.
    UnmaskedFrame,
    /// A client received a frame with a mask.
    MaskedFrame,
    /// The first byte carries a reserved frame kind; the four-bit value.
    InvalidOpcode(u8),
    /// A ping or pong declares more than 125 bytes; the declared length.
    InvalidLength(usize),
    /// The declared payload length exceeds the configured ceiling.
    Overflow,
}

} // verus!
