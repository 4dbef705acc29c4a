//! Big-endian integers on the wire.
//!
//! The conversions themselves are `byteorder`'s; this module says what they
//! compute and proves that reading undoes writing.

use byteorder::{BigEndian, ByteOrder, NetworkEndian};
use vstd::prelude::*;

verus! {

/// The number that a byte sequence spells, most significant byte first.
pub open spec fn be_value(bytes: Seq<u8>) -> nat
    decreases bytes.len(),
{
    if bytes.len() == 0 {
        0
    } else {
        be_value(bytes.drop_last()) * 256 + bytes.last() as nat
    }
}

/// The low `width` bytes of `value`, most significant byte first.
pub open spec fn be_bytes(value: nat, width: nat) -> Seq<u8>
    decreases width,
{
    if width == 0 {
        Seq::empty()
    } else {
        be_bytes(value / 256, (width - 1) as nat).push((value % 256) as u8)
    }
}

/// The number of values that `width` bytes can spell.
pub open spec fn radix(width: nat) -> nat
    decreases width,
{
    if width == 0 {
        1
    } else {
        256 * radix((width - 1) as nat)
    }
}

/// Two bytes spell the numbers below 65536, eight bytes those of a `u64`.
pub proof fn lemma_radix_values()
    ensures
        radix(1) == 0x100,
        radix(2) == 0x1_0000,
        radix(8) == 0x1_0000_0000_0000_0000,
{
    reveal_with_fuel(radix, 9);
}

/// `be_bytes` yields exactly `width` bytes.
pub proof fn lemma_be_bytes_len(value: nat, width: nat)
    ensures
        be_bytes(value, width).len() == width,
    decreases width,
{
    if width > 0 {
        lemma_be_bytes_len(value / 256, (width - 1) as nat);
    }
}

/// Reading undoes writing: the bytes written for a value that fits in
/// `width` bytes spell that value.
pub proof fn lemma_be_value_of_bytes(value: nat, width: nat)
    requires
        value < radix(width),
    ensures
        be_bytes(value, width).len() == width,
        be_value(be_bytes(value, width)) == value,
    decreases width,
{
    lemma_be_bytes_len(value, width);
    if width > 0 {
        let rest = (width - 1) as nat;
        assert(value / 256 < radix(rest)) by (nonlinear_arith)
            requires
                value < 256 * radix(rest),
        ;
        lemma_be_value_of_bytes(value / 256, rest);
        let written = be_bytes(value, width);
        assert(written.drop_last() =~= be_bytes(value / 256, rest));
        assert(written.last() == (value % 256) as u8);
        assert(value == (value / 256) * 256 + value % 256) by (nonlinear_arith);
    }
}

/// Calls `byteorder`'s `ByteOrder::read_uint` for network (big-endian)
/// order. The contract claims that the result is the number spelled by the
/// first `nbytes` bytes of `buf`, most significant first; the `requires`
/// leaves out the inputs on which the call panics.
#[verifier::external_body]
pub(crate) fn read_uint(buf: &[u8], nbytes: usize) -> (value: u64)
    requires
        1 <= nbytes <= 8,
        nbytes <= buf@.len(),
    ensures
        value == be_value(buf@.subrange(0, nbytes as int)),
{
    NetworkEndian::read_uint(buf, nbytes)
}

/// Calls `byteorder`'s `ByteOrder::write_u16` for big-endian order on a
/// fresh two-byte buffer. The contract claims that the buffer then holds
/// the two bytes of `n`, most significant first.
#[verifier::external_body]
pub(crate) fn write_u16(n: u16) -> (out: [u8; 2])
    ensures
        out@ == be_bytes(n as nat, 2),
{
    let mut out = [0u8; 2];
    BigEndian::write_u16(&mut out, n);
    out
}

/// Calls `byteorder`'s `ByteOrder::write_u64` for big-endian order on a
/// fresh eight-byte buffer. The contract claims that the buffer then holds
/// the eight bytes of `n`, most significant first.
#[verifier::external_body]
pub(crate) fn write_u64(n: u64) -> (out: [u8; 8])
    ensures
        out@ == be_bytes(n as nat, 8),
{
    let mut out = [0u8; 8];
    BigEndian::write_u64(&mut out, n);
    out
}

} // verus!
