//! The mask cipher: a repeating four-byte XOR key over a payload.
//!
//! A key is held as one 32-bit word. The word is only a container for the
//! four key bytes, the first of them in its least significant byte: it is
//! never used as a number.

use vstd::prelude::*;

verus! {

/// The four key bytes of a mask word, in the order in which they travel.
pub open spec fn mask_key(mask: u32) -> Seq<u8> {
    seq![
        (mask % 0x100) as u8,
        (mask / 0x100 % 0x100) as u8,
        (mask / 0x1_0000 % 0x100) as u8,
        (mask / 0x100_0000) as u8,
    ]
}

/// The mask word that holds four key bytes.
pub open spec fn mask_word(key: Seq<u8>) -> u32 {
    (key[0] + key[1] * 0x100 + key[2] * 0x1_0000 + key[3] * 0x100_0000) as u32
}

/// `data` with each byte `i` XORed with key byte `i mod 4`.
pub open spec fn masked(data: Seq<u8>, mask: u32) -> Seq<u8> {
    Seq::new(data.len(), |i: int| data[i] ^ mask_key(mask)[i % 4])
}

/// A mask word has four key bytes, and they make up the word again.
pub proof fn lemma_mask_key(mask: u32)
    ensures
        mask_key(mask).len() == 4,
        mask_word(mask_key(mask)) == mask,
{
}

/// Masking twice with the same key gives back the bytes as they were.
pub proof fn lemma_mask_involution(data: Seq<u8>, mask: u32)
    ensures
        masked(masked(data, mask), mask) == data,
{
    let once = masked(data, mask);
    let twice = masked(once, mask);
    assert forall|i: int| 0 <= i < data.len() implies twice[i] == data[i] by {
        let d = data[i];
        let k = mask_key(mask)[i % 4];
        assert((d ^ k) ^ k == d) by (bit_vector);
    }
    assert(twice =~= data);
}

/// The four key bytes of a mask word.
pub fn key_bytes(mask: u32) -> (key: [u8; 4])
    ensures
        key@ == mask_key(mask),
{
    assert(mask & 0xff == mask % 0x100) by (bit_vector);
    assert((mask >> 8) & 0xff == mask / 0x100 % 0x100) by (bit_vector);
    assert((mask >> 16) & 0xff == mask / 0x1_0000 % 0x100) by (bit_vector);
    assert((mask >> 24) & 0xff == mask / 0x100_0000) by (bit_vector);
    let key = [
        (mask & 0xff) as u8,
        ((mask >> 8) & 0xff) as u8,
        ((mask >> 16) & 0xff) as u8,
        ((mask >> 24) & 0xff) as u8,
    ];
    assert(key@ =~= mask_key(mask));
    key
}

/// The mask word of four key bytes as they came off the wire.
pub fn key_word(key: &[u8]) -> (mask: u32)
    requires
        key@.len() == 4,
    ensures
        mask == mask_word(key@),
{
    let a = key[0] as u32;
    let b = key[1] as u32;
    let c = key[2] as u32;
    let d = key[3] as u32;
    assert(a < 0x100 && b < 0x100 && c < 0x100 && d < 0x100 ==> (a | b << 8 | c << 16 | d << 24)
        == a + b * 0x100 + c * 0x1_0000 + d * 0x100_0000) by (bit_vector);
    a | b << 8 | c << 16 | d << 24
}

/// Applies the mask cipher to `buf` in place, in one pass.
pub fn apply_mask(buf: &mut Vec<u8>, mask: u32)
    ensures
        final(buf)@ == masked(old(buf)@, mask),
{
    let key = key_bytes(mask);
    let n = buf.len();
    let mut i: usize = 0;
    while i < n
        invariant
            i <= n,
            n == buf@.len(),
            buf@.len() == old(buf)@.len(),
            key@ == mask_key(mask),
            forall|j: int| 0 <= j < i ==> buf@[j] == old(buf)@[j] ^ key@[j % 4],
            forall|j: int| i <= j < n ==> buf@[j] == old(buf)@[j],
        decreases n - i,
    {
        let b = buf[i] ^ key[i % 4];
        buf.set(i, b);
        i += 1;
    }
    assert(buf@ =~= masked(old(buf)@, mask));
}

/// Calls `rand::random` for a `u32`: a mask word for one outgoing frame.
/// Nothing is claimed of the word: it is a matter of chance.
#[verifier::external_body]
pub(crate) fn random_mask() -> (mask: u32) {
    rand::random::<u32>()
}

} // verus!
