//! Little-endian integers and byte buffers.

use byteorder::{ByteOrder, LittleEndian};
use vstd::prelude::*;

verus! {

/// The two bytes of `n`, least significant first.
pub open spec fn le16(n: u16) -> Seq<u8> {
    seq![(n % 256) as u8, (n / 256) as u8]
}

/// The four bytes of `n`, least significant first.
pub open spec fn le32(n: u32) -> Seq<u8> {
    seq![
        (n % 256) as u8,
        (n / 0x100 % 256) as u8,
        (n / 0x1_0000 % 256) as u8,
        (n / 0x100_0000) as u8,
    ]
}

/// The eight bytes of `n`, least significant first: the four bytes of its
/// low half, then the four bytes of its high half.
pub open spec fn le64(n: u64) -> Seq<u8> {
    le32((n % 0x1_0000_0000) as u32) + le32((n / 0x1_0000_0000) as u32)
}

/// `n` zero bytes.
pub open spec fn zeros(n: nat) -> Seq<u8> {
    Seq::new(n, |i: int| 0u8)
}

/// Calls `byteorder::LittleEndian::write_u16` on a fresh buffer of two bytes.
/// Trusted: the crate copies `n.to_le_bytes()` into the buffer, so the buffer
/// then holds the low byte of `n` followed by its high byte.
#[verifier::external_body]
pub(crate) fn le_bytes_u16(n: u16) -> (r: [u8; 2])
    ensures
        r@ == le16(n),
{
    let mut buf: [u8; 2] = [0u8; 2];
    LittleEndian::write_u16(&mut buf, n);
    buf
}

/// Calls `byteorder::LittleEndian::write_u32` on a fresh buffer of four bytes.
/// Trusted: the crate copies `n.to_le_bytes()` into the buffer, so the buffer
/// then holds the four bytes of `n` from the least significant up.
#[verifier::external_body]
pub(crate) fn le_bytes_u32(n: u32) -> (r: [u8; 4])
    ensures
        r@ == le32(n),
{
    let mut buf: [u8; 4] = [0u8; 4];
    LittleEndian::write_u32(&mut buf, n);
    buf
}

/// Calls `byteorder::LittleEndian::write_u64` on a fresh buffer of eight bytes.
/// Trusted: the crate copies `n.to_le_bytes()` into the buffer, so the buffer
/// then holds the eight bytes of `n` from the least significant up.
#[verifier::external_body]
pub(crate) fn le_bytes_u64(n: u64) -> (r: [u8; 8])
    ensures
        r@ == le64(n),
{
    let mut buf: [u8; 8] = [0u8; 8];
    LittleEndian::write_u64(&mut buf, n);
    buf
}

/// Appends `bytes` to `w`.
pub fn write_all(w: &mut Vec<u8>, bytes: &[u8])
    ensures
        final(w)@ == old(w)@ + bytes@,
{
    let mut i: usize = 0;
    while i < bytes.len()
        invariant
            0 <= i <= bytes@.len(),
            w@ == old(w)@ + bytes@.subrange(0, i as int),
        decreases bytes@.len() - i,
    {
        w.push(bytes[i]);
        i += 1;
        assert(w@ =~= old(w)@ + bytes@.subrange(0, i as int));
    }
    assert(bytes@.subrange(0, i as int) =~= bytes@);
}

/// Appends `n` as two bytes, least significant first.
pub fn write_u16(w: &mut Vec<u8>, n: u16)
    ensures
        final(w)@ == old(w)@ + le16(n),
{
    let b: [u8; 2] = le_bytes_u16(n);
    write_all(w, b.as_slice());
}

/// Appends `n` as four bytes, least significant first.
pub fn write_u32(w: &mut Vec<u8>, n: u32)
    ensures
        final(w)@ == old(w)@ + le32(n),
{
    let b: [u8; 4] = le_bytes_u32(n);
    write_all(w, b.as_slice());
}

/// Appends `n` as eight bytes, least significant first.
pub fn write_u64(w: &mut Vec<u8>, n: u64)
    ensures
        final(w)@ == old(w)@ + le64(n),
{
    let b: [u8; 8] = le_bytes_u64(n);
    write_all(w, b.as_slice());
}

/// Appends `n` zero bytes.
pub fn write_zeros(w: &mut Vec<u8>, n: usize)
    ensures
        final(w)@ == old(w)@ + zeros(n as nat),
{
    let mut i: usize = 0;
    while i < n
        invariant
            0 <= i <= n,
            w@ == old(w)@ + zeros(i as nat),
        decreases n - i,
    {
        w.push(0u8);
        i += 1;
        assert(w@ =~= old(w)@ + zeros(i as nat));
    }
}

/// `bytes` with `v` written over it from offset `pos` on.
pub open spec fn patch(bytes: Seq<u8>, pos: int, v: Seq<u8>) -> Seq<u8> {
    Seq::new(
        bytes.len(),
        |i: int|
            if pos <= i < pos + v.len() {
                v[i - pos]
            } else {
                bytes[i]
            },
    )
}

/// Writes `v` over `buf` from offset `pos` on.
pub fn patch_bytes(buf: &mut Vec<u8>, pos: usize, v: &[u8])
    requires
        pos + v@.len() <= old(buf)@.len(),
    ensures
        final(buf)@ == patch(old(buf)@, pos as int, v@),
{
    let mut i: usize = 0;
    let n: usize = buf.len();
    while i < v.len()
        invariant
            0 <= i <= v@.len(),
            n == buf@.len(),
            pos + v@.len() <= buf@.len(),
            buf@ == patch(old(buf)@, pos as int, v@.subrange(0, i as int)),
        decreases v@.len() - i,
    {
        buf[pos + i] = v[i];
        i += 1;
        assert(buf@ =~= patch(old(buf)@, pos as int, v@.subrange(0, i as int)));
    }
    assert(v@.subrange(0, i as int) =~= v@);
}

} // verus!
