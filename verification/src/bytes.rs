//! Numbers as bytes, the low byte first.

use vstd::prelude::*;

verus! {

pub open spec fn le16(x: u16) -> Seq<u8> {
    seq![(x % 256) as u8, (x / 256) as u8]
}

pub open spec fn le32(x: u32) -> Seq<u8> {
    seq![
        (x % 256) as u8,
        (x / 0x100 % 256) as u8,
        (x / 0x1_0000 % 256) as u8,
        (x / 0x100_0000) as u8,
    ]
}

pub open spec fn le64(x: u64) -> Seq<u8> {
    le32((x % 0x1_0000_0000) as u32) + le32((x / 0x1_0000_0000) as u32)
}

/// The number in the four bytes at `at`.
pub open spec fn read32(bytes: Seq<u8>, at: int) -> int {
    bytes[at] + 0x100 * bytes[at + 1] + 0x1_0000 * bytes[at + 2] + 0x100_0000 * bytes[at + 3]
}

/// Four bytes written are read back.
pub proof fn law_read_le32(bytes: Seq<u8>, at: int, x: u32)
    requires
        0 <= at,
        at + 4 <= bytes.len(),
        bytes.subrange(at, at + 4) == le32(x),
    ensures
        read32(bytes, at) == x,
{
    let s = bytes.subrange(at, at + 4);
    assert(bytes[at] == s[0] && bytes[at + 1] == s[1] && bytes[at + 2] == s[2] && bytes[at + 3]
        == s[3]);
}

pub fn push_le16(out: &mut Vec<u8>, x: u16)
    ensures
        final(out)@ == old(out)@ + le16(x),
{
    out.push((x % 256) as u8);
    out.push((x / 256) as u8);
    assert(out@ =~= old(out)@ + le16(x));
}

pub fn push_le32(out: &mut Vec<u8>, x: u32)
    ensures
        final(out)@ == old(out)@ + le32(x),
{
    out.push((x % 256) as u8);
    out.push((x / 0x100 % 256) as u8);
    out.push((x / 0x1_0000 % 256) as u8);
    out.push((x / 0x100_0000) as u8);
    assert(out@ =~= old(out)@ + le32(x));
}

pub fn push_le64(out: &mut Vec<u8>, x: u64)
    ensures
        final(out)@ == old(out)@ + le64(x),
{
    push_le32(out, (x % 0x1_0000_0000) as u32);
    push_le32(out, (x / 0x1_0000_0000) as u32);
    assert(out@ =~= old(out)@ + le64(x));
}

/// Overwrite the four bytes at `at`.
pub fn set_le32(out: &mut Vec<u8>, at: usize, x: u32)
    requires
        at + 4 <= old(out).len(),
    ensures
        final(out)@ == old(out)@.take(at as int) + le32(x) + old(out)@.skip(at + 4),
{
    out.set(at, (x % 256) as u8);
    out.set(at + 1, (x / 0x100 % 256) as u8);
    out.set(at + 2, (x / 0x1_0000 % 256) as u8);
    out.set(at + 3, (x / 0x100_0000) as u8);
    assert(out@ =~= old(out)@.take(at as int) + le32(x) + old(out)@.skip(at + 4));
}

} // verus!
