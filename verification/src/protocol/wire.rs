//! Numbers as big-endian bytes.

use vstd::prelude::*;

verus! {

pub open spec fn be_u16(number: u16) -> Seq<u8> {
    seq![(number / 256) as u8, (number % 256) as u8]
}

pub open spec fn be_u32(number: u32) -> Seq<u8> {
    seq![
        (number / 0x100_0000) as u8,
        (number / 0x1_0000 % 256) as u8,
        (number / 256 % 256) as u8,
        (number % 256) as u8,
    ]
}

/// The number whose big-endian bytes stand at `at`.
pub open spec fn u16_at(bytes: Seq<u8>, at: int) -> int {
    bytes[at] * 256 + bytes[at + 1]
}

pub open spec fn u32_at(bytes: Seq<u8>, at: int) -> int {
    bytes[at] * 0x100_0000 + bytes[at + 1] * 0x1_0000 + bytes[at + 2] * 256 + bytes[at + 3]
}

pub(crate) fn put_u16(out: &mut Vec<u8>, number: u16)
    ensures
        final(out)@ == old(out)@ + be_u16(number),
{
    out.push((number / 256) as u8);
    out.push((number % 256) as u8);
    assert(out@ =~= old(out)@ + be_u16(number));
}

pub(crate) fn put_u32(out: &mut Vec<u8>, number: u32)
    ensures
        final(out)@ == old(out)@ + be_u32(number),
{
    out.push((number / 0x100_0000) as u8);
    out.push((number / 0x1_0000 % 256) as u8);
    out.push((number / 256 % 256) as u8);
    out.push((number % 256) as u8);
    assert(out@ =~= old(out)@ + be_u32(number));
}

pub(crate) fn get_u16(bytes: &[u8], at: usize) -> (number: u16)
    requires
        at + 2 <= bytes@.len(),
    ensures
        number == u16_at(bytes@, at as int),
{
    bytes[at] as u16 * 256 + bytes[at + 1] as u16
}

pub(crate) fn get_u32(bytes: &[u8], at: usize) -> (number: u32)
    requires
        at + 4 <= bytes@.len(),
    ensures
        number == u32_at(bytes@, at as int),
{
    bytes[at] as u32 * 0x100_0000 + bytes[at + 1] as u32 * 0x1_0000 + bytes[at + 2] as u32 * 256
        + bytes[at + 3] as u32
}

/// The four big-endian bytes of a number read back as the number, wherever they stand.
pub proof fn law_u32_reads_back(number: u32, before: Seq<u8>, after: Seq<u8>)
    ensures
        u32_at(before + be_u32(number) + after, before.len() as int) == number,
{
    let bytes = before + be_u32(number) + after;
    let at = before.len() as int;
    assert(bytes[at] == be_u32(number)[0]);
    assert(bytes[at + 1] == be_u32(number)[1]);
    assert(bytes[at + 2] == be_u32(number)[2]);
    assert(bytes[at + 3] == be_u32(number)[3]);
}

/// The two big-endian bytes of a number read back as the number, wherever they stand.
pub proof fn law_u16_reads_back(number: u16, before: Seq<u8>, after: Seq<u8>)
    ensures
        u16_at(before + be_u16(number) + after, before.len() as int) == number,
{
    let bytes = before + be_u16(number) + after;
    let at = before.len() as int;
    assert(bytes[at] == be_u16(number)[0]);
    assert(bytes[at + 1] == be_u16(number)[1]);
}

/// The bytes of a number stand with the largest first, and are read so, wherever they stand.
pub proof fn law_largest_byte_comes_first(
    number: u32,
    short: u16,
    before: Seq<u8>,
    bytes: Seq<u8>,
    after: Seq<u8>,
)
    requires
        bytes.len() == 4,
    ensures
        be_u32(number).len() == 4,
        be_u32(number)[0] * 0x100_0000 + be_u32(number)[1] * 0x1_0000 + be_u32(number)[2] * 0x100
            + be_u32(number)[3] == number,
        be_u16(short).len() == 2,
        be_u16(short)[0] * 0x100 + be_u16(short)[1] == short,
        u32_at(before + bytes + after, before.len() as int) == bytes[0] * 0x100_0000 + bytes[1]
            * 0x1_0000 + bytes[2] * 0x100 + bytes[3],
        u16_at(before + bytes + after, before.len() as int) == bytes[0] * 0x100 + bytes[1],
{
    let (all, at) = (before + bytes + after, before.len() as int);
    assert(all[at] == bytes[0] && all[at + 1] == bytes[1] && all[at + 2] == bytes[2] && all[at + 3]
        == bytes[3]);
}

} // verus!
