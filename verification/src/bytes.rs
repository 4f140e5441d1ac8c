//! Little-endian fields of on-disk sectors.
use vstd::prelude::*;

verus! {

/// Size of a sector in bytes.
pub const SECTOR_BYTES: usize = 512;

/// The 16-bit little-endian number stored at `at`.
pub open spec fn le16(bytes: Seq<u8>, at: int) -> int {
    bytes[at] + 0x100 * bytes[at + 1]
}

/// The 32-bit little-endian number stored at `at`.
pub open spec fn le32(bytes: Seq<u8>, at: int) -> int {
    bytes[at] + 0x100 * bytes[at + 1] + 0x1_0000 * bytes[at + 2] + 0x100_0000 * bytes[at + 3]
}

/// The four bytes of `value`, least significant first.
pub open spec fn le32_bytes(value: u32) -> Seq<u8> {
    seq![
        (value % 0x100) as u8,
        (value / 0x100 % 0x100) as u8,
        (value / 0x1_0000 % 0x100) as u8,
        (value / 0x100_0000) as u8,
    ]
}

/// The two bytes of `value`, least significant first.
pub open spec fn le16_bytes(value: u16) -> Seq<u8> {
    seq![(value % 0x100) as u8, (value / 0x100) as u8]
}

/// `bytes` with the run starting at `at` replaced by `field`.
pub open spec fn overwritten(bytes: Seq<u8>, at: int, field: Seq<u8>) -> Seq<u8> {
    Seq::new(
        bytes.len(),
        |i: int| if at <= i < at + field.len() { field[i - at] } else { bytes[i] },
    )
}

/// Read the 16-bit field at `at`.
pub fn le_u16(bytes: &[u8], at: usize) -> (value: u16)
    requires
        at + 2 <= bytes@.len(),
    ensures
        value == le16(bytes@, at as int),
{
    bytes[at] as u16 + 0x100 * (bytes[at + 1] as u16)
}

/// Read the 32-bit field at `at`.
pub fn le_u32(bytes: &[u8], at: usize) -> (value: u32)
    requires
        at + 4 <= bytes@.len(),
    ensures
        value == le32(bytes@, at as int),
{
    bytes[at] as u32 + 0x100 * (bytes[at + 1] as u32) + 0x1_0000 * (bytes[at + 2] as u32)
        + 0x100_0000 * (bytes[at + 3] as u32)
}

/// Whether the bytes from `at` on are `field`.
pub fn holds(bytes: &[u8], at: usize, field: &[u8]) -> (yes: bool)
    requires
        at + field@.len() <= bytes@.len(),
    ensures
        yes == (bytes@.subrange(at as int, at + field@.len()) == field@),
{
    let len: usize = bytes.len();
    for i in 0..field.len()
        invariant
            at + field@.len() <= bytes@.len(),
            len == bytes@.len(),
            forall|j: int| 0 <= j < i ==> bytes@[at + j] == field@[j],
    {
        if bytes[at + i] != field[i] {
            assert(bytes@.subrange(at as int, at + field@.len())[i as int] != field@[i as int]);
            return false;
        }
    }
    assert(bytes@.subrange(at as int, at + field@.len()) =~= field@);
    true
}

/// Copy `field` over the sector's bytes from `at` on.
pub fn put_bytes(sector: &mut [u8; SECTOR_BYTES], at: usize, field: &[u8])
    requires
        at + field@.len() <= SECTOR_BYTES,
    ensures
        final(sector)@ == overwritten(old(sector)@, at as int, field@),
{
    let ghost before = sector@;
    for i in 0..field.len()
        invariant
            at + field@.len() <= SECTOR_BYTES,
            before.len() == SECTOR_BYTES,
            sector@ == overwritten(before, at as int, field@.take(i as int)),
    {
        sector[at + i] = field[i];
        assert(sector@ =~= overwritten(before, at as int, field@.take(i + 1)));
    }
    assert(field@.take(field@.len() as int) =~= field@);
    assert(sector@ =~= overwritten(before, at as int, field@));
}

/// Store a 16-bit field at `at`.
pub fn put_u16(sector: &mut [u8; SECTOR_BYTES], at: usize, value: u16)
    requires
        at + 2 <= SECTOR_BYTES,
    ensures
        final(sector)@ == overwritten(old(sector)@, at as int, le16_bytes(value)),
        le16(final(sector)@, at as int) == value,
{
    let ghost before = sector@;
    sector[at] = (value % 0x100) as u8;
    sector[at + 1] = (value / 0x100) as u8;
    assert(sector@ =~= overwritten(before, at as int, le16_bytes(value)));
}

/// Store a 32-bit field at `at`.
pub fn put_u32(sector: &mut [u8; SECTOR_BYTES], at: usize, value: u32)
    requires
        at + 4 <= SECTOR_BYTES,
    ensures
        final(sector)@ == overwritten(old(sector)@, at as int, le32_bytes(value)),
        le32(final(sector)@, at as int) == value,
{
    let ghost before = sector@;
    sector[at] = (value % 0x100) as u8;
    sector[at + 1] = (value / 0x100 % 0x100) as u8;
    sector[at + 2] = (value / 0x1_0000 % 0x100) as u8;
    sector[at + 3] = (value / 0x100_0000) as u8;
    assert(sector@ =~= overwritten(before, at as int, le32_bytes(value)));
}

/// A 32-bit field that was stored reads back unchanged.
pub proof fn le32_reads_back(bytes: Seq<u8>, at: int, value: u32)
    requires
        0 <= at,
        at + 4 <= bytes.len(),
    ensures
        le32(overwritten(bytes, at, le32_bytes(value)), at) == value,
{
}

/// A 16-bit field that was stored reads back unchanged.
pub proof fn le16_reads_back(bytes: Seq<u8>, at: int, value: u16)
    requires
        0 <= at,
        at + 2 <= bytes.len(),
    ensures
        le16(overwritten(bytes, at, le16_bytes(value)), at) == value,
{
}

} // verus!
