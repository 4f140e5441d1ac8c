//! FAT32 formatting: one partition with an empty volume.
use vstd::prelude::*;

use crate::bytes::{
    holds, le16_bytes, le32, le32_bytes, le_u32, overwritten, put_bytes, put_u16, put_u32,
};
use crate::fat_tail::{mark_phantom_tail, tail_marked, FAT32_BAD_CLUSTER};
use crate::geometry::{
    fat32_geometry, is_geometry_for, no_cluster_size_works, FormatError, FormatGeometry, PARTITION_START,
    RESERVED_SECTORS, MIN_PARTITION_SECTORS,
};
use crate::storage::{
    cut, extends, no_more, one_more, read_sector, sector_read, sector_view, since, ByteStorage,
    Recorded, StorageEvent,
};

verus! {

/// `WIOEDIT `, the system name in the boot sector.
pub const SYSTEM_NAME: [u8; 8] = [0x57, 0x49, 0x4f, 0x45, 0x44, 0x49, 0x54, 0x20];

/// `WIO-TERM   `, the volume label.
pub const VOLUME_LABEL: [u8; 11] = [
    0x57,
    0x49,
    0x4f,
    0x2d,
    0x54,
    0x45,
    0x52,
    0x4d,
    0x20,
    0x20,
    0x20,
];

/// `FAT32   `, the name of the filesystem.
pub const FILESYSTEM_NAME: [u8; 8] = [0x46, 0x41, 0x54, 0x33, 0x32, 0x20, 0x20, 0x20];

pub const BOOT_JUMP: [u8; 3] = [0xeb, 0x58, 0x90];

/// The head, sector and cylinder fields of a partition addressed by sector
/// number only.
pub const CHS_UNUSED: [u8; 3] = [0xfe, 0xff, 0xff];

pub const BOOT_SIGNATURE: [u8; 2] = [0x55, 0xaa];

/// Partition type of FAT32 addressed by sector number.
pub const FAT32_LBA_KIND: [u8; 1] = [0x0c];

/// A sector of zeros.
pub open spec fn blank() -> Seq<u8> {
    Seq::new(512, |i: int| 0u8)
}

/// The partition table: one slot for the whole partition.
pub open spec fn partition_table(g: FormatGeometry) -> Seq<u8> {
    let s = overwritten(blank(), 447, CHS_UNUSED@);
    let s = overwritten(s, 450, FAT32_LBA_KIND@);
    let s = overwritten(s, 451, CHS_UNUSED@);
    let s = overwritten(s, 454, le32_bytes(g.partition_start));
    let s = overwritten(s, 458, le32_bytes(g.partition_sectors));
    overwritten(s, 510, BOOT_SIGNATURE@)
}

/// The boot sector of the volume.
pub open spec fn boot_sector(g: FormatGeometry) -> Seq<u8> {
    let s = overwritten(blank(), 0, BOOT_JUMP@);
    let s = overwritten(s, 3, SYSTEM_NAME@);
    let s = overwritten(s, 11, le16_bytes(512));
    let s = overwritten(s, 13, seq![g.sectors_per_cluster]);
    let s = overwritten(s, 14, le16_bytes(RESERVED_SECTORS as u16));
    let s = overwritten(s, 16, seq![2u8]);
    let s = overwritten(s, 21, seq![0xf8u8]);
    let s = overwritten(s, 24, le16_bytes(63));
    let s = overwritten(s, 26, le16_bytes(255));
    let s = overwritten(s, 28, le32_bytes(g.partition_start));
    let s = overwritten(s, 32, le32_bytes(g.partition_sectors));
    let s = overwritten(s, 36, le32_bytes(g.fat_sectors));
    let s = overwritten(s, 44, le32_bytes(2));
    let s = overwritten(s, 48, le16_bytes(1));
    let s = overwritten(s, 50, le16_bytes(6));
    let s = overwritten(s, 64, seq![0x80u8]);
    let s = overwritten(s, 66, seq![0x29u8]);
    let s = overwritten(s, 67, le32_bytes(g.volume_serial));
    let s = overwritten(s, 71, VOLUME_LABEL@);
    let s = overwritten(s, 82, FILESYSTEM_NAME@);
    overwritten(s, 510, BOOT_SIGNATURE@)
}

/// The FSInfo sector: every cluster but the root directory's is free.
pub open spec fn fsinfo_sector(g: FormatGeometry) -> Seq<u8> {
    let s = overwritten(blank(), 0, le32_bytes(0x4161_5252));
    let s = overwritten(s, 484, le32_bytes(0x6141_7272));
    let s = overwritten(
        s,
        488,
        le32_bytes(if g.cluster_count == 0 { 0 } else { (g.cluster_count - 1) as u32 }),
    );
    let s = overwritten(s, 492, le32_bytes(3));
    overwritten(s, 508, le32_bytes(0xaa55_0000))
}

/// The first sector of a FAT: the two reserved entries and the end of the root
/// directory's chain.
pub open spec fn fat_head() -> Seq<u8> {
    let s = overwritten(blank(), 0, le32_bytes(0x0fff_fff8));
    let s = overwritten(s, 4, le32_bytes(0xffff_ffff));
    overwritten(s, 8, le32_bytes(0x0fff_ffff))
}

/// Where the entries behind the last real cluster start in their sector; 0 if
/// the real entries fill it.
pub open spec fn phantom_offset(g: FormatGeometry) -> int {
    (g.cluster_count + 2) * 4 % 512
}

/// The last sector of a FAT, with the entries behind the last cluster marked.
pub open spec fn fat_end(g: FormatGeometry) -> Seq<u8> {
    tail_marked(blank(), phantom_offset(g), FAT32_BAD_CLUSTER@)
}

fn blank_sector() -> (sector: [u8; 512])
    ensures
        sector@ == blank(),
{
    let sector = [0u8; 512];
    assert(sector@ =~= blank());
    sector
}

fn make_partition_table(g: &FormatGeometry) -> (sector: [u8; 512])
    ensures
        sector@ == partition_table(*g),
{
    let mut b = blank_sector();
    put_bytes(&mut b, 447, &CHS_UNUSED);
    put_bytes(&mut b, 450, &FAT32_LBA_KIND);
    put_bytes(&mut b, 451, &CHS_UNUSED);
    put_u32(&mut b, 454, g.partition_start);
    put_u32(&mut b, 458, g.partition_sectors);
    put_bytes(&mut b, 510, &BOOT_SIGNATURE);
    b
}

fn put_byte(sector: &mut [u8; 512], at: usize, value: u8)
    requires
        at < 512,
    ensures
        final(sector)@ == overwritten(old(sector)@, at as int, seq![value]),
{
    let ghost before = sector@;
    sector[at] = value;
    assert(sector@ =~= overwritten(before, at as int, seq![value]));
}

/// Compose the boot sector.
pub fn make_boot_sector(g: &FormatGeometry) -> (sector: [u8; 512])
    ensures
        sector@ == boot_sector(*g),
{
    let mut b = blank_sector();
    put_bytes(&mut b, 0, &BOOT_JUMP);
    put_bytes(&mut b, 3, &SYSTEM_NAME);
    put_u16(&mut b, 11, 512);
    put_byte(&mut b, 13, g.sectors_per_cluster);
    put_u16(&mut b, 14, RESERVED_SECTORS as u16);
    put_byte(&mut b, 16, 2);
    put_byte(&mut b, 21, 0xf8);
    put_u16(&mut b, 24, 63);
    put_u16(&mut b, 26, 255);
    put_u32(&mut b, 28, g.partition_start);
    put_u32(&mut b, 32, g.partition_sectors);
    put_u32(&mut b, 36, g.fat_sectors);
    put_u32(&mut b, 44, 2);
    put_u16(&mut b, 48, 1);
    put_u16(&mut b, 50, 6);
    put_byte(&mut b, 64, 0x80);
    put_byte(&mut b, 66, 0x29);
    put_u32(&mut b, 67, g.volume_serial);
    put_bytes(&mut b, 71, &VOLUME_LABEL);
    put_bytes(&mut b, 82, &FILESYSTEM_NAME);
    put_bytes(&mut b, 510, &BOOT_SIGNATURE);
    b
}

/// Compose the FSInfo sector.
pub fn make_fsinfo(g: &FormatGeometry) -> (sector: [u8; 512])
    ensures
        sector@ == fsinfo_sector(*g),
{
    let mut b = blank_sector();
    put_u32(&mut b, 0, 0x4161_5252);
    put_u32(&mut b, 484, 0x6141_7272);
    put_u32(&mut b, 488, g.cluster_count.saturating_sub(1));
    put_u32(&mut b, 492, 3);
    put_u32(&mut b, 508, 0xaa55_0000);
    b
}

fn make_fat_head() -> (sector: [u8; 512])
    ensures
        sector@ == fat_head(),
{
    let mut b = blank_sector();
    put_u32(&mut b, 0, 0x0fff_fff8);
    put_u32(&mut b, 4, 0xffff_ffff);
    put_u32(&mut b, 8, 0x0fff_ffff);
    b
}

fn make_fat_end(g: &FormatGeometry) -> (sector: [u8; 512])
    requires
        g.cluster_count <= 0x0fff_fff5,
    ensures
        sector@ == fat_end(*g),
{
    let mut b = blank_sector();
    let from: usize = ((g.cluster_count + 2) * 4 % 512) as usize;
    let _changed = mark_phantom_tail(&mut b, from, &FAT32_BAD_CLUSTER);
    b
}

/// One sector to be written.
pub struct SectorWrite {
    pub lba: u32,
    pub contents: Seq<u8>,
}

/// Writes that one copy of the FAT takes: every sector blanked, then its first
/// sector, then its last one if that holds entries behind the last cluster.
pub open spec fn writes_per_fat(g: FormatGeometry) -> int {
    g.fat_sectors + 1 + if phantom_offset(g) != 0 { 1int } else { 0 }
}

/// Number of sector writes that formatting takes.
pub open spec fn write_count(g: FormatGeometry) -> int {
    39 + 2 * writes_per_fat(g) + g.sectors_per_cluster
}

/// The sectors that formatting writes, in order: the partition table; blanks over
/// the places of both GPT headers; the reserved sectors; boot sector and FSInfo
/// with their backups; both FATs; and the root directory's cluster.
#[verifier::opaque]
pub open spec fn format_write(g: FormatGeometry, media_sectors: u32, i: int) -> SectorWrite {
    let start = g.partition_start;
    let first_fat = start + RESERVED_SECTORS;
    let per_fat = writes_per_fat(g);
    if i == 0 {
        SectorWrite { lba: 0, contents: partition_table(g) }
    } else if i == 1 {
        SectorWrite { lba: 1, contents: blank() }
    } else if i == 2 {
        SectorWrite { lba: (media_sectors - 1) as u32, contents: blank() }
    } else if i < 35 {
        SectorWrite { lba: (start + (i - 3)) as u32, contents: blank() }
    } else if i == 35 {
        SectorWrite { lba: start, contents: boot_sector(g) }
    } else if i == 36 {
        SectorWrite { lba: (start + 1) as u32, contents: fsinfo_sector(g) }
    } else if i == 37 {
        SectorWrite { lba: (start + 6) as u32, contents: boot_sector(g) }
    } else if i == 38 {
        SectorWrite { lba: (start + 7) as u32, contents: fsinfo_sector(g) }
    } else if i < 39 + per_fat {
        fat_write(g, first_fat, i - 39)
    } else if i < 39 + 2 * per_fat {
        fat_write(g, first_fat + g.fat_sectors, i - 39 - per_fat)
    } else {
        SectorWrite {
            lba: (first_fat + 2 * g.fat_sectors + (i - 39 - 2 * per_fat)) as u32,
            contents: blank(),
        }
    }
}

/// The `j`-th write to the FAT at sector `base`.
pub open spec fn fat_write(g: FormatGeometry, base: int, j: int) -> SectorWrite {
    if j < g.fat_sectors {
        SectorWrite { lba: (base + j) as u32, contents: blank() }
    } else if j == g.fat_sectors {
        SectorWrite { lba: base as u32, contents: fat_head() }
    } else {
        SectorWrite { lba: (base + g.fat_sectors - 1) as u32, contents: fat_end(g) }
    }
}

/// What the writes rely on: everything written lies on the medium.
pub open spec fn fits_medium(g: FormatGeometry, media_sectors: u32) -> bool {
    &&& g.partition_start == PARTITION_START
    &&& g.partition_start + g.partition_sectors == media_sectors
    &&& g.partition_sectors >= MIN_PARTITION_SECTORS
    &&& g.cluster_count <= 0x0fff_fff5
    &&& g.fat_sectors >= 512
    &&& g.sectors_per_cluster >= 1
    &&& RESERVED_SECTORS + 2 * g.fat_sectors + g.sectors_per_cluster <= g.partition_sectors
}

pub proof fn geometry_fits_medium(g: FormatGeometry, media_sectors: u32, serial_seed: u32)
    requires
        media_sectors >= PARTITION_START + MIN_PARTITION_SECTORS,
        is_geometry_for(g, media_sectors, serial_seed),
    ensures
        fits_medium(g, media_sectors),
        RESERVED_SECTORS + 2 * g.fat_sectors + g.cluster_count * g.sectors_per_cluster
            <= g.partition_sectors,
{
    let spc = g.sectors_per_cluster as int;
    let room = g.partition_sectors - RESERVED_SECTORS - 2 * g.fat_sectors;
    assert(g.cluster_count * spc <= room && spc <= g.cluster_count * spc) by (nonlinear_arith)
        requires
            g.cluster_count == room / spc,
            spc >= 1,
            room >= 0,
            g.cluster_count >= 1,
    ;
}

fn fat_sector_write(g: &FormatGeometry, base: u32, j: u32) -> (write: (u32, [u8; 512]))
    requires
        g.cluster_count <= 0x0fff_fff5,
        1 <= g.fat_sectors,
        base + g.fat_sectors <= 0xffff_ffff,
    ensures
        write.0 == fat_write(*g, base as int, j as int).lba,
        write.1@ == fat_write(*g, base as int, j as int).contents,
{
    if j < g.fat_sectors {
        (base + j, blank_sector())
    } else if j == g.fat_sectors {
        (base, make_fat_head())
    } else {
        (base + g.fat_sectors - 1, make_fat_end(g))
    }
}

/// The `i`-th sector that formatting writes.
fn sector_to_write(g: &FormatGeometry, media_sectors: u32, i: u64) -> (write: (u32, [u8; 512]))
    requires
        fits_medium(*g, media_sectors),
        i < write_count(*g),
    ensures
        write.0 == format_write(*g, media_sectors, i as int).lba,
        write.1@ == format_write(*g, media_sectors, i as int).contents,
{
    proof {
        reveal(format_write);
    }
    let start: u32 = g.partition_start;
    let first_fat: u32 = start + RESERVED_SECTORS;
    let marked: u64 = if (g.cluster_count + 2) * 4 % 512 != 0 { 1 } else { 0 };
    let per_fat: u64 = g.fat_sectors as u64 + 1 + marked;
    if i == 0 {
        (0, make_partition_table(g))
    } else if i == 1 {
        (1, blank_sector())
    } else if i == 2 {
        (media_sectors - 1, blank_sector())
    } else if i < 35 {
        (start + (i - 3) as u32, blank_sector())
    } else if i == 35 {
        (start, make_boot_sector(g))
    } else if i == 36 {
        (start + 1, make_fsinfo(g))
    } else if i == 37 {
        (start + 6, make_boot_sector(g))
    } else if i == 38 {
        (start + 7, make_fsinfo(g))
    } else if i < 39 + per_fat {
        fat_sector_write(g, first_fat, (i - 39) as u32)
    } else if i < 39 + 2 * per_fat {
        fat_sector_write(g, first_fat + g.fat_sectors, (i - 39 - per_fat) as u32)
    } else {
        (first_fat + 2 * g.fat_sectors + (i - 39 - 2 * per_fat) as u32, blank_sector())
    }
}

/// Writing one sector with success: a seek to it, then the write.
pub open spec fn sector_stored<E>(t: Seq<StorageEvent<E>>, write: SectorWrite) -> bool {
    &&& t.len() == 2
    &&& t[0] matches StorageEvent::Seek { offset, reply } && offset == write.lba * 512 && reply is Ok
    &&& t[1] matches StorageEvent::Write { bytes, reply } && bytes == write.contents && reply is Ok
}

/// Writing one sector where the seek or the write fails with `error`.
pub open spec fn sector_refused<E>(t: Seq<StorageEvent<E>>, write: SectorWrite, error: E) -> bool {
    ||| {
        &&& t.len() == 1
        &&& t[0] matches StorageEvent::Seek { offset, reply } && offset == write.lba * 512 && reply
            == Err::<(), E>(error)
    }
    ||| {
        &&& t.len() == 2
        &&& t[0] matches StorageEvent::Seek { offset, reply } && offset == write.lba * 512 && reply is Ok
        &&& t[1] matches StorageEvent::Write { bytes, reply } && bytes == write.contents && reply
            == Err::<(), E>(error)
    }
}

/// Writing the first `n` sectors of a format, all of them successfully.
pub open spec fn format_prefix_written<E>(
    t: Seq<StorageEvent<E>>,
    g: FormatGeometry,
    media_sectors: u32,
    n: int,
) -> bool {
    &&& t.len() == 2 * n
    &&& forall|i: int| 0 <= i < n ==> sector_stored(
        #[trigger] t.subrange(2 * i, 2 * i + 2),
        format_write(g, media_sectors, i),
    )
}

proof fn prefix_grows<E>(t: Seq<StorageEvent<E>>, g: FormatGeometry, media_sectors: u32, n: int)
    requires
        n >= 0,
        t.len() == 2 * n + 2,
        format_prefix_written(t.take(2 * n), g, media_sectors, n),
        sector_stored(t.skip(2 * n), format_write(g, media_sectors, n)),
    ensures
        format_prefix_written(t, g, media_sectors, n + 1),
{
    assert forall|i: int| 0 <= i < n + 1 implies sector_stored(
        #[trigger] t.subrange(2 * i, 2 * i + 2),
        format_write(g, media_sectors, i),
    ) by {
        if i < n {
            assert(t.subrange(2 * i, 2 * i + 2) =~= t.take(2 * n).subrange(2 * i, 2 * i + 2));
        } else {
            assert(t.subrange(2 * n, 2 * n + 2) =~= t.skip(2 * n));
        }
    }
}

fn write_sector<S: ByteStorage>(storage: &mut Recorded<S>, lba: u32, sector: &[u8; 512]) -> (outcome:
    Result<(), S::Error>)
    ensures
        extends(old(storage).log(), final(storage).log()),
        outcome is Ok ==> sector_stored(
            since(old(storage).log(), final(storage).log()),
            SectorWrite { lba, contents: sector@ },
        ),
        outcome matches Err(error) ==> sector_refused(
            since(old(storage).log(), final(storage).log()),
            SectorWrite { lba, contents: sector@ },
            error,
        ),
{
    let ghost start = storage.log();
    proof {
        no_more(start);
    }
    let reply = storage.seek_start(lba as u64 * 512);
    let ghost seek = StorageEvent::Seek { offset: (lba * 512) as u64, reply };
    let ghost seeked = storage.log();
    proof {
        one_more(start, start, seek);
        assert(since(start, seeked) =~= seq![seek]);
    }
    match reply {
        Err(error) => return Err(error),
        Ok(()) => {},
    }
    let outcome = storage.write_all(sector);
    proof {
        let write = StorageEvent::Write { bytes: sector@, reply: outcome };
        one_more(start, seeked, write);
        assert(since(start, storage.log()) =~= seq![seek, write]);
    }
    outcome
}

/// Reading back one sector and testing it: `Some` when that ends the format.
pub open spec fn read_back_verdict<E>(
    outcome: Result<Option<Seq<u8>>, E>,
    sound: spec_fn(Seq<u8>) -> bool,
) -> Option<FormatError<E>> {
    match outcome {
        Err(error) => Some(FormatError::Io(error)),
        Ok(None) => Some(FormatError::VerifyFailed),
        Ok(Some(sector)) => if sound(sector) { None } else { Some(FormatError::VerifyFailed) },
    }
}

/// The partition table still leads to the partition.
pub open spec fn table_sound(g: FormatGeometry) -> spec_fn(Seq<u8>) -> bool {
    |s: Seq<u8>| s.subrange(510, 512) == BOOT_SIGNATURE@ && le32(s, 454) == g.partition_start
}

/// The boot sector still names its filesystem.
pub open spec fn boot_sound() -> spec_fn(Seq<u8>) -> bool {
    |s: Seq<u8>| s.subrange(510, 512) == BOOT_SIGNATURE@ && s.subrange(82, 90) == FILESYSTEM_NAME@
}

/// The FSInfo sector still has its signatures.
pub open spec fn info_sound() -> spec_fn(Seq<u8>) -> bool {
    |s: Seq<u8>| le32(s, 0) == 0x4161_5252 && le32(s, 484) == 0x6141_7272
}

/// The sector that verification step `step` reads back.
pub open spec fn read_back_lba(g: FormatGeometry, step: int) -> u32 {
    if step == 0 {
        0
    } else if step == 1 {
        g.partition_start
    } else {
        (g.partition_start + 1) as u32
    }
}

/// What verification step `step` asks of its sector.
pub open spec fn read_back_test(g: FormatGeometry, step: int) -> spec_fn(Seq<u8>) -> bool {
    if step == 0 {
        table_sound(g)
    } else if step == 1 {
        boot_sound()
    } else {
        info_sound()
    }
}

/// Verification from `step` on: three sectors are read back and tested, and the
/// first failure ends it.
pub open spec fn read_back<E>(
    t: Seq<StorageEvent<E>>,
    g: FormatGeometry,
    step: int,
    result: Result<FormatGeometry, FormatError<E>>,
) -> bool
    decreases 3 - step,
{
    if step >= 3 {
        t.len() == 0 && result == Ok::<FormatGeometry, FormatError<E>>(g)
    } else {
        exists|k: int, outcome: Result<Option<Seq<u8>>, E>|
            0 <= k <= t.len() && #[trigger] sector_read(t.take(k), read_back_lba(g, step), outcome)
                && match read_back_verdict(outcome, read_back_test(g, step)) {
                Some(error) => k == t.len() && result == Err::<FormatGeometry, FormatError<E>>(
                    error,
                ),
                None => read_back(t.skip(k), g, step + 1, result),
            }
    }
}

/// The exchanges `t` and the result of formatting with layout `g`: all writes up
/// to the first that fails; then a flush; then the verification.
pub open spec fn formatted<E>(
    t: Seq<StorageEvent<E>>,
    g: FormatGeometry,
    media_sectors: u32,
    result: Result<FormatGeometry, FormatError<E>>,
) -> bool {
    ||| exists|error: E| #[trigger]
        layout_refused(t, g, media_sectors, error) && result == Err::<
            FormatGeometry,
            FormatError<E>,
        >(FormatError::Io(error))
    ||| {
        let n = write_count(g);
        &&& 2 * n < t.len()
        &&& format_prefix_written(t.take(2 * n), g, media_sectors, n)
        &&& t[2 * n] matches StorageEvent::Flush { reply } && match reply {
            Err(error) => t.len() == 2 * n + 1 && result == Err::<FormatGeometry, FormatError<E>>(
                FormatError::Io(error),
            ),
            Ok(_) => read_back(t.skip(2 * n + 1), g, 0, result),
        }
    }
}

fn verify_format<S: ByteStorage>(storage: &mut Recorded<S>, g: &FormatGeometry, step: u8) -> (result:
    Result<FormatGeometry, FormatError<S::Error>>)
    requires
        g.partition_start < 0xffff_ffff,
        step <= 3,
    ensures
        extends(old(storage).log(), final(storage).log()),
        read_back(since(old(storage).log(), final(storage).log()), *g, step as int, result),
    decreases 3 - step,
{
    let ghost before = storage.log();
    proof {
        no_more(before);
    }
    if step == 3 {
        return Ok(*g);
    }
    let lba: u32 = if step == 0 {
        0
    } else if step == 1 {
        g.partition_start
    } else {
        g.partition_start + 1
    };
    let outcome = read_sector(storage, lba);
    let ghost seen = sector_view(outcome);
    let ghost after = storage.log();
    let ghost k = since(before, after).len() as int;
    proof {
        assert(since(before, after).take(k) =~= since(before, after));
        assert(sector_read(since(before, after).take(k), read_back_lba(*g, step as int), seen));
    }
    let sector = match outcome {
        Err(error) => return Err(FormatError::Io(error)),
        Ok(None) => return Err(FormatError::VerifyFailed),
        Ok(Some(sector)) => sector,
    };
    let sound: bool = if step == 0 {
        holds(&sector, 510, &BOOT_SIGNATURE) && le_u32(&sector, 454) == g.partition_start
    } else if step == 1 {
        holds(&sector, 510, &BOOT_SIGNATURE) && holds(&sector, 82, &FILESYSTEM_NAME)
    } else {
        le_u32(&sector, 0) == 0x4161_5252 && le_u32(&sector, 484) == 0x6141_7272
    };
    if !sound {
        return Err(FormatError::VerifyFailed);
    }
    let result = verify_format(storage, g, step + 1);
    proof {
        cut(before, after, storage.log());
        assert(sector_read(
            since(before, storage.log()).take(k),
            read_back_lba(*g, step as int),
            seen,
        ));
    }
    result
}

/// Writing the layout, up to the first write that fails.
pub open spec fn layout_refused<E>(
    t: Seq<StorageEvent<E>>,
    g: FormatGeometry,
    media_sectors: u32,
    error: E,
) -> bool {
    exists|n: int|
        0 <= n < write_count(g) && 2 * n <= t.len() && format_prefix_written(
            t.take(2 * n),
            g,
            media_sectors,
            n,
        ) && #[trigger] sector_refused(t.skip(2 * n), format_write(g, media_sectors, n), error)
}

fn write_layout<S: ByteStorage>(
    storage: &mut Recorded<S>,
    g: &FormatGeometry,
    media_sectors: u32,
) -> (outcome: Result<(), S::Error>)
    requires
        fits_medium(*g, media_sectors),
    ensures
        extends(old(storage).log(), final(storage).log()),
        outcome is Ok ==> format_prefix_written(
            since(old(storage).log(), final(storage).log()),
            *g,
            media_sectors,
            write_count(*g),
        ),
        outcome matches Err(error) ==> layout_refused(
            since(old(storage).log(), final(storage).log()),
            *g,
            media_sectors,
            error,
        ),
{
    let ghost start = storage.log();
    proof {
        no_more(start);
    }
    let marked: u64 = if (g.cluster_count + 2) * 4 % 512 != 0 { 1 } else { 0 };
    let count: u64 = 39 + 2 * (g.fat_sectors as u64 + 1 + marked) + g.sectors_per_cluster as u64;
    for i in 0..count
        invariant
            start == old(storage).log(),
            fits_medium(*g, media_sectors),
            count == write_count(*g),
            extends(start, storage.log()),
            format_prefix_written(since(start, storage.log()), *g, media_sectors, i as int),
    {
        let ghost before = storage.log();
        let ghost done = since(start, before);
        let (lba, sector) = sector_to_write(g, media_sectors, i);
        let outcome = write_sector(storage, lba, &sector);
        let ghost t = since(start, storage.log());
        proof {
            cut(start, before, storage.log());
            let write = format_write(*g, media_sectors, i as int);
            assert(SectorWrite { lba, contents: sector@ } == write);
            assert(t.take(2 * i) == done);
            assert(t.skip(2 * i) == since(before, storage.log()));
        }
        match outcome {
            Err(error) => {
                assert(sector_refused(t.skip(2 * i), format_write(*g, media_sectors, i as int), error));
                return Err(error);
            },
            Ok(()) => {},
        }
        proof {
            prefix_grows(t, *g, media_sectors, i as int);
        }
    }
    Ok(())
}

/// Format the medium: write every sector of the new layout, then read back the
/// three that a mount depends on.
pub fn format_fat32<S: ByteStorage>(
    storage: &mut Recorded<S>,
    media_sectors: u32,
    serial_seed: u32,
) -> (result: Result<FormatGeometry, FormatError<S::Error>>)
    ensures
        extends(old(storage).log(), final(storage).log()),
        media_sectors < PARTITION_START + MIN_PARTITION_SECTORS ==> {
            &&& final(storage).log() == old(storage).log()
            &&& result matches Err(error) && error is TooSmall
        },
        media_sectors >= PARTITION_START + MIN_PARTITION_SECTORS ==> {
            ||| {
                &&& no_cluster_size_works(media_sectors)
                &&& final(storage).log() == old(storage).log()
                &&& result matches Err(error) && error is InvalidGeometry
            }
            ||| exists|g: FormatGeometry| #[trigger]
                is_geometry_for(g, media_sectors, serial_seed) && formatted(
                    since(old(storage).log(), final(storage).log()),
                    g,
                    media_sectors,
                    result,
                )
        },
{
    let ghost start = storage.log();
    proof {
        no_more(start);
    }
    let g = match fat32_geometry(media_sectors, serial_seed) {
        Ok(g) => g,
        Err(FormatError::TooSmall) => return Err(FormatError::TooSmall),
        Err(_) => return Err(FormatError::InvalidGeometry),
    };
    proof {
        geometry_fits_medium(g, media_sectors, serial_seed);
    }
    let outcome = write_layout(storage, &g, media_sectors);
    match outcome {
        Err(error) => {
            assert(formatted(
                since(start, storage.log()),
                g,
                media_sectors,
                Err(FormatError::Io(error)),
            ));
            return Err(FormatError::Io(error));
        },
        Ok(()) => {},
    }
    let ghost written = storage.log();
    let reply = storage.flush();
    let ghost flushed = storage.log();
    let ghost n = write_count(g);
    proof {
        let event = StorageEvent::Flush { reply };
        one_more(start, written, event);
        let t = since(start, flushed);
        assert(t.take(2 * n) =~= since(start, written));
        assert(t[2 * n] == event);
    }
    match reply {
        Err(error) => {
            assert(formatted(
                since(start, flushed),
                g,
                media_sectors,
                Err(FormatError::Io(error)),
            ));
            return Err(FormatError::Io(error));
        },
        Ok(()) => {},
    }
    let result = verify_format(storage, &g, 0);
    proof {
        cut(start, flushed, storage.log());
        let t = since(start, storage.log());
        assert(t.skip(2 * n + 1) == since(flushed, storage.log()));
        assert(t.take(2 * n) =~= since(start, flushed).take(2 * n));
        assert(t[2 * n] == t.take(2 * n + 1)[2 * n]);
        assert(formatted(t, g, media_sectors, result));
    }
    result
}

} // verus!
