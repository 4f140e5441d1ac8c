//! FAT boot sectors and the search for a mountable volume.
use vstd::prelude::*;

use crate::bytes::{holds, le16, le32, le_u16, le_u32};
use crate::storage::{
    cut, extends, no_more, read_sector, sector_read, sector_view, since, ByteStorage, Recorded,
    StorageEvent,
};

verus! {

/// Smallest number of clusters of a FAT16 volume.
pub const FAT16_MIN_CLUSTERS: u32 = 4_085;

/// Smallest number of clusters of a FAT32 volume.
pub const FAT32_MIN_CLUSTERS: u32 = 65_525;

/// Largest number of clusters of a FAT32 volume: cluster numbers end at
/// `0x0fff_fff6`, higher values are reserved marks.
pub const FAT32_MAX_CLUSTERS: u32 = 0x0fff_fff5;

/// `EXFAT   `, the system name of an exFAT boot sector.
pub const EXFAT_NAME: [u8; 8] = [0x45, 0x58, 0x46, 0x41, 0x54, 0x20, 0x20, 0x20];

/// Where a mountable volume lies on the medium.
#[derive(Clone, Copy, Debug, PartialEq, Eq, Structural)]
pub struct MediaLayout {
    pub start_lba: u32,
    pub sector_count: u32,
    pub volume_serial: u32,
    /// Which partition slot held the volume. The probe skips damaged entries, so
    /// this is not always 0; the mount must open the same slot. Meaningless for
    /// a volume that starts at sector 0.
    pub partition_index: u8,
    /// Whether the volume is FAT32 (at least 65,525 clusters). Gates the
    /// delete-time cluster reclaim, which is unsafe on FAT16.
    pub fat32: bool,
}

#[derive(Debug, PartialEq, Eq)]
pub enum ProbeError<E> {
    Io(E),
    Unsupported,
    Invalid,
}

/// Layout of a FAT16 or FAT32 volume, in sectors relative to its boot sector.
#[derive(Clone, Copy, Debug, PartialEq, Eq, Structural)]
pub struct VolumeGeometry {
    pub serial: u32,
    pub total_sectors: u32,
    pub reserved_sectors: u32,
    pub fat_sectors: u32,
    pub fat_copies: u8,
    pub sectors_per_cluster: u8,
    pub cluster_count: u32,
    /// FSInfo sector number from the FAT32 fields; 0 on FAT16.
    pub fsinfo_sector: u16,
    pub fat32: bool,
}

/// What a boot sector declares.
#[derive(Clone, Copy, Debug, PartialEq, Eq, Structural)]
pub enum BootSector {
    Fat(VolumeGeometry),
    Fat12,
    /// FAT32 fields with fewer than 65,525 clusters: the filesystem layer decides
    /// the FAT width by cluster count alone, and would drive it as FAT16.
    SmallFat32,
    ExFat,
    Invalid,
}

/// The sector ends in the boot signature.
pub open spec fn signed(s: Seq<u8>) -> bool {
    s[510] == 0x55 && s[511] == 0xaa
}

pub open spec fn names_exfat(s: Seq<u8>) -> bool {
    s.subrange(3, 11) == EXFAT_NAME@
}

pub open spec fn is_power_of_two(n: u8) -> bool {
    n == 1 || n == 2 || n == 4 || n == 8 || n == 16 || n == 32 || n == 64 || n == 128
}

/// Sectors that `bytes` bytes occupy.
pub open spec fn sectors_for(bytes: int) -> int {
    (bytes + 511) / 512
}

/// Number of sectors of the volume: the 16-bit field, or else the 32-bit one.
pub open spec fn declared_total(s: Seq<u8>) -> int {
    if le16(s, 19) != 0 { le16(s, 19) } else { le32(s, 32) }
}

/// Number of sectors of one FAT: the 16-bit field, or else the 32-bit one.
pub open spec fn declared_fat_size(s: Seq<u8>) -> int {
    if le16(s, 22) != 0 { le16(s, 22) } else { le32(s, 36) }
}

/// Sectors before the first data cluster.
pub open spec fn declared_overhead(s: Seq<u8>) -> int {
    le16(s, 14) + s[16] * declared_fat_size(s) + sectors_for(le16(s, 17) * 32)
}

/// The fields that every FAT volume needs have usable values.
pub open spec fn fields_usable(s: Seq<u8>) -> bool {
    &&& le16(s, 11) == 512
    &&& is_power_of_two(s[13])
    &&& le16(s, 14) != 0
    &&& s[16] != 0
    &&& declared_total(s) != 0
    &&& declared_fat_size(s) != 0
}

/// No root directory region and no 16-bit FAT size: the FAT32 fields apply.
pub open spec fn fat32_layout(s: Seq<u8>) -> bool {
    le16(s, 17) == 0 && le16(s, 22) == 0
}

pub open spec fn declared_clusters(s: Seq<u8>) -> int {
    (declared_total(s) - declared_overhead(s)) / (s[13] as int)
}

/// A FAT of the declared size has an entry for every cluster.
pub open spec fn fat_holds_clusters(s: Seq<u8>) -> bool {
    let entry_bytes: int = if fat32_layout(s) { 4 } else { 2 };
    sectors_for((declared_clusters(s) + 2) * entry_bytes) <= declared_fat_size(s)
}

/// What the boot sector `s` declares.
pub open spec fn boot_sector_of(s: Seq<u8>) -> BootSector {
    if !signed(s) {
        BootSector::Invalid
    } else if names_exfat(s) {
        BootSector::ExFat
    } else if !fields_usable(s) || declared_overhead(s) > declared_total(s) {
        BootSector::Invalid
    } else if declared_clusters(s) < FAT16_MIN_CLUSTERS {
        BootSector::Fat12
    } else if fat32_layout(s) {
        if declared_clusters(s) > FAT32_MAX_CLUSTERS || !fat_holds_clusters(s) || le32(s, 44) < 2 {
            BootSector::Invalid
        } else if declared_clusters(s) < FAT32_MIN_CLUSTERS {
            BootSector::SmallFat32
        } else {
            BootSector::Fat(declared_geometry(s))
        }
    } else if declared_clusters(s) < FAT32_MIN_CLUSTERS && fat_holds_clusters(s) {
        BootSector::Fat(declared_geometry(s))
    } else {
        BootSector::Invalid
    }
}

/// The layout that the fields of a sound FAT volume give.
pub open spec fn declared_geometry(s: Seq<u8>) -> VolumeGeometry {
    VolumeGeometry {
        serial: le32(s, if fat32_layout(s) { 67 } else { 39 }) as u32,
        total_sectors: declared_total(s) as u32,
        reserved_sectors: le16(s, 14) as u32,
        fat_sectors: declared_fat_size(s) as u32,
        fat_copies: s[16],
        sectors_per_cluster: s[13],
        cluster_count: declared_clusters(s) as u32,
        fsinfo_sector: if fat32_layout(s) { le16(s, 48) as u16 } else { 0 },
        fat32: fat32_layout(s),
    }
}

/// What every accepted volume satisfies: its FAT has an entry for each cluster,
/// and the FATs and all clusters lie inside the volume.
pub open spec fn geometry_sound(g: VolumeGeometry) -> bool {
    let entry_bytes: int = if g.fat32 { 4 } else { 2 };
    &&& is_power_of_two(g.sectors_per_cluster)
    &&& g.reserved_sectors >= 1
    &&& g.fat_copies >= 1
    &&& g.fat_sectors >= 1
    &&& sectors_for((g.cluster_count + 2) * entry_bytes) <= g.fat_sectors
    &&& g.fat32 <==> g.cluster_count >= FAT32_MIN_CLUSTERS
    &&& FAT16_MIN_CLUSTERS <= g.cluster_count <= FAT32_MAX_CLUSTERS
    &&& g.reserved_sectors + g.fat_copies * g.fat_sectors + g.cluster_count * g.sectors_per_cluster
        <= g.total_sectors
}

fn power_of_two(n: u8) -> (yes: bool)
    ensures
        yes == is_power_of_two(n),
{
    n == 1 || n == 2 || n == 4 || n == 8 || n == 16 || n == 32 || n == 64 || n == 128
}

/// Classify a boot sector.
pub fn parse_fat_boot_sector(sector: &[u8; 512]) -> (boot: BootSector)
    ensures
        boot == boot_sector_of(sector@),
        boot matches BootSector::Fat(g) ==> geometry_sound(g),
{
    if sector[510] != 0x55 || sector[511] != 0xaa {
        return BootSector::Invalid;
    }
    if holds(sector, 3, &EXFAT_NAME) {
        return BootSector::ExFat;
    }
    let bytes_per_sector: u16 = le_u16(sector, 11);
    let sectors_per_cluster: u8 = sector[13];
    let reserved: u32 = le_u16(sector, 14) as u32;
    let fats: u32 = sector[16] as u32;
    let root_entries: u32 = le_u16(sector, 17) as u32;
    let total16: u32 = le_u16(sector, 19) as u32;
    let total32: u32 = le_u32(sector, 32);
    let fat16: u32 = le_u16(sector, 22) as u32;
    let fat32: u32 = le_u32(sector, 36);
    let total: u32 = if total16 != 0 { total16 } else { total32 };
    let fat_size: u32 = if fat16 != 0 { fat16 } else { fat32 };
    if bytes_per_sector != 512 || !power_of_two(sectors_per_cluster) || reserved == 0 || fats == 0
        || total == 0 || fat_size == 0 {
        return BootSector::Invalid;
    }
    let root_sectors: u32 = (root_entries * 32 + 511) / 512;
    proof {
        assert(0 <= fats * fat_size <= 255 * 0xffff_ffff) by (nonlinear_arith)
            requires
                0 <= fats <= 255,
                0 <= fat_size <= 0xffff_ffff,
        ;
    }
    let overhead: u64 = reserved as u64 + fats as u64 * fat_size as u64 + root_sectors as u64;
    if overhead > total as u64 {
        return BootSector::Invalid;
    }
    let clusters: u32 = (total - overhead as u32) / sectors_per_cluster as u32;
    if clusters < FAT16_MIN_CLUSTERS {
        return BootSector::Fat12;
    }
    let layout32: bool = root_entries == 0 && fat16 == 0;
    proof {
        assert(clusters * sectors_per_cluster <= total - overhead) by (nonlinear_arith)
            requires
                clusters == (total - overhead) / (sectors_per_cluster as int),
                sectors_per_cluster > 0,
        ;
    }
    if layout32 {
        if clusters > FAT32_MAX_CLUSTERS || ((clusters + 2) * 4 + 511) / 512 > fat_size {
            return BootSector::Invalid;
        }
        if le_u32(sector, 44) < 2 {
            return BootSector::Invalid;
        }
        if clusters < FAT32_MIN_CLUSTERS {
            return BootSector::SmallFat32;
        }
        BootSector::Fat(
            VolumeGeometry {
                serial: le_u32(sector, 67),
                total_sectors: total,
                reserved_sectors: reserved,
                fat_sectors: fat_size,
                fat_copies: fats as u8,
                sectors_per_cluster,
                cluster_count: clusters,
                fsinfo_sector: le_u16(sector, 48),
                fat32: true,
            },
        )
    } else if clusters < FAT32_MIN_CLUSTERS {
        if ((clusters + 2) * 2 + 511) / 512 > fat_size {
            return BootSector::Invalid;
        }
        BootSector::Fat(
            VolumeGeometry {
                serial: le_u32(sector, 39),
                total_sectors: total,
                reserved_sectors: reserved,
                fat_sectors: fat_size,
                fat_copies: fats as u8,
                sectors_per_cluster,
                cluster_count: clusters,
                fsinfo_sector: 0,
                fat32: false,
            },
        )
    } else {
        BootSector::Invalid
    }
}

/// Partition types that the filesystem layer mounts: small FAT16, FAT16, FAT32,
/// FAT32-LBA and FAT16-LBA.
pub open spec fn is_mountable_kind(kind: u8) -> bool {
    kind == 0x04 || kind == 0x06 || kind == 0x0b || kind == 0x0c || kind == 0x0e
}

/// Known partition types that it does not mount: FAT12, extended, NTFS or exFAT,
/// extended-LBA and the protective GPT entry.
pub open spec fn is_unsupported_kind(kind: u8) -> bool {
    kind == 0x01 || kind == 0x05 || kind == 0x07 || kind == 0x0f || kind == 0xee
}

/// What the probe does with one slot of the partition table.
pub enum SlotUse {
    /// Empty, damaged, of an unknown type, or outside the medium.
    Skip,
    /// Of a known type that cannot be mounted.
    Unsupported,
    /// A candidate, whose boot sector decides.
    Candidate,
}

/// First byte of slot `index`.
pub open spec fn slot_base(index: int) -> int {
    446 + index * 16
}

pub open spec fn slot_start(mbr: Seq<u8>, index: int) -> int {
    le32(mbr, slot_base(index) + 8)
}

pub open spec fn slot_count(mbr: Seq<u8>, index: int) -> int {
    le32(mbr, slot_base(index) + 12)
}

/// A slot with a status bit other than 0x80 set is one that the filesystem
/// layer refuses, so it is skipped before its type is looked at.
pub open spec fn slot_use(mbr: Seq<u8>, media_sectors: int, index: int) -> SlotUse {
    let status = mbr[slot_base(index)];
    let kind = mbr[slot_base(index) + 4];
    if status != 0 && status != 0x80 {
        SlotUse::Skip
    } else if is_unsupported_kind(kind) {
        SlotUse::Unsupported
    } else if is_mountable_kind(kind) && slot_count(mbr, index) > 0 && slot_start(mbr, index)
        + slot_count(mbr, index) <= media_sectors {
        SlotUse::Candidate
    } else {
        SlotUse::Skip
    }
}

/// A boot sector of a kind that is recognized but cannot be mounted.
pub open spec fn is_unsupported_boot(boot: BootSector) -> bool {
    boot is ExFat || boot is Fat12 || boot is SmallFat32
}

/// The layout of a volume found at `start`.
pub open spec fn layout_of(g: VolumeGeometry, start: u32, index: u8) -> MediaLayout {
    MediaLayout {
        start_lba: start,
        sector_count: g.total_sectors,
        volume_serial: g.serial,
        partition_index: index,
        fat32: g.fat32,
    }
}

/// The verdict when no slot held a mountable volume.
pub open spec fn nothing_mountable<E>(saw_unsupported: bool) -> Result<MediaLayout, ProbeError<E>> {
    if saw_unsupported {
        Err(ProbeError::Unsupported)
    } else {
        Err(ProbeError::Invalid)
    }
}

/// What sector 0 alone decides; `None` sends the probe to the partition table.
pub open spec fn first_sector_verdict<E>(first: Seq<u8>, media_sectors: int) -> Option<
    Result<MediaLayout, ProbeError<E>>,
> {
    match boot_sector_of(first) {
        BootSector::Fat(g) => Some(
            if g.total_sectors > media_sectors {
                Err(ProbeError::Invalid)
            } else {
                Ok(layout_of(g, 0, 0))
            },
        ),
        BootSector::Invalid => if signed(first) {
            None
        } else {
            Some(Err(ProbeError::Invalid))
        },
        _ => Some(Err(ProbeError::Unsupported)),
    }
}

/// The exchanges `t` and the verdict of walking the slots from `index` on.
pub open spec fn slots_probed<E>(
    t: Seq<StorageEvent<E>>,
    mbr: Seq<u8>,
    media_sectors: int,
    index: int,
    saw_unsupported: bool,
    verdict: Result<MediaLayout, ProbeError<E>>,
) -> bool
    decreases 4 - index, 1int,
{
    if index >= 4 {
        t.len() == 0 && verdict == nothing_mountable::<E>(saw_unsupported)
    } else {
        match slot_use(mbr, media_sectors, index) {
            SlotUse::Skip => slots_probed(t, mbr, media_sectors, index + 1, saw_unsupported, verdict),
            SlotUse::Unsupported => slots_probed(t, mbr, media_sectors, index + 1, true, verdict),
            SlotUse::Candidate => exists|k: int, outcome: Result<Option<Seq<u8>>, E>|
                0 <= k <= t.len() && #[trigger] sector_read(
                    t.take(k),
                    slot_start(mbr, index) as u32,
                    outcome,
                ) && slot_decided(
                    t.skip(k),
                    mbr,
                    media_sectors,
                    index,
                    saw_unsupported,
                    outcome,
                    verdict,
                ),
        }
    }
}

/// How the walk goes on once the boot sector of slot `index` was read.
pub open spec fn slot_decided<E>(
    rest: Seq<StorageEvent<E>>,
    mbr: Seq<u8>,
    media_sectors: int,
    index: int,
    saw_unsupported: bool,
    outcome: Result<Option<Seq<u8>>, E>,
    verdict: Result<MediaLayout, ProbeError<E>>,
) -> bool
    decreases 4 - index, 0int,
{
    match outcome {
        _ if index >= 4 => false,
        Err(error) => rest.len() == 0 && verdict == Err::<MediaLayout, ProbeError<E>>(
            ProbeError::Io(error),
        ),
        Ok(None) => slots_probed(rest, mbr, media_sectors, index + 1, saw_unsupported, verdict),
        Ok(Some(boot)) => match boot_sector_of(boot) {
            BootSector::Fat(g) => if g.total_sectors > slot_count(mbr, index) {
                slots_probed(rest, mbr, media_sectors, index + 1, saw_unsupported, verdict)
            } else {
                rest.len() == 0 && verdict == Ok::<MediaLayout, ProbeError<E>>(
                    layout_of(g, slot_start(mbr, index) as u32, index as u8),
                )
            },
            other => slots_probed(
                rest,
                mbr,
                media_sectors,
                index + 1,
                saw_unsupported || is_unsupported_boot(other),
                verdict,
            ),
        },
    }
}

/// The exchanges `t` and the verdict of a whole probe.
pub open spec fn probed<E>(
    t: Seq<StorageEvent<E>>,
    media_sectors: int,
    verdict: Result<MediaLayout, ProbeError<E>>,
) -> bool {
    exists|k: int, outcome: Result<Option<Seq<u8>>, E>|
        0 <= k <= t.len() && #[trigger] sector_read(t.take(k), 0, outcome) && match outcome {
            Err(error) => k == t.len() && verdict == Err::<MediaLayout, ProbeError<E>>(
                ProbeError::Io(error),
            ),
            Ok(None) => k == t.len() && verdict == Err::<MediaLayout, ProbeError<E>>(
                ProbeError::Invalid,
            ),
            Ok(Some(first)) => match first_sector_verdict::<E>(first, media_sectors) {
                Some(decided) => k == t.len() && verdict == decided,
                None => slots_probed(t.skip(k), first, media_sectors, 0, false, verdict),
            },
        }
}

fn probe_slots<S: ByteStorage>(
    storage: &mut Recorded<S>,
    mbr: &[u8; 512],
    media_sectors: u32,
    index: u8,
    saw_unsupported: bool,
) -> (verdict: Result<MediaLayout, ProbeError<S::Error>>)
    requires
        index <= 4,
    ensures
        extends(old(storage).log(), final(storage).log()),
        slots_probed(
            since(old(storage).log(), final(storage).log()),
            mbr@,
            media_sectors as int,
            index as int,
            saw_unsupported,
            verdict,
        ),
        verdict matches Ok(layout) ==> layout.start_lba + layout.sector_count <= media_sectors,
    decreases 4 - index,
{
    let ghost before = storage.log();
    proof {
        no_more(before);
    }
    if index == 4 {
        return if saw_unsupported { Err(ProbeError::Unsupported) } else { Err(ProbeError::Invalid) };
    }
    let base: usize = 446 + index as usize * 16;
    let status: u8 = mbr[base];
    if status != 0 && status != 0x80 {
        return probe_slots(storage, mbr, media_sectors, index + 1, saw_unsupported);
    }
    let kind: u8 = mbr[base + 4];
    let start: u32 = le_u32(mbr, base + 8);
    let count: u32 = le_u32(mbr, base + 12);
    if kind == 0x01 || kind == 0x05 || kind == 0x07 || kind == 0x0f || kind == 0xee {
        return probe_slots(storage, mbr, media_sectors, index + 1, true);
    }
    let mountable: bool = kind == 0x04 || kind == 0x06 || kind == 0x0b || kind == 0x0c || kind
        == 0x0e;
    if !mountable || count == 0 || start as u64 + count as u64 > media_sectors as u64 {
        return probe_slots(storage, mbr, media_sectors, index + 1, saw_unsupported);
    }
    let outcome = read_sector(storage, start);
    let ghost seen = sector_view(outcome);
    let ghost after = storage.log();
    let ghost k = since(before, after).len() as int;
    proof {
        no_more(after);
        assert(since(before, after).take(k) =~= since(before, after));
        assert(since(before, after).skip(k) =~= Seq::empty());
        assert(sector_read(since(before, after).take(k), slot_start(mbr@, index as int) as u32, seen));
    }
    let saw_next: bool = match outcome {
        Err(error) => {
            assert(slot_decided(
                since(before, after).skip(k),
                mbr@,
                media_sectors as int,
                index as int,
                saw_unsupported,
                seen,
                Err(ProbeError::Io(error)),
            ));
            return Err(ProbeError::Io(error));
        },
        Ok(None) => saw_unsupported,
        Ok(Some(boot)) => match parse_fat_boot_sector(&boot) {
            BootSector::Fat(geometry) => {
                if geometry.total_sectors <= count {
                    let layout = MediaLayout {
                        start_lba: start,
                        sector_count: geometry.total_sectors,
                        volume_serial: geometry.serial,
                        partition_index: index,
                        fat32: geometry.fat32,
                    };
                    assert(slot_decided(
                        since(before, after).skip(k),
                        mbr@,
                        media_sectors as int,
                        index as int,
                        saw_unsupported,
                        seen,
                        Ok(layout),
                    ));
                    return Ok(layout);
                }
                saw_unsupported
            },
            BootSector::ExFat | BootSector::Fat12 | BootSector::SmallFat32 => true,
            BootSector::Invalid => saw_unsupported,
        },
    };
    let verdict = probe_slots(storage, mbr, media_sectors, index + 1, saw_next);
    proof {
        cut(before, after, storage.log());
        assert(slot_decided(
            since(before, storage.log()).skip(k),
            mbr@,
            media_sectors as int,
            index as int,
            saw_unsupported,
            seen,
            verdict,
        ));
    }
    verdict
}

/// Find the volume to mount: a FAT boot sector at sector 0, or else the first
/// slot of the partition table that holds one. A damaged slot disqualifies only
/// itself.
pub fn probe_fat<S: ByteStorage>(storage: &mut Recorded<S>, media_sectors: u32) -> (verdict: Result<
    MediaLayout,
    ProbeError<S::Error>,
>)
    ensures
        extends(old(storage).log(), final(storage).log()),
        probed(since(old(storage).log(), final(storage).log()), media_sectors as int, verdict),
        verdict matches Ok(layout) ==> layout.start_lba + layout.sector_count <= media_sectors,
{
    let ghost before = storage.log();
    let outcome = read_sector(storage, 0);
    let ghost seen = sector_view(outcome);
    let ghost after = storage.log();
    let ghost k = since(before, after).len() as int;
    proof {
        assert(since(before, after).take(k) =~= since(before, after));
        assert(sector_read(since(before, after).take(k), 0, seen));
    }
    let sector = match outcome {
        Err(error) => return Err(ProbeError::Io(error)),
        Ok(None) => return Err(ProbeError::Invalid),
        Ok(Some(sector)) => sector,
    };
    match parse_fat_boot_sector(&sector) {
        BootSector::Fat(geometry) => {
            if geometry.total_sectors > media_sectors {
                return Err(ProbeError::Invalid);
            }
            return Ok(
                MediaLayout {
                    start_lba: 0,
                    sector_count: geometry.total_sectors,
                    volume_serial: geometry.serial,
                    partition_index: 0,
                    fat32: geometry.fat32,
                },
            );
        },
        BootSector::ExFat | BootSector::Fat12 | BootSector::SmallFat32 => {
            return Err(ProbeError::Unsupported);
        },
        BootSector::Invalid => {},
    }
    if sector[510] != 0x55 || sector[511] != 0xaa {
        return Err(ProbeError::Invalid);
    }
    let verdict = probe_slots(storage, &sector, media_sectors, 0, false);
    proof {
        cut(before, after, storage.log());
        assert(sector_read(since(before, storage.log()).take(k), 0, seen));
    }
    verdict
}

} // verus!
