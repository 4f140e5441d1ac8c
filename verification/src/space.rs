//! Free space on the volume, and the repair of its FATs.
use vstd::prelude::*;

use crate::boot::{
    boot_sector_of, geometry_sound, parse_fat_boot_sector, BootSector, MediaLayout, VolumeGeometry,
};
use crate::bytes::{le32, le_u32};
use crate::fat_tail::{
    has_free_entry, mark_phantom_tail, tail_marked, FAT16_BAD_CLUSTER, FAT32_BAD_CLUSTER,
};
use crate::storage::{cut, extends, no_more, one_more, since};
use crate::volume::{Call, Volume, VolumeAccess};

verus! {

/// Free 16-bit entries of a FAT sector, from entry `from` up to entry `to`.
pub open spec fn free_entries(sector: Seq<u8>, from: int, to: int) -> int
    decreases to - from,
{
    if from >= to {
        0
    } else {
        free_entries(sector, from, to - 1) + if sector[2 * (to - 1)] == 0 && sector[2 * (to - 1) + 1]
            == 0 {
            1int
        } else {
            0
        }
    }
}

/// First and last entry of FAT sector `index` that stand for clusters; entries 0
/// and 1 of the FAT are reserved.
pub open spec fn entries_in(g: VolumeGeometry, index: int) -> (int, int) {
    let end = g.cluster_count + 2 - 256 * index;
    (if index == 0 { 2 } else { 0 }, if end <= 256 { end } else { 256 })
}

/// Counting the free entries of a FAT16 from its sector `index` on.
pub open spec fn fat16_counted<D, F>(
    t: Seq<Call<D, F>>,
    first_fat: int,
    g: VolumeGeometry,
    index: int,
    free: int,
    result: Option<int>,
) -> bool
    decreases t.len(),
{
    if index >= g.fat_sectors || 256 * index >= g.cluster_count + 2 {
        t.len() == 0 && result == Some(free)
    } else if first_fat + index > u32::MAX {
        t.len() == 0 && result is None
    } else {
        &&& t.len() >= 1
        &&& t[0] matches Call::ReadSector { lba, reply } && lba == first_fat + index && match reply {
            None => t.len() == 1 && result is None,
            Some(sector) => fat16_counted(
                t.skip(1),
                first_fat,
                g,
                index + 1,
                free + free_entries(sector@, entries_in(g, index).0, entries_in(g, index).1),
                result,
            ),
        }
    }
}

/// The free clusters that an FSInfo sector declares.
pub open spec fn fsinfo_free(info: Seq<u8>) -> Option<int> {
    if le32(info, 0) == 0x4161_5252 && le32(info, 484) == 0x6141_7272 {
        Some(le32(info, 488))
    } else {
        None
    }
}

/// Bytes in `free` clusters; a count beyond the volume's clusters means nothing.
pub open spec fn free_bytes(g: VolumeGeometry, free: Option<int>) -> Option<u64> {
    match free {
        Some(clusters) => if clusters <= g.cluster_count {
            Some((clusters * g.sectors_per_cluster * 512) as u64)
        } else {
            None
        },
        None => None,
    }
}

/// Finding the free clusters of a volume with layout `g`: FAT32 has the count in
/// its FSInfo sector, on FAT16 the entries are counted.
pub open spec fn free_clusters_found<D, F>(
    t: Seq<Call<D, F>>,
    start: int,
    g: VolumeGeometry,
    free: Option<int>,
) -> bool {
    if g.fat32 {
        if start + g.fsinfo_sector > u32::MAX {
            t.len() == 0 && free is None
        } else {
            &&& t.len() == 1
            &&& t[0] matches Call::ReadSector { lba, reply } && lba == start + g.fsinfo_sector && free
                == match reply {
                None => None,
                Some(info) => fsinfo_free(info@),
            }
        }
    } else {
        fat16_counted(t, start + g.reserved_sectors, g, 0, 0, free)
    }
}

/// Measuring the free space of the volume that starts at sector `start`.
pub open spec fn space_measured<D, F>(t: Seq<Call<D, F>>, start: u32, result: Option<u64>) -> bool {
    &&& t.len() >= 1
    &&& t[0] matches Call::ReadSector { lba, reply } && lba == start && match reply {
        None => t.len() == 1 && result is None,
        Some(boot) => match boot_sector_of(boot@) {
            BootSector::Fat(g) => exists|free: Option<int>| #[trigger]
                free_clusters_found(t.skip(1), start as int, g, free) && result == free_bytes(g, free),
            _ => t.len() == 1 && result is None,
        },
    }
}

/// Width of a FAT entry in bytes.
pub open spec fn entry_width(g: VolumeGeometry) -> int {
    if g.fat32 { 4 } else { 2 }
}

pub open spec fn bad_mark(g: VolumeGeometry) -> Seq<u8> {
    if g.fat32 { FAT32_BAD_CLUSTER@ } else { FAT16_BAD_CLUSTER@ }
}

/// Bytes that the entries of a FAT take, the reserved ones included.
pub open spec fn fat_bytes(g: VolumeGeometry) -> int {
    (g.cluster_count + 2) * entry_width(g)
}

/// The sector that holds the last real entry of FAT copy `copy`.
pub open spec fn tail_lba(start: int, g: VolumeGeometry, copy: int) -> int {
    start + g.reserved_sectors + copy * g.fat_sectors + fat_bytes(g) / 512
}

/// Repairing the tails of the FATs from copy `copy` on. A sector without free
/// entries behind the last cluster is not written, and neither is one that
/// cannot be read.
pub open spec fn tails_repaired<D, F>(
    t: Seq<Call<D, F>>,
    start: int,
    g: VolumeGeometry,
    copy: int,
) -> bool
    decreases t.len(),
{
    if copy >= g.fat_copies {
        t.len() == 0
    } else {
        &&& t.len() >= 1
        &&& t[0] matches Call::ReadSector { lba, reply } && lba == tail_lba(start, g, copy)
            && match reply {
            None => tails_repaired(t.skip(1), start, g, copy + 1),
            Some(sector) => if has_free_entry(sector@, fat_bytes(g) % 512, entry_width(g)) {
                &&& t.len() >= 2
                &&& t[1] matches Call::WriteSector { lba: to, contents, .. } && to == lba && contents
                    == tail_marked(sector@, fat_bytes(g) % 512, bad_mark(g))
                &&& tails_repaired(t.skip(2), start, g, copy + 1)
            } else {
                tails_repaired(t.skip(1), start, g, copy + 1)
            },
        }
    }
}

/// The layout leaves entries behind the last cluster, and its FATs lie in what
/// was probed.
pub open spec fn needs_repair(layout: MediaLayout, g: VolumeGeometry) -> bool {
    &&& fat_bytes(g) % 512 != 0
    &&& g.fat_copies * g.fat_sectors + g.reserved_sectors <= layout.sector_count
}

/// Repairing the FATs of a volume at mount.
pub open spec fn repaired<D, F>(t: Seq<Call<D, F>>, layout: MediaLayout) -> bool {
    &&& t.len() >= 1
    &&& t[0] matches Call::ReadSector { lba, reply } && lba == layout.start_lba && match reply {
        None => t.len() == 1,
        Some(boot) => match boot_sector_of(boot@) {
            BootSector::Fat(g) => if needs_repair(layout, g) {
                tails_repaired(t.skip(1), layout.start_lba as int, g, 0)
            } else {
                t.len() == 1
            },
            _ => t.len() == 1,
        },
    }
}

fn count_free_entries(sector: &[u8; 512], from: usize, to: usize) -> (free: u32)
    requires
        from <= to <= 256,
    ensures
        free == free_entries(sector@, from as int, to as int),
        free <= to - from,
{
    let mut free: u32 = 0;
    for i in from..to
        invariant
            from <= to <= 256,
            free == free_entries(sector@, from as int, i as int),
            free <= i - from,
    {
        if sector[2 * i] == 0 && sector[2 * i + 1] == 0 {
            free = free + 1;
        }
    }
    free
}

/// A number as a mathematical integer.
pub open spec fn count_view(count: Option<u32>) -> Option<int> {
    match count {
        Some(count) => Some(count as int),
        None => None,
    }
}

impl<M: VolumeAccess> Volume<M> {
    fn count_fat16(&mut self, first_fat: u64, g: &VolumeGeometry) -> (free: Option<u32>)
        requires
            geometry_sound(*g),
            !g.fat32,
            first_fat <= 0x1_ffff_ffff,
        ensures
            extends(old(self).calls(), final(self).calls()),
            fat16_counted(
                since(old(self).calls(), final(self).calls()),
                first_fat as int,
                *g,
                0,
                0,
                count_view(free),
            ),
    {
        let ghost start = self.calls();
        let ghost base = first_fat as int;
        let mut free: u32 = 0;
        let mut index: u32 = 0;
        let end: u32 = g.cluster_count + 2;
        proof {
            no_more(start);
            assert forall|rest: Seq<Call<M::Dir, M::File>>, r: Option<int>|
                fat16_counted(rest, base, *g, 0, 0, r) implies #[trigger] fat16_counted(
                since(start, self.calls()) + rest,
                base,
                *g,
                0,
                0,
                r,
            ) by {
                assert(since(start, self.calls()) + rest =~= rest);
            }
        }
        while index < g.fat_sectors && 256 * index < end
            invariant
                start == old(self).calls(),
                base == first_fat <= 0x1_ffff_ffff,
                end == g.cluster_count + 2 <= 65_527,
                index <= 256,
                free <= 256 * index,
                extends(start, self.calls()),
                forall|rest: Seq<Call<M::Dir, M::File>>, r: Option<int>|
                    fat16_counted(rest, base, *g, index as int, free as int, r)
                        ==> #[trigger] fat16_counted(
                        since(start, self.calls()) + rest,
                        base,
                        *g,
                        0,
                        0,
                        r,
                    ),
            decreases 256 - index,
        {
            let ghost before = self.calls();
            let ghost i = index as int;
            let ghost had = free as int;
            let address: u64 = first_fat + index as u64;
            if address > 0xffff_ffff {
                proof {
                    let none = Seq::<Call<M::Dir, M::File>>::empty();
                    assert(fat16_counted(none, base, *g, i, had, None));
                    assert(since(start, self.calls()) + none =~= since(start, self.calls()));
                }
                return None;
            }
            let lba: u32 = address as u32;
            let reply = self.read_sector(lba);
            let ghost event = Call::<M::Dir, M::File>::ReadSector { lba, reply };
            proof {
                one_more(start, before, event);
            }
            let sector = match reply {
                Some(sector) => sector,
                None => {
                    assert(fat16_counted(seq![event], base, *g, i, had, None));
                    return None;
                },
            };
            let from: usize = if index == 0 { 2 } else { 0 };
            let rest_of_fat: u32 = end - 256 * index;
            let to: usize = if rest_of_fat <= 256 { rest_of_fat as usize } else { 256 };
            free = free + count_free_entries(&sector, from, to);
            index = index + 1;
            proof {
                assert forall|rest: Seq<Call<M::Dir, M::File>>, r: Option<int>|
                    fat16_counted(rest, base, *g, index as int, free as int, r)
                    implies #[trigger] fat16_counted(
                    since(start, self.calls()) + rest,
                    base,
                    *g,
                    0,
                    0,
                    r,
                ) by {
                    let more = seq![event] + rest;
                    assert(more.skip(1) =~= rest);
                    assert(fat16_counted(more, base, *g, i, had, r));
                    assert(since(start, before) + more =~= since(start, self.calls()) + rest);
                }
            }
        }
        proof {
            let none = Seq::<Call<M::Dir, M::File>>::empty();
            assert(fat16_counted(none, base, *g, index as int, free as int, Some(free as int)));
            assert(since(start, self.calls()) + none =~= since(start, self.calls()));
        }
        Some(free)
    }

    fn find_free_clusters(&mut self, start_lba: u32, g: &VolumeGeometry) -> (free: Option<u32>)
        requires
            geometry_sound(*g),
        ensures
            extends(old(self).calls(), final(self).calls()),
            free_clusters_found(
                since(old(self).calls(), final(self).calls()),
                start_lba as int,
                *g,
                count_view(free),
            ),
    {
        let ghost start = self.calls();
        proof {
            no_more(start);
        }
        if !g.fat32 {
            return self.count_fat16(start_lba as u64 + g.reserved_sectors as u64, g);
        }
        let address: u64 = start_lba as u64 + g.fsinfo_sector as u64;
        if address > 0xffff_ffff {
            return None;
        }
        let lba: u32 = address as u32;
        let reply = self.read_sector(lba);
        proof {
            let event = Call::<M::Dir, M::File>::ReadSector { lba, reply };
            one_more(start, start, event);
            assert(since(start, self.calls()) =~= seq![event]);
        }
        match reply {
            Some(info) => if le_u32(&info, 0) == 0x4161_5252 && le_u32(&info, 484) == 0x6141_7272 {
                Some(le_u32(&info, 488))
            } else {
                None
            },
            None => None,
        }
    }

    /// Measure the free space of the volume that starts at sector `start_lba`.
    pub fn measure_free_space(&mut self, start_lba: u32) -> (result: Option<u64>)
        ensures
            extends(old(self).calls(), final(self).calls()),
            space_measured(since(old(self).calls(), final(self).calls()), start_lba, result),
    {
        let ghost start = self.calls();
        let reply = self.read_sector(start_lba);
        let ghost event = Call::<M::Dir, M::File>::ReadSector { lba: start_lba, reply };
        let ghost read = self.calls();
        proof {
            no_more(start);
            one_more(start, start, event);
            assert(since(start, read) =~= seq![event]);
        }
        let boot = match reply {
            Some(boot) => boot,
            None => return None,
        };
        let g = match parse_fat_boot_sector(&boot) {
            BootSector::Fat(g) => g,
            _ => return None,
        };
        let free = self.find_free_clusters(start_lba, &g);
        proof {
            cut(start, read, self.calls());
            let t = since(start, self.calls());
            assert(t[0] == t.take(1)[0]);
            assert(free_clusters_found(t.skip(1), start_lba as int, g, count_view(free)));
        }
        match free {
            Some(clusters) => if clusters <= g.cluster_count {
                proof {
                    assert(clusters * g.sectors_per_cluster <= 0x0fff_fff5 * 255) by (nonlinear_arith)
                        requires
                            0 <= clusters <= 0x0fff_fff5,
                            0 <= g.sectors_per_cluster <= 255,
                    ;
                }
                Some(clusters as u64 * g.sectors_per_cluster as u64 * 512)
            } else {
                None
            },
            None => None,
        }
    }

    fn repair_tails(&mut self, start_lba: u32, g: &VolumeGeometry, probed_sectors: u32)
        requires
            geometry_sound(*g),
            start_lba + probed_sectors <= u32::MAX,
            g.fat_copies * g.fat_sectors + g.reserved_sectors <= probed_sectors,
            fat_bytes(*g) % 512 != 0,
        ensures
            extends(old(self).calls(), final(self).calls()),
            tails_repaired(
                since(old(self).calls(), final(self).calls()),
                start_lba as int,
                *g,
                0,
            ),
    {
        let ghost start = self.calls();
        let ghost base = start_lba as int;
        let width: u32 = if g.fat32 { 4 } else { 2 };
        let bytes: u32 = (g.cluster_count + 2) * width;
        let from: usize = (bytes % 512) as usize;
        let mut copy: u32 = 0;
        proof {
            no_more(start);
            assert forall|rest: Seq<Call<M::Dir, M::File>>| tails_repaired(rest, base, *g, 0)
                implies #[trigger] tails_repaired(since(start, self.calls()) + rest, base, *g, 0) by {
                assert(since(start, self.calls()) + rest =~= rest);
            }
        }
        while copy < g.fat_copies as u32
            invariant
                start == old(self).calls(),
                base == start_lba,
                geometry_sound(*g),
                start_lba + probed_sectors <= u32::MAX,
                g.fat_copies * g.fat_sectors + g.reserved_sectors <= probed_sectors,
                bytes == fat_bytes(*g),
                width == entry_width(*g),
                from == bytes % 512,
                from != 0,
                extends(start, self.calls()),
                forall|rest: Seq<Call<M::Dir, M::File>>|
                    tails_repaired(rest, base, *g, copy as int) ==> #[trigger] tails_repaired(
                        since(start, self.calls()) + rest,
                        base,
                        *g,
                        0,
                    ),
            decreases g.fat_copies - copy,
        {
            let ghost before = self.calls();
            let ghost c = copy as int;
            proof {
                assert(copy * g.fat_sectors + g.fat_sectors <= g.fat_copies * g.fat_sectors
                    && copy * g.fat_sectors >= 0) by (nonlinear_arith)
                    requires
                        0 <= copy,
                        copy + 1 <= g.fat_copies,
                        g.fat_sectors >= 0,
                ;
                assert(bytes / 512 < g.fat_sectors);
            }
            let lba: u32 = start_lba + g.reserved_sectors + copy * g.fat_sectors + bytes / 512;
            let reply = self.read_sector(lba);
            let ghost read = Call::<M::Dir, M::File>::ReadSector { lba, reply };
            let ghost mut events = seq![read];
            proof {
                one_more(start, before, read);
            }
            if let Some(contents) = reply {
                let mut sector = contents;
                let changed = if g.fat32 {
                    mark_phantom_tail(&mut sector, from, &FAT32_BAD_CLUSTER)
                } else {
                    mark_phantom_tail(&mut sector, from, &FAT16_BAD_CLUSTER)
                };
                if changed {
                    let ghost after_read = self.calls();
                    let done = self.write_sector(lba, &sector);
                    proof {
                        let write = Call::<M::Dir, M::File>::WriteSector {
                            lba,
                            contents: sector@,
                            reply: done,
                        };
                        one_more(start, after_read, write);
                        events = seq![read, write];
                        assert(since(start, self.calls()) =~= since(start, before) + events);
                    }
                }
            }
            copy = copy + 1;
            proof {
                assert(since(start, self.calls()) == since(start, before) + events);
                assert forall|rest: Seq<Call<M::Dir, M::File>>|
                    tails_repaired(rest, base, *g, copy as int) implies #[trigger] tails_repaired(
                    since(start, self.calls()) + rest,
                    base,
                    *g,
                    0,
                ) by {
                    let more = events + rest;
                    assert(more.skip(events.len() as int) =~= rest);
                    assert(more[0] == read);
                    assert(tails_repaired(more, base, *g, c));
                    assert(since(start, before) + more =~= since(start, self.calls()) + rest);
                }
            }
        }
        proof {
            let none = Seq::<Call<M::Dir, M::File>>::empty();
            assert(tails_repaired(none, base, *g, copy as int));
            assert(since(start, self.calls()) + none =~= since(start, self.calls()));
        }
    }

    /// Mark the free entries behind the last cluster in every FAT of the volume.
    /// Whatever goes wrong leaves the card as it was.
    pub fn repair_phantom_fat_tail(&mut self, layout: &MediaLayout)
        requires
            layout.start_lba + layout.sector_count <= u32::MAX,
        ensures
            extends(old(self).calls(), final(self).calls()),
            repaired(since(old(self).calls(), final(self).calls()), *layout),
    {
        let ghost start = self.calls();
        let reply = self.read_sector(layout.start_lba);
        let ghost event = Call::<M::Dir, M::File>::ReadSector { lba: layout.start_lba, reply };
        let ghost read = self.calls();
        proof {
            no_more(start);
            one_more(start, start, event);
            assert(since(start, read) =~= seq![event]);
        }
        let boot = match reply {
            Some(boot) => boot,
            None => return,
        };
        let g = match parse_fat_boot_sector(&boot) {
            BootSector::Fat(g) => g,
            _ => return,
        };
        let width: u32 = if g.fat32 { 4 } else { 2 };
        if (g.cluster_count + 2) * width % 512 == 0 {
            return;
        }
        proof {
            assert(0 <= g.fat_copies * g.fat_sectors <= 255 * 0xffff_ffff) by (nonlinear_arith)
                requires
                    0 <= g.fat_copies <= 255,
                    0 <= g.fat_sectors <= 0xffff_ffff,
            ;
        }
        let span: u64 = g.fat_copies as u64 * g.fat_sectors as u64 + g.reserved_sectors as u64;
        if span > layout.sector_count as u64 {
            return;
        }
        self.repair_tails(layout.start_lba, &g, layout.sector_count);
        proof {
            cut(start, read, self.calls());
            let t = since(start, self.calls());
            assert(t[0] == t.take(1)[0]);
        }
    }
}

} // verus!
