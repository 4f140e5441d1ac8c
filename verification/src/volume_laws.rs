//! How a volume is found on a card, measured and mended.
use vstd::prelude::*;

use crate::boot::{
    boot_sector_of, declared_clusters, first_sector_verdict, probed, slot_base, slot_count,
    slot_decided, slot_start, slot_use, slots_probed, BootSector, MediaLayout, ProbeError, SlotUse,
    VolumeGeometry,
};
use crate::fat_tail::{
    has_free_entry, is_free_entry, tail_marked, tail_marked_entries, tail_marked_keeps_front,
    FAT16_BAD_CLUSTER, FAT32_BAD_CLUSTER,
};
use crate::device::{card_formatted, FormatFailure};
use crate::errors::VolumeError;
use crate::session::{step_made, volume_mounted, Step};
use crate::space::{
    bad_mark, entries_in, entry_width, fat16_counted, fat_bytes, free_entries, repaired,
    space_measured, tails_repaired,
};
use crate::storage::{sector_read, StorageEvent};
use crate::volume::Call;

verus! {

/// A number that is stored with its low byte first.
pub open spec fn stored_low_first(field: Seq<u8>, value: int) -> bool
    decreases field.len(),
{
    if field.len() == 0 {
        value == 0
    } else {
        value % 256 == field[0] && value >= 0 && stored_low_first(field.skip(1), value / 256)
    }
}

proof fn words_are_stored_low_first(s: Seq<u8>, at: int)
    requires
        0 <= at,
        at + 4 <= s.len(),
    ensures
        stored_low_first(s.subrange(at, at + 2), crate::bytes::le16(s, at)),
        stored_low_first(s.subrange(at, at + 4), crate::bytes::le32(s, at)),
{
    reveal_with_fuel(stored_low_first, 5);
    let two = s.subrange(at, at + 2);
    let four = s.subrange(at, at + 4);
    assert(two.skip(1)[0] == s[at + 1]);
    assert(two.skip(1).skip(1).len() == 0);
    assert(four.skip(1)[0] == s[at + 1]);
    assert(four.skip(1).skip(1)[0] == s[at + 2]);
    assert(four.skip(1).skip(1).skip(1)[0] == s[at + 3]);
    assert(four.skip(1).skip(1).skip(1).skip(1).len() == 0);
}

/// A volume is what its boot sector says, field by field: where the fields stand is laid down
/// for every FAT volume. The clusters are as many as the space behind the tables has room for,
/// and their number alone makes the difference between FAT16 and FAT32.
pub proof fn volumes_are_what_their_boot_sector_says(s: Seq<u8>, g: VolumeGeometry)
    requires
        s.len() == 512,
        boot_sector_of(s) == BootSector::Fat(g),
    ensures
        s[510] == 0x55 && s[511] == 0xaa,
        stored_low_first(s.subrange(11, 13), 512),
        g.sectors_per_cluster == s[13],
        stored_low_first(s.subrange(14, 16), g.reserved_sectors as int),
        g.fat_copies == s[16],
        stored_low_first(s.subrange(19, 21), g.total_sectors as int) || stored_low_first(
            s.subrange(19, 21),
            0,
        ) && stored_low_first(s.subrange(32, 36), g.total_sectors as int),
        stored_low_first(s.subrange(22, 24), g.fat_sectors as int) || stored_low_first(
            s.subrange(22, 24),
            0,
        ) && stored_low_first(s.subrange(36, 40), g.fat_sectors as int),
        g.fat32 ==> stored_low_first(s.subrange(67, 71), g.serial as int) && stored_low_first(
            s.subrange(48, 50),
            g.fsinfo_sector as int,
        ),
        !g.fat32 ==> stored_low_first(s.subrange(39, 43), g.serial as int),
        4_085 <= g.cluster_count,
        (g.cluster_count + 2) * (if g.fat32 {
            4int
        } else {
            2
        }) <= 512 * g.fat_sectors,
        g.fat32 <==> g.cluster_count >= 65_525,
        exists|root: int, tables: int|
            {
                &&& #[trigger] stored_low_first(s.subrange(17, 19), root)
                &&& #[trigger] roomy_enough(g, root, tables)
            },
{
    words_are_stored_low_first(s, 11);
    words_are_stored_low_first(s, 14);
    words_are_stored_low_first(s, 17);
    words_are_stored_low_first(s, 19);
    words_are_stored_low_first(s, 22);
    words_are_stored_low_first(s, 32);
    words_are_stored_low_first(s, 36);
    words_are_stored_low_first(s, 39);
    words_are_stored_low_first(s, 48);
    words_are_stored_low_first(s, 67);
    let root = crate::bytes::le16(s, 17);
    let tables = crate::boot::declared_overhead(s);
    let total = crate::boot::declared_total(s);
    let spc = s[13] as int;
    vstd::arithmetic::div_mod::lemma_fundamental_div_mod(total - tables, spc);
    vstd::arithmetic::div_mod::lemma_mod_bound(total - tables, spc);
    let count = (total - tables) / spc;
    assert(tables >= 0) by {
        assert(s[16] * crate::boot::declared_fat_size(s) >= 0) by (nonlinear_arith)
            requires
                crate::boot::declared_fat_size(s) >= 0,
                s[16] >= 0,
        ;
    }
    assert(0 <= count <= total) by (nonlinear_arith)
        requires
            count == (total - tables) / spc,
            spc >= 1,
            0 <= total - tables <= total,
    ;
    assert(g.cluster_count == count);
    assert(spc * count == count * spc && (count + 1) * spc == count * spc + spc) by (nonlinear_arith);
    assert(roomy_enough(g, root, tables));
}

/// The tables and a root directory of `root` entries take `tables` sectors, and the clusters
/// take the rest but for what is less than a cluster.
pub open spec fn roomy_enough(g: VolumeGeometry, root: int, tables: int) -> bool {
    &&& ({
        let held = tables - g.reserved_sectors - g.fat_copies * g.fat_sectors;
        512 * (held - 1) < 32 * root <= 512 * held
    })
    &&& tables + g.cluster_count * g.sectors_per_cluster <= g.total_sectors
    &&& g.total_sectors < tables + (g.cluster_count + 1) * g.sectors_per_cluster
}

/// A slot of the partition table leads to the volume: it is marked in use, is of a type that
/// holds FAT16 or FAT32, and begins where the volume does.
pub open spec fn slot_leads_to(mbr: Seq<u8>, index: int, layout: MediaLayout) -> bool {
    let base = 446 + 16 * index;
    &&& mbr[base] == 0 || mbr[base] == 0x80
    &&& mbr[base + 4] == 0x04 || mbr[base + 4] == 0x06 || mbr[base + 4] == 0x0b || mbr[base + 4]
        == 0x0c || mbr[base + 4] == 0x0e
    &&& stored_low_first(mbr.subrange(base + 8, base + 12), layout.start_lba as int)
    &&& exists|count: int|
        layout.sector_count <= count && #[trigger] stored_low_first(
            mbr.subrange(base + 12, base + 16),
            count,
        )
}

/// The boot sector at the start of a volume describes it.
pub open spec fn describes(boot: Seq<u8>, layout: MediaLayout) -> bool {
    boot_sector_of(boot) matches BootSector::Fat(g) && g.total_sectors == layout.sector_count
        && g.serial == layout.volume_serial && g.fat32 == layout.fat32
}

/// A sector was read whole between two moments.
pub open spec fn was_read<E>(
    t: Seq<StorageEvent<E>>,
    from: int,
    to: int,
    lba: u32,
    sector: Seq<u8>,
) -> bool {
    &&& 0 <= from <= to <= t.len()
    &&& sector_read(t.subrange(from, to), lba, Ok(Some(sector)))
}

proof fn slots_lead_to_the_volume<E>(
    t: Seq<StorageEvent<E>>,
    mbr: Seq<u8>,
    media_sectors: int,
    index: int,
    saw_unsupported: bool,
    layout: MediaLayout,
) -> (found: (int, int, Seq<u8>))
    requires
        mbr.len() == 512,
        0 <= index <= 4,
        0 <= media_sectors <= u32::MAX,
        slots_probed(t, mbr, media_sectors, index, saw_unsupported, Ok(layout)),
    ensures
        was_read(t, found.0, found.1, layout.start_lba, found.2),
        describes(found.2, layout),
        index <= layout.partition_index < 4,
        slot_leads_to(mbr, layout.partition_index as int, layout),
        layout.start_lba + layout.sector_count <= media_sectors,
    decreases 4 - index,
{
    if index >= 4 {
        assert(false);
        (0, 0, Seq::empty())
    } else {
        match slot_use(mbr, media_sectors, index) {
            SlotUse::Skip => slots_lead_to_the_volume(
                t,
                mbr,
                media_sectors,
                index + 1,
                saw_unsupported,
                layout,
            ),
            SlotUse::Unsupported => slots_lead_to_the_volume(
                t,
                mbr,
                media_sectors,
                index + 1,
                true,
                layout,
            ),
            SlotUse::Candidate => {
                let verdict = Ok::<MediaLayout, ProbeError<E>>(layout);
                let (k, outcome) = choose|k: int, outcome: Result<Option<Seq<u8>>, E>|
                    0 <= k <= t.len() && #[trigger] sector_read(
                        t.take(k),
                        slot_start(mbr, index) as u32,
                        outcome,
                    ) && slot_decided(
                        t.skip(k),
                        mbr,
                        media_sectors,
                        index,
                        saw_unsupported,
                        outcome,
                        verdict,
                    );
                let boot = outcome->Ok_0->0;
                let here = outcome is Ok && outcome->Ok_0 is Some && (boot_sector_of(
                    boot,
                ) matches BootSector::Fat(g) && g.total_sectors <= slot_count(mbr, index));
                words_are_stored_low_first(mbr, slot_base(index) + 8);
                words_are_stored_low_first(mbr, slot_base(index) + 12);
                if here {
                    assert(t.take(k) =~= t.subrange(0, k));
                    assert(was_read(t, 0, k, layout.start_lba, boot));
                    let base = 446 + 16 * index;
                    assert(slot_base(index) == base);
                    assert(layout.partition_index == index);
                    assert(layout.start_lba == slot_start(mbr, index));
                    assert(stored_low_first(
                        mbr.subrange(base + 12, base + 16),
                        slot_count(mbr, index),
                    ));
                    assert(slot_leads_to(mbr, index, layout));
                    (0, k, boot)
                } else {
                    let saw = saw_unsupported || (outcome matches Ok(Some(b))
                        && crate::boot::is_unsupported_boot(boot_sector_of(b)));
                    let rest = t.skip(k);
                    let (from, to, sector) = slots_lead_to_the_volume(
                        rest,
                        mbr,
                        media_sectors,
                        index + 1,
                        saw,
                        layout,
                    );
                    assert(rest.subrange(from, to) =~= t.subrange(k + from, k + to));
                    (k + from, k + to, sector)
                }
            },
        }
    }
}

/// A volume that was found lies on the card, and its boot sector was read where it begins and
/// describes it. It begins the card, or a slot of the partition table in the first sector
/// leads to it.
pub proof fn found_volumes_are_on_the_card<E>(
    t: Seq<StorageEvent<E>>,
    media_sectors: int,
    layout: MediaLayout,
)
    requires
        0 <= media_sectors <= u32::MAX,
        probed(t, media_sectors, Ok(layout)),
    ensures
        layout.start_lba + layout.sector_count <= media_sectors,
        exists|from: int, to: int, boot: Seq<u8>| #[trigger]
            was_read(t, from, to, layout.start_lba, boot) && describes(boot, layout),
        exists|k: int, first: Seq<u8>|
            {
                &&& #[trigger] was_read(t, 0, k, 0, first)
                &&& layout.start_lba == 0 && describes(first, layout) || layout.partition_index < 4
                    && slot_leads_to(first, layout.partition_index as int, layout)
            },
{
    let verdict = Ok::<MediaLayout, ProbeError<E>>(layout);
    let (k, outcome) = choose|k: int, outcome: Result<Option<Seq<u8>>, E>|
        0 <= k <= t.len() && #[trigger] sector_read(t.take(k), 0, outcome) && match outcome {
            Err(error) => k == t.len() && verdict == Err::<MediaLayout, ProbeError<E>>(
                ProbeError::Io(error),
            ),
            Ok(None) => k == t.len() && verdict == Err::<MediaLayout, ProbeError<E>>(
                ProbeError::Invalid,
            ),
            Ok(Some(first)) => match crate::boot::first_sector_verdict::<E>(first, media_sectors) {
                Some(decided) => k == t.len() && verdict == decided,
                None => slots_probed(t.skip(k), first, media_sectors, 0, false, verdict),
            },
        };
    let first = outcome->Ok_0->0;
    assert(t.take(k) =~= t.subrange(0, k));
    assert(was_read(t, 0, k, 0, first));
    if crate::boot::first_sector_verdict::<E>(first, media_sectors) is None {
        sectors_are_read_whole(t.take(k), 0, first);
        let rest = t.skip(k);
        let (from, to, boot) = slots_lead_to_the_volume(rest, first, media_sectors, 0, false, layout);
        assert(rest.subrange(from, to) =~= t.subrange(k + from, k + to));
        assert(was_read(t, k + from, k + to, layout.start_lba, boot));
    } else {
        assert(describes(first, layout));
    }
}

proof fn sectors_fill<E>(t: Seq<StorageEvent<E>>, done: Seq<u8>, sector: Seq<u8>)
    requires
        done.len() <= 512,
        crate::storage::sector_filled(t, done, Ok(Some(sector))),
    ensures
        sector.len() == 512,
    decreases t.len(),
{
    if done.len() < 512 {
        let more = t[0]->Read_reply->Ok_0;
        sectors_fill(t.skip(1), done + more, sector);
    }
}

proof fn sectors_are_read_whole<E>(t: Seq<StorageEvent<E>>, lba: u32, sector: Seq<u8>)
    requires
        sector_read(t, lba, Ok(Some(sector))),
    ensures
        sector.len() == 512,
{
    sectors_fill(t.skip(1), Seq::empty(), sector);
}

/// A cluster that has no place on the volume, by the number of its entry in the table.
pub open spec fn is_phantom(g: VolumeGeometry, entry: int) -> bool {
    entry >= g.cluster_count + 2
}

/// How many entries a sector of a table holds.
pub open spec fn entries_per_sector(g: VolumeGeometry) -> int {
    if g.fat32 {
        128
    } else {
        256
    }
}

/// Bytes in an entry of the tables.
pub open spec fn bytes_per_entry(g: VolumeGeometry) -> int {
    if g.fat32 {
        4
    } else {
        2
    }
}

/// An entry of a sector of a table, as it is stored.
pub open spec fn entry_at(sector: Seq<u8>, g: VolumeGeometry, e: int) -> Seq<u8> {
    sector.subrange(bytes_per_entry(g) * e, bytes_per_entry(g) * e + bytes_per_entry(g))
}

/// The entry of a cluster that is free.
pub open spec fn free_mark(g: VolumeGeometry) -> Seq<u8> {
    if g.fat32 {
        seq![0u8, 0, 0, 0]
    } else {
        seq![0u8, 0]
    }
}

/// The entry of a cluster that is never to be used.
pub open spec fn never_mark(g: VolumeGeometry) -> Seq<u8> {
    if g.fat32 {
        seq![0xf7u8, 0xff, 0xff, 0x0f]
    } else {
        seq![0xf7u8, 0xff]
    }
}

/// A sector of a table was mended: every entry that stands for a cluster of the volume is as it
/// was, and every free entry behind them is marked as bad, so that it is never allocated.
pub open spec fn mended(g: VolumeGeometry, first_entry: int, was: Seq<u8>, now: Seq<u8>) -> bool {
    &&& now.len() == was.len()
    &&& forall|e: int|
        0 <= e < entries_per_sector(g) ==> #[trigger] entry_at(now, g, e) == if is_phantom(
            g,
            first_entry + e,
        ) && entry_at(was, g, e) == free_mark(g) {
            never_mark(g)
        } else {
            entry_at(was, g, e)
        }
}

proof fn marking_mends_an_entry(g: VolumeGeometry, first_entry: int, was: Seq<u8>, e: int)
    requires
        was.len() == 512,
        first_entry * entry_width(g) + 512 > fat_bytes(g) >= first_entry * entry_width(g),
        first_entry >= 0,
        0 <= e < entries_per_sector(g),
    ensures
        entry_at(
            tail_marked(was, fat_bytes(g) - first_entry * entry_width(g), bad_mark(g)),
            g,
            e,
        ) == if is_phantom(g, first_entry + e) && entry_at(was, g, e) == free_mark(g) {
            never_mark(g)
        } else {
            entry_at(was, g, e)
        },
{
    let width = entry_width(g);
    let marker = bad_mark(g);
    let from = fat_bytes(g) - first_entry * width;
    let now = tail_marked(was, from, marker);
    tail_marked_keeps_front(was, from, marker);
    assert(FAT32_BAD_CLUSTER@ =~= seq![0xf7u8, 0xff, 0xff, 0x0f]);
    assert(FAT16_BAD_CLUSTER@ =~= seq![0xf7u8, 0xff]);
    assert(marker =~= never_mark(g));
    let there = g.cluster_count + 2 - first_entry;
    assert(from == there * width);
    let old_entry = entry_at(was, g, e);
    let new_entry = entry_at(now, g, e);
    if e >= there {
        let k = e - there;
        assert(from + k * width == width * e);
        assert(from + (k + 1) * width == width * e + width);
        assert(marker.len() == width);
        tail_marked_entries(was, from, marker, k);
        if old_entry == free_mark(g) {
            assert forall|i: int| width * e <= i < width * e + width implies was[i] == 0 by {
                assert(old_entry[i - width * e] == was[i]);
                assert(free_mark(g)[i - width * e] == 0);
            }
            assert(is_free_entry(was, width * e, width));
            assert(new_entry =~= marker);
        } else {
            assert(!is_free_entry(was, width * e, width)) by {
                if is_free_entry(was, width * e, width) {
                    assert(old_entry =~= free_mark(g));
                }
            }
            assert(new_entry =~= old_entry);
        }
    } else {
        assert(width * e + width <= from);
        assert(new_entry =~= old_entry);
    }
}

proof fn marking_mends(g: VolumeGeometry, first_entry: int, was: Seq<u8>)
    requires
        was.len() == 512,
        first_entry * entry_width(g) + 512 > fat_bytes(g) >= first_entry * entry_width(g),
        first_entry >= 0,
    ensures
        mended(
            g,
            first_entry,
            was,
            tail_marked(was, fat_bytes(g) - first_entry * entry_width(g), bad_mark(g)),
        ),
{
    let from = fat_bytes(g) - first_entry * entry_width(g);
    tail_marked_keeps_front(was, from, bad_mark(g));
    assert forall|e: int| 0 <= e < entries_per_sector(g) implies #[trigger] entry_at(
        tail_marked(was, from, bad_mark(g)),
        g,
        e,
    ) == if is_phantom(g, first_entry + e) && entry_at(was, g, e) == free_mark(g) {
        never_mark(g)
    } else {
        entry_at(was, g, e)
    } by {
        marking_mends_an_entry(g, first_entry, was, e);
    }
}

proof fn tails_are_mended<D, F>(
    t: Seq<Call<D, F>>,
    start: int,
    g: VolumeGeometry,
    copy: int,
    i: int,
) -> (of: int)
    requires
        tails_repaired(t, start, g, copy),
        0 <= copy,
        0 <= i < t.len(),
        t[i] is WriteSector,
    ensures
        copy <= of < g.fat_copies,
        1 <= i,
        t[i]->WriteSector_lba == start + g.reserved_sectors + of * g.fat_sectors + fat_bytes(g)
            / 512,
        t[i - 1] matches Call::ReadSector { lba, reply } && lba == t[i]->WriteSector_lba && (
        reply matches Some(was) && t[i]->contents == tail_marked(
            was@,
            fat_bytes(g) % 512,
            bad_mark(g),
        )),
    decreases t.len(),
{
    let sector = t[0]->ReadSector_reply;
    if sector is Some && has_free_entry(sector->0@, fat_bytes(g) % 512, entry_width(g)) {
        if i == 1 {
            copy
        } else {
            let rest = t.skip(2);
            assert(rest[i - 2] == t[i]);
            let of = tails_are_mended(rest, start, g, copy + 1, i - 2);
            assert(rest[i - 3] == t[i - 1]);
            of
        }
    } else {
        let rest = t.skip(1);
        assert(rest[i - 1] == t[i]);
        let of = tails_are_mended(rest, start, g, copy + 1, i - 1);
        assert(rest[i - 2] == t[i - 1]);
        of
    }
}

/// Mending a volume never touches the entry of a cluster that exists. Whatever is written goes
/// to the sector of a table in which the entries of the volume end, and only marks free
/// entries behind them as bad.
pub proof fn mending_keeps_the_clusters<D, F>(
    t: Seq<Call<D, F>>,
    layout: MediaLayout,
    i: int,
)
    requires
        repaired(t, layout),
        0 <= i < t.len(),
        t[i] is WriteSector,
    ensures
        t[0] matches Call::ReadSector { lba, reply: Some(boot) } && lba == layout.start_lba && (
        boot_sector_of(boot@) matches BootSector::Fat(g) && 2 <= i && (
        t[i - 1] matches Call::ReadSector { lba: read, reply: Some(was) } && read
            == t[i]->WriteSector_lba && exists|copy: int, index: int|
            {
                &&& 0 <= copy < g.fat_copies
                &&& 0 <= index
                &&& t[i]->WriteSector_lba == layout.start_lba + g.reserved_sectors + #[trigger] (copy
                    * g.fat_sectors) + index
                &&& #[trigger] mended(
                    g,
                    index * entries_per_sector(g),
                    was@,
                    t[i]->contents,
                )
            })),
{
    let boot = t[0]->ReadSector_reply->0;
    let g = boot_sector_of(boot@)->Fat_0;
    let rest = t.skip(1);
    assert(rest[i - 1] == t[i]);
    let copy = tails_are_mended(rest, layout.start_lba as int, g, 0, i - 1);
    assert(rest[i - 2] == t[i - 1]);
    let was = t[i - 1]->ReadSector_reply->0;
    let index = fat_bytes(g) / 512;
    let first_entry = index * entries_per_sector(g);
    assert(first_entry * entry_width(g) == 512 * index);
    assert(fat_bytes(g) >= 0) by (nonlinear_arith)
        requires
            fat_bytes(g) == (g.cluster_count + 2) * entry_width(g),
            entry_width(g) > 0,
            g.cluster_count >= 0,
    ;
    marking_mends(g, first_entry, was@);
    assert(t[i]->WriteSector_lba == layout.start_lba + g.reserved_sectors + (copy * g.fat_sectors)
        + index);
}

/// How many of the entries before `to` are free, in a table of 16-bit entries. The first two
/// entries stand for no cluster.
pub open spec fn free_before(table: Seq<u8>, to: int) -> int
    decreases to,
{
    if to <= 2 {
        0
    } else {
        free_before(table, to - 1) + if table[2 * (to - 1)] == 0 && table[2 * (to - 1) + 1] == 0 {
            1int
        } else {
            0
        }
    }
}

/// What the sectors that were read hold, one after the other.
pub open spec fn sectors_joined<D, F>(t: Seq<Call<D, F>>) -> Seq<u8>
    decreases t.len(),
{
    if t.len() == 0 {
        Seq::empty()
    } else {
        sectors_joined(t.drop_last()) + t.last()->ReadSector_reply->0@
    }
}

/// The sectors of a table were read from its first one on.
pub open spec fn read_in_turn<D, F>(t: Seq<Call<D, F>>, first: int) -> bool {
    forall|i: int|
        0 <= i < t.len() ==> (#[trigger] t[i] matches Call::ReadSector { lba, reply } && lba
            == first + i && reply is Some)
}

proof fn joined_by_sector<D, F>(t: Seq<Call<D, F>>, first: int)
    requires
        read_in_turn(t, first),
    ensures
        sectors_joined(t).len() == 512 * t.len(),
    decreases t.len(),
{
    if t.len() > 0 {
        assert(t.last() is ReadSector);
        joined_by_sector(t.drop_last(), first);
    }
}

proof fn counts_are_local(a: Seq<u8>, b: Seq<u8>, to: int)
    requires
        2 * to <= a.len() <= b.len(),
        forall|i: int| 0 <= i < a.len() ==> #[trigger] a[i] == b[i],
    ensures
        free_before(a, to) == free_before(b, to),
    decreases to,
{
    if to > 2 {
        counts_are_local(a, b, to - 1);
    }
}

proof fn counts_go_on(table: Seq<u8>, base: int, sector: Seq<u8>, from: int, to: int)
    requires
        0 <= base,
        sector.len() == 512,
        table.len() >= 2 * base + 512,
        forall|i: int| 0 <= i < 512 ==> #[trigger] table[2 * base + i] == sector[i],
        0 <= from <= to <= 256,
        base == 0 ==> from == 2,
        base > 0 ==> from == 0 && base >= 2,
    ensures
        free_before(table, base + to) == free_before(table, base + from) + free_entries(
            sector,
            from,
            to,
        ),
    decreases to - from,
{
    if from < to {
        counts_go_on(table, base, sector, from, to - 1);
        let e = base + to - 1;
        assert(table[2 * base + 2 * (to - 1)] == sector[2 * (to - 1)]);
        assert(table[2 * base + (2 * (to - 1) + 1)] == sector[2 * (to - 1) + 1]);
        assert(2 * e == 2 * base + 2 * (to - 1));
    }
}

proof fn counting_reads_the_table<D, F>(
    done: Seq<Call<D, F>>,
    t: Seq<Call<D, F>>,
    first_fat: int,
    g: VolumeGeometry,
    index: int,
    free: int,
    result: int,
)
    requires
        read_in_turn(done, first_fat),
        done.len() == index,
        0 <= index,
        (g.cluster_count + 2) * 2 <= 512 * g.fat_sectors,
        index > 0 ==> 256 * (index - 1) < g.cluster_count + 2,
        free == free_before(
            sectors_joined(done),
            if 256 * index <= g.cluster_count + 2 {
                256 * index
            } else {
                g.cluster_count + 2
            },
        ),
        fat16_counted(t, first_fat, g, index, free, Some(result)),
    ensures
        read_in_turn(done + t, first_fat),
        sectors_joined(done + t).len() >= 2 * (g.cluster_count + 2),
        result == free_before(sectors_joined(done + t), g.cluster_count + 2),
    decreases t.len(),
{
    joined_by_sector(done, first_fat);
    if index >= g.fat_sectors || 256 * index >= g.cluster_count + 2 {
        assert(done + t =~= done);
    } else {
        let sector = t[0]->ReadSector_reply->0;
        let more = done.push(t[0]);
        let rest = t.skip(1);
        assert(more.drop_last() =~= done);
        assert(done + t =~= more + rest);
        let a = sectors_joined(done);
        let b = sectors_joined(more);
        assert(b == a + sector@);
        let (from, to) = entries_in(g, index);
        let base = 256 * index;
        counts_are_local(a, b, base);
        assert(b.len() >= 2 * base + 512);
        assert forall|i: int| 0 <= i < 512 implies #[trigger] b[2 * base + i] == sector@[i] by {}
        if index == 0 {
            assert(free_before(b, 2) == 0);
        }
        counts_go_on(b, base, sector@, from, to);
        assert(free_before(b, base + from) == free);
        assert(read_in_turn(more, first_fat));
        counting_reads_the_table(
            more,
            rest,
            first_fat,
            g,
            index + 1,
            free + free_entries(sector@, from, to),
            result,
        );
    }
}

/// The free space of a volume is that of its free clusters. On FAT32 their number stands in a
/// sector of its own, which bears two marks and is believed only up to the number of clusters;
/// on FAT16 they are the clusters whose entry in the first table is zero.
pub proof fn free_space_is_counted_in_clusters<D, F>(
    t: Seq<Call<D, F>>,
    start: u32,
    bytes: u64,
)
    requires
        space_measured(t, start, Some(bytes)),
    ensures
        t.len() >= 1 && (t[0] matches Call::ReadSector { lba, reply: Some(boot) } && lba == start && (
        boot_sector_of(boot@) matches BootSector::Fat(g) && exists|free: int|
            {
                &&& 0 <= free <= g.cluster_count
                &&& bytes == #[trigger] (free * g.sectors_per_cluster) * 512
                &&& g.fat32 ==> t.len() == 2 && (t[1] matches Call::ReadSector {
                    lba: at,
                    reply: Some(info),
                } && at == start + g.fsinfo_sector && stored_low_first(
                    info@.subrange(0, 4),
                    0x4161_5252,
                ) && stored_low_first(info@.subrange(484, 488), 0x6141_7272) && stored_low_first(
                    info@.subrange(488, 492),
                    free,
                ))
                &&& !g.fat32 ==> read_in_turn(t.skip(1), start + g.reserved_sectors) && free
                    == free_before(sectors_joined(t.skip(1)), g.cluster_count + 2)
            })),
{
    let boot = t[0]->ReadSector_reply->0;
    let g = boot_sector_of(boot@)->Fat_0;
    let found = choose|free: Option<int>| #[trigger]
        crate::space::free_clusters_found(t.skip(1), start as int, g, free) && Some(bytes)
            == crate::space::free_bytes(g, free);
    let free = found->0;
    volumes_are_what_their_boot_sector_says(boot@, g);
    if g.fat32 {
        let info = t[1]->ReadSector_reply->0;
        assert(t.skip(1)[0] == t[1]);
        words_are_stored_low_first(info@, 0);
        words_are_stored_low_first(info@, 484);
        words_are_stored_low_first(info@, 488);
    } else {
        let none = Seq::<Call<D, F>>::empty();
        assert(free_before(sectors_joined(none), 0) == 0);
        counting_reads_the_table(
            none,
            t.skip(1),
            start + g.reserved_sectors,
            g,
            0,
            0,
            free,
        );
        assert(none + t.skip(1) =~= t.skip(1));
        free_counts_are_bounded(sectors_joined(t.skip(1)), g.cluster_count + 2);
    }
    assert(0 <= free * g.sectors_per_cluster <= 0x1_0000_0000 * 255) by (nonlinear_arith)
        requires
            0 <= free <= g.cluster_count <= 0xffff_ffff,
            0 <= g.sectors_per_cluster <= 255,
    ;
    assert(bytes == (free * g.sectors_per_cluster) * 512);
}

proof fn free_counts_are_bounded(table: Seq<u8>, to: int)
    requires
        to >= 2,
    ensures
        0 <= free_before(table, to) <= to - 2,
    decreases to,
{
    if to > 2 {
        free_counts_are_bounded(table, to - 1);
    }
}

proof fn tails_touch_sectors_only<D, F>(t: Seq<Call<D, F>>, start: int, g: VolumeGeometry, copy: int)
    requires
        tails_repaired(t, start, g, copy),
    ensures
        forall|i: int| 0 <= i < t.len() ==> #[trigger] t[i] is ReadSector || t[i] is WriteSector,
    decreases t.len(),
{
    if copy < g.fat_copies {
        let sector = t[0]->ReadSector_reply;
        let n: int = if sector is Some && has_free_entry(
            sector->0@,
            fat_bytes(g) % 512,
            entry_width(g),
        ) {
            2
        } else {
            1
        };
        let rest = t.skip(n);
        tails_touch_sectors_only(rest, start, g, copy + 1);
        assert forall|i: int| 0 <= i < t.len() implies #[trigger] t[i] is ReadSector || t[i]
            is WriteSector by {
            if i >= n {
                assert(rest[i - n] == t[i]);
            }
        }
    }
}

/// A volume is mounted from the slot of the partition table in which it was found. Before it
/// is opened its boot sector is read, where the volume begins, and no file or folder is touched.
/// What opening it answers is the answer of the mount.
pub proof fn volumes_are_opened_from_their_slot<D, F>(
    t: Seq<Call<D, F>>,
    layout: MediaLayout,
    result: Result<(), VolumeError>,
)
    requires
        volume_mounted(t, layout, result),
    ensures
        t.len() >= 2,
        t[0] matches Call::ReadSector { lba, .. } && lba == layout.start_lba,
        t.last() matches Call::OpenVolume { partition, reply } && partition
            == layout.partition_index && reply == result,
        forall|i: int|
            0 <= i < t.len() - 1 ==> #[trigger] t[i] is ReadSector || t[i] is WriteSector,
{
    let front = t.drop_last();
    assert(front[0] == t[0]);
    let boot = front[0]->ReadSector_reply;
    if front.len() > 1 {
        let g = boot_sector_of(boot->0@)->Fat_0;
        let rest = front.skip(1);
        tails_touch_sectors_only(rest, layout.start_lba as int, g, 0);
        assert forall|i: int| 0 <= i < t.len() - 1 implies #[trigger] t[i] is ReadSector || t[i]
            is WriteSector by {
            if i >= 1 {
                assert(rest[i - 1] == t[i]);
            }
        }
    } else {
        assert forall|i: int| 0 <= i < t.len() - 1 implies #[trigger] t[i] is ReadSector || t[i]
            is WriteSector by {
            assert(i == 0);
        }
    }
}

/// A volume that is opened again is opened from the same slot, and whether the card still
/// answers is tried on the first sector of the volume, which is only read.
pub proof fn volumes_are_opened_again_from_their_slot<D, F>(
    t: Seq<Call<D, F>>,
    layout: MediaLayout,
    step: Step,
)
    requires
        step_made(t, layout, step),
    ensures
        step matches Step::OpenVolume { reply } ==> t.len() == 1 && (
        t[0] matches Call::OpenVolume { partition, reply: answer } && partition
            == layout.partition_index && answer == reply),
        step matches Step::Probe { answers } ==> t.len() == 1 && (t[0] matches Call::ReadSector {
            lba,
            reply,
        } && lba == layout.start_lba && (answers <==> reply is Some)),
        step matches Step::Measure { reply } ==> t.len() >= 1 && (t[0] matches Call::ReadSector {
            lba,
            ..
        } && lba == layout.start_lba),
        step matches Step::CloseVolume { reply } ==> t.len() == 1 && (
        t[0] matches Call::CloseVolume { reply: answer } && answer == reply),
{
}

/// What the first sector of a card decides: without its two marks it is no FAT volume and no
/// partition table; an exFAT volume is known, but not supported; and a volume that claims more
/// sectors than the card has is damaged.
pub proof fn first_sectors_decide<E>(s: Seq<u8>, media_sectors: int)
    requires
        s.len() == 512,
    ensures
        s[510] != 0x55 || s[511] != 0xaa ==> first_sector_verdict::<E>(s, media_sectors) == Some(
            Err::<MediaLayout, ProbeError<E>>(ProbeError::Invalid),
        ),
        s[510] == 0x55 && s[511] == 0xaa && s.subrange(3, 11) == seq![
            0x45u8,
            0x58,
            0x46,
            0x41,
            0x54,
            0x20,
            0x20,
            0x20,
        ] ==> first_sector_verdict::<E>(s, media_sectors) == Some(
            Err::<MediaLayout, ProbeError<E>>(ProbeError::Unsupported),
        ),
        boot_sector_of(s) matches BootSector::Fat(g) ==> (g.total_sectors > media_sectors
            <==> first_sector_verdict::<E>(s, media_sectors) == Some(
            Err::<MediaLayout, ProbeError<E>>(ProbeError::Invalid),
        )),
        boot_sector_of(s) is Fat12 || boot_sector_of(s) is SmallFat32 ==> first_sector_verdict::<E>(
            s,
            media_sectors,
        ) == Some(Err::<MediaLayout, ProbeError<E>>(ProbeError::Unsupported)),
{
    assert(crate::boot::EXFAT_NAME@ =~= seq![0x45u8, 0x58, 0x46, 0x41, 0x54, 0x20, 0x20, 0x20]);
}

/// What a slot of the partition table is good for, by its type: FAT16 and FAT32 are tried if
/// the partition is on the card; FAT12, extended partitions, NTFS or exFAT and GPT are known,
/// but not supported; the rest, and what is marked neither active nor inactive, is passed over.
pub proof fn slots_go_by_their_type(mbr: Seq<u8>, media_sectors: int, index: int)
    requires
        mbr.len() == 512,
        0 <= index < 4,
    ensures
        ({
            let base = 446 + 16 * index;
            let kind = mbr[base + 4];
            let in_use = mbr[base] == 0 || mbr[base] == 0x80;
            let fat = kind == 0x04 || kind == 0x06 || kind == 0x0b || kind == 0x0c || kind == 0x0e;
            let other = kind == 0x01 || kind == 0x05 || kind == 0x07 || kind == 0x0f || kind == 0xee;
            let start = slot_start(mbr, index);
            let count = slot_count(mbr, index);
            &&& stored_low_first(mbr.subrange(base + 8, base + 12), start)
            &&& stored_low_first(mbr.subrange(base + 12, base + 16), count)
            &&& slot_use(mbr, media_sectors, index) is Candidate <==> in_use && fat && count > 0
                && start + count <= media_sectors
            &&& slot_use(mbr, media_sectors, index) is Unsupported <==> in_use && other
        }),
{
    words_are_stored_low_first(mbr, slot_base(index) + 8);
    words_are_stored_low_first(mbr, slot_base(index) + 12);
    assert(slot_base(index) == 446 + 16 * index);
}

/// The kind of a volume goes by the number of its clusters, as many as its fields declare: fewer
/// than 4085 make it FAT12, and fields of FAT32 with fewer than 65525 a FAT32 that is too small.
pub proof fn kinds_go_by_the_clusters(s: Seq<u8>)
    requires
        s.len() == 512,
    ensures
        boot_sector_of(s) is Fat12 ==> declared_clusters(s) < 4_085,
        boot_sector_of(s) is SmallFat32 ==> 4_085 <= declared_clusters(s) < 65_525,
        boot_sector_of(s) matches BootSector::Fat(g) ==> declared_clusters(s) == g.cluster_count,
{
    if let BootSector::Fat(g) = boot_sector_of(s) {
        volumes_are_what_their_boot_sector_says(s, g);
        let total = crate::boot::declared_total(s);
        let tables = crate::boot::declared_overhead(s);
        let spc = s[13] as int;
        let count = declared_clusters(s);
        assert(s[16] * crate::boot::declared_fat_size(s) >= 0) by (nonlinear_arith)
            requires
                crate::boot::declared_fat_size(s) >= 0,
                s[16] >= 0,
        ;
        assert(0 <= count <= total) by (nonlinear_arith)
            requires
                count == (total - tables) / spc,
                spc >= 1,
                0 <= total - tables <= total,
        ;
    }
}

/// A card that is too small for FAT32, or has more sectors than can be numbered, is not
/// formatted: nothing is asked of it.
pub proof fn cards_must_have_the_size<E>(
    t: Seq<StorageEvent<E>>,
    length: u64,
    seed: u32,
    result: Result<(), FormatFailure>,
)
    requires
        card_formatted(t, length, seed, result),
    ensures
        length / 512 < 2_048 + 32 + 2 * 512 + 65_525 ==> t.len() == 0 && result == Err::<
            (),
            FormatFailure,
        >(FormatFailure::TooSmall),
        length / 512 > 0xffff_ffff ==> t.len() == 0 && result == Err::<(), FormatFailure>(
            FormatFailure::TooLarge,
        ),
        result == Err::<(), FormatFailure>(FormatFailure::TooLarge) ==> length / 512 > 0xffff_ffff,
{
}

} // verus!
