//! What formatting leaves on a medium that keeps what is written to it.
use vstd::prelude::*;

use crate::boot::{
    boot_sector_of, declared_clusters, declared_overhead, fat_holds_clusters, fields_usable,
    names_exfat, signed, slot_use, BootSector, MediaLayout, ProbeError, SlotUse, VolumeGeometry,
    EXFAT_NAME,
};
use crate::bytes::{le16, le32, overwritten};
use crate::fat_tail::tail_marked_keeps_front;
use crate::format::{
    blank, boot_sector, fat_end, fat_head, fits_medium, format_prefix_written, format_write,
    formatted, fsinfo_sector, geometry_fits_medium, layout_refused, partition_table, phantom_offset,
    read_back, read_back_lba, read_back_test, read_back_verdict, sector_refused, sector_stored,
    write_count, writes_per_fat, BOOT_SIGNATURE, FILESYSTEM_NAME,
};
use crate::geometry::{
    is_geometry_for, FormatError, FormatGeometry, MIN_PARTITION_SECTORS, PARTITION_START,
    RESERVED_SECTORS,
};
use crate::medium::{media_verdict, replay, replay_joins, sector, sector_read_serves, served, Medium};
use crate::space::{free_bytes, free_clusters_found, space_measured};
use crate::storage::{sector_read, StorageEvent};
use crate::volume::Call;

verus! {

/// The volume that a formatted boot sector declares.
pub open spec fn formatted_volume(g: FormatGeometry) -> VolumeGeometry {
    VolumeGeometry {
        serial: g.volume_serial,
        total_sectors: g.partition_sectors,
        reserved_sectors: RESERVED_SECTORS,
        fat_sectors: g.fat_sectors,
        fat_copies: 2,
        sectors_per_cluster: g.sectors_per_cluster,
        cluster_count: g.cluster_count,
        fsinfo_sector: 1,
        fat32: true,
    }
}

/// The fields that give the sizes in a formatted boot sector.
#[verifier::rlimit(50)]
proof fn boot_sector_sizes(g: FormatGeometry)
    ensures
        boot_sector(g).len() == 512,
        le16(boot_sector(g), 11) == 512,
        boot_sector(g)[13] == g.sectors_per_cluster,
        le16(boot_sector(g), 14) == RESERVED_SECTORS,
        boot_sector(g)[16] == 2,
        le16(boot_sector(g), 17) == 0,
        le16(boot_sector(g), 19) == 0,
        le16(boot_sector(g), 22) == 0,
{
}

/// The 32-bit fields of a formatted boot sector.
#[verifier::rlimit(50)]
proof fn boot_sector_numbers(g: FormatGeometry)
    ensures
        le32(boot_sector(g), 32) == g.partition_sectors,
        le32(boot_sector(g), 36) == g.fat_sectors,
        le32(boot_sector(g), 44) == 2,
        le16(boot_sector(g), 48) == 1,
        le32(boot_sector(g), 67) == g.volume_serial,
{
}

/// The signature and names of a formatted boot sector.
#[verifier::rlimit(50)]
proof fn boot_sector_marks(g: FormatGeometry)
    ensures
        signed(boot_sector(g)),
        !names_exfat(boot_sector(g)),
        boot_sector(g).subrange(82, 90) == FILESYSTEM_NAME@,
        boot_sector(g).subrange(510, 512) == BOOT_SIGNATURE@,
{
    let b = boot_sector(g);
    assert(b.subrange(82, 90) =~= FILESYSTEM_NAME@);
    assert(b.subrange(510, 512) =~= BOOT_SIGNATURE@);
    assert(b.subrange(3, 11)[0] == 0x57);
    assert(EXFAT_NAME@[0] == 0x45);
}

/// Parsing the boot sector that formatting composes gives back its layout.
pub proof fn boot_sector_parses_back(g: FormatGeometry, media_sectors: u32, serial_seed: u32)
    requires
        media_sectors >= PARTITION_START + MIN_PARTITION_SECTORS,
        is_geometry_for(g, media_sectors, serial_seed),
    ensures
        boot_sector_of(boot_sector(g)) == BootSector::Fat(formatted_volume(g)),
{
    let b = boot_sector(g);
    boot_sector_sizes(g);
    boot_sector_numbers(g);
    boot_sector_marks(g);
    geometry_fits_medium(g, media_sectors, serial_seed);
    assert(fields_usable(b));
    assert(declared_overhead(b) == RESERVED_SECTORS + 2 * g.fat_sectors);
    assert(declared_clusters(b) == g.cluster_count);
    assert(fat_holds_clusters(b));
}

/// The bytes after the first `n` writes of a format.
pub open spec fn image_after(
    bytes: Seq<u8>,
    g: FormatGeometry,
    media_sectors: u32,
    n: int,
) -> Seq<u8>
    decreases n,
{
    if n <= 0 {
        bytes
    } else {
        let write = format_write(g, media_sectors, n - 1);
        overwritten(
            image_after(bytes, g, media_sectors, n - 1),
            512 * write.lba as int,
            write.contents,
        )
    }
}

proof fn contents_fill_a_sector(g: FormatGeometry, media_sectors: u32, i: int)
    ensures
        format_write(g, media_sectors, i).contents.len() == 512,
{
    reveal(format_write);
    tail_marked_keeps_front(blank(), phantom_offset(g), crate::fat_tail::FAT32_BAD_CLUSTER@);
}

proof fn image_keeps_length(bytes: Seq<u8>, g: FormatGeometry, media_sectors: u32, n: int)
    ensures
        image_after(bytes, g, media_sectors, n).len() == bytes.len(),
    decreases n,
{
    if n > 0 {
        image_keeps_length(bytes, g, media_sectors, n - 1);
    }
}

/// A sector holds what was last written to it.
proof fn last_write_stays(bytes: Seq<u8>, g: FormatGeometry, media_sectors: u32, n: int, i: int)
    requires
        0 <= i < n,
        512 * format_write(g, media_sectors, i).lba + 512 <= bytes.len(),
        forall|j: int|
            i < j < n ==> (#[trigger] format_write(g, media_sectors, j)).lba != format_write(
                g,
                media_sectors,
                i,
            ).lba,
    ensures
        sector(image_after(bytes, g, media_sectors, n), format_write(g, media_sectors, i).lba as int)
            == format_write(g, media_sectors, i).contents,
    decreases n,
{
    let write = format_write(g, media_sectors, i);
    let last = format_write(g, media_sectors, n - 1);
    let before = image_after(bytes, g, media_sectors, n - 1);
    let after = image_after(bytes, g, media_sectors, n);
    image_keeps_length(bytes, g, media_sectors, n - 1);
    contents_fill_a_sector(g, media_sectors, n - 1);
    if i == n - 1 {
        assert(sector(after, write.lba as int) =~= write.contents);
    } else {
        last_write_stays(bytes, g, media_sectors, n - 1, i);
        assert(sector(after, write.lba as int) =~= sector(before, write.lba as int));
    }
}

/// Replaying the writes of a format gives the image.
proof fn writes_replay<E>(
    m: Medium,
    t: Seq<StorageEvent<E>>,
    g: FormatGeometry,
    media_sectors: u32,
    n: int,
)
    requires
        n >= 0,
        format_prefix_written(t, g, media_sectors, n),
        replay(m, t) is Some,
    ensures
        (replay(m, t)->0).bytes == image_after(m.bytes, g, media_sectors, n),
    decreases n,
{
    if n > 0 {
        let front = t.take(2 * (n - 1));
        let back = t.skip(2 * (n - 1));
        replay_joins(m, t, 2 * (n - 1));
        assert forall|i: int| 0 <= i < n - 1 implies sector_stored(
            #[trigger] front.subrange(2 * i, 2 * i + 2),
            format_write(g, media_sectors, i),
        ) by {
            assert(front.subrange(2 * i, 2 * i + 2) =~= t.subrange(2 * i, 2 * i + 2));
        }
        writes_replay(m, front, g, media_sectors, n - 1);
        let last = format_write(g, media_sectors, n - 1);
        assert(back =~= t.subrange(2 * (n - 1), 2 * (n - 1) + 2));
        assert(sector_stored(back, last));
        let mid = replay(m, front)->0;
        let seeked = served(mid, back[0])->0;
        assert(replay(mid, back) == replay(seeked, back.skip(1)));
        assert(back.skip(1)[0] == back[1]);
        assert(replay(seeked, back.skip(1)) == replay(
            served(seeked, back[1])->0,
            back.skip(1).skip(1),
        ));
        assert(back.skip(1).skip(1).len() == 0);
    }
}

/// A replay that succeeds holds no refused write.
proof fn refusal_does_not_replay<E>(
    m: Medium,
    t: Seq<StorageEvent<E>>,
    g: FormatGeometry,
    media_sectors: u32,
    error: E,
)
    requires
        layout_refused(t, g, media_sectors, error),
    ensures
        replay(m, t) is None,
{
    if replay(m, t) is Some {
        let n = choose|n: int|
            0 <= n < write_count(g) && 2 * n <= t.len() && format_prefix_written(
                t.take(2 * n),
                g,
                media_sectors,
                n,
            ) && #[trigger] sector_refused(t.skip(2 * n), format_write(g, media_sectors, n), error);
        replay_joins(m, t, 2 * n);
        let mid = replay(m, t.take(2 * n))->0;
        let back = t.skip(2 * n);
        assert(replay(mid, back) is Some);
        let seeked = served(mid, back[0])->0;
        assert(replay(mid, back) == replay(seeked, back.skip(1)));
        if back.len() == 2 {
            assert(back.skip(1)[0] == back[1]);
            assert(served(seeked, back[1]) is None);
        }
    }
}

/// The sectors that a mount depends on, once all writes are done.
proof fn image_holds_the_layout(bytes: Seq<u8>, g: FormatGeometry, media_sectors: u32)
    requires
        fits_medium(g, media_sectors),
        bytes.len() == 512 * media_sectors,
    ensures
        ({
            let image = image_after(bytes, g, media_sectors, write_count(g));
            &&& image.len() == bytes.len()
            &&& sector(image, 0) == partition_table(g)
            &&& sector(image, g.partition_start as int) == boot_sector(g)
            &&& sector(image, g.partition_start + 1) == fsinfo_sector(g)
            &&& sector(image, 1) == blank()
            &&& sector(image, g.partition_start + 6) == boot_sector(g)
            &&& sector(image, g.partition_start + 7) == fsinfo_sector(g)
        }),
{
    reveal(format_write);
    let n = write_count(g);
    image_keeps_length(bytes, g, media_sectors, n);
    last_write_stays(bytes, g, media_sectors, n, 0);
    last_write_stays(bytes, g, media_sectors, n, 1);
    last_write_stays(bytes, g, media_sectors, n, 35);
    last_write_stays(bytes, g, media_sectors, n, 36);
    last_write_stays(bytes, g, media_sectors, n, 37);
    last_write_stays(bytes, g, media_sectors, n, 38);
}

/// The other reserved sectors are blank, and so is the last one of the medium.
proof fn image_holds_blank_sectors(bytes: Seq<u8>, g: FormatGeometry, media_sectors: u32, k: int)
    requires
        fits_medium(g, media_sectors),
        RESERVED_SECTORS + 2 * g.fat_sectors + g.sectors_per_cluster < g.partition_sectors,
        bytes.len() == 512 * media_sectors,
        2 <= k < RESERVED_SECTORS,
        k != 6,
        k != 7,
    ensures
        ({
            let image = image_after(bytes, g, media_sectors, write_count(g));
            &&& sector(image, g.partition_start + k) == blank()
            &&& sector(image, media_sectors - 1) == blank()
        }),
{
    reveal(format_write);
    let n = write_count(g);
    last_write_stays(bytes, g, media_sectors, n, 3 + k);
    last_write_stays(bytes, g, media_sectors, n, 2);
}

/// The fields of a formatted partition table, as the probe sees them.
proof fn partition_table_fields(g: FormatGeometry, media_sectors: u32)
    requires
        fits_medium(g, media_sectors),
    ensures
        partition_table(g).len() == 512,
        signed(partition_table(g)),
        le32(partition_table(g), 454) == g.partition_start,
        le32(partition_table(g), 458) == g.partition_sectors,
        partition_table(g).subrange(510, 512) == BOOT_SIGNATURE@,
        slot_use(partition_table(g), media_sectors as int, 0) == SlotUse::Candidate,
        boot_sector_of(partition_table(g)) == BootSector::Invalid,
{
    let b = partition_table(g);
    assert(b.subrange(510, 512) =~= BOOT_SIGNATURE@);
    assert(b[446] == 0);
    assert(b[450] == 0x0c);
    assert(b[11] == 0 && b[12] == 0);
    assert(!fields_usable(b));
    assert(b.subrange(3, 11)[0] == 0);
    assert(EXFAT_NAME@[0] == 0x45);
}

proof fn fsinfo_fields(g: FormatGeometry)
    ensures
        fsinfo_sector(g).len() == 512,
        le32(fsinfo_sector(g), 0) == 0x4161_5252,
        le32(fsinfo_sector(g), 484) == 0x6141_7272,
        g.cluster_count >= 1 ==> le32(fsinfo_sector(g), 488) == g.cluster_count - 1,
{
}

/// Verification succeeds where the three sectors are as written.
proof fn read_back_succeeds<E>(
    m: Medium,
    t: Seq<StorageEvent<E>>,
    g: FormatGeometry,
    media_sectors: u32,
    step: int,
    result: Result<FormatGeometry, FormatError<E>>,
)
    requires
        0 <= step <= 3,
        fits_medium(g, media_sectors),
        m.bytes.len() == 512 * media_sectors,
        sector(m.bytes, 0) == partition_table(g),
        sector(m.bytes, g.partition_start as int) == boot_sector(g),
        sector(m.bytes, g.partition_start + 1) == fsinfo_sector(g),
        read_back(t, g, step, result),
        replay(m, t) is Some,
    ensures
        result == Ok::<FormatGeometry, FormatError<E>>(g),
        (replay(m, t)->0).bytes == m.bytes,
    decreases 3 - step,
{
    partition_table_fields(g, media_sectors);
    boot_sector_marks(g);
    fsinfo_fields(g);
    if step < 3 {
        let (k, outcome): (int, Result<Option<Seq<u8>>, E>) = choose|
            k: int,
            outcome: Result<Option<Seq<u8>>, E>,
        |
            0 <= k <= t.len() && #[trigger] sector_read(t.take(k), read_back_lba(g, step), outcome)
                && match read_back_verdict(outcome, read_back_test(g, step)) {
                Some(error) => k == t.len() && result == Err::<FormatGeometry, FormatError<E>>(
                    error,
                ),
                None => read_back(t.skip(k), g, step + 1, result),
            };
        replay_joins(m, t, k);
        sector_read_serves(m, t.take(k), read_back_lba(g, step), outcome);
        let next = replay(m, t.take(k))->0;
        read_back_succeeds(next, t.skip(k), g, media_sectors, step + 1, result);
    }
}

/// Sector `k` of a freshly formatted FAT.
pub open spec fn fresh_fat_sector(g: FormatGeometry, k: int) -> Seq<u8> {
    if k == 0 {
        fat_head()
    } else if k == g.fat_sectors - 1 && phantom_offset(g) != 0 {
        fat_end(g)
    } else {
        blank()
    }
}

/// The last write to sector `k` of FAT copy `copy`.
spec fn fat_write_index(g: FormatGeometry, copy: int, k: int) -> int {
    39 + copy * writes_per_fat(g) + if k == 0 {
        g.fat_sectors as int
    } else if k == g.fat_sectors - 1 && phantom_offset(g) != 0 {
        g.fat_sectors + 1
    } else {
        k
    }
}

proof fn image_holds_empty_fats(
    bytes: Seq<u8>,
    g: FormatGeometry,
    media_sectors: u32,
    copy: int,
    k: int,
)
    requires
        fits_medium(g, media_sectors),
        bytes.len() == 512 * media_sectors,
        copy == 0 || copy == 1,
        0 <= k < g.fat_sectors,
    ensures
        sector(
            image_after(bytes, g, media_sectors, write_count(g)),
            g.partition_start + RESERVED_SECTORS + copy * g.fat_sectors + k,
        ) == fresh_fat_sector(g, k),
{
    reveal(format_write);
    last_write_stays(bytes, g, media_sectors, write_count(g), fat_write_index(g, copy, k));
}

proof fn image_holds_empty_root(bytes: Seq<u8>, g: FormatGeometry, media_sectors: u32, k: int)
    requires
        fits_medium(g, media_sectors),
        bytes.len() == 512 * media_sectors,
        0 <= k < g.sectors_per_cluster,
    ensures
        sector(
            image_after(bytes, g, media_sectors, write_count(g)),
            g.partition_start + RESERVED_SECTORS + 2 * g.fat_sectors + k,
        ) == blank(),
{
    reveal(format_write);
    last_write_stays(
        bytes,
        g,
        media_sectors,
        write_count(g),
        39 + 2 * writes_per_fat(g) + k,
    );
}

/// `bytes` is a card that was just formatted with layout `g`: the probe finds the
/// volume in slot 0, no GPT header is left in its two places, the boot sector and the
/// FSInfo sector stand in the reserved area with their copies and nothing else, both FATs
/// are empty but for the reserved entries, the root directory and the marks behind the
/// last cluster, and the root directory's cluster is blank.
pub open spec fn freshly_formatted<E>(
    bytes: Seq<u8>,
    g: FormatGeometry,
    media_sectors: u32,
) -> bool {
    let first_fat = g.partition_start + RESERVED_SECTORS;
    &&& media_verdict::<E>(bytes, media_sectors as int) == Ok::<MediaLayout, ProbeError<E>>(
        MediaLayout {
            start_lba: g.partition_start,
            sector_count: g.partition_sectors,
            volume_serial: g.volume_serial,
            partition_index: 0,
            fat32: true,
        },
    )
    &&& sector(bytes, 0) == partition_table(g)
    &&& sector(bytes, 1) == blank()
    &&& sector(bytes, media_sectors - 1) == blank()
    &&& sector(bytes, g.partition_start as int) == boot_sector(g)
    &&& sector(bytes, g.partition_start + 1) == fsinfo_sector(g)
    &&& sector(bytes, g.partition_start + 6) == boot_sector(g)
    &&& sector(bytes, g.partition_start + 7) == fsinfo_sector(g)
    &&& forall|k: int|
        2 <= k < RESERVED_SECTORS && k != 6 && k != 7 ==> #[trigger] sector(
            bytes,
            g.partition_start + k,
        ) == blank()
    &&& forall|copy: int, k: int|
        (copy == 0 || copy == 1) && 0 <= k < g.fat_sectors ==> #[trigger] sector(
            bytes,
            first_fat + copy * g.fat_sectors + k,
        ) == fresh_fat_sector(g, k)
    &&& forall|k: int|
        0 <= k < g.sectors_per_cluster ==> #[trigger] sector(
            bytes,
            first_fat + 2 * g.fat_sectors + k,
        ) == blank()
}

/// Formatting a medium that keeps what is written to it succeeds, and leaves a
/// card that probes as the volume just made.
pub proof fn formatting_leaves_a_mountable_volume<E>(
    m: Medium,
    t: Seq<StorageEvent<E>>,
    g: FormatGeometry,
    media_sectors: u32,
    serial_seed: u32,
    result: Result<FormatGeometry, FormatError<E>>,
)
    requires
        media_sectors >= PARTITION_START + MIN_PARTITION_SECTORS,
        is_geometry_for(g, media_sectors, serial_seed),
        formatted(t, g, media_sectors, result),
        m.bytes.len() == 512 * media_sectors,
        replay(m, t) is Some,
    ensures
        result == Ok::<FormatGeometry, FormatError<E>>(g),
        freshly_formatted::<E>((replay(m, t)->0).bytes, g, media_sectors),
{
    let n = write_count(g);
    geometry_fits_medium(g, media_sectors, serial_seed);
    assert forall|error: E| !#[trigger] layout_refused(t, g, media_sectors, error) by {
        if layout_refused(t, g, media_sectors, error) {
            refusal_does_not_replay(m, t, g, media_sectors, error);
        }
    }
    replay_joins(m, t, 2 * n);
    writes_replay(m, t.take(2 * n), g, media_sectors, n);
    let mid = replay(m, t.take(2 * n))->0;
    let image = image_after(m.bytes, g, media_sectors, n);
    let back = t.skip(2 * n);
    assert(back[0] == t[2 * n]);
    assert(back.skip(1) =~= t.skip(2 * n + 1));
    image_holds_the_layout(m.bytes, g, media_sectors);
    read_back_succeeds(mid, back.skip(1), g, media_sectors, 0, result);
    assert((replay(m, t)->0).bytes == image);
    partition_table_fields(g, media_sectors);
    boot_sector_parses_back(g, media_sectors, serial_seed);
    let spc = g.sectors_per_cluster as int;
    assert(g.cluster_count * spc > spc) by (nonlinear_arith)
        requires
            g.cluster_count >= 2,
            spc >= 1,
    ;
    assert forall|k: int|
        2 <= k < RESERVED_SECTORS && k != 6 && k != 7 implies #[trigger] sector(
        image,
        g.partition_start + k,
    ) == blank() by {
        image_holds_blank_sectors(m.bytes, g, media_sectors, k);
    }
    image_holds_blank_sectors(m.bytes, g, media_sectors, 2);
    assert forall|copy: int, k: int|
        (copy == 0 || copy == 1) && 0 <= k < g.fat_sectors implies #[trigger] sector(
        image,
        g.partition_start + RESERVED_SECTORS + copy * g.fat_sectors + k,
    ) == fresh_fat_sector(g, k) by {
        image_holds_empty_fats(m.bytes, g, media_sectors, copy, k);
    }
    assert forall|k: int| 0 <= k < g.sectors_per_cluster implies #[trigger] sector(
        image,
        g.partition_start + RESERVED_SECTORS + 2 * g.fat_sectors + k,
    ) == blank() by {
        image_holds_empty_root(m.bytes, g, media_sectors, k);
    }
}

/// Every sector that formatting writes lies on the medium, and all but the partition
/// table and the places of the two GPT headers lie in the partition.
pub proof fn format_writes_stay_on_the_medium(
    g: FormatGeometry,
    media_sectors: u32,
    serial_seed: u32,
    i: int,
)
    requires
        media_sectors >= PARTITION_START + MIN_PARTITION_SECTORS,
        is_geometry_for(g, media_sectors, serial_seed),
        0 <= i < write_count(g),
    ensures
        format_write(g, media_sectors, i).lba < media_sectors,
        i >= 3 ==> g.partition_start <= format_write(g, media_sectors, i).lba,
{
    reveal(format_write);
    geometry_fits_medium(g, media_sectors, serial_seed);
}

/// Each sector that is read is delivered as it stands on the card.
pub open spec fn sectors_delivered<D, F>(t: Seq<Call<D, F>>, bytes: Seq<u8>) -> bool {
    forall|i: int|
        0 <= i < t.len() ==> (#[trigger] t[i] matches Call::ReadSector { lba, reply } && (
        reply matches Some(contents) && contents@ == sector(bytes, lba as int)))
}

/// A card that was just formatted has all of its clusters free but the one of the root
/// directory, and that is what is measured.
pub proof fn fresh_cards_are_free_but_for_their_root<D, F, E>(
    t: Seq<Call<D, F>>,
    bytes: Seq<u8>,
    g: FormatGeometry,
    media_sectors: u32,
    serial_seed: u32,
    result: Option<u64>,
)
    requires
        media_sectors >= PARTITION_START + MIN_PARTITION_SECTORS,
        is_geometry_for(g, media_sectors, serial_seed),
        freshly_formatted::<E>(bytes, g, media_sectors),
        sectors_delivered(t, bytes),
        space_measured(t, g.partition_start, result),
    ensures
        result == Some(((g.cluster_count - 1) * g.sectors_per_cluster * 512) as u64),
{
    boot_sector_parses_back(g, media_sectors, serial_seed);
    geometry_fits_medium(g, media_sectors, serial_seed);
    fsinfo_fields(g);
    measured_from_fsinfo(
        t,
        bytes,
        g.partition_start,
        boot_sector(g),
        formatted_volume(g),
        fsinfo_sector(g),
        result,
    );
}

/// What is measured on a FAT32 volume whose FSInfo sector stands behind the boot sector.
proof fn measured_from_fsinfo<D, F>(
    t: Seq<Call<D, F>>,
    bytes: Seq<u8>,
    start: u32,
    boot: Seq<u8>,
    volume: VolumeGeometry,
    info: Seq<u8>,
    result: Option<u64>,
)
    requires
        sectors_delivered(t, bytes),
        space_measured(t, start, result),
        start < u32::MAX,
        sector(bytes, start as int) == boot,
        boot_sector_of(boot) == BootSector::Fat(volume),
        volume.fat32,
        volume.fsinfo_sector == 1,
        sector(bytes, start + 1) == info,
        le32(info, 0) == 0x4161_5252,
        le32(info, 484) == 0x6141_7272,
    ensures
        result == free_bytes(volume, Some(le32(info, 488))),
{
    let u = t.skip(1);
    assert(t[0] matches Call::ReadSector { .. });
    let free = choose|free: Option<int>| #[trigger]
        free_clusters_found(u, start as int, volume, free) && result == free_bytes(volume, free);
    assert(u[0] == t[1]);
}

} // verus!
