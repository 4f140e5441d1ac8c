//! The layout that formatting gives a card, in numbers and bytes.
use vstd::prelude::*;

use crate::format::{boot_sector, fat_head, fsinfo_sector, partition_table};
use crate::geometry::{
    clusters_behind, is_geometry_for, preferred_cluster, serial_of, workable, FormatGeometry,
};
use crate::volume_laws::stored_low_first;

verus! {

/// A formatted card has one partition, from the first mebibyte to its end. Behind 32 reserved
/// sectors come two tables of one size, each just large enough for its clusters, and behind
/// them the clusters, as many as fit, which are enough and not too many for FAT32.
pub proof fn layouts_fill_the_card(g: FormatGeometry, media_sectors: u32, serial_seed: u32)
    requires
        is_geometry_for(g, media_sectors, serial_seed),
    ensures
        g.partition_start == 2_048,
        g.partition_start + g.partition_sectors == media_sectors,
        512 * (g.fat_sectors - 1) < 4 * (g.cluster_count + 2) <= 512 * g.fat_sectors,
        65_525 <= g.cluster_count <= 0x0fff_fff5,
        32 + 2 * g.fat_sectors + g.cluster_count * g.sectors_per_cluster <= g.partition_sectors,
        g.partition_sectors < 32 + 2 * g.fat_sectors + (g.cluster_count + 1) * g.sectors_per_cluster,
{
    let spc = g.sectors_per_cluster as int;
    let room = g.partition_sectors - 32 - 2 * g.fat_sectors;
    let count = clusters_behind(g.partition_sectors as int, spc, g.fat_sectors as int);
    vstd::arithmetic::div_mod::lemma_fundamental_div_mod(room, spc);
    vstd::arithmetic::div_mod::lemma_mod_bound(room, spc);
    assert(spc * count == count * spc && (count + 1) * spc == count * spc + spc) by (nonlinear_arith);
}

/// The larger the partition, the larger its clusters: a sector up to 260 MiB, then 4 KiB up to
/// 8 GiB, 8 KiB up to 16 GiB, 16 KiB up to 32 GiB, and 32 KiB beyond. That is the size of the
/// clusters wherever a volume can be laid out with it.
pub proof fn clusters_grow_with_the_card(
    g: FormatGeometry,
    media_sectors: u32,
    serial_seed: u32,
    fat: int,
)
    requires
        is_geometry_for(g, media_sectors, serial_seed),
    ensures
        ({
            let bytes = g.partition_sectors as int * 512;
            let fitting: int = if bytes <= 260 * 0x10_0000 {
                1
            } else if bytes <= 8 * 0x4000_0000 {
                8
            } else if bytes <= 16 * 0x4000_0000 {
                16
            } else if bytes <= 32 * 0x4000_0000 {
                32
            } else {
                64
            };
            &&& preferred_cluster(g.partition_sectors as int) == fitting
            &&& workable(g.partition_sectors as int, fitting, fat) ==> g.sectors_per_cluster
                == fitting
        }),
{
}

/// Two cards of one size that are formatted with different seeds have different serial
/// numbers.
pub proof fn seeds_tell_cards_apart(media_sectors: u32, a: u32, b: u32)
    requires
        serial_of(media_sectors, a) == serial_of(media_sectors, b),
    ensures
        a == b,
{
    let x = ((a * 0x9e37_79b9) % 0x1_0000_0000) as u32;
    let y = ((b * 0x9e37_79b9) % 0x1_0000_0000) as u32;
    let front = 0x5749_4f00u32 ^ media_sectors;
    assert(front ^ x == front ^ y ==> x == y) by (bit_vector);
    unmixed(a);
    unmixed(b);
}

/// Mixing can be undone: the factor has an inverse.
proof fn unmixed(a: u32)
    ensures
        (0x144c_bc89 * ((a * 0x9e37_79b9) % 0x1_0000_0000)) % 0x1_0000_0000 == a,
{
    let m = 0x1_0000_0000int;
    let k = 0x9e37_79b9int;
    let i = 0x144c_bc89int;
    vstd::arithmetic::div_mod::lemma_mul_mod_noop_right(i, a * k, m);
    assert((i * k) % m == 1);
    assert(i * (a * k) == a * ((i * k) / m) * m + a) by (nonlinear_arith)
        requires
            i * k == ((i * k) / m) * m + 1,
            m == 0x1_0000_0000int,
    ;
    vstd::arithmetic::div_mod::lemma_mod_multiples_vanish(a * ((i * k) / m), a as int, m);
    assert(m * (a * ((i * k) / m)) + a == a * ((i * k) / m) * m + a) by (nonlinear_arith);
}

proof fn low_first(value: u32)
    ensures
        stored_low_first(crate::bytes::le32_bytes(value), value as int),
{
    reveal_with_fuel(stored_low_first, 5);
    let four = crate::bytes::le32_bytes(value);
    let v = value as int;
    assert(four.skip(1)[0] == four[1]);
    assert(four.skip(1).skip(1)[0] == four[2]);
    assert(four.skip(1).skip(1).skip(1)[0] == four[3]);
    assert(four.skip(1).skip(1).skip(1).skip(1).len() == 0);
    assert(v / 0x100 / 0x100 == v / 0x1_0000);
    assert(v / 0x1_0000 / 0x100 == v / 0x100_0000);
    assert(v / 0x100_0000 / 0x100 == 0);
}

/// The table in the first sector has one slot in use, which is not bootable, of the type of
/// FAT32, and covers the partition. The other three are empty.
pub proof fn partition_tables_have_one_slot(g: FormatGeometry)
    ensures
        ({
            let s = partition_table(g);
            &&& s.len() == 512
            &&& s[446] == 0 && s[450] == 0x0c
            &&& stored_low_first(s.subrange(454, 458), g.partition_start as int)
            &&& stored_low_first(s.subrange(458, 462), g.partition_sectors as int)
            &&& forall|i: int| 462 <= i < 510 ==> #[trigger] s[i] == 0
            &&& s[510] == 0x55 && s[511] == 0xaa
        }),
{
    let s = partition_table(g);
    low_first(g.partition_start);
    low_first(g.partition_sectors);
    assert(s.subrange(454, 458) =~= crate::bytes::le32_bytes(g.partition_start));
    assert(s.subrange(458, 462) =~= crate::bytes::le32_bytes(g.partition_sectors));
}

/// A boot sector begins with a jump over its fields, says how many sectors come before the
/// partition, puts the root directory in the first cluster and the copies behind the sixth
/// sector, and bears the label and the name of its filesystem.
pub proof fn boot_sectors_have_their_fields(g: FormatGeometry)
    ensures
        ({
            let s = boot_sector(g);
            &&& s.len() == 512
            &&& s[0] == 0xeb && s[1] == 0x58 && s[2] == 0x90
            &&& s.subrange(3, 11) == seq![0x57u8, 0x49, 0x4f, 0x45, 0x44, 0x49, 0x54, 0x20]
            &&& s[13] == g.sectors_per_cluster
            &&& s[14] == 32 && s[15] == 0
            &&& s[16] == 2
            &&& s[21] == 0xf8
            &&& stored_low_first(s.subrange(28, 32), g.partition_start as int)
            &&& stored_low_first(s.subrange(32, 36), g.partition_sectors as int)
            &&& stored_low_first(s.subrange(36, 40), g.fat_sectors as int)
            &&& stored_low_first(s.subrange(44, 48), 2)
            &&& s[48] == 1 && s[49] == 0
            &&& s[50] == 6 && s[51] == 0
            &&& s[66] == 0x29
            &&& stored_low_first(s.subrange(67, 71), g.volume_serial as int)
            &&& s.subrange(71, 82) == seq![
                0x57u8,
                0x49,
                0x4f,
                0x2d,
                0x54,
                0x45,
                0x52,
                0x4d,
                0x20,
                0x20,
                0x20,
            ]
            &&& s.subrange(82, 90) == seq![0x46u8, 0x41, 0x54, 0x33, 0x32, 0x20, 0x20, 0x20]
            &&& s[510] == 0x55 && s[511] == 0xaa
        }),
{
    let s = boot_sector(g);
    low_first(g.partition_start);
    low_first(g.partition_sectors);
    low_first(g.fat_sectors);
    low_first(2);
    low_first(g.volume_serial);
    assert(s.subrange(3, 11) =~= seq![0x57u8, 0x49, 0x4f, 0x45, 0x44, 0x49, 0x54, 0x20]);
    assert(s.subrange(28, 32) =~= crate::bytes::le32_bytes(g.partition_start));
    assert(s.subrange(32, 36) =~= crate::bytes::le32_bytes(g.partition_sectors));
    assert(s.subrange(36, 40) =~= crate::bytes::le32_bytes(g.fat_sectors));
    assert(s.subrange(44, 48) =~= crate::bytes::le32_bytes(2));
    assert(s.subrange(67, 71) =~= crate::bytes::le32_bytes(g.volume_serial));
    assert(s.subrange(71, 82) =~= seq![
        0x57u8,
        0x49,
        0x4f,
        0x2d,
        0x54,
        0x45,
        0x52,
        0x4d,
        0x20,
        0x20,
        0x20,
    ]);
    assert(s.subrange(82, 90) =~= seq![0x46u8, 0x41, 0x54, 0x33, 0x32, 0x20, 0x20, 0x20]);
}

/// The first sector of a table holds its two reserved entries and the end of the root
/// directory; every other entry in it is free. The sector that counts the free clusters says
/// that all but one are, and that the third is the next to try.
pub proof fn fresh_tables_hold_the_root(g: FormatGeometry)
    requires
        g.cluster_count >= 1,
    ensures
        fat_head().take(12) == seq![
            0xf8u8,
            0xff,
            0xff,
            0x0f,
            0xff,
            0xff,
            0xff,
            0xff,
            0xff,
            0xff,
            0xff,
            0x0f,
        ],
        forall|i: int| 12 <= i < 512 ==> #[trigger] fat_head()[i] == 0,
        stored_low_first(fsinfo_sector(g).subrange(488, 492), g.cluster_count - 1),
        stored_low_first(fsinfo_sector(g).subrange(492, 496), 3),
        fsinfo_sector(g)[510] == 0x55 && fsinfo_sector(g)[511] == 0xaa,
{
    let s = fsinfo_sector(g);
    low_first((g.cluster_count - 1) as u32);
    low_first(3);
    assert(s.subrange(488, 492) =~= crate::bytes::le32_bytes((g.cluster_count - 1) as u32));
    assert(s.subrange(492, 496) =~= crate::bytes::le32_bytes(3));
    assert(fat_head().take(12) =~= seq![
        0xf8u8,
        0xff,
        0xff,
        0x0f,
        0xff,
        0xff,
        0xff,
        0xff,
        0xff,
        0xff,
        0xff,
        0x0f,
    ]);
}

} // verus!
