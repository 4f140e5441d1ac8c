//! The layout of a freshly formatted FAT32 card.
use vstd::prelude::*;

use crate::boot::{sectors_for, FAT32_MAX_CLUSTERS, FAT32_MIN_CLUSTERS};

verus! {

/// First sector of the single partition that formatting creates.
pub const PARTITION_START: u32 = 2_048;

/// Sectors before the first FAT of a formatted volume.
pub const RESERVED_SECTORS: u32 = 32;

/// The smallest partition that reaches the FAT32 cluster minimum: the reserved
/// sectors, two 512-sector FATs at one sector per cluster, and the data.
pub const MIN_PARTITION_SECTORS: u32 = 32 + 2 * 512 + 65_525;

/// The layout that formatting gives a medium.
#[derive(Clone, Copy, Debug, PartialEq, Eq, Structural)]
pub struct FormatGeometry {
    pub partition_start: u32,
    pub partition_sectors: u32,
    pub sectors_per_cluster: u8,
    pub fat_sectors: u32,
    pub cluster_count: u32,
    pub volume_serial: u32,
}

#[derive(Debug, PartialEq, Eq)]
pub enum FormatError<E> {
    Io(E),
    TooSmall,
    InvalidGeometry,
    VerifyFailed,
}

/// Clusters left on a partition behind two FATs of `fat_sectors` each.
pub open spec fn clusters_behind(partition_sectors: int, spc: int, fat_sectors: int) -> int {
    (partition_sectors - RESERVED_SECTORS - 2 * fat_sectors) / spc
}

/// Sectors that a FAT needs for the clusters behind FATs of `fat_sectors`.
pub open spec fn fat_needed(partition_sectors: int, spc: int, fat_sectors: int) -> int {
    sectors_for((clusters_behind(partition_sectors, spc, fat_sectors) + 2) * 4)
}

/// A FAT of this size needs exactly this size.
pub open spec fn settles(partition_sectors: int, spc: int, fat_sectors: int) -> bool {
    &&& fat_sectors >= 1
    &&& RESERVED_SECTORS + 2 * fat_sectors < partition_sectors
    &&& fat_needed(partition_sectors, spc, fat_sectors) == fat_sectors
}

/// A FAT of this size settles, with a number of clusters that FAT32 allows.
pub open spec fn workable(partition_sectors: int, spc: int, fat_sectors: int) -> bool {
    &&& settles(partition_sectors, spc, fat_sectors)
    &&& FAT32_MIN_CLUSTERS <= clusters_behind(partition_sectors, spc, fat_sectors)
        <= FAT32_MAX_CLUSTERS
}

/// Sectors per cluster that suit a partition of this size best.
pub open spec fn preferred_cluster(partition_sectors: int) -> int {
    if partition_sectors <= 532_480 {
        1
    } else if partition_sectors <= 16_777_216 {
        8
    } else if partition_sectors <= 33_554_432 {
        16
    } else if partition_sectors <= 67_108_864 {
        32
    } else {
        64
    }
}

pub open spec fn is_cluster_size(spc: int) -> bool {
    spc == 1 || spc == 2 || spc == 4 || spc == 8 || spc == 16 || spc == 32 || spc == 64
}

pub open spec fn distance(a: int, b: int) -> int {
    if a <= b { b - a } else { a - b }
}

/// The serial of a formatted volume. The seed is mixed in so that two cards of
/// one size do not share a serial.
pub open spec fn serial_of(media_sectors: u32, serial_seed: u32) -> u32 {
    0x5749_4f00u32 ^ media_sectors ^ ((serial_seed * 0x9e37_79b9) % 0x1_0000_0000) as u32
}

/// `g` is the layout for a medium: a workable one with the cluster size nearest
/// to the preferred one.
pub open spec fn is_geometry_for(g: FormatGeometry, media_sectors: u32, serial_seed: u32) -> bool {
    let partition: int = media_sectors - PARTITION_START;
    let spc = g.sectors_per_cluster as int;
    &&& g.partition_start == PARTITION_START
    &&& g.partition_sectors == partition
    &&& is_cluster_size(spc)
    &&& workable(partition, spc, g.fat_sectors as int)
    &&& g.cluster_count == clusters_behind(partition, spc, g.fat_sectors as int)
    &&& g.volume_serial == serial_of(media_sectors, serial_seed)
    &&& forall|nearer: int, fat: int|
        is_cluster_size(nearer) && distance(preferred_cluster(partition), nearer) < distance(
            preferred_cluster(partition),
            spc,
        ) ==> !#[trigger] workable(partition, nearer, fat)
}

/// No layout exists for a medium of this size: whatever the cluster size, either
/// no FAT size settles or the number of clusters is out of range.
pub open spec fn no_cluster_size_works(media_sectors: u32) -> bool {
    forall|spc: int, fat: int|
        is_cluster_size(spc) ==> !#[trigger] workable(media_sectors - PARTITION_START, spc, fat)
}

/// A bigger FAT leaves room for no more clusters, and for fewer by a margin that
/// the difference bounds.
proof fn fat_needed_moves_little(p: int, spc: int, a: int, b: int)
    requires
        spc >= 1,
        a <= b,
        RESERVED_SECTORS + 2 * b <= p,
    ensures
        fat_needed(p, spc, b) <= fat_needed(p, spc, a) <= fat_needed(p, spc, b) + (b - a) / 64 + 1,
{
    let x = p - 32 - 2 * a;
    let y = p - 32 - 2 * b;
    let cx = x / spc;
    let cy = y / spc;
    assert(cy <= cx && cx - cy <= 2 * (b - a) + 1) by (nonlinear_arith)
        requires
            cx == x / spc,
            cy == y / spc,
            x - y == 2 * (b - a),
            a <= b,
            0 <= y,
            spc >= 1,
    {
        assert(spc * cx <= x && x < spc * cx + spc);
        assert(spc * cy <= y && y < spc * cy + spc);
        assert(spc * (cx - cy) < 2 * (b - a) + spc);
        assert(2 * (b - a) <= spc * (2 * (b - a)));
        assert(spc * (cx - cy) < spc * (2 * (b - a) + 1));
    };
}

/// Two FAT sizes cannot both settle.
proof fn settled_size_is_unique(p: int, spc: int, a: int, b: int)
    requires
        spc >= 1,
        settles(p, spc, a),
        settles(p, spc, b),
    ensures
        a == b,
{
    if a < b {
        fat_needed_moves_little(p, spc, a, b);
    } else if b < a {
        fat_needed_moves_little(p, spc, b, a);
    }
}

/// How near to the settled size `s` the search is after `steps` corrections.
pub open spec fn near(p: int, spc: int, steps: int, f: int, s: int) -> bool {
    let d = distance(f, s);
    if steps <= 0 {
        d <= 0x400_0000
    } else if steps == 1 {
        d <= 0x10_0001
    } else if steps == 2 {
        d <= 0x4001
    } else if steps == 3 {
        d <= 0x101
    } else if steps == 4 {
        d <= 5
    } else if steps == 5 {
        d <= 1
    } else if steps == 6 {
        ||| f == s
        ||| f == s + 1 && fat_needed(p, spc, s - 1) == s + 1
        ||| f == s - 1 && fat_needed(p, spc, s + 1) == s - 1
    } else {
        f == s
    }
}

proof fn search_closes_in(p: int, spc: int, steps: int, f: int, s: int)
    requires
        spc >= 1,
        p >= MIN_PARTITION_SECTORS,
        settles(p, spc, s),
        f >= 1,
        RESERVED_SECTORS + 2 * f < p,
        near(p, spc, steps, f, s),
        steps >= 0,
        2 * s + 40 < p,
    ensures
        near(p, spc, steps + 1, fat_needed(p, spc, f), s),
{
    if f <= s {
        fat_needed_moves_little(p, spc, f, s);
    } else {
        fat_needed_moves_little(p, spc, s, f);
    }
    if steps == 6 {
        fat_needed_moves_little(p, spc, s - 1, s + 1);
        fat_needed_moves_little(p, spc, s - 1, s);
        fat_needed_moves_little(p, spc, s, s + 1);
    }
}

/// No FAT size in question is large against the partition.
proof fn fat_needed_is_small(p: int, spc: int, f: int)
    requires
        spc >= 1,
        MIN_PARTITION_SECTORS <= p <= 0xffff_ffff,
        f >= 1,
        RESERVED_SECTORS + 2 * f <= p,
    ensures
        1 <= fat_needed(p, spc, f) <= p / 128 + 2,
        0 <= clusters_behind(p, spc, f) <= p,
{
    let y = p - 32 - 2 * f;
    let c = y / spc;
    assert(0 <= c <= y) by (nonlinear_arith)
        requires
            c == y / spc,
            0 <= y,
            spc >= 1,
    ;
}

/// The FAT size that settles for clusters of `spc` sectors, if there is one.
fn settled_fat_size(partition_sectors: u32, spc: u32) -> (found: Option<u32>)
    requires
        1 <= spc <= 64,
        partition_sectors >= MIN_PARTITION_SECTORS,
    ensures
        found matches Some(f) ==> settles(partition_sectors as int, spc as int, f as int),
        found is None ==> forall|f: int| !settles(partition_sectors as int, spc as int, f),
{
    let ghost p = partition_sectors as int;
    let ghost c = spc as int;
    let mut fat_sectors: u32 = 1;
    let mut steps: u8 = 0;
    proof {
        assert forall|s: int| settles(p, c, s) implies near(p, c, 0, 1, s) by {
            fat_needed_is_small(p, c, s);
        }
    }
    while steps < 32
        invariant
            p == partition_sectors,
            c == spc,
            1 <= spc <= 64,
            partition_sectors >= MIN_PARTITION_SECTORS,
            steps <= 32,
            1 <= fat_sectors <= p / 128 + 2,
            forall|s: int| settles(p, c, s) ==> #[trigger] near(p, c, steps as int, fat_sectors as int, s),
            steps >= 8 ==> forall|s: int| !settles(p, c, s),
        decreases 32 - steps,
    {
        let overhead: u32 = RESERVED_SECTORS + 2 * fat_sectors;
        proof {
            fat_needed_is_small(p, c, fat_sectors as int);
        }
        let clusters: u32 = (partition_sectors - overhead) / spc;
        let next: u32 = (((clusters as u64 + 2) * 4 + 511) / 512) as u32;
        if next == fat_sectors {
            return Some(fat_sectors);
        }
        proof {
            assert forall|s: int| settles(p, c, s) implies #[trigger] near(
                p,
                c,
                steps + 1,
                next as int,
                s,
            ) by {
                fat_needed_is_small(p, c, s);
                search_closes_in(p, c, steps as int, fat_sectors as int, s);
            }
            if steps >= 7 {
                assert forall|s: int| !settles(p, c, s) by {
                    if settles(p, c, s) {
                        assert(near(p, c, steps as int, fat_sectors as int, s));
                    }
                }
            }
        }
        fat_sectors = next;
        steps = steps + 1;
    }
    None
}

/// The cluster sizes, nearest to the preferred one first.
fn cluster_sizes(partition_sectors: u32) -> (sizes: [u8; 7])
    ensures
        forall|i: int| 0 <= i < 7 ==> is_cluster_size(#[trigger] sizes@[i] as int),
        forall|i: int, j: int|
            #![trigger sizes@[i], sizes@[j]]
            0 <= i < j < 7 ==> distance(
                preferred_cluster(partition_sectors as int),
                sizes@[i] as int,
            ) < distance(preferred_cluster(partition_sectors as int), sizes@[j] as int),
        forall|spc: int| is_cluster_size(spc) ==> exists|i: int| 0 <= i < 7 && #[trigger] sizes@[i] == spc,
{
    let sizes: [u8; 7] = if partition_sectors <= 532_480 {
        [1, 2, 4, 8, 16, 32, 64]
    } else if partition_sectors <= 16_777_216 {
        [8, 4, 2, 1, 16, 32, 64]
    } else if partition_sectors <= 33_554_432 {
        [16, 8, 4, 2, 1, 32, 64]
    } else if partition_sectors <= 67_108_864 {
        [32, 16, 8, 4, 2, 1, 64]
    } else {
        [64, 32, 16, 8, 4, 2, 1]
    };
    proof {
        let s = sizes@;
        assert forall|spc: int| is_cluster_size(spc) implies exists|i: int|
            0 <= i < 7 && #[trigger] s[i] == spc by {
            assert(s[0] == spc || s[1] == spc || s[2] == spc || s[3] == spc || s[4] == spc || s[5]
                == spc || s[6] == spc);
        }
    }
    sizes
}

/// The layout for a medium of `media_sectors` sectors.
pub fn fat32_geometry(media_sectors: u32, serial_seed: u32) -> (result: Result<
    FormatGeometry,
    FormatError<core::convert::Infallible>,
>)
    ensures
        result matches Ok(g) ==> is_geometry_for(g, media_sectors, serial_seed),
        result matches Err(error) ==> error is TooSmall || error is InvalidGeometry,
        (result matches Err(error) && error is TooSmall) <==> media_sectors < PARTITION_START
            + MIN_PARTITION_SECTORS,
        (result matches Err(error) && error is InvalidGeometry) <==> media_sectors
            >= PARTITION_START + MIN_PARTITION_SECTORS && no_cluster_size_works(media_sectors),
{
    if media_sectors < PARTITION_START + MIN_PARTITION_SECTORS {
        return Err(FormatError::TooSmall);
    }
    let partition_sectors: u32 = media_sectors - PARTITION_START;
    let ghost p = partition_sectors as int;
    let sizes = cluster_sizes(partition_sectors);
    for i in 0..7usize
        invariant
            p == partition_sectors,
            partition_sectors >= MIN_PARTITION_SECTORS,
            partition_sectors == media_sectors - PARTITION_START,
            forall|j: int| 0 <= j < 7 ==> is_cluster_size(#[trigger] sizes@[j] as int),
            forall|j: int, k: int|
                #![trigger sizes@[j], sizes@[k]]
                0 <= j < k < 7 ==> distance(preferred_cluster(p), sizes@[j] as int) < distance(
                    preferred_cluster(p),
                    sizes@[k] as int,
                ),
            forall|spc: int| is_cluster_size(spc) ==> exists|j: int| 0 <= j < 7 && #[trigger] sizes@[j] == spc,
            forall|j: int, fat: int| 0 <= j < i ==> !#[trigger] workable(p, sizes@[j] as int, fat),
    {
        let spc: u32 = sizes[i] as u32;
        assert(is_cluster_size(sizes@[i as int] as int));
        let found = settled_fat_size(partition_sectors, spc);
        if let Some(fat_sectors) = found {
            proof {
                fat_needed_is_small(p, spc as int, fat_sectors as int);
            }
            let clusters: u32 = (partition_sectors - RESERVED_SECTORS - 2 * fat_sectors) / spc;
            if FAT32_MIN_CLUSTERS <= clusters && clusters <= FAT32_MAX_CLUSTERS {
                let g = FormatGeometry {
                    partition_start: PARTITION_START,
                    partition_sectors,
                    sectors_per_cluster: sizes[i],
                    fat_sectors,
                    cluster_count: clusters,
                    volume_serial: 0x5749_4f00u32 ^ media_sectors ^ serial_seed.wrapping_mul(
                        0x9e37_79b9,
                    ),
                };
                proof {
                    assert forall|nearer: int, fat: int|
                        is_cluster_size(nearer) && distance(preferred_cluster(p), nearer) < distance(
                            preferred_cluster(p),
                            spc as int,
                        ) implies !#[trigger] workable(p, nearer, fat) by {
                        let j = choose|j: int| 0 <= j < 7 && #[trigger] sizes@[j] == nearer;
                        assert(sizes@[i as int] == spc);
                    }
                    assert(workable(p, spc as int, fat_sectors as int));
                }
                return Ok(g);
            }
        }
        proof {
            assert forall|fat: int| !#[trigger] workable(p, sizes@[i as int] as int, fat) by {
                if settles(p, spc as int, fat) && found is Some {
                    settled_size_is_unique(p, spc as int, fat, found->0 as int);
                }
            }
        }
    }
    proof {
        assert forall|spc: int, fat: int| is_cluster_size(spc) implies !#[trigger] workable(p, spc, fat) by {
            let j = choose|j: int| 0 <= j < 7 && #[trigger] sizes@[j] == spc;
            assert(!workable(p, sizes@[j] as int, fat));
        }
    }
    Err(FormatError::InvalidGeometry)
}

/// A medium has at most one layout for a given seed.
pub proof fn geometry_is_unique(
    a: FormatGeometry,
    b: FormatGeometry,
    media_sectors: u32,
    serial_seed: u32,
)
    requires
        is_geometry_for(a, media_sectors, serial_seed),
        is_geometry_for(b, media_sectors, serial_seed),
    ensures
        a == b,
{
    let p: int = media_sectors - PARTITION_START;
    assert(workable(p, a.sectors_per_cluster as int, a.fat_sectors as int));
    assert(workable(p, b.sectors_per_cluster as int, b.fat_sectors as int));
    assert(a.sectors_per_cluster == b.sectors_per_cluster);
    settled_size_is_unique(
        p,
        a.sectors_per_cluster as int,
        a.fat_sectors as int,
        b.fat_sectors as int,
    );
}

} // verus!
