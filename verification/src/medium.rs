//! What probing and formatting mean on a medium that keeps what is written to it.
use vstd::prelude::*;

use crate::boot::{
    boot_sector_of, first_sector_verdict, is_unsupported_boot, layout_of, nothing_mountable, probed,
    slot_count, slot_decided, slot_start, slot_use, slots_probed, BootSector, MediaLayout,
    ProbeError, SlotUse,
};
use crate::bytes::overwritten;
use crate::storage::{sector_filled, sector_read, StorageEvent};

verus! {

/// An array of bytes with a position.
pub struct Medium {
    pub bytes: Seq<u8>,
    pub at: int,
}

/// The medium after `event`, or `None` if a byte array would not have replied so.
/// A read may stop short, but delivers something before the end.
pub open spec fn served<E>(m: Medium, event: StorageEvent<E>) -> Option<Medium> {
    match event {
        StorageEvent::Seek { offset, reply } => if reply is Ok {
            Some(Medium { bytes: m.bytes, at: offset as int })
        } else {
            None
        },
        StorageEvent::Read { limit, reply } => match reply {
            Ok(bytes) => if bytes.len() <= limit && 0 <= m.at && m.at + bytes.len() <= m.bytes.len()
                && bytes == m.bytes.subrange(m.at, m.at + bytes.len()) && (bytes.len() > 0 || limit
                == 0 || m.at == m.bytes.len()) {
                Some(Medium { bytes: m.bytes, at: m.at + bytes.len() })
            } else {
                None
            },
            Err(_) => None,
        },
        StorageEvent::Write { bytes, reply } => if reply is Ok && 0 <= m.at && m.at + bytes.len()
            <= m.bytes.len() {
            Some(Medium { bytes: overwritten(m.bytes, m.at, bytes), at: m.at + bytes.len() })
        } else {
            None
        },
        StorageEvent::Flush { reply } => if reply is Ok {
            Some(m)
        } else {
            None
        },
    }
}

/// The medium after all of `t`, or `None` if a byte array would not have replied so.
pub open spec fn replay<E>(m: Medium, t: Seq<StorageEvent<E>>) -> Option<Medium>
    decreases t.len(),
{
    if t.len() == 0 {
        Some(m)
    } else {
        match served(m, t[0]) {
            None => None,
            Some(next) => replay(next, t.skip(1)),
        }
    }
}

/// Sector `lba` of a byte array.
pub open spec fn sector(bytes: Seq<u8>, lba: int) -> Seq<u8> {
    bytes.subrange(512 * lba, 512 * lba + 512)
}

/// A replay can be cut anywhere.
pub proof fn replay_joins<E>(m: Medium, t: Seq<StorageEvent<E>>, k: int)
    requires
        0 <= k <= t.len(),
        replay(m, t) is Some,
    ensures
        replay(m, t.take(k)) is Some,
        replay(replay(m, t.take(k))->0, t.skip(k)) == replay(m, t),
    decreases k,
{
    if k == 0 {
        assert(t.skip(0) =~= t);
    } else {
        let next = served(m, t[0])->0;
        replay_joins(next, t.skip(1), k - 1);
        assert(t.take(k).skip(1) =~= t.skip(1).take(k - 1));
        assert(t.skip(1).skip(k - 1) =~= t.skip(k));
    }
}

proof fn filling_serves<E>(
    m: Medium,
    t: Seq<StorageEvent<E>>,
    start: int,
    done: Seq<u8>,
    outcome: Result<Option<Seq<u8>>, E>,
)
    requires
        sector_filled(t, done, outcome),
        replay(m, t) is Some,
        0 <= start,
        start + 512 <= m.bytes.len(),
        done.len() <= 512,
        m.at == start + done.len(),
        done == m.bytes.subrange(start, start + done.len()),
    ensures
        outcome == Ok::<Option<Seq<u8>>, E>(Some(m.bytes.subrange(start, start + 512))),
        (replay(m, t)->0).bytes == m.bytes,
    decreases t.len(),
{
    if done.len() < 512 {
        let next = served(m, t[0])->0;
        match t[0] {
            StorageEvent::Read { limit, reply } => {
                let bytes = reply->Ok_0;
                assert(done + bytes =~= m.bytes.subrange(start, start + (done + bytes).len()));
                filling_serves(next, t.skip(1), start, done + bytes, outcome);
            },
            _ => {},
        }
    }
}

/// Reading a sector of a byte array delivers that sector and changes nothing.
pub proof fn sector_read_serves<E>(
    m: Medium,
    t: Seq<StorageEvent<E>>,
    lba: u32,
    outcome: Result<Option<Seq<u8>>, E>,
)
    requires
        sector_read(t, lba, outcome),
        replay(m, t) is Some,
        512 * lba + 512 <= m.bytes.len(),
    ensures
        outcome == Ok::<Option<Seq<u8>>, E>(Some(sector(m.bytes, lba as int))),
        (replay(m, t)->0).bytes == m.bytes,
{
    let next = served(m, t[0])->0;
    assert(next.bytes.subrange(512 * lba, 512 * lba + 0) =~= Seq::<u8>::empty());
    filling_serves(next, t.skip(1), 512 * lba, Seq::empty(), outcome);
}

/// The verdict on a byte array from slot `index` of its partition table on.
pub open spec fn slots_verdict<E>(
    bytes: Seq<u8>,
    media_sectors: int,
    index: int,
    saw_unsupported: bool,
) -> Result<MediaLayout, ProbeError<E>>
    decreases 4 - index,
{
    let mbr = sector(bytes, 0);
    if index >= 4 {
        nothing_mountable(saw_unsupported)
    } else {
        match slot_use(mbr, media_sectors, index) {
            SlotUse::Skip => slots_verdict(bytes, media_sectors, index + 1, saw_unsupported),
            SlotUse::Unsupported => slots_verdict(bytes, media_sectors, index + 1, true),
            SlotUse::Candidate => match boot_sector_of(sector(bytes, slot_start(mbr, index))) {
                BootSector::Fat(g) => if g.total_sectors <= slot_count(mbr, index) {
                    Ok(layout_of(g, slot_start(mbr, index) as u32, index as u8))
                } else {
                    slots_verdict(bytes, media_sectors, index + 1, saw_unsupported)
                },
                other => slots_verdict(
                    bytes,
                    media_sectors,
                    index + 1,
                    saw_unsupported || is_unsupported_boot(other),
                ),
            },
        }
    }
}

/// The verdict on a byte array.
pub open spec fn media_verdict<E>(bytes: Seq<u8>, media_sectors: int) -> Result<
    MediaLayout,
    ProbeError<E>,
> {
    match first_sector_verdict::<E>(sector(bytes, 0), media_sectors) {
        Some(verdict) => verdict,
        None => slots_verdict(bytes, media_sectors, 0, false),
    }
}

proof fn slots_probe_serves<E>(
    m: Medium,
    t: Seq<StorageEvent<E>>,
    media_sectors: int,
    index: int,
    saw_unsupported: bool,
    verdict: Result<MediaLayout, ProbeError<E>>,
)
    requires
        0 <= index <= 4,
        slots_probed(t, sector(m.bytes, 0), media_sectors, index, saw_unsupported, verdict),
        replay(m, t) is Some,
        512 * media_sectors <= m.bytes.len(),
        512 <= m.bytes.len(),
    ensures
        verdict == slots_verdict::<E>(m.bytes, media_sectors, index, saw_unsupported),
        (replay(m, t)->0).bytes == m.bytes,
    decreases 4 - index,
{
    let mbr = sector(m.bytes, 0);
    if index < 4 {
        match slot_use(mbr, media_sectors, index) {
            SlotUse::Skip => {
                slots_probe_serves(m, t, media_sectors, index + 1, saw_unsupported, verdict);
            },
            SlotUse::Unsupported => {
                slots_probe_serves(m, t, media_sectors, index + 1, true, verdict);
            },
            SlotUse::Candidate => {
                let start = slot_start(mbr, index);
                let (k, outcome): (int, Result<Option<Seq<u8>>, E>) = choose|
                    k: int,
                    outcome: Result<Option<Seq<u8>>, E>,
                |
                    0 <= k <= t.len() && #[trigger] sector_read(t.take(k), start as u32, outcome)
                        && slot_decided(
                        t.skip(k),
                        mbr,
                        media_sectors,
                        index,
                        saw_unsupported,
                        outcome,
                        verdict,
                    );
                replay_joins(m, t, k);
                sector_read_serves(m, t.take(k), start as u32, outcome);
                let next = replay(m, t.take(k))->0;
                let boot = boot_sector_of(sector(m.bytes, start));
                let accepted = boot matches BootSector::Fat(g) && g.total_sectors <= slot_count(
                    mbr,
                    index,
                );
                if !accepted {
                    slots_probe_serves(
                        next,
                        t.skip(k),
                        media_sectors,
                        index + 1,
                        saw_unsupported || is_unsupported_boot(boot),
                        verdict,
                    );
                }
            },
        }
    }
}

/// Probing a medium that keeps its bytes finds exactly what they say, and
/// changes none of them.
pub proof fn probe_finds_what_the_medium_holds<E>(
    m: Medium,
    t: Seq<StorageEvent<E>>,
    media_sectors: u32,
    verdict: Result<MediaLayout, ProbeError<E>>,
)
    requires
        probed(t, media_sectors as int, verdict),
        replay(m, t) is Some,
        512 * media_sectors <= m.bytes.len(),
        512 <= m.bytes.len(),
    ensures
        verdict == media_verdict::<E>(m.bytes, media_sectors as int),
        (replay(m, t)->0).bytes == m.bytes,
{
    let (k, outcome): (int, Result<Option<Seq<u8>>, E>) = choose|
        k: int,
        outcome: Result<Option<Seq<u8>>, E>,
    |
        0 <= k <= t.len() && #[trigger] sector_read(t.take(k), 0, outcome) && match outcome {
            Err(error) => k == t.len() && verdict == Err::<MediaLayout, ProbeError<E>>(
                ProbeError::Io(error),
            ),
            Ok(None) => k == t.len() && verdict == Err::<MediaLayout, ProbeError<E>>(
                ProbeError::Invalid,
            ),
            Ok(Some(first)) => match first_sector_verdict::<E>(first, media_sectors as int) {
                Some(decided) => k == t.len() && verdict == decided,
                None => slots_probed(t.skip(k), first, media_sectors as int, 0, false, verdict),
            },
        };
    replay_joins(m, t, k);
    sector_read_serves(m, t.take(k), 0, outcome);
    let next = replay(m, t.take(k))->0;
    if first_sector_verdict::<E>(sector(m.bytes, 0), media_sectors as int) is None {
        slots_probe_serves(next, t.skip(k), media_sectors as int, 0, false, verdict);
    }
}

} // verus!
