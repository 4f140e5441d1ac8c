//! What the two wires carry when the battery is read.
use vstd::prelude::*;

use crate::device::BatteryStatus;
use crate::gauge::{
    battery_read, bit_of, bits_read, bits_written, byte_read, clock_falls, clock_rises, part_at,
    parts_sent, started, stopped, word_exchanged, word_parts, word_read,
};
use crate::wires::WireEvent;

verus! {

/// The bits of a byte that was shown to its end, highest first: the data wire is let go for a
/// one and pulled low for a zero. After them the gauge's answer is read, which pulls the wire
/// low to accept.
pub proof fn bytes_are_shown_highest_bit_first(t: Seq<WireEvent>, byte: u8, left: int, taken: bool)
    requires
        0 <= left <= 8,
        bits_written(t, byte, left, Some(taken)),
    ensures
        t.len() == 6 * left + 7,
        forall|i: int|
            0 <= i < left ==> (#[trigger] t[6 * i] is SdaReleased <==> bit_of(
                byte,
                (left - 1 - i) as u8,
            )),
        forall|i: int| 0 <= i < left ==> #[trigger] t[6 * i] is SdaReleased || t[6 * i] is SdaLow,
        t[6 * left + 4] == (WireEvent::SdaRead { reply: Some(!taken) }),
    decreases left,
{
    if left > 0 {
        let rest = t.skip(6);
        bytes_are_shown_highest_bit_first(rest, byte, left - 1, taken);
        assert(t[6 * left + 4] == rest[6 * (left - 1) + 4]);
        assert forall|i: int| 0 <= i < left implies (#[trigger] t[6 * i] is SdaReleased <==> bit_of(
            byte,
            (left - 1 - i) as u8,
        )) && (t[6 * i] is SdaReleased || t[6 * i] is SdaLow) by {
            if i > 0 {
                assert(t[6 * i] == rest[6 * (i - 1)]);
            }
        }
    }
}

/// The number that bits stand for, highest first.
pub open spec fn bits_value(bits: Seq<bool>) -> int
    decreases bits.len(),
{
    if bits.len() == 0 {
        0
    } else {
        2 * bits_value(bits.drop_last()) + if bits.last() {
            1int
        } else {
            0
        }
    }
}

/// What was seen on the data wire while a byte was read, one bit for each beat of the clock.
pub open spec fn bits_seen(t: Seq<WireEvent>, bits: Seq<bool>) -> bool {
    forall|i: int|
        0 <= i < bits.len() ==> #[trigger] t[6 * i + 3] == (WireEvent::SdaRead {
            reply: Some(bits[i]),
        })
}

proof fn bits_add_up(t: Seq<WireEvent>, acknowledge: bool, had: Seq<bool>, left: int, byte: u8)
    requires
        0 <= left,
        bits_read(t, acknowledge, left, bits_value(had), Some(byte)),
    ensures
        exists|bits: Seq<bool>|
            bits.len() == left && #[trigger] bits_seen(t, bits) && byte == bits_value(had + bits),
        t.len() == 6 * left + 7,
        t[6 * left] is SdaLow <==> acknowledge,
    decreases left,
{
    if left == 0 {
        let none = Seq::<bool>::empty();
        assert(had + none =~= had);
        assert(bits_seen(t, none));
    } else {
        let high = t[3]->reply->0;
        let more = had.push(high);
        let rest = t.skip(6);
        assert(more.drop_last() =~= had);
        bits_add_up(rest, acknowledge, more, left - 1, byte);
        let after = choose|bits: Seq<bool>|
            bits.len() == left - 1 && #[trigger] bits_seen(rest, bits) && byte == bits_value(
                more + bits,
            );
        let bits = seq![high] + after;
        assert(more + after =~= had + bits);
        assert forall|i: int| 0 <= i < bits.len() implies #[trigger] t[6 * i + 3] == (
        WireEvent::SdaRead { reply: Some(bits[i]) }) by {
            if i > 0 {
                assert(t[6 * i + 3] == rest[6 * (i - 1) + 3]);
            }
        }
        assert(bits_seen(t, bits));
        assert(t[6 * left] == rest[6 * (left - 1)]);
    }
}

/// A byte that was read is made of the eight bits that were seen on the data wire, highest
/// first. Afterwards the wire is pulled low to ask for more.
pub proof fn bytes_are_read_highest_bit_first(t: Seq<WireEvent>, acknowledge: bool, byte: u8)
    requires
        byte_read(t, acknowledge, Some(byte)),
    ensures
        exists|bits: Seq<bool>|
            bits.len() == 8 && #[trigger] bits_seen(t.skip(1), bits) && byte == bits_value(bits),
        t[49] is SdaLow <==> acknowledge,
{
    let none = Seq::<bool>::empty();
    bits_add_up(t.skip(1), acknowledge, none, 8, byte);
    let bits = choose|bits: Seq<bool>|
        bits.len() == 8 && #[trigger] bits_seen(t.skip(1), bits) && byte == bits_value(none + bits);
    assert(none + bits =~= bits);
}

/// A word comes from the gauge at 0xaa and 0xab: the register is written to it, then two bytes
/// are read from it, the low one first. Only the first of them is acknowledged.
pub proof fn words_are_read_low_byte_first(t: Seq<WireEvent>, register: u8, word: u16)
    requires
        word_exchanged(t, register, Some(word)),
    ensures
        exists|a: int, b: int, c: int, d: int, e: int, low: u8, high: u8|
            {
                &&& 0 <= a <= b <= c <= d <= e <= t.len()
                &&& #[trigger] bits_written(t.subrange(0, a), 0xaa, 8, Some(true))
                &&& #[trigger] bits_written(t.subrange(a, b), register, 8, Some(true))
                &&& #[trigger] bits_written(t.subrange(c, d), 0xab, 8, Some(true))
                &&& #[trigger] byte_read(t.subrange(d, e), true, Some(low))
                &&& #[trigger] byte_read(t.subrange(e, t.len() as int), false, Some(high))
                &&& word % 256 == low
                &&& word / 256 == high
            },
{
    let parts = word_parts(register);
    let (cuts, replies) = choose|cuts: Seq<int>, replies: Seq<Option<u8>>|
        #[trigger] parts_sent(t, parts, cuts, replies) && replies.len() == 6 && (
        replies[4] matches Some(low) && replies[5] matches Some(high) && word == low + 256 * high);
    assert(part_at(t, parts, cuts, replies, 0));
    assert(part_at(t, parts, cuts, replies, 1));
    assert(part_at(t, parts, cuts, replies, 2));
    assert(part_at(t, parts, cuts, replies, 3));
    assert(part_at(t, parts, cuts, replies, 4));
    assert(part_at(t, parts, cuts, replies, 5));
    assert(replies[0] is Some && replies[1] is Some && replies[3] is Some);
    assert(cuts[6] == t.len());
    assert(bits_written(t.subrange(0, cuts[1]), 0xaa, 8, Some(true)));
    assert(bits_written(t.subrange(cuts[1], cuts[2]), register, 8, Some(true)));
    assert(bits_written(t.subrange(cuts[3], cuts[4]), 0xab, 8, Some(true)));
    assert(byte_read(t.subrange(cuts[4], cuts[5]), true, Some(replies[4]->0)));
    assert(byte_read(t.subrange(cuts[5], t.len() as int), false, Some(replies[5]->0)));
}

/// What is shown of the battery is what its registers hold: the state of charge in 0x1c, and
/// the average current, which charges the battery when it is positive, in 0x10.
pub proof fn the_registers_are_shown(t: Seq<WireEvent>, status: BatteryStatus)
    requires
        battery_read(t, Some(status)),
    ensures
        exists|k: int, current: Option<u16>|
            {
                &&& 0 <= k <= t.len()
                &&& #[trigger] word_read(t.take(k), 0x1c, Some(status.percent as u16))
                &&& #[trigger] word_read(t.skip(k), 0x10, current)
                &&& status.charging <==> (current matches Some(word) && 0 < word < 0x8000)
            },
        status.percent <= 100,
{
    let (k, percent, current) = choose|k: int, percent: Option<u16>, current: Option<u16>|
        {
            &&& 0 <= k <= t.len()
            &&& #[trigger] word_read(t.take(k), 0x1c, percent)
            &&& crate::gauge::level_shown(percent)
            &&& #[trigger] word_read(t.skip(k), 0x10, current)
            &&& Some(status) == crate::device::battery_from(percent, current)
        };
    assert(percent == Some(status.percent as u16));
}

/// Each half of a beat of the clock lasts 600 cycles, and after a packet the wires rest for
/// 8000 before the next one.
pub proof fn the_clock_keeps_its_pace(t: Seq<WireEvent>, at: int, high: bool)
    ensures
        clock_rises(t, at, high) ==> t[at] == (WireEvent::Waited { cycles: 600 }),
        clock_falls(t, at) ==> t[at] == (WireEvent::Waited { cycles: 600 }),
        stopped(t) ==> t[0] is SdaLow && t[5] is SdaReleased && t[6] == (WireEvent::Waited {
            cycles: 8_000,
        }),
{
}

/// A packet starts when the data wire, which was seen high, is pulled low before the clock is;
/// it stops when the data wire is let go after the clock was.
pub proof fn packets_start_and_stop(t: Seq<WireEvent>)
    ensures
        started(t, true) ==> {
            let n = t.len() as int;
            &&& n >= 9
            &&& t[n - 5] == (WireEvent::SdaRead { reply: Some(true) })
            &&& t[n - 4] == (WireEvent::Waited { cycles: 600 })
            &&& t[n - 3] is SdaLow
            &&& t[n - 2] == (WireEvent::Waited { cycles: 600 })
            &&& t[n - 1] is SclLow
        },
        stopped(t) ==> t.len() == 7 && t[0] is SdaLow && t[2] is SclReleased && t[5] is SdaReleased,
{
}

} // verus!
