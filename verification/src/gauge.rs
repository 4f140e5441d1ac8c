//! The fuel gauge of the battery chassis, over two wires driven by software.
//!
//! The chassis is an accessory that can be attached while its gauge sleeps or holds
//! a wire low, so every wait on it is bounded.
use vstd::arithmetic::power2::{lemma2_to64, lemma_pow2_strictly_increases, lemma_pow2_unfold, pow2};
use vstd::prelude::*;

use crate::device::{battery_from, battery_status, BatteryStatus};
use crate::storage::{cut, extends, since};
use crate::wires::{plausible, RecordedWires, TwoWire, WireEvent, STRETCH_POLLS};

verus! {

/// Register of the gauge that holds the average current.
pub const AVERAGE_CURRENT: u8 = 0x10;

/// Register of the gauge that holds the state of charge.
pub const STATE_OF_CHARGE: u8 = 0x1c;

/// First byte of a packet that writes to the gauge, whose address is 0x55.
pub const GAUGE_WRITE: u8 = 0xaa;

/// First byte of a packet that reads from the gauge.
pub const GAUGE_READ: u8 = 0xab;

/// Cycles for which the clock stays high or low: five microseconds at 120 MHz.
pub const HALF_PERIOD_CYCLES: u32 = 600;

/// Cycles for which the wires are left alone between two packets. The gauge asks for
/// 66 microseconds.
pub const BUS_FREE_CYCLES: u32 = 8_000;

/// Clock pulses that free a gauge stuck in the middle of a byte.
pub const RECOVERY_PULSES: u8 = 9;

/// The clock is released, half a period after the data wire was set, and waited for.
pub open spec fn clock_rises(t: Seq<WireEvent>, at: int, high: bool) -> bool {
    &&& t.len() >= at + 3
    &&& t[at] == (WireEvent::Waited { cycles: HALF_PERIOD_CYCLES })
    &&& t[at + 1] is SclReleased
    &&& t[at + 2] matches WireEvent::SclAwaited { high: seen, .. } && seen == high
}

/// The clock stays high for half a period and is pulled low.
pub open spec fn clock_falls(t: Seq<WireEvent>, at: int) -> bool {
    &&& t.len() >= at + 2
    &&& t[at] == (WireEvent::Waited { cycles: HALF_PERIOD_CYCLES })
    &&& t[at + 1] is SclLow
}

/// The end of a packet: the data wire rises while the clock is high.
pub open spec fn stopped(t: Seq<WireEvent>) -> bool {
    &&& t.len() == 7
    &&& t[0] is SdaLow
    &&& exists|high: bool| #[trigger] clock_rises(t, 1, high)
    &&& t[4] == (WireEvent::Waited { cycles: HALF_PERIOD_CYCLES })
    &&& t[5] is SdaReleased
    &&& t[6] == (WireEvent::Waited { cycles: BUS_FREE_CYCLES })
}

/// `left` clock pulses and the end of a packet; a clock that stays low ends it early.
pub open spec fn pulsed(t: Seq<WireEvent>, left: int) -> bool
    decreases left,
{
    if left <= 0 {
        stopped(t)
    } else {
        &&& t.len() >= 1
        &&& t[0] is SclLow
        &&& clock_rises(t, 1, false) && t.len() == 4 || clock_rises(t, 1, true) && pulsed(
            t.skip(4),
            left - 1,
        )
    }
}

/// Freeing a gauge that holds the data wire low.
pub open spec fn recovered(t: Seq<WireEvent>) -> bool {
    &&& t.len() >= 1
    &&& t[0] is SdaReleased
    &&& pulsed(t.skip(1), RECOVERY_PULSES as int)
}

/// The start of a packet proper, from both wires high: the data wire falls while the
/// clock is high.
pub open spec fn start_shown(t: Seq<WireEvent>, at: int) -> bool {
    &&& t.len() == at + 4
    &&& t[at] == (WireEvent::Waited { cycles: HALF_PERIOD_CYCLES })
    &&& t[at + 1] is SdaLow
    &&& clock_falls(t, at + 2)
}

/// The start of a packet, or a repeated start within one. A data wire that is low is
/// freed once.
pub open spec fn started(t: Seq<WireEvent>, done: bool) -> bool {
    &&& t.len() >= 1
    &&& t[0] is SdaReleased
    &&& {
        ||| clock_rises(t, 1, false) && t.len() == 4 && !done
        ||| {
            &&& clock_rises(t, 1, true)
            &&& t.len() >= 5
            &&& t[4] matches WireEvent::SdaRead { reply } && match reply {
                None => t.len() == 5 && !done,
                Some(true) => start_shown(t, 5) && done,
                Some(false) => {
                    let k = if done {
                        t.len() - 5
                    } else {
                        t.len() - 1
                    };
                    &&& k >= 5
                    &&& recovered(t.subrange(5, k))
                    &&& t[k] matches WireEvent::SdaRead { reply: again } && done == (again == Some(
                        true,
                    ))
                    &&& done ==> start_shown(t, k + 1)
                },
            }
        }
    }
}

/// Bit `bit` of a byte.
pub open spec fn bit_of(byte: u8, bit: u8) -> bool {
    byte & (1u8 << bit) != 0
}

/// The last `left` bits of a byte are shown, highest first, and the acknowledgement
/// is read. `None` where a wire failed; else whether the gauge acknowledged.
pub open spec fn bits_written(
    t: Seq<WireEvent>,
    byte: u8,
    left: int,
    result: Option<bool>,
) -> bool
    decreases left,
{
    if left <= 0 {
        &&& t.len() >= 1
        &&& t[0] is SdaReleased
        &&& {
            ||| clock_rises(t, 1, false) && t.len() == 4 && result is None
            ||| {
                &&& clock_rises(t, 1, true)
                &&& t.len() >= 5
                &&& t[4] matches WireEvent::SdaRead { reply } && match reply {
                    None => t.len() == 5 && result is None,
                    Some(high) => t.len() == 7 && clock_falls(t, 5) && result == Some(!high),
                }
            }
        }
    } else {
        &&& t.len() >= 1
        &&& if bit_of(byte, (left - 1) as u8) {
            t[0] is SdaReleased
        } else {
            t[0] is SdaLow
        }
        &&& {
            ||| clock_rises(t, 1, false) && t.len() == 4 && result is None
            ||| {
                &&& clock_rises(t, 1, true)
                &&& clock_falls(t, 4)
                &&& bits_written(t.skip(6), byte, left - 1, result)
            }
        }
    }
}

/// `left` more bits are read into `byte`, highest first, and the acknowledgement is
/// given or withheld.
pub open spec fn bits_read(
    t: Seq<WireEvent>,
    acknowledge: bool,
    left: int,
    byte: int,
    result: Option<u8>,
) -> bool
    decreases left,
{
    if left <= 0 {
        &&& t.len() >= 1
        &&& if acknowledge {
            t[0] is SdaLow
        } else {
            t[0] is SdaReleased
        }
        &&& {
            ||| clock_rises(t, 1, false) && t.len() == 4 && result is None
            ||| {
                &&& clock_rises(t, 1, true)
                &&& clock_falls(t, 4)
                &&& t.len() == 7
                &&& t[6] is SdaReleased
                &&& result matches Some(read) && read == byte
            }
        }
    } else {
        ||| clock_rises(t, 0, false) && t.len() == 3 && result is None
        ||| {
            &&& clock_rises(t, 0, true)
            &&& t.len() >= 4
            &&& t[3] matches WireEvent::SdaRead { reply } && match reply {
                None => t.len() == 4 && result is None,
                Some(high) => {
                    &&& clock_falls(t, 4)
                    &&& bits_read(
                        t.skip(6),
                        acknowledge,
                        left - 1,
                        2 * byte + if high {
                            1int
                        } else {
                            0
                        },
                        result,
                    )
                },
            }
        }
    }
}

/// A byte is read.
pub open spec fn byte_read(t: Seq<WireEvent>, acknowledge: bool, result: Option<u8>) -> bool {
    &&& t.len() >= 1
    &&& t[0] is SdaReleased
    &&& bits_read(t.skip(1), acknowledge, 8, 0, result)
}

/// A part of a packet.
pub enum Part {
    Start,
    Write(u8),
    Read { acknowledge: bool },
}

/// A part of a packet was sent; `result` is the byte it delivers (0 where it delivers
/// none), or `None` where it failed.
pub open spec fn part_done(t: Seq<WireEvent>, part: Part, result: Option<u8>) -> bool {
    match part {
        Part::Start => {
            &&& started(t, result is Some)
            &&& result matches Some(byte) ==> byte == 0
        },
        Part::Write(byte) => {
            ||| bits_written(t, byte, 8, Some(true)) && result == Some(0u8)
            ||| bits_written(t, byte, 8, Some(false)) && result is None
            ||| bits_written(t, byte, 8, None) && result is None
        },
        Part::Read { acknowledge } => byte_read(t, acknowledge, result),
    }
}

/// Part `i` of a packet took the steps from `cuts[i]` to `cuts[i + 1]`.
pub open spec fn part_at(
    t: Seq<WireEvent>,
    parts: Seq<Part>,
    cuts: Seq<int>,
    replies: Seq<Option<u8>>,
    i: int,
) -> bool {
    &&& 0 <= cuts[i] <= cuts[i + 1] <= t.len()
    &&& part_done(t.subrange(cuts[i], cuts[i + 1]), parts[i], replies[i])
}

/// Parts of a packet are sent in turn, until one fails. Part `i` took the steps from
/// `cuts[i]` to `cuts[i + 1]`, and delivered `replies[i]`.
pub open spec fn parts_sent(
    t: Seq<WireEvent>,
    parts: Seq<Part>,
    cuts: Seq<int>,
    replies: Seq<Option<u8>>,
) -> bool {
    &&& replies.len() <= parts.len()
    &&& cuts.len() == replies.len() + 1
    &&& cuts[0] == 0 && cuts.last() == t.len()
    &&& forall|i: int| 0 <= i < replies.len() ==> #[trigger] part_at(t, parts, cuts, replies, i)
    &&& forall|i: int| 0 <= i < replies.len() - 1 ==> #[trigger] replies[i] is Some
}

/// The parts of a packet that reads a register, after its first start. The second
/// start follows no stop: that would end the packet before the register is read.
pub open spec fn word_parts(register: u8) -> Seq<Part> {
    seq![
        Part::Write(GAUGE_WRITE),
        Part::Write(register),
        Part::Start,
        Part::Write(GAUGE_READ),
        Part::Read { acknowledge: true },
        Part::Read { acknowledge: false },
    ]
}

/// A register is asked for and read: all parts are sent, and deliver the word in the
/// last two of them, low byte first; or one part fails.
pub open spec fn word_exchanged(t: Seq<WireEvent>, register: u8, result: Option<u16>) -> bool {
    exists|cuts: Seq<int>, replies: Seq<Option<u8>>|
        {
            &&& #[trigger] parts_sent(t, word_parts(register), cuts, replies)
            &&& replies.len() >= 1
            &&& match result {
                Some(word) => {
                    &&& replies.len() == 6
                    &&& replies[4] matches Some(low) && replies[5] matches Some(high) && word == low
                        + 256 * high
                },
                None => replies.last() is None,
            }
        }
}

/// A register is read in one packet. Once the packet was started, it is also stopped.
pub open spec fn word_read(t: Seq<WireEvent>, register: u8, result: Option<u16>) -> bool {
    ||| started(t, false) && result is None
    ||| exists|k: int|
        {
            &&& 0 <= k <= t.len() - 7
            &&& started(#[trigger] t.take(k), true)
            &&& word_exchanged(t.subrange(k, t.len() - 7), register, result)
            &&& stopped(t.skip(t.len() - 7))
        }
}

/// A charge level that can be shown.
pub open spec fn level_shown(percent: Option<u16>) -> bool {
    percent matches Some(level) && level <= 100
}

/// The gauge is read: its charge level, and where there is one to show, the current.
pub open spec fn battery_read(t: Seq<WireEvent>, status: Option<BatteryStatus>) -> bool {
    ||| exists|percent: Option<u16>| #[trigger]
        word_read(t, STATE_OF_CHARGE, percent) && !level_shown(percent) && status is None
    ||| exists|k: int, percent: Option<u16>, current: Option<u16>|
        {
            &&& 0 <= k <= t.len()
            &&& #[trigger] word_read(t.take(k), STATE_OF_CHARGE, percent)
            &&& level_shown(percent)
            &&& #[trigger] word_read(t.skip(k), AVERAGE_CURRENT, current)
            &&& status == battery_from(percent, current)
        }
}

/// The master of the two wires.
pub struct BatteryI2c<W: TwoWire> {
    wires: RecordedWires<W>,
}

impl<W: TwoWire> BatteryI2c<W> {
    /// Every step so far, oldest first.
    pub closed spec fn log(&self) -> Seq<WireEvent> {
        self.wires.log()
    }

    /// Every wait for the clock was bounded.
    pub open spec fn wf(&self) -> bool {
        forall|i: int| 0 <= i < self.log().len() ==> plausible(#[trigger] self.log()[i])
    }

    /// Take over the two wires and release them.
    pub fn new(wires: W) -> (master: Self)
        ensures
            master.wf(),
            master.log() == seq![WireEvent::SdaReleased, WireEvent::SclReleased],
    {
        let mut master = BatteryI2c { wires: RecordedWires::new(wires) };
        master.wires.release_sda();
        master.wires.release_scl();
        assert(master.log() =~= seq![WireEvent::SdaReleased, WireEvent::SclReleased]);
        master
    }

    /// Release the clock half a period after the data wire was set.
    fn raise_scl(&mut self) -> (high: bool)
        requires
            old(self).wf(),
        ensures
            final(self).wf(),
            extends(old(self).log(), final(self).log()),
            final(self).log().len() == old(self).log().len() + 3,
            clock_rises(since(old(self).log(), final(self).log()), 0, high),
    {
        self.wires.wait(HALF_PERIOD_CYCLES);
        self.wires.release_scl();
        self.wires.wait_scl_high()
    }

    /// Keep the clock high for half a period and pull it low.
    fn lower_scl(&mut self)
        requires
            old(self).wf(),
        ensures
            final(self).wf(),
            extends(old(self).log(), final(self).log()),
            final(self).log().len() == old(self).log().len() + 2,
            clock_falls(since(old(self).log(), final(self).log()), 0),
    {
        self.wires.wait(HALF_PERIOD_CYCLES);
        self.wires.drive_scl_low();
    }

    /// End the packet.
    fn stop(&mut self)
        requires
            old(self).wf(),
        ensures
            final(self).wf(),
            extends(old(self).log(), final(self).log()),
            stopped(since(old(self).log(), final(self).log())),
    {
        let ghost start = self.log();
        self.wires.drive_sda_low();
        let ghost low = self.log();
        let high = self.raise_scl();
        let ghost raised = self.log();
        self.wires.wait(HALF_PERIOD_CYCLES);
        self.wires.release_sda();
        self.wires.wait(BUS_FREE_CYCLES);
        proof {
            let t = since(start, self.log());
            rises_at(start, low, raised, self.log(), high);
            assert(t[0] == low[start.len() as int]);
        }
    }

    /// Clock a gauge out of the byte that it is stuck in.
    fn pulse(&mut self, left: u8)
        requires
            old(self).wf(),
        ensures
            final(self).wf(),
            extends(old(self).log(), final(self).log()),
            pulsed(since(old(self).log(), final(self).log()), left as int),
        decreases left,
    {
        let ghost start = self.log();
        if left == 0 {
            self.stop();
            return;
        }
        self.wires.drive_scl_low();
        let ghost low = self.log();
        let high = self.raise_scl();
        let ghost raised = self.log();
        if high {
            self.pulse(left - 1);
        }
        proof {
            let t = since(start, self.log());
            rises_at(start, low, raised, self.log(), high);
            cut(low, raised, self.log());
            cut(start, low, self.log());
            assert(t.take(1)[0] == low.last());
            if high {
                assert(t.skip(4) =~= since(raised, self.log()));
            }
        }
    }

    /// Free a gauge that holds the data wire low.
    fn recover(&mut self)
        requires
            old(self).wf(),
        ensures
            final(self).wf(),
            extends(old(self).log(), final(self).log()),
            recovered(since(old(self).log(), final(self).log())),
    {
        let ghost start = self.log();
        self.wires.release_sda();
        let ghost released = self.log();
        self.pulse(RECOVERY_PULSES);
        proof {
            cut(start, released, self.log());
            let t = since(start, self.log());
            assert(t.take(1)[0] == released.last());
            assert(t.skip(1) =~= since(released, self.log()));
        }
    }

    /// Pull the data wire and then the clock low, from both high.
    fn show_start(&mut self)
        requires
            old(self).wf(),
        ensures
            final(self).wf(),
            extends(old(self).log(), final(self).log()),
            start_shown(since(old(self).log(), final(self).log()), 0),
    {
        let ghost start = self.log();
        self.wires.wait(HALF_PERIOD_CYCLES);
        self.wires.drive_sda_low();
        self.wires.wait(HALF_PERIOD_CYCLES);
        self.wires.drive_scl_low();
        assert(since(start, self.log()).len() == 4);
    }

    /// Start a packet, or start again within one; says whether that worked.
    fn start(&mut self) -> (done: bool)
        requires
            old(self).wf(),
        ensures
            final(self).wf(),
            extends(old(self).log(), final(self).log()),
            started(since(old(self).log(), final(self).log()), done),
    {
        let ghost start = self.log();
        self.wires.release_sda();
        let ghost released = self.log();
        let high = self.raise_scl();
        let ghost raised = self.log();
        if !high {
            proof {
                rises_at(start, released, raised, raised, high);
                cut(start, released, raised);
                assert(since(start, raised).take(1)[0] == released.last());
            }
            return false;
        }
        let free = self.wires.read_sda();
        let ghost seen = self.log();
        proof {
            cut(start, released, raised);
        }
        match free {
            None => {
                proof {
                    rises_at(start, released, raised, seen, high);
                    cut(start, released, seen);
                    assert(since(start, seen).take(1)[0] == released.last());
                }
                return false;
            },
            Some(true) => {
                self.show_start();
                proof {
                    let t = since(start, self.log());
                    rises_at(start, released, raised, self.log(), high);
                    cut(start, released, self.log());
                    assert(t.take(1)[0] == released.last());
                    cut(start, seen, self.log());
                    assert(t.take(5)[4] == seen.last());
                    shown_at(t, since(seen, self.log()), 5);
                }
                return true;
            },
            Some(false) => {},
        }
        self.recover();
        let ghost freed = self.log();
        let again = self.wires.read_sda();
        let ghost asked = self.log();
        let done = match again {
            Some(true) => true,
            _ => false,
        };
        if done {
            self.show_start();
        }
        proof {
            let t = since(start, self.log());
            let k = freed.len() - start.len();
            cut(seen, freed, asked);
            cut(seen, asked, self.log());
            rises_at(start, released, raised, self.log(), high);
            cut(start, released, self.log());
            assert(t.take(1)[0] == released.last());
            cut(start, seen, self.log());
            assert(t.take(5)[4] == seen.last());
            cut(start, freed, self.log());
            assert(t.subrange(5, k) =~= since(start, freed).skip(5)) by {
                assert(t.take(k) == since(start, freed));
                assert(t.subrange(5, k) =~= t.take(k).skip(5));
            }
            cut(start, seen, freed);
            assert(t.subrange(5, k) == since(seen, freed));
            cut(start, asked, self.log());
            assert(t.take(k + 1)[k] == asked.last());
            if done {
                shown_at(t, since(asked, self.log()), k + 1);
            }
        }
        done
    }

    /// Show the last `left` bits of a byte and read the acknowledgement.
    fn write_bits(&mut self, byte: u8, left: u8) -> (result: Option<bool>)
        requires
            old(self).wf(),
            left <= 8,
        ensures
            final(self).wf(),
            extends(old(self).log(), final(self).log()),
            bits_written(since(old(self).log(), final(self).log()), byte, left as int, result),
        decreases left,
    {
        let ghost start = self.log();
        if left == 0 || byte & (1u8 << (left - 1)) != 0 {
            self.wires.release_sda();
        } else {
            self.wires.drive_sda_low();
        }
        let ghost set = self.log();
        let high = self.raise_scl();
        let ghost raised = self.log();
        proof {
            rises_at(start, set, raised, raised, high);
            cut(start, set, raised);
            assert(since(start, raised).take(1)[0] == set.last());
        }
        if !high {
            return None;
        }
        if left == 0 {
            let reply = self.wires.read_sda();
            let ghost seen = self.log();
            let high = match reply {
                Some(high) => high,
                None => {
                    proof {
                        rises_at(start, set, raised, seen, true);
                    }
                    return None;
                },
            };
            self.lower_scl();
            proof {
                rises_at(start, set, raised, self.log(), true);
                falls_at(start, seen, self.log(), self.log());
                cut(start, seen, self.log());
                let t = since(start, self.log());
                assert(t.take(5)[4] == seen.last());
                assert(t.take(5)[0] == set.last());
            }
            return Some(!high);
        }
        self.lower_scl();
        let ghost lowered = self.log();
        let result = self.write_bits(byte, left - 1);
        proof {
            rises_at(start, set, raised, self.log(), true);
            falls_at(start, raised, lowered, self.log());
            cut(raised, lowered, self.log());
            cut(start, raised, self.log());
            let t = since(start, self.log());
            assert(t.take(4)[0] == set.last());
            assert(t.skip(6) =~= since(lowered, self.log()));
        }
        result
    }

    /// Send a byte; says whether the gauge acknowledged it.
    fn write_byte(&mut self, byte: u8) -> (result: Option<bool>)
        requires
            old(self).wf(),
        ensures
            final(self).wf(),
            extends(old(self).log(), final(self).log()),
            bits_written(since(old(self).log(), final(self).log()), byte, 8, result),
    {
        self.write_bits(byte, 8)
    }

    /// Send a byte that the gauge must acknowledge.
    fn send(&mut self, byte: u8) -> (sent: bool)
        requires
            old(self).wf(),
        ensures
            final(self).wf(),
            extends(old(self).log(), final(self).log()),
            part_done(
                since(old(self).log(), final(self).log()),
                Part::Write(byte),
                verdict(sent),
            ),
    {
        match self.write_byte(byte) {
            Some(acknowledged) => acknowledged,
            None => false,
        }
    }

    /// Read `left` more bits into `byte`, and acknowledge the byte or not.
    fn read_bits(&mut self, acknowledge: bool, left: u8, byte: u8) -> (result: Option<u8>)
        requires
            old(self).wf(),
            left <= 8,
            byte < pow2((8 - left) as nat),
        ensures
            final(self).wf(),
            extends(old(self).log(), final(self).log()),
            bits_read(
                since(old(self).log(), final(self).log()),
                acknowledge,
                left as int,
                byte as int,
                result,
            ),
        decreases left,
    {
        let ghost start = self.log();
        if left == 0 {
            if acknowledge {
                self.wires.drive_sda_low();
            } else {
                self.wires.release_sda();
            }
        }
        let ghost set = self.log();
        let high = self.raise_scl();
        let ghost raised = self.log();
        proof {
            assert(since(set, raised) == since(start, raised) || left == 0);
            rises_at(start, set, raised, raised, high);
            cut(start, set, raised);
            if left == 0 {
                assert(since(start, raised).take(1)[0] == set.last());
            }
        }
        if !high {
            return None;
        }
        if left == 0 {
            self.lower_scl();
            let ghost lowered = self.log();
            self.wires.release_sda();
            proof {
                rises_at(start, set, raised, self.log(), true);
                falls_at(start, raised, lowered, self.log());
                cut(start, raised, lowered);
                cut(start, lowered, self.log());
                let t = since(start, self.log());
                assert(t.take(6).take(4)[0] == set.last());
            }
            return Some(byte);
        }
        let bit = match self.wires.read_sda() {
            Some(bit) => bit,
            None => {
                proof {
                    rises_at(start, set, raised, self.log(), true);
                }
                return None;
            },
        };
        let ghost seen = self.log();
        self.lower_scl();
        let ghost lowered = self.log();
        proof {
            lemma_pow2_unfold((8 - left + 1) as nat);
            lemma2_to64();
            if left > 1 {
                lemma_pow2_strictly_increases((8 - left + 1) as nat, 8);
            }
        }
        let next: u8 = if bit {
            2 * byte + 1
        } else {
            2 * byte
        };
        let result = self.read_bits(acknowledge, left - 1, next);
        proof {
            cut(seen, lowered, self.log());
            rises_at(start, set, raised, self.log(), true);
            falls_at(start, seen, lowered, self.log());
            cut(start, seen, self.log());
            let t = since(start, self.log());
            assert(t.take(4)[3] == seen.last());
            assert(t.skip(6) =~= since(lowered, self.log()));
        }
        result
    }

    /// Read a byte, and acknowledge it or not.
    fn read_byte(&mut self, acknowledge: bool) -> (result: Option<u8>)
        requires
            old(self).wf(),
        ensures
            final(self).wf(),
            extends(old(self).log(), final(self).log()),
            byte_read(since(old(self).log(), final(self).log()), acknowledge, result),
    {
        let ghost start = self.log();
        self.wires.release_sda();
        let ghost released = self.log();
        proof {
            lemma2_to64();
        }
        let result = self.read_bits(acknowledge, 8, 0);
        proof {
            cut(start, released, self.log());
            let t = since(start, self.log());
            assert(t.take(1)[0] == released.last());
            assert(t.skip(1) =~= since(released, self.log()));
        }
        result
    }

    /// Ask for a register and read its word, within a packet that was started.
    fn exchange_word(&mut self, register: u8) -> (result: Option<u16>)
        requires
            old(self).wf(),
        ensures
            final(self).wf(),
            extends(old(self).log(), final(self).log()),
            word_exchanged(since(old(self).log(), final(self).log()), register, result),
    {
        let ghost start = self.log();
        let ghost parts = word_parts(register);
        let ghost mut cuts = seq![0int];
        let ghost mut replies: Seq<Option<u8>> = Seq::empty();
        let ghost mut before = self.log();
        let mut sent: bool = self.send(GAUGE_WRITE);
        proof {
            let reply = verdict(sent);
            assert(since(start, before) =~= Seq::<WireEvent>::empty());
            part_added(start, before, self.log(), parts, cuts, replies, reply);
            cuts = cuts.push(since(start, self.log()).len() as int);
            replies = replies.push(reply);
        }
        if !sent {
            return None;
        }
        proof {
            before = self.log();
        }
        sent = self.send(register);
        proof {
            let reply = verdict(sent);
            part_added(start, before, self.log(), parts, cuts, replies, reply);
            cuts = cuts.push(since(start, self.log()).len() as int);
            replies = replies.push(reply);
        }
        if !sent {
            return None;
        }
        proof {
            before = self.log();
        }
        sent = self.start();
        proof {
            let reply = verdict(sent);
            part_added(start, before, self.log(), parts, cuts, replies, reply);
            cuts = cuts.push(since(start, self.log()).len() as int);
            replies = replies.push(reply);
        }
        if !sent {
            return None;
        }
        proof {
            before = self.log();
        }
        sent = self.send(GAUGE_READ);
        proof {
            let reply = verdict(sent);
            part_added(start, before, self.log(), parts, cuts, replies, reply);
            cuts = cuts.push(since(start, self.log()).len() as int);
            replies = replies.push(reply);
        }
        if !sent {
            return None;
        }
        proof {
            before = self.log();
        }
        let first = self.read_byte(true);
        proof {
            part_added(start, before, self.log(), parts, cuts, replies, first);
            cuts = cuts.push(since(start, self.log()).len() as int);
            replies = replies.push(first);
        }
        let low: u8 = match first {
            Some(low) => low,
            None => return None,
        };
        proof {
            before = self.log();
        }
        let second = self.read_byte(false);
        proof {
            part_added(start, before, self.log(), parts, cuts, replies, second);
            cuts = cuts.push(since(start, self.log()).len() as int);
            replies = replies.push(second);
        }
        let high: u8 = match second {
            Some(high) => high,
            None => return None,
        };
        Some(low as u16 + 256 * high as u16)
    }

    /// Read one register of the gauge; `None` where it does not answer.
    pub fn read_word(&mut self, register: u8) -> (result: Option<u16>)
        requires
            old(self).wf(),
        ensures
            final(self).wf(),
            extends(old(self).log(), final(self).log()),
            word_read(since(old(self).log(), final(self).log()), register, result),
    {
        let ghost begin = self.log();
        if !self.start() {
            return None;
        }
        let ghost open = self.log();
        let result = self.exchange_word(register);
        let ghost worked = self.log();
        self.stop();
        proof {
            let t = since(begin, self.log());
            let k = since(begin, open).len() as int;
            cut(open, worked, self.log());
            cut(begin, open, self.log());
            cut(begin, open, worked);
            cut(begin, worked, self.log());
            assert(t.take(k) == since(begin, open));
            assert(t.skip(t.len() - 7) == since(worked, self.log()));
            assert(t.subrange(k, t.len() - 7) =~= t.take(t.len() - 7).skip(k));
            assert(t.subrange(k, t.len() - 7) == since(open, worked));
        }
        result
    }
}

/// Read the gauge. Its answer is what tells that a chassis is attached. Its current is
/// secondary: the charge level is shown without it.
pub fn read_battery<W: TwoWire>(gauge: &mut BatteryI2c<W>) -> (status: Option<BatteryStatus>)
    requires
        old(gauge).wf(),
    ensures
        final(gauge).wf(),
        extends(old(gauge).log(), final(gauge).log()),
        battery_read(since(old(gauge).log(), final(gauge).log()), status),
{
    let ghost start = gauge.log();
    let percent = gauge.read_word(STATE_OF_CHARGE);
    let shown: bool = match percent {
        Some(level) => level <= 100,
        None => false,
    };
    if !shown {
        return None;
    }
    let ghost asked = gauge.log();
    let current = gauge.read_word(AVERAGE_CURRENT);
    proof {
        cut(start, asked, gauge.log());
        let t = since(start, gauge.log());
        let k = since(start, asked).len() as int;
        assert(word_read(t.take(k), STATE_OF_CHARGE, percent));
        assert(word_read(t.skip(k), AVERAGE_CURRENT, current));
    }
    battery_status(percent, current)
}

/// What a part that delivers nothing replies.
spec fn verdict(sent: bool) -> Option<u8> {
    if sent {
        Some(0u8)
    } else {
        None
    }
}

/// One more part of a packet.
proof fn part_added(
    start: Seq<WireEvent>,
    before: Seq<WireEvent>,
    after: Seq<WireEvent>,
    parts: Seq<Part>,
    cuts: Seq<int>,
    replies: Seq<Option<u8>>,
    reply: Option<u8>,
)
    requires
        extends(start, before),
        extends(before, after),
        replies.len() < parts.len(),
        parts_sent(since(start, before), parts, cuts, replies),
        forall|i: int| 0 <= i < replies.len() ==> #[trigger] replies[i] is Some,
        part_done(since(before, after), parts[replies.len() as int], reply),
    ensures
        extends(start, after),
        parts_sent(
            since(start, after),
            parts,
            cuts.push(since(start, after).len() as int),
            replies.push(reply),
        ),
{
    cut(start, before, after);
    let s = since(start, before);
    let t = since(start, after);
    let n = replies.len() as int;
    let new_cuts = cuts.push(t.len() as int);
    let new_replies = replies.push(reply);
    assert forall|i: int| 0 <= i < new_replies.len() implies #[trigger] part_at(
        t,
        parts,
        new_cuts,
        new_replies,
        i,
    ) by {
        if i < n {
            assert(part_at(s, parts, cuts, replies, i));
            assert(new_cuts[i] == cuts[i] && new_cuts[i + 1] == cuts[i + 1]);
            assert(t.subrange(cuts[i], cuts[i + 1]) =~= s.subrange(cuts[i], cuts[i + 1])) by {
                assert(t.take(s.len() as int) == s);
            }
        } else {
            assert(t.subrange(s.len() as int, t.len() as int) =~= since(before, after));
        }
    }
    assert forall|i: int| 0 <= i < new_replies.len() - 1 implies #[trigger] new_replies[i] is Some by {
        assert(replies[i] is Some);
    }
}

/// A start that ends a stretch is seen there.
proof fn shown_at(t: Seq<WireEvent>, end: Seq<WireEvent>, at: int)
    requires
        0 <= at <= t.len(),
        t.skip(at) == end,
        start_shown(end, 0),
    ensures
        start_shown(t, at),
{
    assert forall|i: int| 0 <= i < 4 implies t[at + i] == end[i] by {
        assert(t.skip(at)[i] == t[at + i]);
    }
    assert(t[at + 0] == end[0]);
    assert(t[at + 1] == end[1]);
    assert(t[at + 2] == end[2]);
    assert(t[at + 3] == end[3]);
}

/// A rise seen in a stretch is seen in the log around it.
proof fn rises_at(
    a: Seq<WireEvent>,
    b: Seq<WireEvent>,
    c: Seq<WireEvent>,
    d: Seq<WireEvent>,
    high: bool,
)
    requires
        extends(a, b),
        extends(b, c),
        extends(c, d),
        c.len() == b.len() + 3,
        clock_rises(since(b, c), 0, high),
    ensures
        clock_rises(since(a, d), b.len() - a.len(), high),
{
    let t = since(a, d);
    let at = b.len() - a.len();
    assert forall|i: int| 0 <= i < 3 implies t[at + i] == since(b, c)[i] by {
        assert(d.take(c.len() as int)[b.len() + i] == c[b.len() + i]);
    }
    assert(t[at + 0] == since(b, c)[0]);
}

/// A fall seen in a stretch is seen in the log around it.
proof fn falls_at(a: Seq<WireEvent>, b: Seq<WireEvent>, c: Seq<WireEvent>, d: Seq<WireEvent>)
    requires
        extends(a, b),
        extends(b, c),
        extends(c, d),
        c.len() == b.len() + 2,
        clock_falls(since(b, c), 0),
    ensures
        clock_falls(since(a, d), b.len() - a.len()),
{
    let t = since(a, d);
    let at = b.len() - a.len();
    assert forall|i: int| 0 <= i < 2 implies t[at + i] == since(b, c)[i] by {
        assert(d.take(c.len() as int)[b.len() + i] == c[b.len() + i]);
    }
    assert(t[at + 0] == since(b, c)[0]);
}

/// Freeing a gauge takes a bounded number of steps.
proof fn pulses_are_bounded(t: Seq<WireEvent>, left: int)
    requires
        0 <= left,
        pulsed(t, left),
    ensures
        t.len() <= 4 * left + 7,
    decreases left,
{
    if left > 0 && clock_rises(t, 1, true) && pulsed(t.skip(4), left - 1) {
        pulses_are_bounded(t.skip(4), left - 1);
    }
}

proof fn starts_are_bounded(t: Seq<WireEvent>, done: bool)
    requires
        started(t, done),
    ensures
        t.len() <= 54,
{
    if t.len() >= 10 {
        let k = if done {
            t.len() - 5
        } else {
            t.len() - 1
        };
        pulses_are_bounded(t.subrange(5, k).skip(1), 9);
    }
}

proof fn writes_are_bounded(t: Seq<WireEvent>, byte: u8, left: int, result: Option<bool>)
    requires
        0 <= left,
        bits_written(t, byte, left, result),
    ensures
        t.len() <= 6 * left + 7,
    decreases left,
{
    if left > 0 && t.len() > 4 {
        writes_are_bounded(t.skip(6), byte, left - 1, result);
    }
}

proof fn reads_are_bounded(
    t: Seq<WireEvent>,
    acknowledge: bool,
    left: int,
    byte: int,
    result: Option<u8>,
)
    requires
        0 <= left,
        bits_read(t, acknowledge, left, byte, result),
    ensures
        t.len() <= 6 * left + 7,
    decreases left,
{
    if left > 0 && t.len() > 4 {
        let high = t[3]->reply->0;
        let next = 2 * byte + if high {
            1int
        } else {
            0
        };
        reads_are_bounded(t.skip(6), acknowledge, left - 1, next, result);
    }
}

/// Reading a register takes at most 397 steps, of which each that waits for the gauge
/// is itself bounded, whatever the gauge does: the chassis can never stall the device.
pub proof fn readings_are_bounded(t: Seq<WireEvent>, register: u8, result: Option<u16>)
    requires
        word_read(t, register, result),
    ensures
        t.len() <= 397,
{
    if started(t, false) && result is None {
        starts_are_bounded(t, false);
    } else {
        let k = choose|k: int|
            {
                &&& 0 <= k <= t.len() - 7
                &&& started(#[trigger] t.take(k), true)
                &&& word_exchanged(t.subrange(k, t.len() - 7), register, result)
                &&& stopped(t.skip(t.len() - 7))
            };
        starts_are_bounded(t.take(k), true);
        let s = t.subrange(k, t.len() - 7);
        let (cuts, replies) = choose|cuts: Seq<int>, replies: Seq<Option<u8>>|
            {
                &&& #[trigger] parts_sent(s, word_parts(register), cuts, replies)
                &&& replies.len() >= 1
                &&& match result {
                    Some(word) => {
                        &&& replies.len() == 6
                        &&& replies[4] matches Some(low) && replies[5] matches Some(high) && word
                            == low + 256 * high
                    },
                    None => replies.last() is None,
                }
            };
        parts_are_bounded(s, word_parts(register), cuts, replies, replies.len() as int);
    }
}

proof fn parts_are_bounded(
    t: Seq<WireEvent>,
    parts: Seq<Part>,
    cuts: Seq<int>,
    replies: Seq<Option<u8>>,
    n: int,
)
    requires
        parts_sent(t, parts, cuts, replies),
        0 <= n <= replies.len(),
    ensures
        cuts[n] <= 56 * n,
    decreases n,
{
    if n > 0 {
        parts_are_bounded(t, parts, cuts, replies, n - 1);
        assert(part_at(t, parts, cuts, replies, n - 1));
        let u = t.subrange(cuts[n - 1], cuts[n]);
        let reply = replies[n - 1];
        match parts[n - 1] {
            Part::Start => starts_are_bounded(u, reply is Some),
            Part::Write(byte) => {
                if bits_written(u, byte, 8, Some(true)) {
                    writes_are_bounded(u, byte, 8, Some(true));
                } else if bits_written(u, byte, 8, Some(false)) {
                    writes_are_bounded(u, byte, 8, Some(false));
                } else {
                    writes_are_bounded(u, byte, 8, None);
                }
            },
            Part::Read { acknowledge } => reads_are_bounded(u.skip(1), acknowledge, 8, 0, reply),
        }
    }
}

/// Each wait for the clock reads it a bounded number of times.
pub proof fn waits_are_bounded<W: TwoWire>(gauge: BatteryI2c<W>, i: int)
    requires
        gauge.wf(),
        0 <= i < gauge.log().len(),
    ensures
        gauge.log()[i] matches WireEvent::SclAwaited { replies, .. } ==> replies.len()
            <= STRETCH_POLLS,
{
    assert(plausible(gauge.log()[i]));
}

} // verus!
