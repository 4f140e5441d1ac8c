//! Two wires driven by software, and a record of everything done on them.
use vstd::prelude::*;

verus! {

/// How often the clock is read while the gauge holds it low. The gauge may do so for
/// four milliseconds.
pub const STRETCH_POLLS: usize = 600_000;

/// The two wires, supplied by the embedder. A wire that is released is pulled high
/// unless the gauge holds it low. Nothing is promised of what is read.
pub trait TwoWire {
    fn drive_sda_low(&mut self);

    fn release_sda(&mut self);

    fn drive_scl_low(&mut self);

    fn release_scl(&mut self);

    fn sda_is_high(&mut self) -> Option<bool>;

    fn scl_is_high(&mut self) -> Option<bool>;

    fn wait(&mut self, cycles: u32);
}

/// One step on the wires.
#[allow(inconsistent_fields)]
pub enum WireEvent {
    SdaLow,
    SdaReleased,
    SdaRead { reply: Option<bool> },
    SclLow,
    SclReleased,
    /// The clock was read until it was high, could not be read, or had been read
    /// too often.
    SclAwaited { replies: Seq<Option<bool>>, high: bool },
    Waited { cycles: u32 },
}

/// Readings of the clock that show it high in the end, or give up: each but the last
/// shows it low.
pub open spec fn clock_awaited(replies: Seq<Option<bool>>, high: bool) -> bool {
    &&& 1 <= replies.len() <= STRETCH_POLLS
    &&& forall|i: int| 0 <= i < replies.len() - 1 ==> #[trigger] replies[i] == Some(false)
    &&& high == (replies.last() == Some(true))
    &&& replies.last() == Some(false) ==> replies.len() == STRETCH_POLLS
}

/// The step is one that can have happened.
pub open spec fn plausible(event: WireEvent) -> bool {
    event matches WireEvent::SclAwaited { replies, high } ==> clock_awaited(replies, high)
}

/// Two wires together with the history of the steps on them.
pub struct RecordedWires<W: TwoWire> {
    wires: W,
    log: Ghost<Seq<WireEvent>>,
}

impl<W: TwoWire> RecordedWires<W> {
    /// Every step so far, oldest first.
    pub closed spec fn log(&self) -> Seq<WireEvent> {
        self.log@
    }

    /// Every wait for the clock was bounded.
    pub open spec fn wf(&self) -> bool {
        forall|i: int| 0 <= i < self.log().len() ==> plausible(#[trigger] self.log()[i])
    }

    /// Start a record for `wires`.
    pub fn new(wires: W) -> (recorded: Self)
        ensures
            recorded.wf(),
            recorded.log() == Seq::<WireEvent>::empty(),
    {
        RecordedWires { wires, log: Ghost(Seq::empty()) }
    }

    /// Pull the data wire low, and record it.
    pub fn drive_sda_low(&mut self)
        requires
            old(self).wf(),
        ensures
            final(self).wf(),
            final(self).log() == old(self).log().push(WireEvent::SdaLow),
    {
        self.wires.drive_sda_low();
        self.log = Ghost(self.log@.push(WireEvent::SdaLow));
    }

    /// Release the data wire, and record it.
    pub fn release_sda(&mut self)
        requires
            old(self).wf(),
        ensures
            final(self).wf(),
            final(self).log() == old(self).log().push(WireEvent::SdaReleased),
    {
        self.wires.release_sda();
        self.log = Ghost(self.log@.push(WireEvent::SdaReleased));
    }

    /// Pull the clock low, and record it.
    pub fn drive_scl_low(&mut self)
        requires
            old(self).wf(),
        ensures
            final(self).wf(),
            final(self).log() == old(self).log().push(WireEvent::SclLow),
    {
        self.wires.drive_scl_low();
        self.log = Ghost(self.log@.push(WireEvent::SclLow));
    }

    /// Release the clock, and record it.
    pub fn release_scl(&mut self)
        requires
            old(self).wf(),
        ensures
            final(self).wf(),
            final(self).log() == old(self).log().push(WireEvent::SclReleased),
    {
        self.wires.release_scl();
        self.log = Ghost(self.log@.push(WireEvent::SclReleased));
    }

    /// Read the data wire, and record it.
    pub fn read_sda(&mut self) -> (reply: Option<bool>)
        requires
            old(self).wf(),
        ensures
            final(self).wf(),
            final(self).log() == old(self).log().push(WireEvent::SdaRead { reply }),
    {
        let reply = self.wires.sda_is_high();
        self.log = Ghost(self.log@.push(WireEvent::SdaRead { reply }));
        reply
    }

    /// Leave the wires alone for some cycles, and record it.
    pub fn wait(&mut self, cycles: u32)
        requires
            old(self).wf(),
        ensures
            final(self).wf(),
            final(self).log() == old(self).log().push(WireEvent::Waited { cycles }),
    {
        self.wires.wait(cycles);
        self.log = Ghost(self.log@.push(WireEvent::Waited { cycles }));
    }

    /// Wait until the gauge lets the clock rise, but not for ever.
    pub fn wait_scl_high(&mut self) -> (high: bool)
        requires
            old(self).wf(),
        ensures
            final(self).wf(),
            exists|replies: Seq<Option<bool>>|
                final(self).log() == #[trigger] old(self).log().push(
                    WireEvent::SclAwaited { replies, high },
                ),
    {
        let ghost start = self.log();
        let ghost mut replies: Seq<Option<bool>> = Seq::empty();
        let mut polls: usize = 0;
        let mut high = false;
        let mut waiting = true;
        while waiting && polls < STRETCH_POLLS
            invariant
                polls <= STRETCH_POLLS,
                replies.len() == polls,
                self.log() == start,
                self.wf(),
                forall|i: int|
                    0 <= i < replies.len() - 1 ==> #[trigger] replies[i] == Some(false),
                waiting ==> !high && (polls > 0 ==> replies.last() == Some(false)),
                !waiting ==> polls > 0 && high == (replies.last() == Some(true))
                    && replies.last() != Some(false),
            decreases STRETCH_POLLS - polls,
        {
            let reply = self.wires.scl_is_high();
            proof {
                replies = replies.push(reply);
            }
            polls += 1;
            match reply {
                Some(false) => {},
                Some(true) => {
                    high = true;
                    waiting = false;
                },
                None => {
                    waiting = false;
                },
            }
        }
        let ghost event = WireEvent::SclAwaited { replies, high };
        assert(plausible(event));
        self.log = Ghost(self.log@.push(event));
        high
    }
}

} // verus!
