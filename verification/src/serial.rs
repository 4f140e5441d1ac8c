//! A serial bus with a select line, and a record of everything done on it.
use vstd::prelude::*;

verus! {

/// The bus and its select line, supplied by the embedder. Nothing is promised of the
/// replies.
pub trait SerialBus {
    type Error;

    /// Stop selecting the card; says whether that worked.
    fn deselect(&mut self) -> bool;

    /// Select the card; says whether that worked.
    fn select(&mut self) -> bool;

    /// Send bytes, and drop what is received meanwhile.
    fn exchange(&mut self, bytes: &[u8]) -> Result<(), Self::Error>;

    fn flush(&mut self) -> Result<(), Self::Error>;
}

/// One step on the bus.
#[allow(inconsistent_fields)]
pub enum BusEvent<E> {
    Deselect { reply: bool },
    Select { reply: bool },
    Exchange { bytes: Seq<u8>, reply: Result<(), E> },
    Flush { reply: Result<(), E> },
}

/// A bus together with the history of the steps on it.
pub struct RecordedBus<B: SerialBus> {
    bus: B,
    log: Ghost<Seq<BusEvent<B::Error>>>,
}

impl<B: SerialBus> RecordedBus<B> {
    /// Every step so far, oldest first.
    pub closed spec fn log(&self) -> Seq<BusEvent<B::Error>> {
        self.log@
    }

    /// The bus itself.
    pub closed spec fn inner(&self) -> B {
        self.bus
    }

    /// Start a record for `bus`.
    pub fn new(bus: B) -> (recorded: Self)
        ensures
            recorded.log() == Seq::<BusEvent<B::Error>>::empty(),
            recorded.inner() == bus,
    {
        RecordedBus { bus, log: Ghost(Seq::empty()) }
    }

    /// The bus itself; what is done on it directly is not recorded.
    pub fn inner_mut(&mut self) -> (bus: &mut B)
        ensures
            *bus == old(self).inner(),
            final(self).inner() == *final(bus),
            final(self).log() == old(self).log(),
    {
        &mut self.bus
    }

    /// Stop selecting, and record it.
    pub fn deselect(&mut self) -> (reply: bool)
        ensures
            final(self).log() == old(self).log().push(BusEvent::Deselect { reply }),
    {
        let reply = self.bus.deselect();
        self.log = Ghost(self.log@.push(BusEvent::Deselect { reply }));
        reply
    }

    /// Select, and record it.
    pub fn select(&mut self) -> (reply: bool)
        ensures
            final(self).log() == old(self).log().push(BusEvent::Select { reply }),
    {
        let reply = self.bus.select();
        self.log = Ghost(self.log@.push(BusEvent::Select { reply }));
        reply
    }

    /// Send bytes, and record it.
    pub fn exchange(&mut self, bytes: &[u8]) -> (reply: Result<(), B::Error>)
        ensures
            final(self).log() == old(self).log().push(BusEvent::Exchange { bytes: bytes@, reply }),
    {
        let reply = self.bus.exchange(bytes);
        self.log = Ghost(self.log@.push(BusEvent::Exchange { bytes: bytes@, reply }));
        reply
    }

    /// Flush, and record it.
    pub fn flush(&mut self) -> (reply: Result<(), B::Error>)
        ensures
            final(self).log() == old(self).log().push(BusEvent::Flush { reply }),
    {
        let reply = self.bus.flush();
        self.log = Ghost(self.log@.push(BusEvent::Flush { reply }));
        reply
    }
}

} // verus!
