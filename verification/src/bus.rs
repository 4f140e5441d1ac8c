//! The serial bus of the card, which stays selected between commands.
//!
//! Some cards reject a write whose pieces are separated by pulses on the select line.
//! Nothing else hangs on this bus, so the card is selected once and for all.
use vstd::prelude::*;
use vstd::slice::slice_subrange;

use crate::serial::{BusEvent, RecordedBus, SerialBus};
use crate::storage::{cut, extends, no_more, one_more, since};

verus! {

/// Bytes sent in one transfer.
pub const TRANSFER_CHUNK_BYTES: usize = 32;

/// Bytes sent to a card that is not selected, before the first command.
pub const WAKE_BYTES: [u8; 10] = [0xff, 0xff, 0xff, 0xff, 0xff, 0xff, 0xff, 0xff, 0xff, 0xff];

/// How many of `len` bytes the next transfer takes.
pub open spec fn chunk_of(len: int) -> int {
    if len < TRANSFER_CHUNK_BYTES {
        len
    } else {
        TRANSFER_CHUNK_BYTES as int
    }
}

/// Bytes are sent in chunks, until one transfer fails.
pub open spec fn bytes_sent<E>(t: Seq<BusEvent<E>>, bytes: Seq<u8>, result: Result<(), E>) -> bool
    decreases bytes.len(),
{
    if bytes.len() == 0 {
        t.len() == 0 && result is Ok
    } else {
        let k = chunk_of(bytes.len() as int);
        &&& t.len() >= 1
        &&& t[0] matches BusEvent::Exchange { bytes: chunk, reply } && {
            &&& chunk == bytes.take(k)
            &&& match reply {
                Err(error) => t.len() == 1 && result == Err::<(), E>(error),
                Ok(()) => bytes_sent(t.skip(1), bytes.skip(k), result),
            }
        }
    }
}

/// A card is woken: clocked while it is not selected, and then selected. The first
/// failure ends it.
pub open spec fn card_woken<E>(t: Seq<BusEvent<E>>, done: bool) -> bool {
    &&& t.len() >= 1
    &&& t[0] matches BusEvent::Deselect { reply: released } && if !released {
        t.len() == 1 && !done
    } else {
        &&& t.len() >= 2
        &&& t[1] matches BusEvent::Exchange { bytes, reply: sent } && bytes == WAKE_BYTES@
            && if sent is Err {
            t.len() == 2 && !done
        } else {
            &&& t.len() >= 3
            &&& t[2] matches BusEvent::Flush { reply: flushed } && if flushed is Err {
                t.len() == 3 && !done
            } else {
                &&& t.len() == 4
                &&& t[3] matches BusEvent::Select { reply: selected } && done == selected
            }
        }
    }
}

/// The card's bus with its history.
pub struct SelectedSdDevice<B: SerialBus> {
    bus: RecordedBus<B>,
}

impl<B: SerialBus> SelectedSdDevice<B> {
    /// Every step so far, oldest first.
    pub closed spec fn log(&self) -> Seq<BusEvent<B::Error>> {
        self.bus.log()
    }

    /// The bus itself.
    pub closed spec fn inner(&self) -> B {
        self.bus.inner()
    }

    /// Take over the bus and wake the card. Where that fails, the bus comes back with its
    /// history.
    pub fn new(bus: B) -> (result: Result<Self, Self>)
        ensures
            match result {
                Ok(device) => card_woken(device.log(), true),
                Err(device) => card_woken(device.log(), false),
            },
    {
        let mut device = SelectedSdDevice { bus: RecordedBus::new(bus) };
        let ghost start = device.log();
        let woken = device.prepare_card();
        assert(since(start, device.log()) =~= device.log());
        if woken {
            Ok(device)
        } else {
            Err(device)
        }
    }

    /// The bus itself.
    pub fn bus_mut(&mut self) -> (bus: &mut B)
        ensures
            *bus == old(self).inner(),
            final(self).inner() == *final(bus),
            final(self).log() == old(self).log(),
    {
        self.bus.inner_mut()
    }

    /// Send bytes in chunks.
    pub fn write_discarding_read(&mut self, bytes: &[u8]) -> (result: Result<(), B::Error>)
        ensures
            extends(old(self).log(), final(self).log()),
            bytes_sent(since(old(self).log(), final(self).log()), bytes@, result),
        decreases bytes@.len(),
    {
        let ghost start = self.log();
        if bytes.len() == 0 {
            assert(since(start, self.log()) =~= Seq::<BusEvent<B::Error>>::empty());
            return Ok(());
        }
        let count: usize = if bytes.len() < TRANSFER_CHUNK_BYTES {
            bytes.len()
        } else {
            TRANSFER_CHUNK_BYTES
        };
        let chunk = slice_subrange(bytes, 0, count);
        let reply = self.bus.exchange(chunk);
        let ghost event = BusEvent::<B::Error>::Exchange { bytes: chunk@, reply };
        let ghost sent = self.log();
        proof {
            no_more(start);
            one_more(start, start, event);
            assert(chunk@ =~= bytes@.take(count as int));
        }
        if reply.is_err() {
            return reply;
        }
        let rest = slice_subrange(bytes, count, bytes.len());
        let result = self.write_discarding_read(rest);
        proof {
            cut(start, sent, self.log());
            assert(rest@ =~= bytes@.skip(count as int));
            let t = since(start, self.log());
            assert(t.take(1)[0] == event);
        }
        result
    }

    /// Clock the card while it is not selected, as it needs before its first command,
    /// and select it.
    pub fn prepare_card(&mut self) -> (done: bool)
        ensures
            extends(old(self).log(), final(self).log()),
            card_woken(since(old(self).log(), final(self).log()), done),
    {
        let ghost start = self.log();
        let released = self.bus.deselect();
        if !released {
            return false;
        }
        let ghost first = self.log();
        let sent = self.write_discarding_read(&WAKE_BYTES);
        let ghost clocked = self.log();
        proof {
            let u = since(first, clocked);
            assert(WAKE_BYTES@.len() == 10);
            assert(WAKE_BYTES@.take(10) =~= WAKE_BYTES@);
            assert(WAKE_BYTES@.skip(10).len() == 0);
            assert(u[0] is Exchange);
            if u[0]->Exchange_reply is Ok {
                assert(bytes_sent(u.skip(1), WAKE_BYTES@.skip(10), sent));
            }
            assert(u.len() == 1);
            cut(start, first, clocked);
            let t = since(start, clocked);
            assert(t.take(1)[0] == first.last());
            assert(t.skip(1)[0] == t[1]);
        }
        if sent.is_err() {
            return false;
        }
        let flushed = self.bus.flush();
        let ghost third = self.log();
        proof {
            cut(start, clocked, third);
            let t = since(start, third);
            assert(t.take(2)[0] == since(start, clocked)[0]);
            assert(t.take(2)[1] == since(start, clocked)[1]);
        }
        if flushed.is_err() {
            return false;
        }
        let selected = self.bus.select();
        proof {
            cut(start, third, self.log());
            let t = since(start, self.log());
            assert(t.take(3)[0] == since(start, third)[0]);
            assert(t.take(3)[1] == since(start, third)[1]);
            assert(t.take(3)[2] == since(start, third)[2]);
        }
        selected
    }
}

/// A card is selected only after at least 74 clocks on which it was not.
pub proof fn cards_are_clocked_before_they_are_selected<E>(t: Seq<BusEvent<E>>)
    requires
        card_woken(t, true),
    ensures
        t.len() == 4,
        t[0] == (BusEvent::<E>::Deselect { reply: true }),
        t[1] matches BusEvent::Exchange { bytes, reply } && reply is Ok && 8 * bytes.len() >= 74,
        t[3] == (BusEvent::<E>::Select { reply: true }),
{
    assert(WAKE_BYTES@.len() == 10);
}

} // verus!
