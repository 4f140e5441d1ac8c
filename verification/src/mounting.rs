//! Taking a card from the slot to a mounted or freshly formatted volume.
use vstd::prelude::*;

use crate::boot::MediaLayout;
use crate::card::CardFs;
use crate::device::{after_format, fresh_mount_failure, FormatFailure};
use crate::port::{all_plausible, CardPort, PortEvent, RecordedPort, Steps};
use crate::screens::{MediaIdentity, MountFailure};
use crate::storage::{cut, extends, since};
use crate::volume::VolumeAccess;

verus! {

/// Where the volume of a card was found.
pub type Found = Result<(MediaLayout, MediaIdentity), MountFailure>;

/// Mounting the card in the slot. The first failure ends it; a card that cannot be
/// prepared or opened counts as one that cannot be read.
pub open spec fn slot_mounted<D, F>(t: Seq<PortEvent<D, F>>, result: Found) -> bool {
    &&& t.len() >= 1
    &&& t[0] matches PortEvent::Prepare { reply: prepared } && if !prepared {
        t.len() == 1 && result == unreadable()
    } else {
        &&& t.len() >= 3
        &&& t[1] is MarkUninit
        &&& t[2] matches PortEvent::Open { reply: opened, .. } && match opened {
            Err(_) => t.len() == 3 && result == unreadable(),
            Ok(length) => {
                &&& t.len() >= 5
                &&& t[3] is KeepSlow
                &&& t[4] matches PortEvent::Probe { length: probed, reply: found, .. } && probed
                    == length && match found {
                    Err(failure) => t.len() == 5 && result == found,
                    Ok((layout, identity)) => {
                        &&& t.len() == 6
                        &&& t[5] matches PortEvent::Mount { layout: mounted, reply, .. } && mounted
                            == layout && match reply {
                            Err(failure) => result == Err::<
                                (MediaLayout, MediaIdentity),
                                MountFailure,
                            >(failure),
                            Ok(_) => result == found,
                        }
                    },
                }
            },
        }
    }
}

/// The failure of a card that cannot be read.
pub open spec fn unreadable() -> Found {
    Err(MountFailure::Io)
}

/// Formatting the card in the slot and mounting the fresh volume.
pub open spec fn slot_formatted<D, F>(
    t: Seq<PortEvent<D, F>>,
    seed: u32,
    result: Result<(MediaLayout, MediaIdentity), FormatFailure>,
) -> bool {
    &&& t.len() >= 1
    &&& t[0] matches PortEvent::Open { reply: opened, .. } && match opened {
        Err(_) => t.len() == 1 && result == Err::<(MediaLayout, MediaIdentity), FormatFailure>(
            FormatFailure::Io,
        ),
        Ok(length) => {
            &&& t.len() >= 2
            &&& t[1] matches PortEvent::Format { length: whole, seed: given, reply, .. } && whole
                == length && given == seed && match reply {
                Err(failure) => t.len() == 2 && result == Err::<
                    (MediaLayout, MediaIdentity),
                    FormatFailure,
                >(failure),
                Ok(_) => exists|found: Found| #[trigger]
                    slot_mounted(t.skip(2), found) && result == match found {
                        Ok(pair) => Ok(pair),
                        Err(failure) => Err(fresh_mount_failure(failure)),
                    },
            }
        },
    }
}

/// What a mount found, without the volume itself.
pub open spec fn found_by<M: VolumeAccess, E>(
    result: Result<(CardFs<M>, MediaIdentity), E>,
) -> Result<(MediaLayout, MediaIdentity), E> {
    match result {
        Ok((fs, identity)) => Ok((fs.layout(), identity)),
        Err(failure) => Err(failure),
    }
}

/// The volume was just mounted, by the calls of the last step.
pub open spec fn just_mounted<M: VolumeAccess>(fs: CardFs<M>, t: Steps<M>) -> bool {
    &&& fs.is_fresh(fs.layout())
    &&& t.len() > 0
    &&& t.last() matches PortEvent::Mount { calls, .. } && calls == fs.volume().calls()
}

/// The slot of the device.
pub struct CardSeat<P: CardPort> {
    port: RecordedPort<P>,
}

impl<P: CardPort> CardSeat<P> {
    /// Every step so far, oldest first.
    pub closed spec fn log(&self) -> Steps<P::Layer> {
        self.port.log()
    }

    /// Every step of the history is one that can have happened.
    pub open spec fn wf(&self) -> bool {
        all_plausible(self.log())
    }

    pub fn new(port: P) -> (seat: Self)
        ensures
            seat.wf(),
            seat.log() == Steps::<P::Layer>::empty(),
    {
        CardSeat { port: RecordedPort::new(port) }
    }

    /// Forget the card, so that the driver initializes the next one.
    pub fn mark_uninit(&mut self)
        requires
            old(self).wf(),
        ensures
            final(self).wf(),
            final(self).log() == old(self).log().push(PortEvent::MarkUninit),
    {
        self.port.mark_uninit();
    }

    /// Find and mount the volume of the card in the slot.
    pub fn mount_card(&mut self) -> (result: Result<(CardFs<P::Layer>, MediaIdentity), MountFailure>)
        requires
            old(self).wf(),
        ensures
            final(self).wf(),
            extends(old(self).log(), final(self).log()),
            slot_mounted(since(old(self).log(), final(self).log()), found_by(result)),
            result matches Ok((fs, _)) ==> just_mounted(
                fs,
                since(old(self).log(), final(self).log()),
            ),
    {
        if !self.port.prepare() {
            return Err(MountFailure::Io);
        }
        self.port.mark_uninit();
        let stream = match self.port.open() {
            Some(stream) => stream,
            None => return Err(MountFailure::Io),
        };
        self.port.keep_slow();
        let (layout, identity) = match self.port.probe(stream) {
            Ok(pair) => pair,
            Err(failure) => return Err(failure),
        };
        match self.port.mount(layout) {
            Ok(fs) => Ok((fs, identity)),
            Err(failure) => Err(failure),
        }
    }

    /// Format the card in the slot and mount the fresh volume.
    pub fn format_and_mount(&mut self, seed: u32) -> (result: Result<
        (CardFs<P::Layer>, MediaIdentity),
        FormatFailure,
    >)
        requires
            old(self).wf(),
        ensures
            final(self).wf(),
            extends(old(self).log(), final(self).log()),
            slot_formatted(since(old(self).log(), final(self).log()), seed, found_by(result)),
            result matches Ok((fs, _)) ==> just_mounted(
                fs,
                since(old(self).log(), final(self).log()),
            ),
    {
        let ghost start = self.log();
        let stream = match self.port.open() {
            Some(stream) => stream,
            None => return Err(FormatFailure::Io),
        };
        let formatted = self.port.format(stream, seed);
        let ghost written = self.log();
        if let Err(failure) = formatted {
            return Err(failure);
        }
        let mounted = self.mount_card();
        proof {
            cut(start, written, self.log());
            let t = since(start, self.log());
            assert(t.take(2)[0] == written[start.len() as int]);
            assert(t.take(2)[1] == written.last());
            assert(t.skip(2) =~= since(written, self.log()));
            assert(slot_mounted(t.skip(2), found_by(mounted)));
        }
        match mounted {
            Ok(pair) => Ok(pair),
            Err(failure) => Err(after_format(failure)),
        }
    }
}

} // verus!
