//! The slot of the card, and a record of everything done with the card in it.
use vstd::prelude::*;

use crate::blocks::{BlockAccess, BlockEvent};
use crate::boot::MediaLayout;
use crate::card::CardFs;
use crate::device::{
    card_formatted, card_probed, format_card, mount_failed, mount_volume, probe_card, FormatFailure,
};
use crate::screens::{MediaIdentity, MountFailure};
use crate::session::mount_succeeded;
use crate::storage::{since, Recorded, StorageEvent};
use crate::stream::{SdStream, SdStreamError};
use crate::volume::{Call, VolumeAccess};

verus! {

/// The card in the slot, supplied by the embedder. Nothing is promised of its replies.
pub trait CardPort {
    type Blocks: BlockAccess;

    type Layer: VolumeAccess;

    /// Clock and select the card; says whether that worked.
    fn prepare(&mut self) -> bool;

    /// Have the driver initialize the card before its next command.
    fn mark_uninit(&mut self);

    /// Keep the slow rate of the initialization for all transfers.
    fn keep_slow(&mut self);

    /// The raw card.
    fn blocks(&mut self) -> Self::Blocks;

    /// The filesystem layer over the card.
    fn layer(&mut self) -> Self::Layer;
}

/// One step on the way to a mounted card.
#[allow(inconsistent_fields)]
pub enum PortEvent<D, F> {
    Prepare { reply: bool },
    MarkUninit,
    KeepSlow,
    /// The raw card was asked for its size; the reply is its length in bytes.
    Open { exchanges: Seq<BlockEvent>, reply: Result<u64, SdStreamError> },
    Probe {
        exchanges: Seq<StorageEvent<SdStreamError>>,
        length: u64,
        reply: Result<(MediaLayout, MediaIdentity), MountFailure>,
    },
    Mount { layout: MediaLayout, calls: Seq<Call<D, F>>, reply: Result<(), MountFailure> },
    Format {
        exchanges: Seq<StorageEvent<SdStreamError>>,
        length: u64,
        seed: u32,
        reply: Result<(), FormatFailure>,
    },
}

/// The card was asked for its size once, and its answer makes the reply.
pub open spec fn size_answered(
    exchanges: Seq<BlockEvent>,
    reply: Result<u64, SdStreamError>,
) -> bool {
    &&& exchanges.len() == 1
    &&& exchanges[0] matches BlockEvent::Count { reply: count } && match count {
        Ok(blocks) => reply matches Ok(length) && length == blocks * 512,
        Err(detail) => reply == Err::<u64, SdStreamError>(SdStreamError::DeviceSize(detail)),
    }
}

/// A volume was repaired and opened, and the answer makes the reply.
pub open spec fn mount_answered<D, F>(
    calls: Seq<Call<D, F>>,
    layout: MediaLayout,
    reply: Result<(), MountFailure>,
) -> bool {
    match reply {
        Ok(_) => mount_succeeded(calls, layout),
        Err(failure) => mount_failed(calls, layout, failure),
    }
}

/// The step is one that can have happened: the exchanges with the card lead to its reply.
pub open spec fn plausible<D, F>(event: PortEvent<D, F>) -> bool {
    match event {
        PortEvent::Open { exchanges, reply } => size_answered(exchanges, reply),
        PortEvent::Probe { exchanges, length, reply } => card_probed(exchanges, length, reply),
        PortEvent::Mount { layout, calls, reply } => mount_answered(calls, layout, reply),
        PortEvent::Format { exchanges, length, seed, reply } => card_formatted(
            exchanges,
            length,
            seed,
            reply,
        ),
        _ => true,
    }
}

/// Every step is one that can have happened.
pub open spec fn all_plausible<D, F>(log: Seq<PortEvent<D, F>>) -> bool {
    forall|i: int| 0 <= i < log.len() ==> plausible(#[trigger] log[i])
}

proof fn plausible_logs_grow<D, F>(log: Seq<PortEvent<D, F>>, event: PortEvent<D, F>)
    requires
        all_plausible(log),
        plausible(event),
    ensures
        all_plausible(log.push(event)),
{
    assert forall|i: int| 0 <= i < log.push(event).len() implies plausible(
        #[trigger] log.push(event)[i],
    ) by {
        if i < log.len() {
            assert(log.push(event)[i] == log[i]);
        }
    }
}

/// The steps with a filesystem layer.
pub type Steps<M> = Seq<PortEvent<<M as VolumeAccess>::Dir, <M as VolumeAccess>::File>>;

/// The slot with its history. Only what is really done reaches the history.
pub struct RecordedPort<P: CardPort> {
    port: P,
    log: Ghost<Steps<P::Layer>>,
}

impl<P: CardPort> RecordedPort<P> {
    /// Every step so far, oldest first.
    pub closed spec fn log(&self) -> Steps<P::Layer> {
        self.log@
    }

    /// Every step of the history is one that can have happened.
    pub open spec fn wf(&self) -> bool {
        all_plausible(self.log())
    }

    pub fn new(port: P) -> (recorded: Self)
        ensures
            recorded.wf(),
            recorded.log() == Steps::<P::Layer>::empty(),
    {
        RecordedPort { port, log: Ghost(Seq::empty()) }
    }

    pub fn prepare(&mut self) -> (reply: bool)
        requires
            old(self).wf(),
        ensures
            final(self).wf(),
            final(self).log() == old(self).log().push(PortEvent::Prepare { reply }),
    {
        let reply = self.port.prepare();
        proof {
            plausible_logs_grow(self.log@, PortEvent::Prepare { reply });
        }
        self.log = Ghost(self.log@.push(PortEvent::Prepare { reply }));
        reply
    }

    pub fn mark_uninit(&mut self)
        requires
            old(self).wf(),
        ensures
            final(self).wf(),
            final(self).log() == old(self).log().push(PortEvent::MarkUninit),
    {
        self.port.mark_uninit();
        proof {
            plausible_logs_grow(self.log@, PortEvent::MarkUninit);
        }
        self.log = Ghost(self.log@.push(PortEvent::MarkUninit));
    }

    pub fn keep_slow(&mut self)
        requires
            old(self).wf(),
        ensures
            final(self).wf(),
            final(self).log() == old(self).log().push(PortEvent::KeepSlow),
    {
        self.port.keep_slow();
        proof {
            plausible_logs_grow(self.log@, PortEvent::KeepSlow);
        }
        self.log = Ghost(self.log@.push(PortEvent::KeepSlow));
    }

    /// Open the raw card; `None` where it does not give its size.
    pub fn open(&mut self) -> (stream: Option<SdStream<P::Blocks>>)
        requires
            old(self).wf(),
        ensures
            final(self).wf(),
            final(self).log().len() == old(self).log().len() + 1,
            final(self).log() == old(self).log().push(final(self).log().last()),
            final(self).log().last() matches PortEvent::Open { reply, .. } && match stream {
                Some(stream) => reply matches Ok(length) && length == stream.length(),
                None => reply is Err,
            },
    {
        match SdStream::open(self.port.blocks()) {
            Ok(stream) => {
                let length: u64 = stream.len();
                let ghost event = PortEvent::Open { exchanges: stream.log(), reply: Ok(length) };
                proof {
                    plausible_logs_grow(self.log@, event);
                }
                self.log = Ghost(self.log@.push(event));
                Some(stream)
            },
            Err(refused) => {
                let ghost event = PortEvent::Open {
                    exchanges: refused.log(),
                    reply: Err(refused.error()),
                };
                proof {
                    plausible_logs_grow(self.log@, event);
                }
                self.log = Ghost(self.log@.push(event));
                None
            },
        }
    }

    /// Look for the volume on the raw card.
    pub fn probe(&mut self, stream: SdStream<P::Blocks>) -> (found: Result<
        (MediaLayout, MediaIdentity),
        MountFailure,
    >)
        requires
            old(self).wf(),
        ensures
            final(self).wf(),
            final(self).log().len() == old(self).log().len() + 1,
            final(self).log() == old(self).log().push(final(self).log().last()),
            final(self).log().last() matches PortEvent::Probe { length, reply, .. } && length
                == stream.length() && reply == found,
            found matches Ok((layout, _)) ==> layout.start_lba + layout.sector_count <= u32::MAX,
    {
        let length: u64 = stream.len();
        let mut storage = Recorded::new(stream);
        let ghost blank = storage.log();
        let found = probe_card(&mut storage, length);
        let ghost event = PortEvent::Probe { exchanges: storage.log(), length, reply: found };
        proof {
            assert(since(blank, storage.log()) =~= storage.log());
            plausible_logs_grow(self.log@, event);
        }
        self.log = Ghost(self.log@.push(event));
        found
    }

    /// Format the raw card.
    pub fn format(&mut self, stream: SdStream<P::Blocks>, seed: u32) -> (formatted: Result<
        (),
        FormatFailure,
    >)
        requires
            old(self).wf(),
        ensures
            final(self).wf(),
            final(self).log().len() == old(self).log().len() + 1,
            final(self).log() == old(self).log().push(final(self).log().last()),
            final(self).log().last() matches PortEvent::Format { length, seed: given, reply, .. }
                && length == stream.length() && given == seed && reply == formatted,
    {
        let length: u64 = stream.len();
        let mut storage = Recorded::new(stream);
        let ghost blank = storage.log();
        let formatted = format_card(&mut storage, length, seed);
        let ghost event = PortEvent::Format {
            exchanges: storage.log(),
            length,
            seed,
            reply: formatted,
        };
        proof {
            assert(since(blank, storage.log()) =~= storage.log());
            plausible_logs_grow(self.log@, event);
        }
        self.log = Ghost(self.log@.push(event));
        formatted
    }

    /// Mount the volume with this layout.
    pub fn mount(&mut self, layout: MediaLayout) -> (mounted: Result<
        CardFs<P::Layer>,
        MountFailure,
    >)
        requires
            old(self).wf(),
            layout.start_lba + layout.sector_count <= u32::MAX,
        ensures
            final(self).wf(),
            final(self).log().len() == old(self).log().len() + 1,
            final(self).log() == old(self).log().push(final(self).log().last()),
            final(self).log().last() matches PortEvent::Mount { layout: given, calls, reply }
                && given == layout && match mounted {
                Ok(fs) => reply is Ok && fs.is_fresh(layout) && calls == fs.volume().calls(),
                Err(failure) => reply == Err::<(), MountFailure>(failure),
            },
    {
        match mount_volume(self.port.layer(), layout) {
            Ok(fs) => {
                let ghost event = PortEvent::Mount {
                    layout,
                    calls: fs.volume().calls(),
                    reply: Ok(()),
                };
                proof {
                    fs.volume().mounting_calls();
                    plausible_logs_grow(self.log@, event);
                }
                self.log = Ghost(self.log@.push(event));
                Ok(fs)
            },
            Err((failure, volume)) => {
                let ghost event = PortEvent::Mount {
                    layout,
                    calls: volume.calls(),
                    reply: Err(failure),
                };
                proof {
                    plausible_logs_grow(self.log@, event);
                }
                self.log = Ghost(self.log@.push(event));
                Err(failure)
            },
        }
    }
}

} // verus!
