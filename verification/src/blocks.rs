//! A device of blocks, and a record of everything asked of it.
use vstd::prelude::*;

verus! {

/// A device of 512-byte blocks supplied by the embedder; a failure carries the
/// device's own description. Nothing is promised of its replies.
pub trait BlockAccess {
    fn num_blocks(&mut self) -> Result<u32, String>;

    fn read_block(&mut self, index: u32) -> Result<[u8; 512], String>;

    fn write_block(&mut self, index: u32, contents: &[u8; 512]) -> Result<(), String>;
}

/// One exchange with a [`BlockAccess`].
#[allow(inconsistent_fields)]
pub enum BlockEvent {
    Count { reply: Result<u32, String> },
    Read { index: u32, reply: Result<[u8; 512], String> },
    Write { index: u32, contents: Seq<u8>, reply: Result<(), String> },
}

/// A device together with the history of the exchanges made with it.
pub struct RecordedBlocks<D: BlockAccess> {
    device: D,
    log: Ghost<Seq<BlockEvent>>,
}

impl<D: BlockAccess> RecordedBlocks<D> {
    /// Every exchange so far, oldest first.
    pub closed spec fn log(&self) -> Seq<BlockEvent> {
        self.log@
    }

    /// The device itself.
    pub closed spec fn inner(&self) -> D {
        self.device
    }

    /// Start a record for `device`.
    pub fn new(device: D) -> (recorded: Self)
        ensures
            recorded.log() == Seq::<BlockEvent>::empty(),
            recorded.inner() == device,
    {
        RecordedBlocks { device, log: Ghost(Seq::empty()) }
    }

    /// Give the device back.
    pub fn into_inner(self) -> (device: D)
        ensures
            device == self.inner(),
    {
        self.device
    }

    /// Ask for the size, and record it.
    pub fn num_blocks(&mut self) -> (reply: Result<u32, String>)
        ensures
            final(self).log() == old(self).log().push(BlockEvent::Count { reply }),
    {
        let reply = self.device.num_blocks();
        self.log = Ghost(self.log@.push(BlockEvent::Count { reply }));
        reply
    }

    /// Read a block, and record it.
    pub fn read_block(&mut self, index: u32) -> (reply: Result<[u8; 512], String>)
        ensures
            final(self).log() == old(self).log().push(BlockEvent::Read { index, reply }),
    {
        let reply = self.device.read_block(index);
        self.log = Ghost(self.log@.push(BlockEvent::Read { index, reply }));
        reply
    }

    /// Write a block, and record it.
    pub fn write_block(&mut self, index: u32, contents: &[u8; 512]) -> (reply: Result<(), String>)
        ensures
            final(self).log() == old(self).log().push(
                BlockEvent::Write { index, contents: contents@, reply },
            ),
    {
        let reply = self.device.write_block(index, contents);
        self.log = Ghost(
            self.log@.push(BlockEvent::Write { index, contents: contents@, reply }),
        );
        reply
    }
}

} // verus!
