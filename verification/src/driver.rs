//! The driver of a card, and a record of everything asked of it.
use vstd::prelude::*;

verus! {

/// The card's driver, supplied by the embedder. Nothing is promised of its replies.
pub trait CardDriver {
    type Error;

    /// Clock and select the card anew; says whether that worked.
    fn prepare(&mut self) -> bool;

    /// Have the driver initialize the card again before its next command.
    fn mark_uninit(&mut self);

    fn read(&mut self, start: u32, count: usize) -> Result<Vec<[u8; 512]>, Self::Error>;

    fn write(&mut self, start: u32, blocks: &Vec<[u8; 512]>) -> Result<(), Self::Error>;

    fn num_blocks(&mut self) -> Result<u32, Self::Error>;
}

/// One exchange with a [`CardDriver`].
#[allow(inconsistent_fields)]
pub enum CardEvent<E> {
    Prepare { reply: bool },
    MarkUninit,
    Read { start: u32, count: usize, reply: Result<Vec<[u8; 512]>, E> },
    Write { start: u32, blocks: Seq<[u8; 512]>, reply: Result<(), E> },
    Count { reply: Result<u32, E> },
}

/// A driver together with the history of the exchanges made with it.
pub struct RecordedDriver<C: CardDriver> {
    card: C,
    log: Ghost<Seq<CardEvent<C::Error>>>,
}

impl<C: CardDriver> RecordedDriver<C> {
    /// Every exchange so far, oldest first.
    pub closed spec fn log(&self) -> Seq<CardEvent<C::Error>> {
        self.log@
    }

    /// Start a record for `card`.
    pub fn new(card: C) -> (recorded: Self)
        ensures
            recorded.log() == Seq::<CardEvent<C::Error>>::empty(),
    {
        RecordedDriver { card, log: Ghost(Seq::empty()) }
    }

    /// Prepare the card anew, and record it.
    pub fn prepare(&mut self) -> (reply: bool)
        ensures
            final(self).log() == old(self).log().push(CardEvent::Prepare { reply }),
    {
        let reply = self.card.prepare();
        self.log = Ghost(self.log@.push(CardEvent::Prepare { reply }));
        reply
    }

    /// Have the card initialized again, and record it.
    pub fn mark_uninit(&mut self)
        ensures
            final(self).log() == old(self).log().push(CardEvent::MarkUninit),
    {
        self.card.mark_uninit();
        self.log = Ghost(self.log@.push(CardEvent::MarkUninit));
    }

    /// Read blocks, and record it.
    pub fn read(&mut self, start: u32, count: usize) -> (reply: Result<Vec<[u8; 512]>, C::Error>)
        ensures
            final(self).log() == old(self).log().push(CardEvent::Read { start, count, reply }),
    {
        let reply = self.card.read(start, count);
        self.log = Ghost(self.log@.push(CardEvent::Read { start, count, reply }));
        reply
    }

    /// Write blocks, and record it.
    pub fn write(&mut self, start: u32, blocks: &Vec<[u8; 512]>) -> (reply: Result<(), C::Error>)
        ensures
            final(self).log() == old(self).log().push(
                CardEvent::Write { start, blocks: blocks@, reply },
            ),
    {
        let reply = self.card.write(start, blocks);
        self.log = Ghost(self.log@.push(CardEvent::Write { start, blocks: blocks@, reply }));
        reply
    }

    /// Ask for the number of blocks, and record it.
    pub fn num_blocks(&mut self) -> (reply: Result<u32, C::Error>)
        ensures
            final(self).log() == old(self).log().push(CardEvent::Count { reply }),
    {
        let reply = self.card.num_blocks();
        self.log = Ghost(self.log@.push(CardEvent::Count { reply }));
        reply
    }
}

} // verus!
