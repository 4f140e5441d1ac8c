//! Byte-addressed storage, and a record of everything asked of it.
use vstd::prelude::*;

use crate::bytes::put_bytes;

verus! {

/// A seekable byte store supplied by the embedder. Nothing is promised of its
/// replies: whatever is proved here holds for every behaviour of the storage.
pub trait ByteStorage {
    type Error;

    /// Move to the absolute byte `offset`.
    fn seek_start(&mut self, offset: u64) -> Result<(), Self::Error>;

    /// Deliver at most `limit` of the bytes at the position, and move past them.
    /// No bytes at all means that the end was reached.
    fn read_some(&mut self, limit: usize) -> Result<Vec<u8>, Self::Error>;

    /// Store all of `bytes` at the position, and move past them.
    fn write_all(&mut self, bytes: &[u8]) -> Result<(), Self::Error>;

    /// Push buffered bytes to the medium.
    fn flush(&mut self) -> Result<(), Self::Error>;
}

/// One exchange with a [`ByteStorage`]: what was asked and what came back.
#[allow(inconsistent_fields)]
pub enum StorageEvent<E> {
    Seek { offset: u64, reply: Result<(), E> },
    Read { limit: usize, reply: Result<Seq<u8>, E> },
    Write { bytes: Seq<u8>, reply: Result<(), E> },
    Flush { reply: Result<(), E> },
}

/// A storage together with the history of the exchanges made with it.
pub struct Recorded<S: ByteStorage> {
    storage: S,
    log: Ghost<Seq<StorageEvent<S::Error>>>,
}

impl<S: ByteStorage> Recorded<S> {
    /// Every exchange so far, oldest first.
    pub closed spec fn log(&self) -> Seq<StorageEvent<S::Error>> {
        self.log@
    }

    /// The storage itself.
    pub closed spec fn inner(&self) -> S {
        self.storage
    }

    /// Start a record for `storage`.
    pub fn new(storage: S) -> (recorded: Self)
        ensures
            recorded.log() == Seq::<StorageEvent<S::Error>>::empty(),
            recorded.inner() == storage,
    {
        Recorded { storage, log: Ghost(Seq::empty()) }
    }

    /// Give the storage back.
    pub fn into_inner(self) -> (storage: S)
        ensures
            storage == self.inner(),
    {
        self.storage
    }

    /// Seek, and record it.
    pub fn seek_start(&mut self, offset: u64) -> (reply: Result<(), S::Error>)
        ensures
            final(self).log() == old(self).log().push(StorageEvent::Seek { offset, reply }),
    {
        let reply = self.storage.seek_start(offset);
        self.log = Ghost(self.log@.push(StorageEvent::Seek { offset, reply }));
        reply
    }

    /// Read, and record it. A reply longer than `limit` counts up to `limit`.
    pub fn read_some(&mut self, limit: usize) -> (reply: Result<Vec<u8>, S::Error>)
        ensures
            final(self).log() == old(self).log().push(
                StorageEvent::Read { limit, reply: reply_view(reply) },
            ),
            reply matches Ok(bytes) ==> bytes@.len() <= limit,
    {
        let mut reply = self.storage.read_some(limit);
        if let Ok(bytes) = &mut reply {
            bytes.truncate(limit);
        }
        self.log = Ghost(
            self.log@.push(StorageEvent::Read { limit, reply: reply_view(reply) }),
        );
        reply
    }

    /// Write, and record it.
    pub fn write_all(&mut self, bytes: &[u8]) -> (reply: Result<(), S::Error>)
        ensures
            final(self).log() == old(self).log().push(
                StorageEvent::Write { bytes: bytes@, reply },
            ),
    {
        let reply = self.storage.write_all(bytes);
        self.log = Ghost(self.log@.push(StorageEvent::Write { bytes: bytes@, reply }));
        reply
    }

    /// Flush, and record it.
    pub fn flush(&mut self) -> (reply: Result<(), S::Error>)
        ensures
            final(self).log() == old(self).log().push(StorageEvent::Flush { reply }),
    {
        let reply = self.storage.flush();
        self.log = Ghost(self.log@.push(StorageEvent::Flush { reply }));
        reply
    }
}

/// The bytes that a read reply carries.
pub open spec fn reply_view<E>(reply: Result<Vec<u8>, E>) -> Result<Seq<u8>, E> {
    match reply {
        Ok(bytes) => Ok(bytes@),
        Err(error) => Err(error),
    }
}

/// `later` is `earlier` with more exchanges behind it.
pub open spec fn extends<T>(earlier: Seq<T>, later: Seq<T>) -> bool {
    earlier.len() <= later.len() && later.take(earlier.len() as int) =~= earlier
}

/// What `later` holds beyond `earlier`.
pub open spec fn since<T>(earlier: Seq<T>, later: Seq<T>) -> Seq<T> {
    later.skip(earlier.len() as int)
}

/// One more exchange at the end of a log.
pub broadcast proof fn one_more<T>(a: Seq<T>, b: Seq<T>, event: T)
    requires
        extends(a, b),
    ensures
        #[trigger] extends(a, b.push(event)),
        since(a, b.push(event)) == since(a, b).push(event),
        since(a, b.push(event)) == since(a, b) + seq![event],
{
    assert(b.push(event).take(a.len() as int) =~= b.take(a.len() as int));
    assert(since(a, b.push(event)) =~= since(a, b).push(event));
    assert(since(a, b.push(event)) =~= since(a, b) + seq![event]);
}

/// Nothing was exchanged yet.
pub broadcast proof fn no_more<T>(a: Seq<T>)
    ensures
        #[trigger] extends(a, a),
        since(a, a) == Seq::<T>::empty(),
{
    assert(since(a, a) =~= Seq::<T>::empty());
}

/// Two consecutive stretches of a log, cut where the first one ends.
pub proof fn cut<T>(a: Seq<T>, b: Seq<T>, c: Seq<T>)
    requires
        extends(a, b),
        extends(b, c),
    ensures
        extends(a, c),
        since(a, c).len() == since(a, b).len() + since(b, c).len(),
        since(a, c).take(since(a, b).len() as int) == since(a, b),
        since(a, c).skip(since(a, b).len() as int) == since(b, c),
{
    assert(c.take(a.len() as int) =~= b.take(a.len() as int));
    assert(since(a, c).take(since(a, b).len() as int) =~= since(a, b)) by {
        assert forall|i: int| 0 <= i < since(a, b).len() implies since(a, c)[i] == since(
            a,
            b,
        )[i] by {
            assert(c.take(b.len() as int)[i + a.len()] == b[i + a.len()]);
        }
    }
    assert(since(a, c).skip(since(a, b).len() as int) =~= since(b, c));
}

/// Reading one sector: a seek to it, then reads until it is full or the
/// storage ends. `Ok(None)` means that the storage ended early.
pub open spec fn sector_read<E>(
    t: Seq<StorageEvent<E>>,
    lba: u32,
    outcome: Result<Option<Seq<u8>>, E>,
) -> bool {
    &&& t.len() >= 1
    &&& t[0] matches StorageEvent::Seek { offset, reply } && offset == lba * 512 && match reply {
        Err(error) => t.len() == 1 && outcome == Err::<Option<Seq<u8>>, E>(error),
        Ok(_) => sector_filled(t.skip(1), Seq::empty(), outcome),
    }
}

/// Reads that fill a sector, of which `done` is already there.
pub open spec fn sector_filled<E>(
    t: Seq<StorageEvent<E>>,
    done: Seq<u8>,
    outcome: Result<Option<Seq<u8>>, E>,
) -> bool
    decreases t.len(),
{
    if done.len() >= 512 {
        t.len() == 0 && outcome == Ok::<Option<Seq<u8>>, E>(Some(done))
    } else {
        &&& t.len() >= 1
        &&& t[0] matches StorageEvent::Read { limit, reply } && limit == 512 - done.len()
            && match reply {
            Err(error) => t.len() == 1 && outcome == Err::<Option<Seq<u8>>, E>(error),
            Ok(bytes) => bytes.len() <= limit && if bytes.len() == 0 {
                t.len() == 1 && outcome == Ok::<Option<Seq<u8>>, E>(None)
            } else {
                sector_filled(t.skip(1), done + bytes, outcome)
            },
        }
    }
}

/// Read the sector at `lba`.
pub fn read_sector<S: ByteStorage>(storage: &mut Recorded<S>, lba: u32) -> (outcome: Result<
    Option<[u8; 512]>,
    S::Error,
>)
    ensures
        extends(old(storage).log(), final(storage).log()),
        sector_read(since(old(storage).log(), final(storage).log()), lba, sector_view(outcome)),
{
    let ghost start = storage.log();
    let reply = storage.seek_start(lba as u64 * 512);
    let ghost event = StorageEvent::Seek { offset: (lba * 512) as u64, reply };
    proof {
        no_more(start);
        one_more(start, start, event);
        assert(since(start, storage.log()) =~= seq![event]);
    }
    match reply {
        Ok(()) => {},
        Err(error) => {
            return Err(error);
        },
    }
    let mut sector: [u8; 512] = [0u8; 512];
    let mut done: usize = 0;
    proof {
        assert(sector@.take(0) =~= Seq::<u8>::empty());
        assert forall|rest: Seq<StorageEvent<S::Error>>, o: Result<Option<Seq<u8>>, S::Error>|
            sector_filled(rest, sector@.take(0), o) implies #[trigger] sector_read(
            since(start, storage.log()) + rest,
            lba,
            o,
        ) by {
            assert((seq![event] + rest).skip(1) =~= rest);
        }
    }
    while done < 512
        invariant
            done <= 512,
            start == old(storage).log(),
            extends(start, storage.log()),
            forall|rest: Seq<StorageEvent<S::Error>>, o: Result<Option<Seq<u8>>, S::Error>|
                sector_filled(rest, sector@.take(done as int), o) ==> #[trigger] sector_read(
                    since(start, storage.log()) + rest,
                    lba,
                    o,
                ),
        decreases 512 - done,
    {
        let ghost before = storage.log();
        let ghost held = sector@.take(done as int);
        let reply = storage.read_some(512 - done);
        let ghost event = StorageEvent::Read { limit: (512 - done) as usize, reply: reply_view(reply) };
        proof {
            one_more(start, before, event);
            assert(seq![event].skip(1) =~= Seq::empty());
        }
        match reply {
            Err(error) => {
                assert(sector_filled(seq![event], held, Err(error)));
                return Err(error);
            },
            Ok(chunk) => {
                if chunk.len() == 0 {
                    assert(sector_filled(seq![event], held, Ok(None)));
                    return Ok(None);
                }
                put_bytes(&mut sector, done, chunk.as_slice());
                done = done + chunk.len();
                proof {
                    assert(sector@.take(done as int) =~= held + chunk@);
                    assert forall|
                        rest: Seq<StorageEvent<S::Error>>,
                        o: Result<Option<Seq<u8>>, S::Error>,
                    | sector_filled(rest, sector@.take(done as int), o) implies #[trigger] sector_read(
                        since(start, storage.log()) + rest,
                        lba,
                        o,
                    ) by {
                        let more = seq![event] + rest;
                        assert(more.skip(1) =~= rest);
                        assert(sector_filled(more, held, o));
                        assert(since(start, before) + more =~= since(start, storage.log()) + rest);
                    }
                }
            },
        }
    }
    proof {
        let o: Result<Option<Seq<u8>>, S::Error> = Ok(Some(sector@));
        assert(sector@.take(512) =~= sector@);
        assert(sector_filled(Seq::<StorageEvent<S::Error>>::empty(), sector@.take(done as int), o));
        assert(since(start, storage.log()) + Seq::empty() =~= since(start, storage.log()));
    }
    Ok(Some(sector))
}

/// The bytes that a sector read carries.
pub open spec fn sector_view<E>(outcome: Result<Option<[u8; 512]>, E>) -> Result<
    Option<Seq<u8>>,
    E,
> {
    match outcome {
        Ok(Some(sector)) => Ok(Some(sector@)),
        Ok(None) => Ok(None),
        Err(error) => Err(error),
    }
}

} // verus!
