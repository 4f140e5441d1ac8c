//! The raw card as a seekable stream of bytes.
use vstd::prelude::*;
use vstd::slice::slice_subrange;
use vstd::string::StringExecFns;

use crate::blocks::{BlockAccess, BlockEvent, RecordedBlocks};
use crate::bytes::overwritten;
use crate::storage::{cut, extends, no_more, one_more, since, ByteStorage};

verus! {

#[derive(Clone, Debug, PartialEq, Eq)]
pub enum SdStreamError {
    DeviceRead(String),
    DeviceWrite(String),
    DeviceSize(String),
    OutOfBounds,
}

/// Broad class of a stream error.
#[derive(Clone, Copy, Debug, PartialEq, Eq, Structural)]
pub enum StreamErrorKind {
    Other,
    InvalidInput,
}

impl SdStreamError {
    /// The text that `message` gives.
    pub open spec fn text(&self) -> Seq<char> {
        match self {
            SdStreamError::DeviceRead(detail) => "SD card read error: "@ + detail@,
            SdStreamError::DeviceWrite(detail) => "SD card write error: "@ + detail@,
            SdStreamError::DeviceSize(detail) => "SD card size error: "@ + detail@,
            SdStreamError::OutOfBounds => "SD access outside media bounds"@,
        }
    }

    /// The error in words.
    pub fn message(&self) -> (message: String)
        ensures
            message@ == self.text(),
    {
        match self {
            SdStreamError::DeviceRead(detail) => "SD card read error: ".to_owned().concat(
                detail.as_str(),
            ),
            SdStreamError::DeviceWrite(detail) => "SD card write error: ".to_owned().concat(
                detail.as_str(),
            ),
            SdStreamError::DeviceSize(detail) => "SD card size error: ".to_owned().concat(
                detail.as_str(),
            ),
            SdStreamError::OutOfBounds => "SD access outside media bounds".to_owned(),
        }
    }

    /// An access outside the medium is the caller's mistake, anything else is not.
    pub fn kind(&self) -> (kind: StreamErrorKind)
        ensures
            kind == if self is OutOfBounds {
                StreamErrorKind::InvalidInput
            } else {
                StreamErrorKind::Other
            },
    {
        match self {
            SdStreamError::OutOfBounds => StreamErrorKind::InvalidInput,
            _ => StreamErrorKind::Other,
        }
    }
}

/// Where a seek goes.
#[derive(Clone, Copy, Debug, PartialEq, Eq, Structural)]
pub enum SeekFrom {
    Start(u64),
    End(i64),
    Current(i64),
}

/// A block device as a stream of bytes, with the history of its exchanges.
pub struct SdStream<D: BlockAccess> {
    device: RecordedBlocks<D>,
    cursor: Cursor,
}

/// A position on a medium of `length` bytes.
struct Cursor {
    position: u64,
    length: u64,
}

impl Cursor {
    /// The position lies on the medium, whose blocks have 32-bit numbers.
    #[verifier::type_invariant]
    spec fn on_medium(&self) -> bool {
        self.position <= self.length <= 0xffff_ffff * 512
    }
}

/// `wanted`, but no more than `limit`.
pub open spec fn at_most(wanted: int, limit: int) -> int {
    if wanted <= limit { wanted } else { limit }
}

/// Bytes of the block at `position` that a transfer of `wanted` bytes takes.
pub open spec fn span(position: int, wanted: int) -> int {
    at_most(wanted, 512 - position % 512)
}

/// Reading `wanted` bytes at `position`: one block read for each block touched.
/// `delivered` is what came before the end or before the failure `stop`.
pub open spec fn blocks_read(
    t: Seq<BlockEvent>,
    position: int,
    wanted: int,
    delivered: Seq<u8>,
    stop: Option<String>,
) -> bool
    decreases t.len(),
{
    if wanted <= 0 {
        t.len() == 0 && delivered.len() == 0 && stop is None
    } else {
        let offset = position % 512;
        let count = span(position, wanted);
        &&& t.len() >= 1
        &&& t[0] matches BlockEvent::Read { index, reply } && index == position / 512 && match reply {
            Err(error) => t.len() == 1 && delivered.len() == 0 && stop == Some(error),
            Ok(block) => {
                &&& delivered.len() >= count
                &&& delivered.take(count) == block@.subrange(offset, offset + count)
                &&& blocks_read(
                    t.skip(1),
                    position + count,
                    wanted - count,
                    delivered.skip(count),
                    stop,
                )
            },
        }
    }
}

/// Writing `input` at `position`: each block touched is written once, after it
/// was read where it is not replaced as a whole. `done` bytes were stored before
/// the end or before the failure `stop`.
pub open spec fn blocks_written(
    t: Seq<BlockEvent>,
    position: int,
    input: Seq<u8>,
    done: int,
    stop: Option<SdStreamError>,
) -> bool
    decreases t.len(), 1int,
{
    if input.len() == 0 {
        t.len() == 0 && done == 0 && stop is None
    } else {
        let count = span(position, input.len() as int);
        if count == 512 {
            block_replaced(t, position, input, Seq::new(512, |i: int| 0u8), done, stop)
        } else {
            &&& t.len() >= 1
            &&& t[0] matches BlockEvent::Read { index, reply } && index == position / 512
                && match reply {
                Err(error) => t.len() == 1 && done == 0 && stop == Some(
                    SdStreamError::DeviceRead(error),
                ),
                Ok(block) => block_replaced(t.skip(1), position, input, block@, done, stop),
            }
        }
    }
}

/// Writing back the block at `position`, of which `block` was there before.
pub open spec fn block_replaced(
    t: Seq<BlockEvent>,
    position: int,
    input: Seq<u8>,
    block: Seq<u8>,
    done: int,
    stop: Option<SdStreamError>,
) -> bool
    decreases t.len(), 0int,
{
    let count = span(position, input.len() as int);
    &&& t.len() >= 1
    &&& t[0] matches BlockEvent::Write { index, contents, reply } && {
        &&& index == position / 512
        &&& contents == overwritten(block, position % 512, input.take(count))
        &&& match reply {
            Err(error) => t.len() == 1 && done == 0 && stop == Some(
                SdStreamError::DeviceWrite(error),
            ),
            Ok(_) => blocks_written(
                t.skip(1),
                position + count,
                input.skip(count),
                done - count,
                stop,
            ),
        }
    }
}

/// What a transfer reports: its progress, and a failure only without progress,
/// so that an error never hides bytes that were transferred.
pub open spec fn transfer_result(done: int, stop: Option<SdStreamError>) -> Result<
    usize,
    SdStreamError,
> {
    match stop {
        Some(error) if done == 0 => Err(error),
        _ => Ok(done as usize),
    }
}

/// Where a seek leads, as a mathematical integer.
pub open spec fn seek_target(position: int, length: int, from: SeekFrom) -> int {
    match from {
        SeekFrom::Start(offset) => offset as int,
        SeekFrom::Current(delta) => position + delta,
        SeekFrom::End(delta) => length + delta,
    }
}

/// A device that did not give its size: the error, the device and the exchange with it.
pub struct RefusedStream<D: BlockAccess> {
    error: SdStreamError,
    device: RecordedBlocks<D>,
}

impl<D: BlockAccess> RefusedStream<D> {
    /// Why there is no stream.
    pub closed spec fn error(&self) -> SdStreamError {
        self.error
    }

    pub closed spec fn device(&self) -> D {
        self.device.inner()
    }

    /// Every exchange with the device.
    pub closed spec fn log(&self) -> Seq<BlockEvent> {
        self.device.log()
    }

    /// The error, and the device.
    pub fn into_parts(self) -> (parts: (SdStreamError, D))
        ensures
            parts == (self.error(), self.device()),
    {
        (self.error, self.device.into_inner())
    }

    /// The device was asked for its size once, and its answer is the error.
    pub open spec fn comes_from_the_size(&self) -> bool {
        &&& self.log().len() == 1
        &&& self.log()[0] matches BlockEvent::Count { reply } && reply matches Err(detail)
            && self.error() == SdStreamError::DeviceSize(detail)
    }
}

/// How opening a stream can end: with a fresh one, or without an answer to the question for
/// the size.
pub open spec fn stream_opened<D: BlockAccess>(
    outcome: Result<SdStream<D>, RefusedStream<D>>,
) -> bool {
    match outcome {
        Ok(stream) => stream.is_fresh(),
        Err(refused) => refused.comes_from_the_size(),
    }
}

/// An opening without the exchange of a refusal.
pub open spec fn open_report<D: BlockAccess>(
    outcome: Result<SdStream<D>, RefusedStream<D>>,
) -> Result<SdStream<D>, SdStreamError> {
    match outcome {
        Ok(stream) => Ok(stream),
        Err(refused) => Err(refused.error()),
    }
}

impl<D: BlockAccess> SdStream<D> {
    pub closed spec fn position(&self) -> int {
        self.cursor.position as int
    }

    pub closed spec fn length(&self) -> int {
        self.cursor.length as int
    }

    /// Every exchange with the device so far, oldest first.
    pub closed spec fn log(&self) -> Seq<BlockEvent> {
        self.device.log()
    }

    /// How much of a transfer of `wanted` bytes lies on the medium.
    pub open spec fn within(&self, wanted: int) -> int {
        at_most(wanted, self.length() - self.position())
    }

    /// A stream over the whole of a device, at its start, given what the device answered
    /// when it was asked for its size. Without a size the device comes back.
    pub fn with_count(device: RecordedBlocks<D>, reply: Result<u32, String>) -> (result: Result<
        Self,
        (SdStreamError, RecordedBlocks<D>),
    >)
        ensures
            match reply {
                Ok(blocks) => result matches Ok(stream) && {
                    &&& stream.position() == 0
                    &&& stream.length() == blocks * 512
                    &&& stream.log() == device.log()
                    &&& stream.device() == device.inner()
                },
                Err(error) => result == Err::<Self, (SdStreamError, RecordedBlocks<D>)>(
                    (SdStreamError::DeviceSize(error), device),
                ),
            },
    {
        match reply {
            Ok(blocks) => Ok(
                SdStream { device, cursor: Cursor { position: 0, length: blocks as u64 * 512 } },
            ),
            Err(error) => Err((SdStreamError::DeviceSize(error), device)),
        }
    }

    /// Ask the device for its size and open a stream over the whole of it, at its start. A
    /// refusal gives the device back, with the exchange that was made.
    pub fn open(device: D) -> (result: Result<Self, RefusedStream<D>>)
        ensures
            stream_opened(result),
    {
        let mut device = RecordedBlocks::new(device);
        let reply = device.num_blocks();
        match SdStream::with_count(device, reply) {
            Ok(stream) => Ok(stream),
            Err((error, device)) => Err(RefusedStream { error, device }),
        }
    }

    /// Open a stream over the whole device, at its start. The error is what the device
    /// answered when it was asked for its size.
    pub fn new(device: D) -> (result: Result<Self, SdStreamError>)
        ensures
            exists|outcome: Result<SdStream<D>, RefusedStream<D>>| #[trigger]
                stream_opened(outcome) && result == open_report(outcome),
            result matches Ok(stream) ==> stream.is_fresh(),
    {
        let outcome = SdStream::open(device);
        assert(stream_opened(outcome));
        match outcome {
            Ok(stream) => Ok(stream),
            Err(refused) => Err(refused.error),
        }
    }

    /// The device was asked for its size and nothing else, and the stream spans it.
    pub open spec fn is_fresh(&self) -> bool {
        &&& self.position() == 0
        &&& self.log().len() == 1
        &&& self.log()[0] matches BlockEvent::Count { reply } && reply matches Ok(blocks)
            && self.length() == blocks * 512
    }

    /// Size of the medium in bytes.
    pub fn len(&self) -> (length: u64)
        ensures
            length == self.length(),
    {
        self.cursor.length
    }

    pub fn is_empty(&self) -> (empty: bool)
        ensures
            empty == (self.length() == 0),
    {
        self.cursor.length == 0
    }

    pub closed spec fn device(&self) -> D {
        self.device.inner()
    }

    /// Give the device back.
    pub fn into_inner(self) -> (device: D)
        ensures
            device == self.device(),
    {
        self.device.into_inner()
    }

    /// Fill the front of `output` from the position on, as far as the medium goes.
    pub fn read(&mut self, output: &mut [u8]) -> (result: Result<usize, SdStreamError>)
        ensures
            final(self).length() == old(self).length(),
            extends(old(self).log(), final(self).log()),
            exists|delivered: Seq<u8>, stop: Option<String>|
                {
                    &&& #[trigger] blocks_read(
                        since(old(self).log(), final(self).log()),
                        old(self).position(),
                        old(self).within(old(output)@.len() as int),
                        delivered,
                        stop,
                    )
                    &&& final(self).position() == old(self).position() + delivered.len()
                    &&& final(output)@ == overwritten(old(output)@, 0, delivered)
                    &&& result == transfer_result(
                        delivered.len() as int,
                        match stop {
                            Some(error) => Some(SdStreamError::DeviceRead(error)),
                            None => None,
                        },
                    )
                },
    {
        proof {
            use_type_invariant(&self.cursor);
        }
        let left: u64 = self.cursor.length - self.cursor.position;
        let wanted: usize = if output.len() as u64 <= left { output.len() } else { left as usize };
        let mut done: usize = 0;
        let ghost start = self.log();
        let ghost origin = self.cursor.position as int;
        let ghost room = output@;
        let ghost mut got: Seq<u8> = Seq::empty();
        proof {
            no_more(start);
            assert(overwritten(room, 0, got) =~= room);
            assert forall|rest: Seq<BlockEvent>, more: Seq<u8>, stop: Option<String>| blocks_read(
                rest,
                origin,
                wanted as int,
                more,
                stop,
            ) implies #[trigger] blocks_read(
                since(start, self.log()) + rest,
                origin,
                wanted as int,
                got + more,
                stop,
            ) by {
                assert(since(start, self.log()) + rest =~= rest);
                assert(got + more =~= more);
            }
        }
        while done < wanted
            invariant
                self.cursor.length <= 0xffff_ffff * 512,
                self.cursor.length == old(self).cursor.length,
                start == old(self).log(),
                origin == old(self).cursor.position,
                self.cursor.position == origin + done,
                origin + wanted <= self.cursor.length,
                extends(start, self.log()),
                got.len() == done,
                done <= wanted <= room.len(),
                room == old(output)@,
                room.len() == output@.len(),
                output@ == overwritten(room, 0, got),
                wanted == old(self).within(room.len() as int),
                forall|rest: Seq<BlockEvent>, more: Seq<u8>, stop: Option<String>|
                    blocks_read(rest, self.cursor.position as int, wanted - done, more, stop)
                        ==> #[trigger] blocks_read(
                        since(start, self.log()) + rest,
                        origin,
                        wanted as int,
                        got + more,
                        stop,
                    ),
            decreases wanted - done,
        {
            let sector_index: u32 = (self.cursor.position / 512) as u32;
            let sector_offset: usize = (self.cursor.position % 512) as usize;
            let count: usize = if wanted - done <= 512 - sector_offset {
                wanted - done
            } else {
                512 - sector_offset
            };
            let ghost before = self.log();
            let ghost here = self.cursor.position as int;
            let reply = self.device.read_block(sector_index);
            let ghost event = BlockEvent::Read { index: sector_index, reply };
            proof {
                one_more(start, before, event);
            }
            let block = match reply {
                Ok(block) => block,
                Err(error) => {
                    proof {
                        let stop = Some(error);
                        assert(blocks_read(seq![event], here, wanted - done, Seq::empty(), stop));
                        assert(got + Seq::empty() =~= got);
                        assert(blocks_read(
                            since(start, self.log()),
                            origin,
                            wanted as int,
                            got,
                            stop,
                        ));
                    }
                    return if done > 0 {
                        Ok(done)
                    } else {
                        Err(SdStreamError::DeviceRead(error))
                    };
                },
            };
            let ghost fresh = block@.subrange(sector_offset as int, sector_offset + count);
            let mut i: usize = 0;
            while i < count
                invariant
                    i <= count <= wanted - done,
                    sector_offset + count <= 512,
                    wanted <= room.len(),
                    output@.len() == room.len(),
                    got.len() == done,
                    fresh == block@.subrange(sector_offset as int, sector_offset + count),
                    output@ == overwritten(room, 0, got + fresh.take(i as int)),
                decreases count - i,
            {
                output[done + i] = block[sector_offset + i];
                i = i + 1;
                assert(output@ =~= overwritten(room, 0, got + fresh.take(i as int)));
            }
            assert(fresh.take(count as int) =~= fresh);
            let ghost asked = wanted - done;
            self.cursor = Cursor {
                position: self.cursor.position + count as u64,
                length: self.cursor.length,
            };
            done = done + count;
            proof {
                let earlier = got;
                got = got + fresh;
                assert forall|rest: Seq<BlockEvent>, more: Seq<u8>, stop: Option<String>|
                    blocks_read(rest, self.cursor.position as int, wanted - done, more, stop)
                    implies #[trigger] blocks_read(
                    since(start, self.log()) + rest,
                    origin,
                    wanted as int,
                    got + more,
                    stop,
                ) by {
                    let events = seq![event] + rest;
                    let bytes = fresh + more;
                    assert(events.skip(1) =~= rest);
                    assert(bytes.take(count as int) =~= fresh);
                    assert(bytes.skip(count as int) =~= more);
                    assert(blocks_read(events, here, asked, bytes, stop));
                    assert(since(start, before) + events =~= since(start, self.log()) + rest);
                    assert(earlier + bytes =~= got + more);
                }
            }
        }
        proof {
            assert(blocks_read(Seq::empty(), self.cursor.position as int, 0, Seq::empty(), None));
            assert(since(start, self.log()) + Seq::empty() =~= since(start, self.log()));
            assert(got + Seq::empty() =~= got);
            assert(blocks_read(since(start, self.log()), origin, wanted as int, got, None));
        }
        Ok(done)
    }

    /// Store the front of `input` from the position on, as far as the medium goes.
    pub fn write(&mut self, input: &[u8]) -> (result: Result<usize, SdStreamError>)
        ensures
            final(self).length() == old(self).length(),
            extends(old(self).log(), final(self).log()),
            input@.len() > 0 && old(self).position() == old(self).length() ==> {
                &&& result == Err::<usize, SdStreamError>(SdStreamError::OutOfBounds)
                &&& final(self).log() == old(self).log()
                &&& final(self).position() == old(self).position()
            },
            input@.len() == 0 || old(self).position() < old(self).length() ==> exists|
                done: int,
                stop: Option<SdStreamError>,
            |
                {
                    &&& 0 <= done <= input@.len()
                    &&& #[trigger] blocks_written(
                        since(old(self).log(), final(self).log()),
                        old(self).position(),
                        input@.take(old(self).within(input@.len() as int)),
                        done,
                        stop,
                    )
                    &&& final(self).position() == old(self).position() + done
                    &&& result == transfer_result(done, stop)
                },
            result matches Ok(count) ==> count <= input@.len() && (input@.len() > 0 ==> count > 0),
    {
        let ghost start = self.log();
        let ghost origin = self.cursor.position as int;
        proof {
            use_type_invariant(&self.cursor);
            no_more(start);
        }
        if input.len() == 0 {
            assert(old(self).within(input@.len() as int) == 0);
            assert(blocks_written(
                since(start, self.log()),
                origin,
                input@.take(old(self).within(input@.len() as int)),
                0,
                None,
            ));
            return Ok(0);
        }
        if self.cursor.position >= self.cursor.length {
            return Err(SdStreamError::OutOfBounds);
        }
        let left: u64 = self.cursor.length - self.cursor.position;
        let wanted: usize = if input.len() as u64 <= left { input.len() } else { left as usize };
        let ghost all = input@.take(wanted as int);
        let mut done: usize = 0;
        proof {
            assert(all.skip(0) =~= all);
            assert forall|rest: Seq<BlockEvent>, more: int, stop: Option<SdStreamError>|
                blocks_written(rest, origin, all.skip(0), more, stop) implies #[trigger] blocks_written(
                since(start, self.log()) + rest,
                origin,
                all,
                0 + more,
                stop,
            ) by {
                assert(since(start, self.log()) + rest =~= rest);
            }
        }
        while done < wanted
            invariant
                self.cursor.length <= 0xffff_ffff * 512,
                self.cursor.length == old(self).cursor.length,
                start == old(self).log(),
                origin == old(self).cursor.position < self.cursor.length,
                self.cursor.position == origin + done,
                origin + wanted <= self.cursor.length,
                extends(start, self.log()),
                done <= wanted <= input@.len(),
                wanted > 0,
                wanted == old(self).within(input@.len() as int),
                all == input@.take(wanted as int),
                forall|rest: Seq<BlockEvent>, more: int, stop: Option<SdStreamError>|
                    blocks_written(rest, self.cursor.position as int, all.skip(done as int), more, stop)
                        ==> #[trigger] blocks_written(
                        since(start, self.log()) + rest,
                        origin,
                        all,
                        done + more,
                        stop,
                    ),
            decreases wanted - done,
        {
            let sector_index: u32 = (self.cursor.position / 512) as u32;
            let sector_offset: usize = (self.cursor.position % 512) as usize;
            let count: usize = if wanted - done <= 512 - sector_offset {
                wanted - done
            } else {
                512 - sector_offset
            };
            let ghost here = self.cursor.position as int;
            let ghost todo = all.skip(done as int);
            let ghost before = self.log();
            let mut block: [u8; 512] = [0u8; 512];
            assert(block@ =~= Seq::new(512, |i: int| 0u8));
            let ghost mut events: Seq<BlockEvent> = Seq::empty();
            if count != 512 {
                let reply = self.device.read_block(sector_index);
                let ghost event = BlockEvent::Read { index: sector_index, reply };
                proof {
                    one_more(start, before, event);
                    events = seq![event];
                }
                match reply {
                    Ok(contents) => {
                        block = contents;
                    },
                    Err(error) => {
                        proof {
                            let stop = Some(SdStreamError::DeviceRead(error));
                            assert(blocks_written(events, here, todo, 0, stop));
                            assert(blocks_written(
                                since(start, self.log()),
                                origin,
                                all,
                                done + 0,
                                stop,
                            ));
                        }
                        return if done > 0 {
                            Ok(done)
                        } else {
                            Err(SdStreamError::DeviceRead(error))
                        };
                    },
                }
            }
            let ghost old_block = block@;
            let ghost fresh = todo.take(count as int);
            let mut i: usize = 0;
            while i < count
                invariant
                    i <= count <= wanted - done,
                    sector_offset + count <= 512,
                    done <= wanted <= input@.len(),
                    todo == input@.take(wanted as int).skip(done as int),
                    fresh == todo.take(count as int),
                    old_block.len() == 512,
                    block@ == overwritten(old_block, sector_offset as int, fresh.take(i as int)),
                decreases count - i,
            {
                block[sector_offset + i] = input[done + i];
                i = i + 1;
                assert(block@ =~= overwritten(old_block, sector_offset as int, fresh.take(i as int)));
            }
            assert(fresh.take(count as int) =~= fresh);
            let ghost middle = self.log();
            let reply = self.device.write_block(sector_index, &block);
            let ghost event = BlockEvent::Write { index: sector_index, contents: block@, reply };
            proof {
                one_more(start, middle, event);
                assert(since(start, self.log()) =~= since(start, before) + events.push(event));
                assert(events.push(event).len() == events.len() + 1);
            }
            match reply {
                Ok(()) => {},
                Err(error) => {
                    proof {
                        let stop = Some(SdStreamError::DeviceWrite(error));
                        assert(block_replaced(seq![event], here, todo, old_block, 0, stop));
                        if count == 512 {
                            assert(events.push(event) =~= seq![event]);
                        } else {
                            assert(events.push(event).skip(1) =~= seq![event]);
                        }
                        assert(blocks_written(events.push(event), here, todo, 0, stop));
                        assert(blocks_written(
                            since(start, self.log()),
                            origin,
                            all,
                            done + 0,
                            stop,
                        ));
                    }
                    return if done > 0 {
                        Ok(done)
                    } else {
                        Err(SdStreamError::DeviceWrite(error))
                    };
                },
            }
            let ghost so_far = done as int;
            self.cursor = Cursor {
                position: self.cursor.position + count as u64,
                length: self.cursor.length,
            };
            done = done + count;
            proof {
                assert(todo.skip(count as int) =~= all.skip(done as int));
                assert forall|rest: Seq<BlockEvent>, more: int, stop: Option<SdStreamError>|
                    blocks_written(rest, self.cursor.position as int, all.skip(done as int), more, stop)
                    implies #[trigger] blocks_written(
                    since(start, self.log()) + rest,
                    origin,
                    all,
                    done + more,
                    stop,
                ) by {
                    let tail = seq![event] + rest;
                    let whole = events + tail;
                    assert(tail.skip(1) =~= rest);
                    assert(block_replaced(tail, here, todo, old_block, count + more, stop));
                    if count == 512 {
                        assert(whole =~= tail);
                    } else {
                        assert(whole.skip(1) =~= tail);
                        assert(whole[0] == events[0]);
                    }
                    assert(blocks_written(whole, here, todo, count + more, stop));
                    assert(since(start, before) + whole =~= since(start, self.log()) + rest);
                    assert(done + more == so_far + (count + more));
                }
            }
        }
        proof {
            assert(all.skip(done as int) =~= Seq::empty());
            assert(blocks_written(Seq::empty(), self.cursor.position as int, all.skip(done as int), 0, None));
            assert(since(start, self.log()) + Seq::empty() =~= since(start, self.log()));
            assert(blocks_written(since(start, self.log()), origin, all, done + 0, None));
        }
        Ok(done)
    }

    /// Blocks are written as they come, so there is nothing left to flush.
    pub fn flush(&mut self) -> (result: Result<(), SdStreamError>)
        ensures
            result is Ok,
            *final(self) == *old(self),
    {
        Ok(())
    }

    /// Move the position; a target outside the medium is refused and the position
    /// stays. The end itself can be reached.
    pub fn seek(&mut self, from: SeekFrom) -> (result: Result<u64, SdStreamError>)
        ensures
            final(self).length() == old(self).length(),
            final(self).log() == old(self).log(),
            ({
                let target = seek_target(old(self).position(), old(self).length(), from);
                if 0 <= target <= old(self).length() {
                    final(self).position() == target && result == Ok::<u64, SdStreamError>(
                        target as u64,
                    )
                } else {
                    final(self).position() == old(self).position() && result == Err::<
                        u64,
                        SdStreamError,
                    >(SdStreamError::OutOfBounds)
                }
            }),
    {
        proof {
            use_type_invariant(&self.cursor);
        }
        let next: i128 = match from {
            SeekFrom::Start(offset) => offset as i128,
            SeekFrom::Current(delta) => self.cursor.position as i128 + delta as i128,
            SeekFrom::End(delta) => self.cursor.length as i128 + delta as i128,
        };
        if next < 0 || next > self.cursor.length as i128 {
            return Err(SdStreamError::OutOfBounds);
        }
        self.cursor = Cursor { position: next as u64, length: self.cursor.length };
        Ok(next as u64)
    }
}

/// Storing all of `bytes` at `position`, by as many writes as it takes; `moved`
/// bytes were stored before the end or before a failure.
pub open spec fn all_written(
    t: Seq<BlockEvent>,
    position: int,
    length: int,
    bytes: Seq<u8>,
    moved: int,
    result: Result<(), SdStreamError>,
) -> bool
    decreases bytes.len(),
{
    if bytes.len() == 0 {
        t.len() == 0 && moved == 0 && result is Ok
    } else if position >= length {
        t.len() == 0 && moved == 0 && result == Err::<(), SdStreamError>(SdStreamError::OutOfBounds)
    } else {
        exists|k: int, done: int, stop: Option<SdStreamError>|
            {
                &&& 0 <= k <= t.len()
                &&& 0 <= done <= bytes.len()
                &&& #[trigger] blocks_written(
                    t.take(k),
                    position,
                    bytes.take(at_most(bytes.len() as int, length - position)),
                    done,
                    stop,
                )
                &&& match transfer_result(done, stop) {
                    Err(error) => k == t.len() && moved == 0 && result == Err::<(), SdStreamError>(
                        error,
                    ),
                    Ok(_) => done > 0 && all_written(
                        t.skip(k),
                        position + done,
                        length,
                        bytes.skip(done),
                        moved - done,
                        result,
                    ),
                }
            }
    }
}

impl<D: BlockAccess> SdStream<D> {
    /// Store all of `bytes` from the position on.
    pub fn write_whole(&mut self, bytes: &[u8]) -> (result: Result<(), SdStreamError>)
        ensures
            final(self).length() == old(self).length(),
            extends(old(self).log(), final(self).log()),
            all_written(
                since(old(self).log(), final(self).log()),
                old(self).position(),
                old(self).length(),
                bytes@,
                final(self).position() - old(self).position(),
                result,
            ),
        decreases bytes@.len(),
    {
        let ghost start = self.log();
        let ghost position = self.position();
        let ghost length = self.length();
        proof {
            use_type_invariant(&self.cursor);
            no_more(start);
        }
        if bytes.len() == 0 {
            return Ok(());
        }
        let outcome = self.write(bytes);
        let ghost middle = self.log();
        let ghost taken = bytes@.take(at_most(bytes@.len() as int, length - position));
        let ghost k = since(start, middle).len() as int;
        assert(since(start, middle).take(k) =~= since(start, middle));
        match outcome {
            Err(error) => {
                proof {
                    if position < length {
                        let (done, stop): (int, Option<SdStreamError>) = choose|
                            done: int,
                            stop: Option<SdStreamError>,
                        |
                            0 <= done <= bytes@.len() && #[trigger] blocks_written(
                                since(start, middle),
                                position,
                                taken,
                                done,
                                stop,
                            ) && self.position() == position + done && outcome == transfer_result(
                                done,
                                stop,
                            );
                        assert(blocks_written(since(start, middle).take(k), position, taken, done, stop));
                    }
                }
                Err(error)
            },
            Ok(count) => {
                let ghost moved = self.position();
                let rest = slice_subrange(bytes, count, bytes.len());
                let result = self.write_whole(rest);
                proof {
                    let (done, stop): (int, Option<SdStreamError>) = choose|
                        done: int,
                        stop: Option<SdStreamError>,
                    |
                        0 <= done <= bytes@.len() && #[trigger] blocks_written(
                            since(start, middle),
                            position,
                            taken,
                            done,
                            stop,
                        ) && moved == position + done && outcome == transfer_result(done, stop);
                    cut(start, middle, self.log());
                    assert(rest@ =~= bytes@.skip(done));
                    assert(blocks_written(
                        since(start, self.log()).take(k),
                        position,
                        taken,
                        done,
                        stop,
                    ));
                }
                result
            },
        }
    }
}

/// The stream as storage for probing and formatting.
impl<D: BlockAccess> ByteStorage for SdStream<D> {
    type Error = SdStreamError;

    fn seek_start(&mut self, offset: u64) -> (result: Result<(), SdStreamError>)
        ensures
            final(self).length() == old(self).length(),
            final(self).log() == old(self).log(),
            result is Ok <==> offset <= old(self).length(),
            result is Ok ==> final(self).position() == offset,
            result matches Err(error) ==> error is OutOfBounds && final(self).position() == old(
                self,
            ).position(),
    {
        match self.seek(SeekFrom::Start(offset)) {
            Ok(_) => Ok(()),
            Err(error) => Err(error),
        }
    }

    fn read_some(&mut self, limit: usize) -> (result: Result<Vec<u8>, SdStreamError>)
        ensures
            final(self).length() == old(self).length(),
            extends(old(self).log(), final(self).log()),
            exists|delivered: Seq<u8>, stop: Option<String>|
                {
                    &&& #[trigger] blocks_read(
                        since(old(self).log(), final(self).log()),
                        old(self).position(),
                        old(self).within(limit as int),
                        delivered,
                        stop,
                    )
                    &&& final(self).position() == old(self).position() + delivered.len()
                    &&& match result {
                        Ok(bytes) => bytes@ == delivered && (delivered.len() > 0 || stop is None),
                        Err(error) => delivered.len() == 0 && stop is Some && error
                            == SdStreamError::DeviceRead(stop->0),
                    }
                },
    {
        let mut buffer: Vec<u8> = vec![0u8; limit];
        let ghost room = buffer@;
        let ghost start = *self;
        proof {
            use_type_invariant(&self.cursor);
        }
        let outcome = SdStream::read(self, buffer.as_mut_slice());
        let ghost (delivered, stop): (Seq<u8>, Option<String>) = choose|
            delivered: Seq<u8>,
            stop: Option<String>,
        |
            {
                &&& #[trigger] blocks_read(
                    since(start.log(), self.log()),
                    start.position(),
                    start.within(limit as int),
                    delivered,
                    stop,
                )
                &&& self.position() == start.position() + delivered.len()
                &&& buffer@ == overwritten(room, 0, delivered)
                &&& outcome == transfer_result(
                    delivered.len() as int,
                    match stop {
                        Some(error) => Some(SdStreamError::DeviceRead(error)),
                        None => None,
                    },
                )
            };
        proof {
            delivered_fits(
                since(start.log(), self.log()),
                start.position(),
                start.within(limit as int),
                delivered,
                stop,
            );
        }
        match outcome {
            Ok(count) => {
                buffer.truncate(count);
                assert(buffer@ =~= delivered);
                Ok(buffer)
            },
            Err(error) => Err(error),
        }
    }

    fn write_all(&mut self, bytes: &[u8]) -> (result: Result<(), SdStreamError>)
        ensures
            final(self).length() == old(self).length(),
            extends(old(self).log(), final(self).log()),
            all_written(
                since(old(self).log(), final(self).log()),
                old(self).position(),
                old(self).length(),
                bytes@,
                final(self).position() - old(self).position(),
                result,
            ),
    {
        self.write_whole(bytes)
    }

    fn flush(&mut self) -> (result: Result<(), SdStreamError>)
        ensures
            result is Ok,
            *final(self) == *old(self),
    {
        SdStream::flush(self)
    }
}

/// A read delivers at most what it was asked for.
proof fn delivered_fits(
    t: Seq<BlockEvent>,
    position: int,
    wanted: int,
    delivered: Seq<u8>,
    stop: Option<String>,
)
    requires
        blocks_read(t, position, wanted, delivered, stop),
        0 <= wanted,
    ensures
        delivered.len() <= wanted,
        stop is None ==> delivered.len() == wanted,
    decreases t.len(),
{
    if wanted > 0 {
        match t[0] {
            BlockEvent::Read { index, reply } => {
                if reply is Ok {
                    let count = span(position, wanted);
                    delivered_fits(
                        t.skip(1),
                        position + count,
                        wanted - count,
                        delivered.skip(count),
                        stop,
                    );
                }
            },
            _ => {},
        }
    }
}

/// The bytes of a device that keeps its blocks, after `t`; `None` if such a device
/// would not have replied so.
pub open spec fn blocks_replay(bytes: Seq<u8>, t: Seq<BlockEvent>) -> Option<Seq<u8>>
    decreases t.len(),
{
    if t.len() == 0 {
        Some(bytes)
    } else {
        match t[0] {
            BlockEvent::Count { reply } => if reply matches Ok(blocks) && blocks * 512 == bytes.len() {
                blocks_replay(bytes, t.skip(1))
            } else {
                None
            },
            BlockEvent::Read { index, reply } => if reply matches Ok(block) && index * 512 + 512
                <= bytes.len() && block@ == bytes.subrange(index * 512, index * 512 + 512) {
                blocks_replay(bytes, t.skip(1))
            } else {
                None
            },
            BlockEvent::Write { index, contents, reply } => if reply is Ok && index * 512 + 512
                <= bytes.len() && contents.len() == 512 {
                blocks_replay(overwritten(bytes, index * 512, contents), t.skip(1))
            } else {
                None
            },
        }
    }
}

/// On a device that keeps its blocks a read delivers the bytes at the position,
/// whatever their alignment, and changes nothing.
pub proof fn reading_delivers_the_bytes(
    bytes: Seq<u8>,
    t: Seq<BlockEvent>,
    position: int,
    wanted: int,
    delivered: Seq<u8>,
    stop: Option<String>,
)
    requires
        blocks_read(t, position, wanted, delivered, stop),
        0 <= position,
        0 <= wanted,
        position + wanted <= bytes.len(),
        blocks_replay(bytes, t) is Some,
    ensures
        delivered == bytes.subrange(position, position + wanted),
        stop is None,
        blocks_replay(bytes, t) == Some(bytes),
    decreases t.len(),
{
    if wanted > 0 {
        let count = span(position, wanted);
        match t[0] {
            BlockEvent::Read { index, reply } => {
                reading_delivers_the_bytes(
                    bytes,
                    t.skip(1),
                    position + count,
                    wanted - count,
                    delivered.skip(count),
                    stop,
                );
                assert(delivered.skip(count).len() == wanted - count);
                assert forall|i: int| 0 <= i < delivered.len() implies delivered[i] == bytes[position + i] by {
                    if i < count {
                        assert(delivered[i] == delivered.take(count)[i]);
                    } else {
                        assert(delivered[i] == delivered.skip(count)[i - count]);
                    }
                }
                assert(delivered =~= bytes.subrange(position, position + wanted));
            },
            _ => {},
        }
    } else {
        assert(delivered =~= bytes.subrange(position, position + wanted));
    }
}

/// On a device that keeps its blocks a write replaces exactly the bytes at the
/// position, whatever their alignment.
pub proof fn writing_replaces_the_bytes(
    bytes: Seq<u8>,
    t: Seq<BlockEvent>,
    position: int,
    input: Seq<u8>,
    done: int,
    stop: Option<SdStreamError>,
)
    requires
        blocks_written(t, position, input, done, stop),
        0 <= position,
        position + input.len() <= bytes.len(),
        blocks_replay(bytes, t) is Some,
    ensures
        done == input.len(),
        stop is None,
        blocks_replay(bytes, t) == Some(overwritten(bytes, position, input)),
    decreases t.len(), 1int,
{
    if input.len() > 0 {
        let count = span(position, input.len() as int);
        if count == 512 {
            replacing_a_block(bytes, t, position, input, Seq::new(512, |i: int| 0u8), done, stop);
        } else {
            match t[0] {
                BlockEvent::Read { index, reply } => {
                    replacing_a_block(bytes, t.skip(1), position, input, (reply->Ok_0)@, done, stop);
                },
                _ => {},
            }
        }
    } else {
        assert(overwritten(bytes, position, input) =~= bytes);
    }
}

proof fn replacing_a_block(
    bytes: Seq<u8>,
    t: Seq<BlockEvent>,
    position: int,
    input: Seq<u8>,
    block: Seq<u8>,
    done: int,
    stop: Option<SdStreamError>,
)
    requires
        block_replaced(t, position, input, block, done, stop),
        input.len() > 0,
        0 <= position,
        position + input.len() <= bytes.len(),
        block.len() == 512,
        span(position, input.len() as int) == 512 || block == bytes.subrange(
            position / 512 * 512,
            position / 512 * 512 + 512,
        ),
        blocks_replay(bytes, t) is Some,
    ensures
        done == input.len(),
        stop is None,
        blocks_replay(bytes, t) == Some(overwritten(bytes, position, input)),
    decreases t.len(), 0int,
{
    let count = span(position, input.len() as int);
    match t[0] {
        BlockEvent::Write { index, contents, reply } => {
            let next = overwritten(bytes, index * 512, contents);
            assert(next =~= overwritten(bytes, position, input.take(count)));
            writing_replaces_the_bytes(
                next,
                t.skip(1),
                position + count,
                input.skip(count),
                done - count,
                stop,
            );
            assert(overwritten(next, position + count, input.skip(count)) =~= overwritten(
                bytes,
                position,
                input,
            ));
        },
        _ => {},
    }
}

} // verus!
