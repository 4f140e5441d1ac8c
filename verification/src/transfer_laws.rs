//! What passes between the device and its card, from the bus up to a mounted volume.
use vstd::prelude::*;

use crate::boot::MediaLayout;
use crate::bus::bytes_sent;
use crate::controller::{
    attempts_made, failures_use_all_attempts, first_attempt, request_run,
    writes_are_accepted_or_read_back, CardReply, CardRequest,
};
use crate::device::FormatFailure;
use crate::driver::CardEvent;
use crate::mounting::{slot_formatted, slot_mounted};
use crate::port::{plausible, PortEvent};
use crate::screens::{MediaIdentity, MountFailure};
use crate::serial::BusEvent;
use crate::stream::{seek_target, SeekFrom};

verus! {

/// Everything that a stretch of steps put on the bus.
pub open spec fn bytes_on_the_bus<E>(t: Seq<BusEvent<E>>) -> Seq<u8>
    decreases t.len(),
{
    if t.len() == 0 {
        Seq::empty()
    } else {
        (match t[0] {
            BusEvent::Exchange { bytes, .. } => bytes,
            _ => Seq::empty(),
        }) + bytes_on_the_bus(t.skip(1))
    }
}

/// Bytes go out whole and in order, never more than 32 at a time; if a transfer fails, what
/// went out is a beginning of them.
pub proof fn bytes_go_out_in_order<E>(t: Seq<BusEvent<E>>, bytes: Seq<u8>, result: Result<(), E>)
    requires
        bytes_sent(t, bytes, result),
    ensures
        bytes_on_the_bus(t).len() <= bytes.len(),
        bytes_on_the_bus(t) == bytes.take(bytes_on_the_bus(t).len() as int),
        result is Ok ==> bytes_on_the_bus(t) == bytes,
        forall|i: int|
            0 <= i < t.len() ==> (#[trigger] t[i] matches BusEvent::Exchange { bytes: part, .. }
                && 1 <= part.len() <= 32),
        result matches Err(error) ==> t.len() > 0 && (
        t.last() matches BusEvent::Exchange { reply, .. } && reply == result),
    decreases bytes.len(),
{
    if bytes.len() > 0 {
        let part = t[0]->Exchange_bytes;
        let k = part.len() as int;
        let rest = t.skip(1);
        if t[0]->Exchange_reply is Ok {
            bytes_go_out_in_order(rest, bytes.skip(k), result);
            let sent = bytes_on_the_bus(rest);
            assert(part + sent =~= bytes.take(k + sent.len()));
            assert(result is Ok ==> part + sent =~= bytes);
            assert forall|i: int| 0 <= i < t.len() implies (
            #[trigger] t[i] matches BusEvent::Exchange { bytes: own, .. } && 1 <= own.len() <= 32) by {
                if i > 0 {
                    assert(rest[i - 1] == t[i]);
                }
            }
            if result is Err {
                assert(rest.last() == t.last());
            }
        } else {
            assert(rest.len() == 0);
            assert(bytes_on_the_bus(rest).len() == 0);
            assert(part + bytes_on_the_bus(rest) =~= part);
            assert(bytes_on_the_bus(t) =~= part);
        }
    } else {
        assert(bytes_on_the_bus(t) =~= bytes);
    }
}

proof fn attempts_deliver<E>(
    t: Seq<CardEvent<E>>,
    request: CardRequest,
    left: int,
    result: Result<CardReply, E>,
)
    requires
        attempts_made(t, request, left, result),
    ensures
        t.len() > 0,
        request matches CardRequest::Read { start, count } ==> {
            &&& t.last() matches CardEvent::Read { start: at, count: n, reply } && at == start && n
                == count && match reply {
                Ok(blocks) => result == Ok::<CardReply, E>(CardReply::Blocks(blocks)),
                Err(error) => result == Err::<CardReply, E>(error),
            }
            &&& forall|i: int| 0 <= i < t.len() ==> !(#[trigger] t[i] is Write)
        },
        request is Count ==> {
            &&& t.last() matches CardEvent::Count { reply } && match reply {
                Ok(count) => result == Ok::<CardReply, E>(CardReply::Count(count)),
                Err(error) => result == Err::<CardReply, E>(error),
            }
            &&& forall|i: int| 0 <= i < t.len() ==> !(#[trigger] t[i] is Write)
        },
        request matches CardRequest::Write { start, blocks } ==> forall|i: int|
            0 <= i < t.len() ==> (#[trigger] t[i] matches CardEvent::Write { start: at, blocks: sent, .. }
                ==> at == start && sent == blocks@),
    decreases left,
{
    let (steps, outcome) = first_attempt(t, request, left, result);
    if !(outcome is Ok || left <= 1) {
        let rest = t.skip(steps + 2);
        attempts_deliver(rest, request, left - 1, result);
        assert(rest.last() == t.last());
        assert forall|i: int| steps + 2 <= i < t.len() implies #[trigger] t[i] == rest[i - steps - 2] by {}
    }
}

/// What a card is asked for is what it delivers: the blocks of a read are those of the last
/// exchange, from the place and in the number that were asked for. Reading never writes, and
/// a write only ever sends the blocks that it was given, to the place that it was given.
pub proof fn requests_are_served_as_made<E>(
    t: Seq<CardEvent<E>>,
    request: CardRequest,
    dead: bool,
    dead_after: bool,
    result: Result<CardReply, E>,
)
    requires
        request_run(t, request, dead, dead_after, result),
    ensures
        t.len() > 0,
        request matches CardRequest::Read { start, count } ==> {
            &&& t.last() matches CardEvent::Read { start: at, count: n, reply } && at == start && n
                == count && match reply {
                Ok(blocks) => result == Ok::<CardReply, E>(CardReply::Blocks(blocks)),
                Err(error) => result == Err::<CardReply, E>(error),
            }
            &&& forall|i: int| 0 <= i < t.len() ==> !(#[trigger] t[i] is Write)
        },
        request is Count ==> {
            &&& t.last() matches CardEvent::Count { reply } && match reply {
                Ok(count) => result == Ok::<CardReply, E>(CardReply::Count(count)),
                Err(error) => result == Err::<CardReply, E>(error),
            }
            &&& forall|i: int| 0 <= i < t.len() ==> !(#[trigger] t[i] is Write)
        },
        request matches CardRequest::Write { start, blocks } ==> forall|i: int|
            0 <= i < t.len() ==> (#[trigger] t[i] matches CardEvent::Write { start: at, blocks: sent, .. }
                ==> at == start && sent == blocks@),
        dead_after <==> result is Err,
{
    attempts_deliver(
        t,
        request,
        if dead {
            1
        } else {
            3
        },
        result,
    );
}

/// A card that was working is given up only after three attempts, with a recovery before the
/// second and before the third.
pub proof fn cards_are_given_three_attempts<E>(
    t: Seq<CardEvent<E>>,
    request: CardRequest,
    dead_after: bool,
    result: Result<CardReply, E>,
)
    requires
        request_run(t, request, false, dead_after, result),
        result is Err,
    ensures
        t.filter(|e: CardEvent<E>| e is Prepare).len() == 2,
        dead_after,
{
    failures_use_all_attempts(t, request, 3, result);
}

/// A write that is reported as done was accepted by the card, or the block was read back from
/// its place, byte for byte as it was to be written.
pub proof fn reported_writes_are_on_the_card<E>(
    t: Seq<CardEvent<E>>,
    start: u32,
    blocks: Vec<[u8; 512]>,
    dead: bool,
    dead_after: bool,
)
    requires
        request_run(
            t,
            (CardRequest::Write { start, blocks }),
            dead,
            dead_after,
            Ok(CardReply::Done),
        ),
    ensures
        t.len() > 0,
        match t.last() {
            CardEvent::Write { start: at, blocks: sent, reply } => at == start && sent == blocks@
                && reply is Ok,
            CardEvent::Read { start: at, count, reply } => at == start && count == 1 && blocks@.len()
                == 1 && (reply matches Ok(back) && back@.len() == 1 && (forall|i: int|
                0 <= i < 512 ==> #[trigger] back@[0]@[i] == blocks@[0]@[i])),
            _ => false,
        },
{
    let done: Result<(), E> = Ok(());
    writes_are_accepted_or_read_back(
        t,
        start,
        blocks,
        if dead {
            1
        } else {
            3
        },
        done,
    );
}

/// A position is counted from the start, from where the stream is, or from its end.
pub proof fn positions_are_counted_from_somewhere(position: int, length: int, from: SeekFrom)
    ensures
        from matches SeekFrom::Start(offset) ==> seek_target(position, length, from) == offset,
        from matches SeekFrom::Current(delta) ==> seek_target(position, length, from) - position
            == delta,
        from matches SeekFrom::End(delta) ==> seek_target(position, length, from) - length == delta,
{
}

/// A card is mounted as it was found: it was prepared and asked for its size, the whole of it
/// was searched, and the volume that was found is the one that was mounted. No step that
/// failed lies behind a success.
pub proof fn mounted_cards_were_found<D, F>(
    t: Seq<PortEvent<D, F>>,
    layout: MediaLayout,
    identity: MediaIdentity,
)
    requires
        slot_mounted(t, Ok((layout, identity))),
        forall|i: int| 0 <= i < t.len() ==> plausible(#[trigger] t[i]),
    ensures
        t.len() == 6,
        t[0] == (PortEvent::<D, F>::Prepare { reply: true }),
        t[1] is MarkUninit,
        t[4] matches PortEvent::Probe { length, reply, .. } && reply == Ok::<
            (MediaLayout, MediaIdentity),
            MountFailure,
        >((layout, identity)) && (t[2] matches PortEvent::Open { exchanges, reply: opened } && opened
            == Ok::<u64, crate::stream::SdStreamError>(length) && length % 512 == 0 && (
        exchanges[0] matches crate::blocks::BlockEvent::Count { reply: Ok(blocks) } && length
            == blocks * 512)),
        t[5] matches PortEvent::Mount { layout: mounted, reply, .. } && mounted == layout && reply
            is Ok,
        forall|i: int| 0 <= i < t.len() ==> !(#[trigger] t[i] is Format),
{
    assert(plausible(t[2]));
}

/// Formatting is always followed by a mount of the fresh volume, and the whole card is
/// formatted. A card that could not be opened is not written to.
pub proof fn formatted_cards_are_mounted<D, F>(
    t: Seq<PortEvent<D, F>>,
    seed: u32,
    result: Result<(MediaLayout, MediaIdentity), FormatFailure>,
)
    requires
        slot_formatted(t, seed, result),
    ensures
        result matches Ok(found) ==> {
            &&& t.len() == 8
            &&& t[0] matches PortEvent::Open { reply: Ok(length), .. } && (
            t[1] matches PortEvent::Format { length: whole, seed: own, reply, .. } && whole == length
                && own == seed && reply is Ok)
            &&& slot_mounted(t.skip(2), Ok(found))
        },
        t[0] matches PortEvent::Open { reply: Err(_), .. } ==> t.len() == 1 && result == Err::<
            (MediaLayout, MediaIdentity),
            FormatFailure,
        >(FormatFailure::Io),
        t.len() >= 2 ==> (t[1] matches PortEvent::Format { reply: Err(failure), .. } ==> result == Err::<
            (MediaLayout, MediaIdentity),
            FormatFailure,
        >(failure)),
{
}

} // verus!
