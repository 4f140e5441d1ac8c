//! The SD card itself: retries, recovery and giving up.
use vstd::prelude::*;

use crate::bytes::holds;
use crate::driver::{CardDriver, CardEvent, RecordedDriver};
use crate::retry::SD_RETRY_ATTEMPTS;
use crate::storage::{cut, extends, since};

verus! {

/// What is asked of the card.
pub enum CardRequest {
    Read { start: u32, count: usize },
    Write { start: u32, blocks: Vec<[u8; 512]> },
    Count,
}

/// What the card answers.
pub enum CardReply {
    Blocks(Vec<[u8; 512]>),
    Done,
    Count(u32),
}

/// The answer to a read.
pub open spec fn blocks_reply<E>(result: Result<Vec<[u8; 512]>, E>) -> Result<CardReply, E> {
    match result {
        Ok(blocks) => Ok(CardReply::Blocks(blocks)),
        Err(error) => Err(error),
    }
}

/// The answer to a write.
pub open spec fn done_reply<E>(result: Result<(), E>) -> Result<CardReply, E> {
    match result {
        Ok(()) => Ok(CardReply::Done),
        Err(error) => Err(error),
    }
}

/// The answer to a question for the size.
pub open spec fn count_reply<E>(result: Result<u32, E>) -> Result<CardReply, E> {
    match result {
        Ok(count) => Ok(CardReply::Count(count)),
        Err(error) => Err(error),
    }
}

/// A block that was read shows what was to be written.
pub open spec fn landed<E>(read: Result<Vec<[u8; 512]>, E>, block: [u8; 512]) -> bool {
    read matches Ok(blocks) && blocks@.len() == 1 && blocks@[0]@ == block@
}

/// One attempt at `request` begins the stretch `t`, takes `steps` steps and ends with
/// `outcome`. Where the write of a single block fails, the block is read back: some
/// cards report a late error after they have accepted the data.
pub open spec fn attempted<E>(
    t: Seq<CardEvent<E>>,
    request: CardRequest,
    steps: int,
    outcome: Result<CardReply, E>,
) -> bool {
    &&& t.len() >= steps >= 1
    &&& match request {
        CardRequest::Read { start, count } => {
            &&& steps == 1
            &&& t[0] matches CardEvent::Read { start: asked, count: length, reply } && asked
                == start && length == count && outcome == blocks_reply(reply)
        },
        CardRequest::Count => {
            &&& steps == 1
            &&& t[0] matches CardEvent::Count { reply } && outcome == count_reply(reply)
        },
        CardRequest::Write { start, blocks } => {
            t[0] matches CardEvent::Write { start: asked, blocks: sent, reply } && asked == start
                && sent == blocks@ && if reply is Ok || blocks@.len() != 1 {
                steps == 1 && outcome == done_reply(reply)
            } else {
                &&& steps == 2
                &&& t[1] matches CardEvent::Read { start: again, count, reply: back } && again
                    == start && count == 1 && outcome == if landed(back, blocks@[0]) {
                    Ok(CardReply::Done)
                } else {
                    done_reply(reply)
                }
            }
        },
    }
}

/// Up to `left` attempts, with a recovery between two of them but none after the
/// last; the last attempt's outcome counts.
pub open spec fn attempts_made<E>(
    t: Seq<CardEvent<E>>,
    request: CardRequest,
    left: int,
    result: Result<CardReply, E>,
) -> bool
    decreases left,
{
    exists|steps: int, outcome: Result<CardReply, E>|
        {
            &&& #[trigger] attempted(t, request, steps, outcome)
            &&& if outcome is Ok || left <= 1 {
                t.len() == steps && result == outcome
            } else {
                &&& t.len() >= steps + 2
                &&& t[steps] is Prepare
                &&& t[steps + 1] is MarkUninit
                &&& attempts_made(t.skip(steps + 2), request, left - 1, result)
            }
        }
}

/// A request is served. A card that failed a whole cycle of attempts is taken for
/// dead: then one bare attempt is made, and only a success revives it.
pub open spec fn request_run<E>(
    t: Seq<CardEvent<E>>,
    request: CardRequest,
    dead: bool,
    dead_after: bool,
    result: Result<CardReply, E>,
) -> bool {
    &&& attempts_made(
        t,
        request,
        if dead {
            1
        } else {
            SD_RETRY_ATTEMPTS as int
        },
        result,
    )
    &&& dead_after == (result is Err)
}

/// A card behind its driver.
pub struct ControllerDevice<C: CardDriver> {
    card: RecordedDriver<C>,
    dead: bool,
}

impl<C: CardDriver> ControllerDevice<C> {
    /// Every exchange so far, oldest first.
    pub closed spec fn log(&self) -> Seq<CardEvent<C::Error>> {
        self.card.log()
    }

    /// The card is taken for dead.
    pub closed spec fn dead(&self) -> bool {
        self.dead
    }

    /// A card that is not taken for dead.
    pub fn new(card: C) -> (device: Self)
        ensures
            device.log() == Seq::<CardEvent<C::Error>>::empty(),
            !device.dead(),
    {
        ControllerDevice { card: RecordedDriver::new(card), dead: false }
    }

    /// Prepare the card anew, so that the next attempt may succeed.
    pub fn recover_card(&mut self)
        ensures
            final(self).dead() == old(self).dead(),
            extends(old(self).log(), final(self).log()),
            ({
                let t = since(old(self).log(), final(self).log());
                t.len() == 2 && t[0] is Prepare && t[1] is MarkUninit
            }),
    {
        let _answers = self.card.prepare();
        self.card.mark_uninit();
    }

    /// Write once, and look whether a block that was refused landed all the same.
    fn write_once(&mut self, start: u32, blocks: &Vec<[u8; 512]>) -> (result: Result<
        (),
        C::Error,
    >)
        ensures
            final(self).dead() == old(self).dead(),
            extends(old(self).log(), final(self).log()),
            attempted(
                since(old(self).log(), final(self).log()),
                CardRequest::Write { start, blocks: *blocks },
                since(old(self).log(), final(self).log()).len() as int,
                done_reply(result),
            ),
    {
        let ghost first = self.log();
        let reply = self.card.write(start, blocks);
        if reply.is_ok() || blocks.len() != 1 {
            return reply;
        }
        match self.card.read(start, 1) {
            Ok(back) => {
                if back.len() == 1 && holds(&back[0], 0, &blocks[0]) {
                    assert(back@[0]@.subrange(0, 512) =~= back@[0]@);
                    return Ok(());
                }
                if back.len() == 1 {
                    assert(back@[0]@.subrange(0, 512) =~= back@[0]@);
                }
            },
            Err(_) => {},
        }
        reply
    }

    /// Make one attempt at a request.
    fn attempt(&mut self, request: &CardRequest) -> (outcome: Result<CardReply, C::Error>)
        ensures
            final(self).dead() == old(self).dead(),
            extends(old(self).log(), final(self).log()),
            attempted(
                since(old(self).log(), final(self).log()),
                *request,
                since(old(self).log(), final(self).log()).len() as int,
                outcome,
            ),
    {
        match request {
            CardRequest::Read { start, count } => match self.card.read(*start, *count) {
                Ok(blocks) => Ok(CardReply::Blocks(blocks)),
                Err(error) => Err(error),
            },
            CardRequest::Write { start, blocks } => match self.write_once(*start, blocks) {
                Ok(()) => Ok(CardReply::Done),
                Err(error) => Err(error),
            },
            CardRequest::Count => {
                let reply = self.card.num_blocks();
                match reply {
                    Ok(count) => Ok(CardReply::Count(count)),
                    Err(error) => Err(error),
                }
            },
        }
    }

    fn try_up_to(&mut self, request: &CardRequest, left: usize) -> (result: Result<
        CardReply,
        C::Error,
    >)
        requires
            left >= 1,
        ensures
            final(self).dead() == old(self).dead(),
            extends(old(self).log(), final(self).log()),
            attempts_made(
                since(old(self).log(), final(self).log()),
                *request,
                left as int,
                result,
            ),
        decreases left,
    {
        let ghost start = self.log();
        let outcome = self.attempt(request);
        let ghost tried = self.log();
        let ghost steps = since(start, tried).len() as int;
        if outcome.is_ok() || left == 1 {
            return outcome;
        }
        self.recover_card();
        let ghost recovered = self.log();
        let result = self.try_up_to(request, left - 1);
        proof {
            let t = since(start, self.log());
            cut(tried, recovered, self.log());
            cut(start, tried, self.log());
            cut(start, recovered, self.log());
            cut(start, tried, recovered);
            assert forall|i: int| 0 <= i < steps implies t[i] == since(start, tried)[i] by {
                assert(t.take(steps)[i] == t[i]);
            }
            let u = since(tried, recovered);
            assert(t.skip(steps).take(2) =~= u) by {
                assert(since(tried, self.log()).take(2) == u);
            }
            assert(t[steps] == t.skip(steps).take(2)[0]);
            assert(t[steps + 1] == t.skip(steps).take(2)[1]);
            assert(attempted(t, *request, steps, outcome));
            assert(t.skip(steps + 2) =~= since(recovered, self.log()));
        }
        result
    }

    /// Serve a request.
    pub fn run(&mut self, request: &CardRequest) -> (result: Result<CardReply, C::Error>)
        ensures
            extends(old(self).log(), final(self).log()),
            request_run(
                since(old(self).log(), final(self).log()),
                *request,
                old(self).dead(),
                final(self).dead(),
                result,
            ),
    {
        let attempts: usize = if self.dead {
            1
        } else {
            SD_RETRY_ATTEMPTS
        };
        let result = self.try_up_to(request, attempts);
        self.dead = result.is_err();
        result
    }

    /// Read `count` blocks from `start` on.
    pub fn read(&mut self, start: u32, count: usize) -> (result: Result<Vec<[u8; 512]>, C::Error>)
        ensures
            extends(old(self).log(), final(self).log()),
            request_run(
                since(old(self).log(), final(self).log()),
                CardRequest::Read { start, count },
                old(self).dead(),
                final(self).dead(),
                blocks_reply(result),
            ),
    {
        let request = CardRequest::Read { start, count };
        let ghost begin = self.log();
        let result = self.run(&request);
        proof {
            replies_fit(since(begin, self.log()), request, result);
        }
        match result {
            Ok(CardReply::Blocks(blocks)) => Ok(blocks),
            Ok(_) => unreached(),
            Err(error) => Err(error),
        }
    }

    /// Write blocks from `start` on.
    pub fn write(&mut self, start: u32, blocks: Vec<[u8; 512]>) -> (result: Result<(), C::Error>)
        ensures
            extends(old(self).log(), final(self).log()),
            request_run(
                since(old(self).log(), final(self).log()),
                CardRequest::Write { start, blocks },
                old(self).dead(),
                final(self).dead(),
                done_reply(result),
            ),
    {
        let request = CardRequest::Write { start, blocks };
        let ghost begin = self.log();
        let result = self.run(&request);
        proof {
            replies_fit(since(begin, self.log()), request, result);
        }
        match result {
            Ok(CardReply::Done) => Ok(()),
            Ok(_) => unreached(),
            Err(error) => Err(error),
        }
    }

    /// The number of blocks.
    pub fn num_blocks(&mut self) -> (result: Result<u32, C::Error>)
        ensures
            extends(old(self).log(), final(self).log()),
            request_run(
                since(old(self).log(), final(self).log()),
                CardRequest::Count,
                old(self).dead(),
                final(self).dead(),
                count_reply(result),
            ),
    {
        let request = CardRequest::Count;
        let ghost begin = self.log();
        let result = self.run(&request);
        proof {
            replies_fit(since(begin, self.log()), request, result);
        }
        match result {
            Ok(CardReply::Count(count)) => Ok(count),
            Ok(_) => unreached(),
            Err(error) => Err(error),
        }
    }
}

/// The attempts of a served request, whether the card was taken for dead or not.
proof fn replies_fit<E>(t: Seq<CardEvent<E>>, request: CardRequest, result: Result<CardReply, E>)
    requires
        exists|left: int| #[trigger] attempts_made(t, request, left, result),
    ensures
        result matches Ok(reply) ==> match request {
            CardRequest::Read { .. } => reply is Blocks,
            CardRequest::Write { .. } => reply is Done,
            CardRequest::Count => reply is Count,
        },
{
    let left = choose|left: int| #[trigger] attempts_made(t, request, left, result);
    attempt_replies_fit(t, request, left, result);
}

proof fn attempt_replies_fit<E>(
    t: Seq<CardEvent<E>>,
    request: CardRequest,
    left: int,
    result: Result<CardReply, E>,
)
    requires
        attempts_made(t, request, left, result),
    ensures
        result matches Ok(reply) ==> match request {
            CardRequest::Read { .. } => reply is Blocks,
            CardRequest::Write { .. } => reply is Done,
            CardRequest::Count => reply is Count,
        },
    decreases left,
{
    let (steps, outcome) = first_attempt(t, request, left, result);
    if !(outcome is Ok || left <= 1) {
        attempt_replies_fit(t.skip(steps + 2), request, left - 1, result);
    }
}

/// How the first attempt went.
pub(crate) proof fn first_attempt<E>(
    t: Seq<CardEvent<E>>,
    request: CardRequest,
    left: int,
    result: Result<CardReply, E>,
) -> (first: (int, Result<CardReply, E>))
    requires
        attempts_made(t, request, left, result),
    ensures
        attempted(t, request, first.0, first.1),
        if first.1 is Ok || left <= 1 {
            t.len() == first.0 && result == first.1
        } else {
            &&& t.len() >= first.0 + 2
            &&& t[first.0] is Prepare
            &&& t[first.0 + 1] is MarkUninit
            &&& attempts_made(t.skip(first.0 + 2), request, left - 1, result)
        },
{
    choose|steps: int, outcome: Result<CardReply, E>|
        {
            &&& #[trigger] attempted(t, request, steps, outcome)
            &&& if outcome is Ok || left <= 1 {
                t.len() == steps && result == outcome
            } else {
                &&& t.len() >= steps + 2
                &&& t[steps] is Prepare
                &&& t[steps + 1] is MarkUninit
                &&& attempts_made(t.skip(steps + 2), request, left - 1, result)
            }
        }
}

/// A card that is taken for dead is not recovered: it costs one attempt.
pub proof fn dead_cards_fail_fast<E>(
    t: Seq<CardEvent<E>>,
    request: CardRequest,
    dead_after: bool,
    result: Result<CardReply, E>,
)
    requires
        request_run(t, request, true, dead_after, result),
    ensures
        attempted(t, request, t.len() as int, result),
        t.len() <= 2,
        dead_after == (result is Err),
{
    let (steps, outcome) = first_attempt(t, request, 1, result);
}

/// A failure is reported only after every attempt was used up, with a recovery
/// before each but the first.
pub proof fn failures_use_all_attempts<E>(
    t: Seq<CardEvent<E>>,
    request: CardRequest,
    left: int,
    result: Result<CardReply, E>,
)
    requires
        left >= 1,
        attempts_made(t, request, left, result),
        result is Err,
    ensures
        t.len() >= 3 * left - 2,
        t.filter(|e: CardEvent<E>| e is Prepare).len() == left - 1,
    decreases left,
{
    let (steps, outcome) = first_attempt(t, request, left, result);
    let prepares = |e: CardEvent<E>| e is Prepare;
    let head = t.take(steps);
    assert(head.filter(prepares).len() == 0) by {
        none_kept(head, prepares);
    }
    if left > 1 {
        let rest = t.skip(steps + 2);
        failures_use_all_attempts(rest, request, left - 1, result);
        let middle = seq![t[steps], t[steps + 1]];
        assert(t =~= head + (middle + rest));
        Seq::filter_distributes_over_add(head, middle + rest, prepares);
        Seq::filter_distributes_over_add(middle, rest, prepares);
        assert(middle.filter(prepares) =~= seq![t[steps]]) by {
            reveal(Seq::filter);
            let one = seq![t[steps]];
            assert(middle.drop_last() =~= one);
            assert(one.drop_last() =~= Seq::<CardEvent<E>>::empty());
            assert(one.drop_last().filter(prepares) =~= Seq::<CardEvent<E>>::empty());
            assert(one.filter(prepares) =~= one);
        }
    } else {
        assert(head =~= t);
    }
}

proof fn none_kept<T>(s: Seq<T>, keep: spec_fn(T) -> bool)
    requires
        forall|i: int| 0 <= i < s.len() ==> !keep(#[trigger] s[i]),
    ensures
        s.filter(keep).len() == 0,
    decreases s.len(),
{
    reveal(Seq::filter);
    if s.len() > 0 {
        none_kept(s.drop_last(), keep);
    }
}

/// The card accepted the blocks, or the one block read back as it was written.
pub open spec fn shows_write<E>(
    event: CardEvent<E>,
    start: u32,
    blocks: Vec<[u8; 512]>,
) -> bool {
    match event {
        CardEvent::Write { start: asked, blocks: sent, reply } => asked == start && sent == blocks@
            && reply is Ok,
        CardEvent::Read { start: again, count, reply } => again == start && count == 1
            && blocks@.len() == 1 && landed(reply, blocks@[0]),
        _ => false,
    }
}

/// A write is reported as done only where the card accepted the blocks, or where the
/// one block read back as it was written.
pub proof fn writes_are_accepted_or_read_back<E>(
    t: Seq<CardEvent<E>>,
    start: u32,
    blocks: Vec<[u8; 512]>,
    left: int,
    result: Result<(), E>,
)
    requires
        attempts_made(t, (CardRequest::Write { start, blocks }), left, done_reply(result)),
        result is Ok,
    ensures
        t.len() >= 1,
        shows_write(t.last(), start, blocks),
    decreases left,
{
    let request = CardRequest::Write { start, blocks };
    let (steps, outcome) = first_attempt(t, request, left, done_reply(result));
    if !(outcome is Ok || left <= 1) {
        let rest = t.skip(steps + 2);
        writes_are_accepted_or_read_back(rest, start, blocks, left - 1, result);
        assert(t.last() == rest.last());
    }
}

} // verus!
