//! Repeated attempts at a raw SD exchange.
use vstd::prelude::*;

verus! {

/// How many times a raw SD exchange is attempted before its failure is surfaced.
pub const SD_RETRY_ATTEMPTS: usize = 3;

/// `outcomes` are what successive calls returned, one after the other, the first
/// of them made on `operation` as it was handed over.
pub open spec fn attempted<T, E, F: FnMut() -> Result<T, E>>(
    operation: F,
    states: Seq<F>,
    outcomes: Seq<Result<T, E>>,
) -> bool {
    &&& outcomes.len() == states.len() >= 1
    &&& states[0] == operation
    &&& forall|i: int| 0 <= i < outcomes.len() ==> call_ensures(states[i], (), #[trigger] outcomes[i])
}

/// Run `operation` up to [`SD_RETRY_ATTEMPTS`] times, and return the first success
/// or the last attempt's error: every attempt but the last failed, the last one's
/// outcome is returned, and it is a failure only when all attempts were used up.
pub fn sd_retry<T, E, F: FnMut() -> Result<T, E>>(operation: F) -> (result: Result<T, E>)
    requires
        forall|f: F| call_requires(f, ()),
    ensures
        exists|states: Seq<F>, outcomes: Seq<Result<T, E>>| #[trigger]
            attempted(operation, states, outcomes) && {
                &&& outcomes.len() <= SD_RETRY_ATTEMPTS
                &&& outcomes.last() == result
                &&& forall|i: int| 0 <= i < outcomes.len() - 1 ==> (#[trigger] outcomes[i]) is Err
                &&& result is Err ==> outcomes.len() == SD_RETRY_ATTEMPTS
            },
{
    let mut operation = operation;
    let ghost initial = operation;
    let ghost mut states: Seq<F> = seq![operation];
    let mut result = operation();
    let ghost mut outcomes: Seq<Result<T, E>> = seq![result];
    let mut made: usize = 1;
    while made < SD_RETRY_ATTEMPTS && result.is_err()
        invariant
            forall|f: F| call_requires(f, ()),
            1 <= made <= SD_RETRY_ATTEMPTS,
            outcomes.len() == made,
            attempted(initial, states, outcomes),
            outcomes.last() == result,
            forall|i: int| 0 <= i < outcomes.len() - 1 ==> (#[trigger] outcomes[i]) is Err,
        decreases SD_RETRY_ATTEMPTS - made,
    {
        let ghost before = operation;
        result = operation();
        proof {
            states = states.push(before);
            outcomes = outcomes.push(result);
        }
        made = made + 1;
    }
    result
}

} // verus!
