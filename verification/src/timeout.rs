//! A stream with a timeout: each poll passes on what the inner stream
//! yields, or, when it yields nothing and the deadline has passed, a
//! timeout; either way the deadline then moves one period on.  Such a
//! stream is cut after a given number of items.

use vstd::prelude::*;

verus! {

/// An item that came in time, or the note that none did.
pub enum TimedResult<T> {
    InTime(T),
    TimedOut,
}

/// The answer of one poll of an inner stream.
pub enum StreamPoll<T> {
    /// Nothing yet.
    NotReady,
    /// An item, or `None` at the end of the stream.
    Ready(Option<T>),
}

/// One poll of the timed stream, given what the inner stream answered and
/// whether the deadline has passed.  Answers what the timed stream yields,
/// and whether the deadline moves one period on.
pub fn timeout_poll<T>(inner: StreamPoll<T>, deadline_passed: bool) -> (res: (
    StreamPoll<TimedResult<T>>,
    bool,
))
    ensures
        inner matches StreamPoll::Ready(Some(x)) ==> res.0 == StreamPoll::Ready(
            Some(TimedResult::InTime(x)),
        ) && res.1,
        inner matches StreamPoll::Ready(None) ==> res.0 == StreamPoll::<TimedResult<T>>::Ready(None)
            && res.1,
        inner is NotReady && deadline_passed ==> res.0 == StreamPoll::Ready(
            Some(TimedResult::<T>::TimedOut),
        ) && res.1,
        inner is NotReady && !deadline_passed ==> res.0 is NotReady && !res.1,
{
    match inner {
        StreamPoll::Ready(Some(x)) => (StreamPoll::Ready(Some(TimedResult::InTime(x))), true),
        StreamPoll::Ready(None) => (StreamPoll::Ready(None), true),
        StreamPoll::NotReady => {
            if deadline_passed {
                (StreamPoll::Ready(Some(TimedResult::TimedOut)), true)
            } else {
                (StreamPoll::NotReady, false)
            }
        },
    }
}

/// One poll of a stream cut after its first `limit` items, `taken` of
/// which went through already: once `limit` have, the stream has ended;
/// else an item of the inner stream is passed on and counted, and the end
/// of the inner stream ends it for good.
pub fn take_poll<T>(taken: &mut u64, limit: u64, inner: StreamPoll<T>) -> (res: StreamPoll<T>)
    ensures
        *old(taken) >= limit ==> res == StreamPoll::<T>::Ready(None) && *final(taken) == *old(taken),
        *old(taken) < limit ==> res == inner,
        *old(taken) < limit && inner is NotReady ==> *final(taken) == *old(taken),
        *old(taken) < limit && inner == StreamPoll::<T>::Ready(None) ==> *final(taken) == limit,
        *old(taken) < limit && inner is Ready && inner != StreamPoll::<T>::Ready(None) ==> *final(taken)
            == *old(taken) + 1,
{
    if *taken >= limit {
        return StreamPoll::Ready(None);
    }
    match inner {
        StreamPoll::NotReady => StreamPoll::NotReady,
        StreamPoll::Ready(None) => {
            *taken = limit;
            StreamPoll::Ready(None)
        },
        StreamPoll::Ready(Some(x)) => {
            *taken = *taken + 1;
            StreamPoll::Ready(Some(x))
        },
    }
}

/// What a wait for an answer, sent again at each timeout and given up
/// after a number of items, does at one poll.
pub enum RetryAction<T> {
    /// An item came in time.
    Answered(T),
    /// The deadline passed: send again.
    Resend,
    /// The items allowed went through: give up.
    GiveUp,
    /// Nothing yet.
    Wait,
}

/// One poll of a wait for an answer: the timed stream (`timeout_poll`) of
/// what arrived, `got`, cut after `limit` items (`take_poll`), `taken` of
/// which went through.  Answers the action and whether the deadline moves
/// one period on.
pub fn retry_step<T>(taken: &mut u64, limit: u64, got: Option<T>, deadline_passed: bool) -> (res: (
    RetryAction<T>,
    bool,
))
    ensures
        res.1 == (got is Some || deadline_passed),
        *old(taken) >= limit ==> res.0 is GiveUp && *final(taken) == *old(taken),
        *old(taken) < limit && got is Some ==> res.0 == RetryAction::Answered(got->0) && *final(taken)
            == *old(taken) + 1,
        *old(taken) < limit && got is None && deadline_passed ==> res.0 is Resend && *final(taken)
            == *old(taken) + 1,
        *old(taken) < limit && got is None && !deadline_passed ==> res.0 is Wait && *final(taken)
            == *old(taken),
{
    let inner = match got {
        Some(x) => StreamPoll::Ready(Some(x)),
        None => StreamPoll::NotReady,
    };
    let (timed, reset) = timeout_poll(inner, deadline_passed);
    let action = match take_poll(taken, limit, timed) {
        StreamPoll::Ready(None) => RetryAction::GiveUp,
        StreamPoll::Ready(Some(TimedResult::InTime(x))) => RetryAction::Answered(x),
        StreamPoll::Ready(Some(TimedResult::TimedOut)) => RetryAction::Resend,
        StreamPoll::NotReady => RetryAction::Wait,
    };
    (action, reset)
}

} // verus!
