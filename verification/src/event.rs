//! Waiting on the kernel's event descriptor: what each answer of `poll`
//! and `read` leads to.  The calls themselves are made by the caller.

use vstd::prelude::*;

use crate::error::Error;

verus! {

/// What `poll` on the event descriptor answered.
#[derive(Debug)]
pub enum PollOutcome {
    /// This many descriptors are ready (0 when the timeout passed).
    Ready(usize),
    /// The call was interrupted (`EINTR`).
    Interrupted,
    /// Any other error, by its `errno`.
    Failed(i32),
}

/// What `read` of the 8-byte counter answered.
#[derive(Debug)]
pub enum ReadOutcome {
    /// All 8 bytes were read; the counter's value (native byte order).
    Value(u64),
    /// Fewer than 8 bytes were read.
    Short,
    /// The call was interrupted (`EINTR`).
    Interrupted,
    /// Nothing was there to read (`EAGAIN`).
    WouldBlock,
    /// Any other error, by its `errno`.
    Failed(i32),
}

/// The next step of a blocking wait.
#[derive(Debug)]
pub enum WaitStep {
    /// Poll again.
    Poll,
    /// Read the counter.
    Read,
    /// Stop with this result.
    Finish(Result<u64, Error>),
}

/// The next step of `KernelEvent::wait` after a `poll`: an interruption
/// polls again, an error stops the wait, readiness reads.
pub fn wait_after_poll(p: PollOutcome) -> (s: WaitStep)
    ensures
        match p {
            PollOutcome::Interrupted => s is Poll,
            PollOutcome::Failed(e) => s == WaitStep::Finish(Err(Error::Poll(e))),
            PollOutcome::Ready(_) => s is Read,
        },
{
    match p {
        PollOutcome::Interrupted => WaitStep::Poll,
        PollOutcome::Failed(e) => WaitStep::Finish(Err(Error::Poll(e))),
        PollOutcome::Ready(_) => WaitStep::Read,
    }
}

/// The next step of `KernelEvent::wait` after a `read`: a full read
/// delivers the value, a short, interrupted or empty read polls again,
/// an error stops the wait.
pub fn wait_after_read(r: ReadOutcome) -> (s: WaitStep)
    ensures
        match r {
            ReadOutcome::Value(v) => s == WaitStep::Finish(Ok(v)),
            ReadOutcome::Failed(e) => s == WaitStep::Finish(Err(Error::Read(e))),
            _ => s is Poll,
        },
{
    match r {
        ReadOutcome::Value(v) => WaitStep::Finish(Ok(v)),
        ReadOutcome::Failed(e) => WaitStep::Finish(Err(Error::Read(e))),
        _ => WaitStep::Poll,
    }
}

/// The result of `KernelEvent::wait_timeout` once `poll` has answered:
/// `None` to go on and read; otherwise the result, `Ok(None)` when the
/// timeout passed or the call was interrupted.
pub fn wait_timeout_after_poll(p: PollOutcome) -> (r: Option<Result<Option<u64>, Error>>)
    ensures
        match p {
            PollOutcome::Interrupted => r == Some(Ok::<Option<u64>, Error>(None)),
            PollOutcome::Ready(n) => if n == 0 {
                r == Some(Ok::<Option<u64>, Error>(None))
            } else {
                r is None
            },
            PollOutcome::Failed(e) => r == Some(Err::<Option<u64>, Error>(Error::Poll(e))),
        },
{
    match p {
        PollOutcome::Interrupted => Some(Ok(None)),
        PollOutcome::Ready(n) => if n == 0 {
            Some(Ok(None))
        } else {
            None
        },
        PollOutcome::Failed(e) => Some(Err(Error::Poll(e))),
    }
}

/// The result of `KernelEvent::wait_timeout` once `read` has answered: a
/// full read delivers the value, a short, interrupted or empty read gives
/// `Ok(None)`, an error is the error.
pub fn wait_timeout_after_read(r: ReadOutcome) -> (res: Result<Option<u64>, Error>)
    ensures
        match r {
            ReadOutcome::Value(v) => res == Ok::<Option<u64>, Error>(Some(v)),
            ReadOutcome::Failed(e) => res == Err::<Option<u64>, Error>(Error::Read(e)),
            _ => res == Ok::<Option<u64>, Error>(None),
        },
{
    match r {
        ReadOutcome::Value(v) => Ok(Some(v)),
        ReadOutcome::Failed(e) => Err(Error::Read(e)),
        _ => Ok(None),
    }
}

/// Rust's `/` on integers: the quotient rounded toward zero.
pub open spec fn div_trunc(a: int, b: int) -> int {
    if a >= 0 {
        a / b
    } else {
        -((-a) / b)
    }
}

/// Rust's `%` on integers: the remainder with the sign of `a`.
pub open spec fn rem_trunc(a: int, b: int) -> int {
    a - b * div_trunc(a, b)
}

/// The timeout of `wait_timeout` as seconds and nanoseconds:
/// `(ms / 1000, (ms % 1000) * 1_000_000)` with Rust's division, which
/// rounds toward zero, so a negative timeout gives negative parts.
pub fn timeout_timespec(timeout_ms: i64) -> (r: (i64, i64))
    ensures
        r.0 == div_trunc(timeout_ms as int, 1000),
        r.1 == rem_trunc(timeout_ms as int, 1000) * 1_000_000,
{
    let secs = timeout_ms / 1000;
    let rem = timeout_ms % 1000;
    assert(secs == div_trunc(timeout_ms as int, 1000) && rem == rem_trunc(timeout_ms as int, 1000));
    (secs, rem * 1_000_000)
}

} // verus!
