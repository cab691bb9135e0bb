//! Waiting with a deadline: when to look again, when to stop waiting, when to use force.
use vstd::prelude::*;
use crate::restart::MILLISECOND;

verus! {

/// Milliseconds between two looks at a process that was asked to stop.
pub const STOP_POLL_MS: u64 = 50;

/// Milliseconds between two looks at a child that was started for a short task.
pub const CHILD_POLL_MS: u64 = 20;

/// Milliseconds between two looks for the control group of a scope.
pub const SCOPE_POLL_MS: u64 = 25;

/// What to do next while waiting for something to end.
#[derive(Clone, Copy, Debug, PartialEq, Eq, Structural)]
pub enum Poll {
    /// It has ended.
    Ended,
    /// Wait for so many milliseconds, then look again.
    Sleep(u64),
    /// The time is up.
    TimedOut,
}

/// The moment `timeout_ms` milliseconds after `now`.
pub open spec fn deadline_after(now: u64, timeout_ms: u64) -> int {
    now + timeout_ms * MILLISECOND
}

/// The moment `timeout_ms` milliseconds after `now`.
pub fn deadline(now: u64, timeout_ms: u64) -> (moment: u128)
    ensures
        moment == deadline_after(now, timeout_ms),
        moment == now + timeout_ms * 1_000_000,
{
    now as u128 + timeout_ms as u128 * MILLISECOND
}

/// What to do next about a process that was asked to stop: wait for its end until the
/// deadline, looking every so often.
pub fn poll_stop(deadline: u128, now: u64, ended: bool) -> (next: Poll)
    ensures
        next == (if now >= deadline {
            Poll::TimedOut
        } else if ended {
            Poll::Ended
        } else {
            Poll::Sleep(50)
        }),
{
    if now as u128 >= deadline {
        Poll::TimedOut
    } else if ended {
        Poll::Ended
    } else {
        Poll::Sleep(STOP_POLL_MS)
    }
}

/// What a look at a child showed.
#[derive(Clone, Copy, Debug, PartialEq, Eq, Structural)]
pub enum ChildStatus {
    Exited,
    Running,
    Unknown,
}

/// What to do next about a child that is waited for: its end counts whenever it is seen, and
/// a child that cannot be looked at is given up at once.
pub fn poll_child(deadline: u128, now: u64, status: ChildStatus) -> (next: Poll)
    ensures
        next == (match status {
            ChildStatus::Exited => Poll::Ended,
            ChildStatus::Running => if now < deadline {
                Poll::Sleep(20)
            } else {
                Poll::TimedOut
            },
            ChildStatus::Unknown => Poll::TimedOut,
        }),
{
    match status {
        ChildStatus::Exited => Poll::Ended,
        ChildStatus::Running => if (now as u128) < deadline {
            Poll::Sleep(CHILD_POLL_MS)
        } else {
            Poll::TimedOut
        },
        ChildStatus::Unknown => Poll::TimedOut,
    }
}

/// What to do next about a scope whose control group is waited for. It is found by the group
/// of its first process, or else by asking the service manager, which is asked only while time
/// is left.
pub fn poll_scope(deadline: u128, now: u64, found: bool) -> (next: Poll)
    ensures
        next == (if found {
            Poll::Ended
        } else if now >= deadline {
            Poll::TimedOut
        } else {
            Poll::Sleep(25)
        }),
{
    if found {
        Poll::Ended
    } else if now as u128 >= deadline {
        Poll::TimedOut
    } else {
        Poll::Sleep(SCOPE_POLL_MS)
    }
}

/// The longest time, in nanoseconds, that the service manager is given for one answer.
pub const SERVICE_ANSWER_TIME: u128 = 2_000_000_000;

/// How long, in nanoseconds, the service manager may take to answer a question about a scope
/// that is waited for until the deadline; it is not asked once the deadline has passed.
pub fn answer_time(deadline: u128, now: u64) -> (time: Option<u128>)
    ensures
        match time {
            Some(time) => now < deadline && time == if deadline - now < 2_000_000_000 {
                deadline - now
            } else {
                2_000_000_000
            },
            None => now >= deadline,
        },
{
    let now: u128 = now as u128;
    if now >= deadline {
        None
    } else if deadline - now < SERVICE_ANSWER_TIME {
        Some(deadline - now)
    } else {
        Some(SERVICE_ANSWER_TIME)
    }
}

/// What remains of a stop once the wait for a graceful end is over.
#[derive(Clone, Copy, Debug, PartialEq, Eq, Structural)]
pub enum StopEnd {
    Done,
    Force,
}

/// How a stop begins.
#[derive(Clone, Copy, Debug, PartialEq, Eq, Structural)]
pub enum StopStart {
    /// Wait for a graceful end until the deadline.
    WaitUntil(u128),
    /// Look at once whether force is needed.
    Look,
}

/// How a stop goes on after the process was asked to end: it gets `timeout_ms` milliseconds if
/// it could be asked.
pub fn plan_stop(asked: bool, now: u64, timeout_ms: u64) -> (start: StopStart)
    ensures
        match start {
            StopStart::WaitUntil(moment) => asked && moment == deadline_after(now, timeout_ms)
                && moment == now + timeout_ms * 1_000_000,
            StopStart::Look => !asked,
        },
{
    if asked {
        StopStart::WaitUntil(deadline(now, timeout_ms))
    } else {
        StopStart::Look
    }
}

/// How a stop ends: force is used on a process that is still there.
pub fn end_stop(ended: bool) -> (end: StopEnd)
    ensures
        end == (if ended {
            StopEnd::Done
        } else {
            StopEnd::Force
        }),
{
    if ended {
        StopEnd::Done
    } else {
        StopEnd::Force
    }
}

// ---------------------------------------------------------------------------
// What holds of every deadline
// ---------------------------------------------------------------------------

/// A deadline lies exactly the time that was given, in milliseconds, behind the moment at which
/// it was set: a later moment moves it by as much, and a millisecond more of time by a million
/// nanoseconds.
pub proof fn law_deadline_gives_the_whole_time(now: u64, more: u64, timeout_ms: u64, longer_ms: u64)
    ensures
        deadline_after(now, timeout_ms) - now == timeout_ms * 1_000_000,
        deadline_after(now, timeout_ms) - deadline_after(more, timeout_ms) == now - more,
        deadline_after(now, longer_ms) - deadline_after(now, timeout_ms) == (longer_ms - timeout_ms)
            * 1_000_000,
{
}

} // verus!
