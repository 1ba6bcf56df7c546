//! Closing the connection.
//!
//! The caller performs the [`CloseStep`] it is given and reports it as a
//! [`CloseEvent`], until the step is [`CloseStep::Done`].
use crate::conn::{ConnState, EncryptedPacketConn};
use crate::types::Error;
use vstd::prelude::*;

verus! {

/// What came of a step of closing.
#[derive(Debug, PartialEq, Eq)]
pub enum CloseEvent<E> {
    /// The background tasks were told to stop.
    TasksCancelled,
    /// The background reader has ended.
    ReaderJoined,
    /// The session cleanup task has ended.
    CleanupJoined,
    /// The inner connection was closed, or failed to close.
    InnerClosed(Result<(), E>),
}

/// What closing needs done next.
#[derive(Debug, PartialEq, Eq)]
pub enum CloseStep<E> {
    /// Tell the background tasks, and the readers that wait, to stop.
    CancelTasks,
    /// Wait for the background reader to end.
    JoinReader,
    /// Wait for the session cleanup task to end.
    JoinCleanup,
    /// Close the inner connection.
    CloseInner,
    /// Return this to the caller.
    Done(Result<(), Error<E>>),
}

/// What a call of `close` begins with: only the first call closes the connection.
pub open spec fn close_start<E>(conn: ConnState) -> CloseStep<E> {
    if conn.closed {
        CloseStep::Done(Err(Error::Closed))
    } else {
        CloseStep::CancelTasks
    }
}

/// What closing does after `event`.
pub open spec fn close_event<E>(event: CloseEvent<E>) -> CloseStep<E> {
    match event {
        CloseEvent::TasksCancelled => CloseStep::JoinReader,
        CloseEvent::ReaderJoined => CloseStep::JoinCleanup,
        CloseEvent::CleanupJoined => CloseStep::CloseInner,
        CloseEvent::InnerClosed(Ok(())) => CloseStep::Done(Ok(())),
        CloseEvent::InnerClosed(Err(e)) => CloseStep::Done(Err(Error::Inner(e))),
    }
}

impl EncryptedPacketConn {
    /// Close the connection: the first step of the call. From here on the connection
    /// counts as closed.
    pub fn close<E>(&mut self) -> (step: CloseStep<E>)
        ensures
            step == close_start::<E>(old(self)@),
            final(self)@ == old(self)@.as_closed(),
            old(self)@.wf() ==> final(self)@.wf(),
    {
        if self.set_closed() {
            CloseStep::CancelTasks
        } else {
            CloseStep::Done(Err(Error::Closed))
        }
    }
}

impl<E> CloseStep<E> {
    /// Go on with closing after `event`.
    pub fn after(event: CloseEvent<E>) -> (step: CloseStep<E>)
        ensures
            step == close_event(event),
    {
        match event {
            CloseEvent::TasksCancelled => CloseStep::JoinReader,
            CloseEvent::ReaderJoined => CloseStep::JoinCleanup,
            CloseEvent::CleanupJoined => CloseStep::CloseInner,
            CloseEvent::InnerClosed(Ok(())) => CloseStep::Done(Ok(())),
            CloseEvent::InnerClosed(Err(e)) => CloseStep::Done(Err(Error::Inner(e))),
        }
    }
}

/// What reports that `step` was done, the inner connection having answered `answer` if
/// it was the step to close it.
pub open spec fn report<E>(step: CloseStep<E>, answer: Result<(), E>) -> CloseEvent<E> {
    match step {
        CloseStep::CancelTasks => CloseEvent::TasksCancelled,
        CloseStep::JoinReader => CloseEvent::ReaderJoined,
        CloseStep::JoinCleanup => CloseEvent::CleanupJoined,
        CloseStep::CloseInner | CloseStep::Done(_) => CloseEvent::InnerClosed(answer),
    }
}

/// The steps of closing from `step` on, at most `n` after it, when each is done and
/// reported and the inner connection answers `answer`.
pub open spec fn close_run<E>(step: CloseStep<E>, answer: Result<(), E>, n: nat) -> Seq<
    CloseStep<E>,
>
    decreases n,
{
    if n == 0 || step is Done {
        seq![step]
    } else {
        seq![step] + close_run(close_event(report(step, answer)), answer, (n - 1) as nat)
    }
}

/// The first `close` stops the tasks, waits for the background reader, then for the
/// cleanup task, and only then closes the inner connection, whose answer it returns.
/// It takes no more steps than these.
pub proof fn law_close_order<E>(conn: ConnState, answer: Result<(), E>, n: nat)
    requires
        !conn.closed,
        n >= 4,
    ensures
        close_run(close_start::<E>(conn), answer, n) == seq![
            CloseStep::CancelTasks,
            CloseStep::JoinReader,
            CloseStep::JoinCleanup,
            CloseStep::CloseInner,
            CloseStep::Done(
                match answer {
                    Ok(()) => Ok(()),
                    Err(e) => Err(Error::Inner(e)),
                },
            ),
        ],
{
    reveal_with_fuel(close_run, 5);
}

/// Once a connection is closed, by a call whose steps may still be under way, every
/// further `close` is refused and changes nothing.
pub proof fn law_second_close_is_refused<E>(conn: ConnState)
    ensures
        close_start::<E>(conn.as_closed()) == CloseStep::<E>::Done(Err(Error::Closed)),
        conn.as_closed().as_closed() == conn.as_closed(),
{
}

/// Closing changes nothing of the connection but that it is closed: messages that are
/// buffered stay buffered.
pub proof fn law_close_keeps_the_rest(conn: ConnState)
    ensures
        conn.as_closed() == (ConnState { closed: true, ..conn }),
        conn.as_closed().closed,
        conn.as_closed().buffer == conn.buffer,
{
}

} // verus!
