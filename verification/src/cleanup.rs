//! The background task that removes expired sessions.
use vstd::prelude::*;

verus! {

/// The seconds between two ticks of the task's timer. The first tick comes at once.
pub const CLEANUP_INTERVAL_SECS: u64 = 30;

/// What the cleanup task met.
#[derive(Clone, Copy, Debug, PartialEq, Eq, Structural)]
pub enum CleanupEvent {
    /// The task was started.
    Started,
    /// The timer ticked.
    Tick,
    /// The session layer removed what had expired.
    CleanedUp,
    /// The connection's background tasks were cancelled.
    Cancelled,
}

/// What the cleanup task needs done next.
#[derive(Clone, Copy, Debug, PartialEq, Eq, Structural)]
pub enum CleanupStep {
    /// Wait for the timer's first tick, which comes at once.
    AwaitFirstTick,
    /// Wait for a tick or for cancellation.
    AwaitTick,
    /// Let the session layer remove expired sessions and buffers.
    CleanupExpired,
    /// End the task.
    Stop,
}

/// The cleanup task: whether the timer's first tick is behind it.
pub struct SessionCleanup {
    ticking: bool,
}

impl View for SessionCleanup {
    type V = bool;

    /// Whether the timer's first tick is behind the task.
    closed spec fn view(&self) -> bool {
        self.ticking
    }
}

/// The cleanup task takes in an event: only the first tick passes without a cleanup.
pub open spec fn cleanup_event(ticking: bool, event: CleanupEvent) -> (bool, CleanupStep) {
    match event {
        CleanupEvent::Started => (false, CleanupStep::AwaitFirstTick),
        CleanupEvent::Tick => (
            true,
            if ticking {
                CleanupStep::CleanupExpired
            } else {
                CleanupStep::AwaitTick
            },
        ),
        CleanupEvent::CleanedUp => (ticking, CleanupStep::AwaitTick),
        CleanupEvent::Cancelled => (ticking, CleanupStep::Stop),
    }
}

impl SessionCleanup {
    /// A cleanup task that has not started yet.
    pub fn new() -> (cleanup: SessionCleanup)
        ensures
            !cleanup@,
    {
        SessionCleanup { ticking: false }
    }

    /// Go on after `event`.
    pub fn step(&mut self, event: CleanupEvent) -> (step: CleanupStep)
        ensures
            (final(self)@, step) == cleanup_event(old(self)@, event),
    {
        match event {
            CleanupEvent::Started => {
                self.ticking = false;
                CleanupStep::AwaitFirstTick
            },
            CleanupEvent::Tick => {
                let was_ticking = self.ticking;
                self.ticking = true;
                if was_ticking {
                    CleanupStep::CleanupExpired
                } else {
                    CleanupStep::AwaitTick
                }
            },
            CleanupEvent::CleanedUp => CleanupStep::AwaitTick,
            CleanupEvent::Cancelled => CleanupStep::Stop,
        }
    }
}

/// The state of the task, and the number of cleanups it has asked for, after it was
/// started and met `ticks` ticks, each cleanup being done before the next tick.
pub open spec fn cleanups_after(ticks: nat) -> (bool, nat)
    decreases ticks,
{
    if ticks == 0 {
        (cleanup_event(false, CleanupEvent::Started).0, 0)
    } else {
        let (ticking, count) = cleanups_after((ticks - 1) as nat);
        let (after, step) = cleanup_event(ticking, CleanupEvent::Tick);
        if step is CleanupExpired {
            (cleanup_event(after, CleanupEvent::CleanedUp).0, count + 1)
        } else {
            (after, count)
        }
    }
}

/// Every tick but the first brings a cleanup. The ticks come `CLEANUP_INTERVAL_SECS`
/// apart and the first at once, so the sessions are cleaned up once per interval, for
/// the first time after one interval.
pub proof fn law_cleanup_on_every_tick_but_the_first(ticks: nat)
    ensures
        cleanups_after(ticks).1 == if ticks == 0 {
            0
        } else {
            (ticks - 1) as nat
        },
        cleanups_after(ticks).0 == (ticks > 0),
    decreases ticks,
{
    if ticks > 0 {
        law_cleanup_on_every_tick_but_the_first((ticks - 1) as nat);
    }
}

/// Starting waits for the first tick, a finished cleanup for the next one, and nothing
/// but cancellation ends the task. Only a tick moves the task past the timer's first one.
pub proof fn law_cleanup_waits_in_between(ticking: bool)
    ensures
        cleanup_event(ticking, CleanupEvent::Started) == (false, CleanupStep::AwaitFirstTick),
        cleanup_event(ticking, CleanupEvent::CleanedUp) == (ticking, CleanupStep::AwaitTick),
        cleanup_event(ticking, CleanupEvent::Cancelled) == (ticking, CleanupStep::Stop),
        !(cleanup_event(ticking, CleanupEvent::Tick).1 is Stop),
        cleanup_event(ticking, CleanupEvent::Tick).0,
        cleanup_event(ticking, CleanupEvent::Tick).1 is CleanupExpired <==> ticking,
        cleanup_event(ticking, CleanupEvent::Tick).1 is AwaitTick <==> !ticking,
{
}

} // verus!
