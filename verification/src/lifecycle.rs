//! The server's lifecycle decisions: what the accept loop does on each
//! poll, when a worker runs another cycle, and what `stop` does to the
//! shared running flag.  The loops themselves, the sockets and the threads
//! live outside the verified crate and only carry these decisions out.

use vstd::prelude::*;

verus! {

/// What one poll of the listening socket reported.
#[derive(Debug, Clone, Copy, PartialEq, Eq, Structural)]
pub enum AcceptEvent {
    /// A new connection arrived.
    Incoming,
    /// Nothing was pending.
    WouldBlock,
    /// The poll itself failed.
    Failed,
}

/// What the accept loop does next.
#[derive(Debug, Clone, Copy, PartialEq, Eq, Structural)]
pub enum ListenerAction {
    /// Hand the new connection to a worker of its own.
    Spawn,
    /// Sleep one poll interval, then poll again.
    Pause,
    /// Note the failure and keep accepting: a poll failure is not fatal.
    Ignore,
    /// Leave the accept loop: the server was stopped.
    Shutdown,
}

/// The decision of one accept-loop iteration, from the running flag as read
/// at the top of the iteration and from what the poll reported.
pub open spec fn listener_decision(running: bool, ev: AcceptEvent) -> ListenerAction {
    if !running {
        ListenerAction::Shutdown
    } else {
        match ev {
            AcceptEvent::Incoming => ListenerAction::Spawn,
            AcceptEvent::WouldBlock => ListenerAction::Pause,
            AcceptEvent::Failed => ListenerAction::Ignore,
        }
    }
}

/// Decides one iteration of the accept loop.  No connection's condition
/// reaches this decision: only the cleared running flag ends the loop, and
/// a failed poll never does.
pub fn listener_step(running: bool, ev: AcceptEvent) -> (a: ListenerAction)
    ensures
        a == listener_decision(running, ev),
{
    if !running {
        ListenerAction::Shutdown
    } else {
        match ev {
            AcceptEvent::Incoming => ListenerAction::Spawn,
            AcceptEvent::WouldBlock => ListenerAction::Pause,
            AcceptEvent::Failed => ListenerAction::Ignore,
        }
    }
}

/// Whether a worker runs one more cycle: only while the server runs and its
/// last cycle found no terminating condition.
pub open spec fn worker_continues(running: bool, cycle_ok: bool) -> bool {
    running && cycle_ok
}

/// Decides whether a worker runs one more cycle on its connection.
pub fn worker_step(running: bool, cycle_ok: bool) -> (c: bool)
    ensures
        c == worker_continues(running, cycle_ok),
{
    running && cycle_ok
}

/// The stop transition on the running flag: the flag afterwards, and
/// whether this call did the stopping.
pub open spec fn stop_transition(running: bool) -> (bool, bool) {
    (false, running)
}

/// Applies `stop` to the running flag as read from the server: the flag is
/// cleared whatever it held, and the caller learns whether this call
/// stopped a running server (to log the transition) or found it already
/// stopped (to warn, not to fail).
pub fn stop_step(running: bool) -> (r: (bool, bool))
    ensures
        r == stop_transition(running),
{
    (false, running)
}

/// Law: `stop` is idempotent and one-way.  A second stop changes nothing
/// and reports a no-op, and no number of stops ever sets the flag again.
pub proof fn lemma_stop_idempotent(running: bool)
    ensures
        stop_transition(stop_transition(running).0).0 == stop_transition(running).0,
        stop_transition(stop_transition(running).0).1 == false,
        stop_transition(running).0 == false,
{
}

/// Law: once the flag is cleared, the accept loop shuts down at its next
/// iteration whatever the poll reports, and every worker stops before its
/// next cycle whatever its last cycle found.
pub proof fn lemma_stop_halts(ev: AcceptEvent, cycle_ok: bool)
    ensures
        listener_decision(stop_transition(true).0, ev) == ListenerAction::Shutdown,
        listener_decision(false, ev) == ListenerAction::Shutdown,
        !worker_continues(false, cycle_ok),
{
}

} // verus!
