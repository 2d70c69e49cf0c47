//! The decisions of a bridge listener's loop. Each turn the loop waits for one
//! event (the shutdown signal, a bind result, an accepted connection, a received
//! datagram, or a failure of either) and reacts to exactly that event.

use vstd::prelude::*;

use crate::sessions::ClientAddr;

verus! {

/// Where a listener is in its life.
#[derive(Debug, Clone, Copy, PartialEq, Eq, Structural)]
pub enum Phase {
    /// Its sockets are being bound.
    Starting,
    /// It is bound to this port and takes local traffic.
    Listening(u16),
    /// It has stopped, or never started.
    Stopped,
}

/// One event that a listener's loop waits for.
#[derive(Debug, Clone, Copy, PartialEq, Eq, Structural)]
pub enum ListenerEvent {
    /// Its sockets are bound; the port is the one the system assigned.
    Bound(u16),
    /// A socket could not be bound.
    BindFailed,
    /// The bridge's stop signal or the process-wide shutdown fired.
    Shutdown,
    /// A TCP connection was accepted.
    Accepted,
    /// Accepting a connection failed.
    AcceptFailed,
    /// A datagram arrived from this client.
    Datagram(ClientAddr),
    /// Receiving a datagram failed.
    RecvFailed,
}

/// What the loop does in answer.
#[derive(Debug, Clone, Copy, PartialEq, Eq, Structural)]
pub enum ListenerAction {
    /// Report the bound port to the starter, before any traffic is taken.
    ReportPort(u16),
    /// Report the bind failure to the starter and end.
    ReportFailure,
    /// Stop taking traffic and end the loop.
    Exit,
    /// Spawn a forwarding task for the accepted connection.
    Serve,
    /// Hand the datagram to the session of its client.
    Route(ClientAddr),
    /// Log the failure and wait for the next event.
    Continue,
    /// Nothing: the event came at a time it has no meaning.
    Ignore,
}

/// The next phase and the action for one event.
pub open spec fn step_spec(phase: Phase, ev: ListenerEvent) -> (Phase, ListenerAction) {
    match phase {
        Phase::Starting => match ev {
            ListenerEvent::Bound(port) => (Phase::Listening(port), ListenerAction::ReportPort(port)),
            ListenerEvent::BindFailed => (Phase::Stopped, ListenerAction::ReportFailure),
            ListenerEvent::Shutdown => (Phase::Stopped, ListenerAction::Exit),
            _ => (phase, ListenerAction::Ignore),
        },
        Phase::Listening(_) => match ev {
            ListenerEvent::Shutdown => (Phase::Stopped, ListenerAction::Exit),
            ListenerEvent::Accepted => (phase, ListenerAction::Serve),
            ListenerEvent::Datagram(a) => (phase, ListenerAction::Route(a)),
            ListenerEvent::AcceptFailed => (phase, ListenerAction::Continue),
            ListenerEvent::RecvFailed => (phase, ListenerAction::Continue),
            _ => (phase, ListenerAction::Ignore),
        },
        Phase::Stopped => (phase, ListenerAction::Ignore),
    }
}

/// The actions for a run of events, from `phase` on.
pub open spec fn run_actions(phase: Phase, evs: Seq<ListenerEvent>) -> Seq<ListenerAction>
    decreases evs.len(),
{
    if evs.len() == 0 {
        Seq::empty()
    } else {
        let (next, act) = step_spec(phase, evs[0]);
        seq![act] + run_actions(next, evs.subrange(1, evs.len() as int))
    }
}

/// The action takes local traffic.
pub open spec fn takes_traffic(a: ListenerAction) -> bool {
    a is Serve || a is Route
}

/// The state of one listener's loop.
pub struct Listener {
    phase: Phase,
}

impl Listener {
    pub closed spec fn phase(&self) -> Phase {
        self.phase
    }

    /// A listener whose sockets are being bound.
    pub fn new() -> (r: Self)
        ensures
            r.phase() == Phase::Starting,
    {
        Listener { phase: Phase::Starting }
    }

    /// Whether the loop has ended.
    pub fn is_stopped(&self) -> (r: bool)
        ensures
            r == (self.phase() == Phase::Stopped),
    {
        self.phase == Phase::Stopped
    }

    /// The port the listener is bound to, while it listens.
    pub fn port(&self) -> (r: Option<u16>)
        ensures
            match self.phase() {
                Phase::Listening(p) => r == Some(p),
                _ => r is None,
            },
    {
        match self.phase {
            Phase::Listening(p) => Some(p),
            _ => None,
        }
    }

    /// Reacts to one event.
    pub fn on_event(&mut self, ev: ListenerEvent) -> (r: ListenerAction)
        ensures
            (final(self).phase(), r) == step_spec(old(self).phase(), ev),
    {
        let (next, act) = match self.phase {
            Phase::Starting => match ev {
                ListenerEvent::Bound(port) => (Phase::Listening(port), ListenerAction::ReportPort(port)),
                ListenerEvent::BindFailed => (Phase::Stopped, ListenerAction::ReportFailure),
                ListenerEvent::Shutdown => (Phase::Stopped, ListenerAction::Exit),
                _ => (self.phase, ListenerAction::Ignore),
            },
            Phase::Listening(_) => match ev {
                ListenerEvent::Shutdown => (Phase::Stopped, ListenerAction::Exit),
                ListenerEvent::Accepted => (self.phase, ListenerAction::Serve),
                ListenerEvent::Datagram(a) => (self.phase, ListenerAction::Route(a)),
                ListenerEvent::AcceptFailed => (self.phase, ListenerAction::Continue),
                ListenerEvent::RecvFailed => (self.phase, ListenerAction::Continue),
                _ => (self.phase, ListenerAction::Ignore),
            },
            Phase::Stopped => (Phase::Stopped, ListenerAction::Ignore),
        };
        self.phase = next;
        act
    }
}

/// Once a listener has stopped, no event makes it take traffic again.
pub proof fn law_no_traffic_after_stop(evs: Seq<ListenerEvent>)
    ensures
        forall|k: int| 0 <= k < run_actions(Phase::Stopped, evs).len()
            ==> run_actions(Phase::Stopped, evs)[k] == ListenerAction::Ignore,
        run_actions(Phase::Stopped, evs).len() == evs.len(),
    decreases evs.len(),
{
    if evs.len() > 0 {
        law_no_traffic_after_stop(evs.subrange(1, evs.len() as int));
        let rest = run_actions(Phase::Stopped, evs.subrange(1, evs.len() as int));
        assert(run_actions(Phase::Stopped, evs) == seq![ListenerAction::Ignore] + rest);
    }
}

/// A shutdown while listening ends the loop: the shutdown is answered with
/// `Exit`, and no event after it takes traffic.
pub proof fn law_shutdown_stops_traffic(port: u16, before: Seq<ListenerEvent>, after: Seq<ListenerEvent>)
    requires
        forall|k: int| 0 <= k < before.len() ==> !(#[trigger] before[k] is Shutdown),
    ensures
        ({
            let acts = run_actions(Phase::Listening(port), before + seq![ListenerEvent::Shutdown] + after);
            &&& acts.len() == before.len() + 1 + after.len()
            &&& acts[before.len() as int] == ListenerAction::Exit
            &&& forall|k: int| before.len() < k < acts.len() ==> !takes_traffic(#[trigger] acts[k])
        }),
    decreases before.len(),
{
    let evs = before + seq![ListenerEvent::Shutdown] + after;
    if before.len() == 0 {
        assert(evs.subrange(1, evs.len() as int) =~= after);
        law_no_traffic_after_stop(after);
    } else {
        assert(!(before[0] is Shutdown));
        let b1 = before.subrange(1, before.len() as int);
        assert forall|k: int| 0 <= k < b1.len() implies !(#[trigger] b1[k] is Shutdown) by {
            assert(b1[k] == before[k + 1]);
        }
        assert(evs.subrange(1, evs.len() as int) =~= b1 + seq![ListenerEvent::Shutdown] + after);
        assert(evs[0] == before[0]);
        law_shutdown_stops_traffic(port, b1, after);
    }
}

/// A listener takes no traffic before it has reported its bound port: in any run
/// of events from the start, every action that takes traffic comes after a
/// `ReportPort`.
pub proof fn law_port_reported_first(evs: Seq<ListenerEvent>)
    ensures
        forall|j: int| 0 <= j < run_actions(Phase::Starting, evs).len()
            && takes_traffic(#[trigger] run_actions(Phase::Starting, evs)[j])
            ==> exists|i: int| 0 <= i < j && run_actions(Phase::Starting, evs)[i] is ReportPort,
    decreases evs.len(),
{
    if evs.len() > 0 {
        let rest = evs.subrange(1, evs.len() as int);
        let (next, act) = step_spec(Phase::Starting, evs[0]);
        let acts = run_actions(Phase::Starting, evs);
        assert(acts == seq![act] + run_actions(next, rest));
        law_port_reported_first(rest);
        match next {
            Phase::Starting => {
                assert forall|j: int| 0 <= j < acts.len() && takes_traffic(#[trigger] acts[j])
                    implies exists|i: int| 0 <= i < j && acts[i] is ReportPort by {
                    assert(j > 0);
                    assert(acts[j] == run_actions(next, rest)[j - 1]);
                    let i0 = choose|i: int| 0 <= i < j - 1 && run_actions(next, rest)[i] is ReportPort;
                    assert(acts[i0 + 1] == run_actions(next, rest)[i0]);
                }
            },
            Phase::Listening(_) => {
                assert(act is ReportPort);
                assert forall|j: int| 0 <= j < acts.len() && takes_traffic(#[trigger] acts[j])
                    implies exists|i: int| 0 <= i < j && acts[i] is ReportPort by {
                    assert(acts[0] is ReportPort);
                }
            },
            Phase::Stopped => {
                law_no_traffic_after_stop(rest);
                assert forall|j: int| 0 <= j < acts.len() && takes_traffic(#[trigger] acts[j])
                    implies exists|i: int| 0 <= i < j && acts[i] is ReportPort by {
                    assert(j > 0);
                    assert(acts[j] == run_actions(next, rest)[j - 1]);
                }
            },
        }
    }
}

} // verus!
