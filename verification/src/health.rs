//! The decisions of a server's health check. The check probes the server
//! every two seconds: it connects, sends a request and reads the answer. A
//! count of failed probes decides when the server leaves the active list and
//! when it comes back.
use vstd::prelude::*;

verus! {

/// The failed probes after which a server is declared unhealthy.
pub const HEALTH_THRESHOLD: u32 = 5;

/// What the health check observed.
#[derive(Clone, Copy, Debug, PartialEq, Eq, Structural)]
pub enum ProbeEvent {
    /// The pause between two probes ended.
    Tick,
    /// The connection to the server was made.
    ConnectOk,
    /// The connection to the server failed.
    ConnectFailed,
    /// The server closed the connection without answering.
    ReadClosed,
    /// The server answered.
    ReadData,
    /// Reading the answer failed.
    ReadFailed,
}

/// What the health check is to do next.
#[derive(Clone, Copy, Debug, PartialEq, Eq, Structural)]
pub enum ProbeAction {
    /// Go on with the probe.
    Proceed,
    /// Declare the server unhealthy and remove it from the active list.
    DeclareUnhealthy,
    /// Declare the server healthy again, then go on.
    DeclareHealthy,
    /// Add the server to the active list (it is healthy), then go on.
    Activate,
    /// Report the failure if the server is active, then wait for the next
    /// probe.
    ReportIfActive,
    /// Report that the server does not respond, then wait for the next probe.
    ReportNotResponding,
}

/// Whether the event counts as a failed probe.
pub open spec fn is_failure(e: ProbeEvent) -> bool {
    e == ProbeEvent::ConnectFailed || e == ProbeEvent::ReadClosed || e == ProbeEvent::ReadFailed
}

/// A successful step lowers the count: from at or above the threshold to just
/// below it, else by one, and not below zero.
pub open spec fn recovered(failed: u32) -> u32 {
    if failed >= HEALTH_THRESHOLD {
        (HEALTH_THRESHOLD - 1) as u32
    } else if failed != 0 {
        (failed - 1) as u32
    } else {
        0
    }
}

/// The count of failed probes after `e`, and what to do.
pub open spec fn probe_step(failed: u32, e: ProbeEvent) -> (u32, ProbeAction) {
    match e {
        ProbeEvent::Tick => if failed == HEALTH_THRESHOLD {
            (failed, ProbeAction::DeclareUnhealthy)
        } else {
            (failed, ProbeAction::Proceed)
        },
        ProbeEvent::ConnectOk => if failed != 0 {
            (recovered(failed), ProbeAction::DeclareHealthy)
        } else {
            (failed, ProbeAction::Activate)
        },
        ProbeEvent::ConnectFailed => ((failed + 1) as u32, ProbeAction::ReportIfActive),
        ProbeEvent::ReadClosed => ((failed + 1) as u32, ProbeAction::ReportNotResponding),
        ProbeEvent::ReadData => (recovered(failed), ProbeAction::Proceed),
        ProbeEvent::ReadFailed => ((failed + 1) as u32, ProbeAction::ReportIfActive),
    }
}

/// The state of one server's health check.
#[derive(Debug)]
pub struct HealthMonitor {
    /// The count of failed probes, lowered by successful ones.
    pub failed: u32,
}

impl HealthMonitor {
    /// A check that has seen no failure.
    pub fn new() -> (m: HealthMonitor)
        ensures
            m.failed == 0,
    {
        HealthMonitor { failed: 0 }
    }

    /// Takes in what the check observed and says what to do next.
    pub fn observe(&mut self, event: ProbeEvent) -> (a: ProbeAction)
        requires
            is_failure(event) ==> old(self).failed < u32::MAX,
        ensures
            (final(self).failed, a) == probe_step(old(self).failed, event),
    {
        match event {
            ProbeEvent::Tick => {
                if self.failed == HEALTH_THRESHOLD {
                    ProbeAction::DeclareUnhealthy
                } else {
                    ProbeAction::Proceed
                }
            },
            ProbeEvent::ConnectOk => {
                if self.failed != 0 {
                    self.failed = recover(self.failed);
                    ProbeAction::DeclareHealthy
                } else {
                    ProbeAction::Activate
                }
            },
            ProbeEvent::ConnectFailed => {
                self.failed = self.failed + 1;
                ProbeAction::ReportIfActive
            },
            ProbeEvent::ReadClosed => {
                self.failed = self.failed + 1;
                ProbeAction::ReportNotResponding
            },
            ProbeEvent::ReadData => {
                self.failed = recover(self.failed);
                ProbeAction::Proceed
            },
            ProbeEvent::ReadFailed => {
                self.failed = self.failed + 1;
                ProbeAction::ReportIfActive
            },
        }
    }
}

fn recover(failed: u32) -> (r: u32)
    ensures
        r == recovered(failed),
{
    if failed >= HEALTH_THRESHOLD {
        HEALTH_THRESHOLD - 1
    } else if failed != 0 {
        failed - 1
    } else {
        0
    }
}

/// The count of failed probes after the events `es`, starting from `failed`.
pub open spec fn run_probe(failed: u32, es: Seq<ProbeEvent>) -> u32
    decreases es.len(),
{
    if es.len() == 0 {
        failed
    } else {
        probe_step(run_probe(failed, es.drop_last()), es.last()).0
    }
}

/// The number of failed probes among the events.
pub open spec fn failures(es: Seq<ProbeEvent>) -> nat
    decreases es.len(),
{
    if es.len() == 0 {
        0
    } else {
        failures(es.drop_last()) + if is_failure(es.last()) {
            1nat
        } else {
            0nat
        }
    }
}

/// While a server only fails, each failed probe adds one to the count and
/// the pauses between probes change nothing.
pub proof fn lemma_failures_accumulate(failed: u32, es: Seq<ProbeEvent>)
    requires
        forall|i: int| 0 <= i < es.len() ==> is_failure(#[trigger] es[i]) || es[i] == ProbeEvent::Tick,
        failed + failures(es) <= u32::MAX,
    ensures
        run_probe(failed, es) == failed + failures(es),
    decreases es.len(),
{
    if es.len() > 0 {
        let t = es.drop_last();
        assert forall|i: int| 0 <= i < t.len() implies is_failure(#[trigger] t[i]) || t[i]
            == ProbeEvent::Tick by {
            assert(t[i] == es[i]);
        }
        lemma_failures_accumulate(failed, t);
        assert(es.last() == es[es.len() - 1]);
    }
}

/// A healthy server that fails as many probes as the threshold is declared
/// unhealthy at the next pause.
pub proof fn lemma_unhealthy_at_threshold(es: Seq<ProbeEvent>)
    requires
        forall|i: int| 0 <= i < es.len() ==> is_failure(#[trigger] es[i]) || es[i] == ProbeEvent::Tick,
        failures(es) == HEALTH_THRESHOLD,
    ensures
        probe_step(run_probe(0, es), ProbeEvent::Tick).1 == ProbeAction::DeclareUnhealthy,
{
    lemma_failures_accumulate(0, es);
}

/// The count of failed probes never exceeds the failures seen (counted from
/// where it started), so a server that starts healthy is not declared
/// unhealthy before it has failed as many probes as the threshold.
pub proof fn lemma_count_bounded_by_failures(failed: u32, es: Seq<ProbeEvent>)
    requires
        failed + failures(es) <= u32::MAX,
    ensures
        run_probe(failed, es) <= failed + failures(es),
        failed == 0 && probe_step(run_probe(failed, es), ProbeEvent::Tick).1
            == ProbeAction::DeclareUnhealthy ==> failures(es) >= HEALTH_THRESHOLD,
    decreases es.len(),
{
    if es.len() > 0 {
        lemma_count_bounded_by_failures(failed, es.drop_last());
    }
}

/// A successful probe (connected, then answered) never raises the count,
/// lowers a positive one, and leaves it below the threshold.
pub proof fn lemma_success_recovers(failed: u32)
    ensures
        ({
            let after = probe_step(probe_step(failed, ProbeEvent::ConnectOk).0, ProbeEvent::ReadData).0;
            &&& after <= failed
            &&& failed > 0 ==> after < failed
            &&& after < HEALTH_THRESHOLD
        }),
{
}

/// A server is declared unhealthy only at a pause with the count at the
/// threshold, and put back into the active list only on a connection made
/// with no failure counted.
pub proof fn lemma_state_changes(failed: u32, e: ProbeEvent)
    ensures
        probe_step(failed, e).1 == ProbeAction::DeclareUnhealthy ==> e == ProbeEvent::Tick
            && failed == HEALTH_THRESHOLD,
        probe_step(failed, e).1 == ProbeAction::Activate ==> e == ProbeEvent::ConnectOk && failed
            == 0,
{
}

} // verus!
