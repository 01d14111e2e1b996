use thanos::health::{HealthMonitor, ProbeAction, ProbeEvent, HEALTH_THRESHOLD};

#[test]
fn five_failures_make_a_server_unhealthy() {
    let mut m = HealthMonitor::new();
    for _ in 0..HEALTH_THRESHOLD {
        assert_eq!(m.observe(ProbeEvent::Tick), ProbeAction::Proceed);
        assert_eq!(m.observe(ProbeEvent::ConnectFailed), ProbeAction::ReportIfActive);
    }
    assert_eq!(m.failed, 5);
    assert_eq!(m.observe(ProbeEvent::Tick), ProbeAction::DeclareUnhealthy);
    assert_eq!(m.observe(ProbeEvent::ReadFailed), ProbeAction::ReportIfActive);
    assert_eq!(m.failed, 6);
    // Past the threshold the server is not declared unhealthy again.
    assert_eq!(m.observe(ProbeEvent::Tick), ProbeAction::Proceed);
}

#[test]
fn recovery_takes_several_good_probes() {
    let mut m = HealthMonitor { failed: 7 };
    assert_eq!(m.observe(ProbeEvent::ConnectOk), ProbeAction::DeclareHealthy);
    assert_eq!(m.failed, 4);
    assert_eq!(m.observe(ProbeEvent::ReadData), ProbeAction::Proceed);
    assert_eq!(m.failed, 3);
    assert_eq!(m.observe(ProbeEvent::ConnectOk), ProbeAction::DeclareHealthy);
    assert_eq!(m.observe(ProbeEvent::ReadData), ProbeAction::Proceed);
    assert_eq!(m.failed, 1);
    assert_eq!(m.observe(ProbeEvent::ConnectOk), ProbeAction::DeclareHealthy);
    assert_eq!(m.failed, 0);
    assert_eq!(m.observe(ProbeEvent::ReadData), ProbeAction::Proceed);
    assert_eq!(m.failed, 0);
    assert_eq!(m.observe(ProbeEvent::ConnectOk), ProbeAction::Activate);
}

#[test]
fn a_closed_connection_counts_as_failure() {
    let mut m = HealthMonitor::new();
    assert_eq!(m.observe(ProbeEvent::ConnectOk), ProbeAction::Activate);
    assert_eq!(m.observe(ProbeEvent::ReadClosed), ProbeAction::ReportNotResponding);
    assert_eq!(m.failed, 1);
}
