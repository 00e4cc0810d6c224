use teleop_link::link::{LinkError, ReadState};
use teleop_link::supervisor::{classify_read, CycleOutcome, Supervisor};

#[test]
fn read_results_classify_by_liveness() {
    let ok: Result<ReadState, LinkError> = Ok(ReadState::Message(String::from("ACK\n")));
    assert_eq!(classify_read(&ok), CycleOutcome::ReadMessage);
    let wb: Result<ReadState, LinkError> = Ok(ReadState::WouldBlock);
    assert_eq!(classify_read(&wb), CycleOutcome::ReadWouldBlock);
    let closed: Result<ReadState, LinkError> = Ok(ReadState::Disconnected);
    assert_eq!(classify_read(&closed), CycleOutcome::ReadDisconnected);
    let failed: Result<ReadState, LinkError> = Err(LinkError { detail: String::from("io") });
    assert_eq!(classify_read(&failed), CycleOutcome::ReadFailed);
}

#[test]
fn notification_fires_once_per_edge() {
    // Cycle sequence disconnected -> connected -> connected ->
    // disconnected: exactly two notifications, true then false.
    let mut s = Supervisor::new(2);
    let mut notifications = Vec::new();

    if let Some(v) = s.cycle(CycleOutcome::ConnectOk) {
        notifications.push(v);
    }
    if let Some(v) = s.cycle(CycleOutcome::ReadWouldBlock) {
        notifications.push(v);
    }
    if let Some(v) = s.cycle(CycleOutcome::ReadDisconnected) {
        notifications.push(v);
    }
    if let Some(v) = s.cycle(CycleOutcome::ConnectFailed) {
        notifications.push(v);
    }

    assert_eq!(notifications, vec![true, false]);
}

#[test]
fn failed_attempts_visit_each_endpoint_once() {
    let n = 3;
    let mut s = Supervisor::new(n);
    let mut visited = Vec::new();
    for _ in 0..n {
        visited.push(s.index);
        s.cycle(CycleOutcome::ConnectFailed);
    }
    let mut sorted = visited.clone();
    sorted.sort();
    sorted.dedup();
    assert_eq!(sorted.len(), n);
    assert_eq!(visited, vec![0, 1, 2]);
    // The round then repeats from the start.
    assert_eq!(s.index, 0);
}

#[test]
fn read_probe_keeps_or_clears_the_link() {
    let mut s = Supervisor::new(1);
    s.cycle(CycleOutcome::ConnectOk);
    assert!(s.link_present);
    s.cycle(CycleOutcome::ReadMessage);
    assert!(s.link_present);
    s.cycle(CycleOutcome::ReadWouldBlock);
    assert!(s.link_present);
    s.cycle(CycleOutcome::ReadFailed);
    assert!(!s.link_present);
}

#[test]
fn send_failure_clears_link_and_forces_reconnect() {
    let mut s = Supervisor::new(2);
    assert_eq!(s.cycle(CycleOutcome::ConnectOk), Some(true));
    assert!(s.link_present);

    // A failed best-effort send discards the link and fires the
    // disconnect notification at once.
    let notify = s.send_result(false);
    assert_eq!(notify, Some(false));
    assert!(!s.link_present);

    // The next cycle therefore attempts a fresh connection instead of
    // reusing a stale link.
    s.cycle(CycleOutcome::ConnectOk);
    assert!(s.link_present);
}

#[test]
fn successful_send_changes_nothing() {
    let mut s = Supervisor::new(2);
    s.cycle(CycleOutcome::ConnectOk);
    let notify = s.send_result(true);
    assert_eq!(notify, None);
    assert!(s.link_present);
    assert_eq!(s.index, 0);
}
