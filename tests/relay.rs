use relayer::relay::{Direction, ReadOutcome, Relay, RelayAction, RelayResult};

#[test]
fn relay_counts_each_direction() {
    let mut r = Relay::new();
    assert_eq!(r.on_read(Direction::ClientToRemote, ReadOutcome::Data(10)), RelayAction::Forward);
    assert_eq!(r.on_read(Direction::RemoteToClient, ReadOutcome::Data(300)), RelayAction::Forward);
    assert_eq!(r.on_read(Direction::RemoteToClient, ReadOutcome::Data(200)), RelayAction::Forward);
    assert_eq!(r.on_read(Direction::ClientToRemote, ReadOutcome::Data(5)), RelayAction::Forward);
    assert_eq!(
        r.result(),
        RelayResult { bytes_client_to_remote: 15, bytes_remote_to_client: 500 }
    );
}

#[test]
fn relay_order_does_not_matter() {
    let mut a = Relay::new();
    let mut b = Relay::new();
    a.on_read(Direction::ClientToRemote, ReadOutcome::Data(7));
    a.on_read(Direction::ClientToRemote, ReadOutcome::Data(3));
    a.on_read(Direction::RemoteToClient, ReadOutcome::Data(4));
    b.on_read(Direction::RemoteToClient, ReadOutcome::Data(4));
    b.on_read(Direction::ClientToRemote, ReadOutcome::Data(3));
    b.on_read(Direction::ClientToRemote, ReadOutcome::Data(7));
    assert_eq!(a.result(), b.result());
    assert_eq!(a.result(), RelayResult { bytes_client_to_remote: 10, bytes_remote_to_client: 4 });
}

#[test]
fn relay_end_of_stream_shuts_down_both() {
    let mut r = Relay::new();
    r.on_read(Direction::ClientToRemote, ReadOutcome::Data(8));
    assert_eq!(r.on_read(Direction::RemoteToClient, ReadOutcome::Data(0)), RelayAction::Shutdown);
    assert_eq!(r.on_read(Direction::ClientToRemote, ReadOutcome::Data(8)), RelayAction::Shutdown);
    assert_eq!(r.result(), RelayResult { bytes_client_to_remote: 8, bytes_remote_to_client: 0 });
}

#[test]
fn relay_failure_shuts_down_both() {
    let mut r = Relay::new();
    assert_eq!(r.on_read(Direction::ClientToRemote, ReadOutcome::Failed), RelayAction::Shutdown);
    assert_eq!(r.on_read(Direction::RemoteToClient, ReadOutcome::Data(3)), RelayAction::Shutdown);
    assert!(!r.open);
}

#[test]
fn relay_counts_saturate() {
    let mut r = Relay::new();
    r.on_read(Direction::ClientToRemote, ReadOutcome::Data(u64::MAX - 1));
    r.on_read(Direction::ClientToRemote, ReadOutcome::Data(5));
    assert_eq!(r.result().bytes_client_to_remote, u64::MAX);
}
