use tcp_balancer::client::{
    Forward, IoResult, Lifecycle, Probe, ProbeError, Stage, TcpClient, BUFFER_SIZE,
    CONNECT_TIMEOUT_MS,
};
use tcp_balancer::endpoint::Endpoint;

fn peer() -> Endpoint {
    Endpoint::v4(192, 168, 1, 7, 50123)
}

fn upstream() -> Endpoint {
    Endpoint::v4(127, 0, 0, 1, 9100)
}

fn idle() -> TcpClient {
    let mut c = TcpClient::new(peer());
    c.mark_registered();
    c
}

fn connecting(now: u64) -> TcpClient {
    let mut c = idle();
    assert!(c.connect_to_target(upstream(), true, now));
    c
}

fn established() -> TcpClient {
    let mut c = connecting(0);
    assert_eq!(c.register_target_with_poll(), Some(()));
    assert_eq!(c.check_target_connected(Probe::Connected), Ok(true));
    c
}

#[test]
fn reference_values() {
    assert_eq!(CONNECT_TIMEOUT_MS, 400);
    assert_eq!(BUFFER_SIZE, 4096);
}

#[test]
fn a_new_connection_is_fresh() {
    let c = TcpClient::new(peer());
    assert_eq!(c.address, peer());
    assert_eq!(c.state(), Lifecycle::Fresh);
    assert_eq!(c.get_target_addr(), None);
    assert_eq!(c.get_last_target_addr(), None);
    assert!(!c.last_target_errored());
    assert!(!c.is_connected());
    assert!(!c.is_connecting());
    assert!(c.is_client_connected());
    assert!(!c.is_target_registered());
}

#[test]
fn registration_makes_a_fresh_connection_idle() {
    let mut c = TcpClient::new(peer());
    c.mark_registered();
    assert_eq!(c.state(), Lifecycle::Idle);
    c.mark_registered();
    assert_eq!(c.state(), Lifecycle::Idle);
}

#[test]
fn registration_leaves_other_states() {
    let mut c = connecting(0);
    c.mark_registered();
    assert_eq!(c.state(), Lifecycle::Connecting);
    let mut d = idle();
    d.close_connection();
    d.mark_registered();
    assert_eq!(d.state(), Lifecycle::Dead);
}

#[test]
fn a_started_connect_makes_the_connection_connecting() {
    let mut c = idle();
    assert!(c.connect_to_target(upstream(), true, 1000));
    assert_eq!(c.state(), Lifecycle::Connecting);
    assert!(c.is_connecting());
    assert!(!c.is_connected());
    assert_eq!(c.get_target_addr(), Some(upstream()));
    assert_eq!(c.connect_deadline(), 1400);
    assert_eq!(c.get_last_target_addr(), None);
    assert!(!c.last_target_errored());
}

#[test]
fn the_connect_deadline_stops_at_the_end_of_the_clock() {
    let mut c = idle();
    assert!(c.connect_to_target(upstream(), true, u64::MAX - 5));
    assert_eq!(c.connect_deadline(), u64::MAX);
}

#[test]
fn a_connect_that_did_not_start_leaves_the_connection_idle() {
    let mut c = idle();
    assert!(!c.connect_to_target(upstream(), false, 1000));
    assert_eq!(c.state(), Lifecycle::Idle);
    assert_eq!(c.get_target_addr(), None);
    assert_eq!(c.get_last_target_addr(), Some(upstream()));
    assert!(c.last_target_errored());
}

#[test]
fn a_started_connect_forgets_the_last_failure() {
    let mut c = idle();
    assert!(!c.connect_to_target(upstream(), false, 0));
    let other = Endpoint::v4(127, 0, 0, 1, 9101);
    assert!(c.connect_to_target(other, true, 10));
    assert_eq!(c.get_target_addr(), Some(other));
    assert_eq!(c.get_last_target_addr(), None);
    assert!(!c.last_target_errored());
}

#[test]
fn only_an_idle_connection_connects() {
    let mut fresh = TcpClient::new(peer());
    assert!(!fresh.connect_to_target(upstream(), true, 0));
    assert_eq!(fresh.state(), Lifecycle::Fresh);

    let mut busy = connecting(0);
    let other = Endpoint::v4(127, 0, 0, 1, 9101);
    assert!(!busy.connect_to_target(other, true, 50));
    assert_eq!(busy.state(), Lifecycle::Connecting);
    assert_eq!(busy.get_target_addr(), Some(upstream()));
    assert_eq!(busy.connect_deadline(), 400);

    let mut up = established();
    assert!(!up.connect_to_target(other, true, 50));
    assert_eq!(up.state(), Lifecycle::Established);
    assert_eq!(up.get_target_addr(), Some(upstream()));

    let mut dead = idle();
    dead.close_connection();
    assert!(!dead.connect_to_target(upstream(), true, 0));
    assert_eq!(dead.state(), Lifecycle::Dead);
}

#[test]
fn the_upstream_is_registered_only_where_there_is_one() {
    let mut c = idle();
    assert_eq!(c.register_target_with_poll(), None);
    assert!(!c.is_target_registered());
    let mut d = connecting(0);
    assert_eq!(d.register_target_with_poll(), Some(()));
    assert!(d.is_target_registered());
}

#[test]
fn a_completed_connect_establishes() {
    let mut c = connecting(0);
    assert_eq!(c.check_target_connected(Probe::Connected), Ok(true));
    assert_eq!(c.state(), Lifecycle::Established);
    assert!(c.is_connected());
    assert!(!c.is_connecting());
    assert_eq!(c.get_target_addr(), Some(upstream()));
}

#[test]
fn a_pending_connect_stays_pending() {
    let mut c = connecting(0);
    assert_eq!(c.check_target_connected(Probe::NotConnected), Ok(false));
    assert_eq!(c.state(), Lifecycle::Connecting);
}

#[test]
fn a_failed_peek_is_an_error() {
    let mut c = connecting(0);
    assert_eq!(
        c.check_target_connected(Probe::Failed),
        Err(ProbeError::ConnectFailed)
    );
    assert_eq!(c.state(), Lifecycle::Connecting);
}

#[test]
fn the_connect_times_out_at_its_deadline() {
    let c = connecting(1000);
    assert!(!c.connect_timed_out(1000));
    assert!(!c.connect_timed_out(1399));
    assert!(c.connect_timed_out(1400));
    assert!(c.connect_timed_out(5000));
    assert!(!idle().connect_timed_out(5000));
    assert!(!established().connect_timed_out(5000));
}

#[test]
fn an_aborted_connect_returns_to_idle_and_blames_the_upstream() {
    let mut c = connecting(0);
    c.register_target_with_poll();
    assert!(c.abort_connect());
    assert_eq!(c.state(), Lifecycle::Idle);
    assert_eq!(c.get_target_addr(), None);
    assert_eq!(c.get_last_target_addr(), Some(upstream()));
    assert!(c.last_target_errored());
    assert!(!c.is_target_registered());
    assert!(c.is_client_connected());
}

#[test]
fn abort_changes_nothing_where_no_connect_is_pending() {
    let mut c = established();
    assert!(!c.abort_connect());
    assert_eq!(c.state(), Lifecycle::Established);
    let mut d = idle();
    assert!(!d.abort_connect());
    assert_eq!(d.state(), Lifecycle::Idle);
    assert!(!d.last_target_errored());
}

#[test]
fn a_client_read_that_would_block_goes_on_to_the_upstream() {
    let mut c = established();
    assert_eq!(
        c.process(Stage::ClientRead, IoResult::WouldBlock),
        Forward::ReadUpstream
    );
    assert_eq!(c.state(), Lifecycle::Established);
}

#[test]
fn bytes_read_from_the_client_are_written_to_the_upstream() {
    let mut c = established();
    assert_eq!(
        c.process(Stage::ClientRead, IoResult::Done(5)),
        Forward::WriteUpstream { len: 5 }
    );
    assert_eq!(
        c.process(Stage::ClientRead, IoResult::Done(4096)),
        Forward::WriteUpstream { len: 4096 }
    );
    assert_eq!(
        c.process(Stage::ClientRead, IoResult::Done(1)),
        Forward::WriteUpstream { len: 1 }
    );
    assert_eq!(c.state(), Lifecycle::Established);
}

#[test]
fn a_client_that_closed_ends_the_connection() {
    let mut c = established();
    assert_eq!(
        c.process(Stage::ClientRead, IoResult::Done(0)),
        Forward::Closed
    );
    assert_eq!(c.state(), Lifecycle::Dead);
    assert!(!c.is_client_connected());
    assert_eq!(c.get_target_addr(), None);
    assert_eq!(c.get_last_target_addr(), None);
    assert!(!c.last_target_errored());
}

#[test]
fn a_client_read_error_ends_the_connection_without_blame() {
    let mut c = established();
    assert_eq!(
        c.process(Stage::ClientRead, IoResult::Failed),
        Forward::Closed
    );
    assert_eq!(c.state(), Lifecycle::Dead);
    assert!(!c.last_target_errored());
    assert_eq!(c.get_last_target_addr(), None);
}

#[test]
fn an_upstream_write_goes_on_to_the_upstream_read() {
    let mut c = established();
    assert_eq!(
        c.process(Stage::UpstreamWrite, IoResult::Done(5)),
        Forward::ReadUpstream
    );
    // a short write and one that would block count as done
    assert_eq!(
        c.process(Stage::UpstreamWrite, IoResult::Done(2)),
        Forward::ReadUpstream
    );
    assert_eq!(
        c.process(Stage::UpstreamWrite, IoResult::WouldBlock),
        Forward::ReadUpstream
    );
    assert_eq!(c.state(), Lifecycle::Established);
}

#[test]
fn an_upstream_write_error_ends_the_connection_and_blames_the_upstream() {
    let mut c = established();
    assert_eq!(
        c.process(Stage::UpstreamWrite, IoResult::Failed),
        Forward::Closed
    );
    assert_eq!(c.state(), Lifecycle::Dead);
    assert!(c.last_target_errored());
    assert_eq!(c.get_last_target_addr(), Some(upstream()));
    assert_eq!(c.get_target_addr(), None);
}

#[test]
fn an_upstream_read_that_would_block_ends_the_pass() {
    let mut c = established();
    assert_eq!(
        c.process(Stage::UpstreamRead, IoResult::WouldBlock),
        Forward::Finished
    );
    assert_eq!(c.state(), Lifecycle::Established);
}

#[test]
fn bytes_read_from_the_upstream_are_written_to_the_client() {
    let mut c = established();
    assert_eq!(
        c.process(Stage::UpstreamRead, IoResult::Done(77)),
        Forward::WriteClient { len: 77 }
    );
    assert_eq!(c.state(), Lifecycle::Established);
}

#[test]
fn an_upstream_that_closed_ends_the_connection_without_blame() {
    let mut c = established();
    assert_eq!(
        c.process(Stage::UpstreamRead, IoResult::Done(0)),
        Forward::Closed
    );
    assert_eq!(c.state(), Lifecycle::Dead);
    assert!(!c.last_target_errored());
    assert_eq!(c.get_last_target_addr(), None);
}

#[test]
fn an_upstream_read_error_ends_the_connection_and_blames_the_upstream() {
    let mut c = established();
    assert_eq!(
        c.process(Stage::UpstreamRead, IoResult::Failed),
        Forward::Closed
    );
    assert_eq!(c.state(), Lifecycle::Dead);
    assert!(c.last_target_errored());
    assert_eq!(c.get_last_target_addr(), Some(upstream()));
}

#[test]
fn a_client_write_ends_the_pass() {
    let mut c = established();
    assert_eq!(
        c.process(Stage::ClientWrite, IoResult::Done(77)),
        Forward::Finished
    );
    assert_eq!(
        c.process(Stage::ClientWrite, IoResult::Done(3)),
        Forward::Finished
    );
    assert_eq!(
        c.process(Stage::ClientWrite, IoResult::WouldBlock),
        Forward::Finished
    );
    assert_eq!(c.state(), Lifecycle::Established);
}

#[test]
fn a_client_write_error_ends_the_connection_without_blame() {
    let mut c = established();
    assert_eq!(
        c.process(Stage::ClientWrite, IoResult::Failed),
        Forward::Closed
    );
    assert_eq!(c.state(), Lifecycle::Dead);
    assert!(!c.last_target_errored());
}

#[test]
fn closing_the_upstream_with_an_error_remembers_it() {
    let mut c = established();
    c.close_connection_to_target(true);
    assert_eq!(c.state(), Lifecycle::Idle);
    assert_eq!(c.get_target_addr(), None);
    assert_eq!(c.get_last_target_addr(), Some(upstream()));
    assert!(c.last_target_errored());
    assert!(!c.is_target_registered());
}

#[test]
fn closing_the_upstream_without_an_error_forgets_it() {
    let mut c = established();
    c.close_connection_to_target(false);
    assert_eq!(c.state(), Lifecycle::Idle);
    assert_eq!(c.get_last_target_addr(), None);
    assert!(!c.last_target_errored());
}

#[test]
fn closing_the_connection_is_final() {
    let mut c = connecting(0);
    c.close_connection();
    assert_eq!(c.state(), Lifecycle::Dead);
    assert!(!c.is_client_connected());
    assert!(!c.is_connecting());
    assert_eq!(c.get_target_addr(), None);
    c.close_connection();
    assert_eq!(c.state(), Lifecycle::Dead);
}

#[test]
fn a_dead_connection_keeps_its_blame_when_closed_again() {
    let mut c = established();
    c.process(Stage::UpstreamRead, IoResult::Failed);
    c.close_connection();
    assert_eq!(c.state(), Lifecycle::Dead);
    assert!(c.last_target_errored());
    assert_eq!(c.get_last_target_addr(), Some(upstream()));
}

#[test]
fn a_socket_error_is_a_failed_connect() {
    assert_eq!(Probe::of(true, false), Probe::Failed);
    assert_eq!(Probe::of(true, true), Probe::Failed);
}

#[test]
fn a_peek_refused_as_not_connected_is_a_pending_connect() {
    assert_eq!(Probe::of(false, true), Probe::NotConnected);
}

#[test]
fn any_other_answer_to_the_peek_is_a_completed_connect() {
    assert_eq!(Probe::of(false, false), Probe::Connected);
}
