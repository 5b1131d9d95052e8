use tcp_balancer::balancer::LoadBalancer;
use tcp_balancer::client::{IoResult, Lifecycle, Probe, Stage, BUFFER_SIZE};
use tcp_balancer::endpoint::Endpoint;
use tcp_balancer::round_robin::{HostManager, RoundRobin};
use tcp_balancer::worker::{Action, Worker};

fn host_a() -> Endpoint {
    Endpoint::v4(127, 0, 0, 1, 9100)
}

fn host_b() -> Endpoint {
    Endpoint::v4(127, 0, 0, 1, 9101)
}

fn peer(n: u16) -> Endpoint {
    Endpoint::v4(127, 0, 0, 1, 50000 + n)
}

/// A balancer with one worker over `hosts`, and one client admitted and
/// adopted under the identifier 1.
fn one_client(hosts: Vec<Endpoint>) -> (LoadBalancer<u8>, Worker) {
    let rr = RoundRobin::new(HostManager::new(hosts)).unwrap();
    let mut lb: LoadBalancer<u8> = LoadBalancer::new(rr, 1, true);
    let mut worker = lb.start().pop().unwrap();
    assert_eq!(lb.add_client(0, peer(1)), 0);
    assert_eq!(worker.absorb(&mut lb), vec![(1, 0)]);
    (lb, worker)
}

/// Runs one forwarding pass in which the client sent `up` bytes and the
/// upstream sent `down` bytes, and returns the bytes that were handed on in
/// each direction.
fn echo_pass(lb: &mut LoadBalancer<u8>, w: &mut Worker, up: usize, down: usize) -> (usize, usize) {
    let mut sent_up = 0;
    let mut sent_down = 0;
    let mut action = w.ready(lb.algorithm_mut(), 1, false, 10);
    loop {
        action = match action {
            Action::ReadClient => {
                let r = if up > 0 { IoResult::Done(up) } else { IoResult::WouldBlock };
                w.transferred(lb.algorithm_mut(), 1, Stage::ClientRead, r, 10)
            }
            Action::WriteUpstream { len } => {
                sent_up += len;
                w.transferred(lb.algorithm_mut(), 1, Stage::UpstreamWrite, IoResult::Done(len), 10)
            }
            Action::ReadUpstream => {
                let r = if down > 0 { IoResult::Done(down) } else { IoResult::WouldBlock };
                w.transferred(lb.algorithm_mut(), 1, Stage::UpstreamRead, r, 10)
            }
            Action::WriteClient { len } => {
                sent_down += len;
                w.transferred(lb.algorithm_mut(), 1, Stage::ClientWrite, IoResult::Done(len), 10)
            }
            Action::Wait => break,
            other => panic!("a pass asked for {:?}", other),
        };
    }
    (sent_up, sent_down)
}

#[test]
fn simple_echo() {
    let (mut lb, mut w) = one_client(vec![host_a()]);
    assert_eq!(
        w.ready(lb.algorithm_mut(), 1, false, 0),
        Action::Connect { target: host_a() }
    );
    assert_eq!(
        w.connect_result(lb.algorithm_mut(), 1, host_a(), true, 0),
        Action::RegisterUpstream
    );
    assert_eq!(w.ready(lb.algorithm_mut(), 1, false, 1), Action::ProbeUpstream);
    assert_eq!(
        w.probed(lb.algorithm_mut(), 1, Probe::Connected, 1),
        Action::ReadClient
    );
    // the client's five bytes go up
    assert_eq!(
        w.transferred(lb.algorithm_mut(), 1, Stage::ClientRead, IoResult::Done(5), 1),
        Action::WriteUpstream { len: 5 }
    );
    assert_eq!(
        w.transferred(lb.algorithm_mut(), 1, Stage::UpstreamWrite, IoResult::Done(5), 1),
        Action::ReadUpstream
    );
    assert_eq!(
        w.transferred(lb.algorithm_mut(), 1, Stage::UpstreamRead, IoResult::WouldBlock, 1),
        Action::Wait
    );
    // the echo comes down
    assert_eq!(echo_pass(&mut lb, &mut w, 0, 5), (0, 5));
    // the client closes
    assert_eq!(w.ready(lb.algorithm_mut(), 1, false, 3), Action::ReadClient);
    assert_eq!(
        w.transferred(lb.algorithm_mut(), 1, Stage::ClientRead, IoResult::Done(0), 3),
        Action::Shutdown
    );
    assert_eq!(w.reap(&mut lb), vec![1]);
    assert_eq!(lb.client_count(0), 0);
    assert_eq!(lb.algorithm_mut().consecutive_errors(host_a()), 0);
    assert!(!lb.algorithm_mut().is_on_cooldown(host_a(), 3));
}

#[test]
fn upstream_down_one_alternate_up() {
    let (mut lb, mut w) = one_client(vec![host_a(), host_b()]);
    assert_eq!(
        w.ready(lb.algorithm_mut(), 1, false, 0),
        Action::Connect { target: host_a() }
    );
    assert_eq!(
        w.connect_result(lb.algorithm_mut(), 1, host_a(), true, 0),
        Action::RegisterUpstream
    );
    // host A refuses
    assert_eq!(w.ready(lb.algorithm_mut(), 1, false, 1), Action::ProbeUpstream);
    assert_eq!(
        w.probed(lb.algorithm_mut(), 1, Probe::Failed, 1),
        Action::DropUpstream
    );
    assert!(lb.algorithm_mut().is_on_cooldown(host_a(), 1));
    assert_eq!(lb.algorithm_mut().consecutive_errors(host_a()), 1);
    // the next selection yields host B
    assert_eq!(
        w.ready(lb.algorithm_mut(), 1, false, 2),
        Action::Connect { target: host_b() }
    );
    assert_eq!(
        w.connect_result(lb.algorithm_mut(), 1, host_b(), true, 2),
        Action::RegisterUpstream
    );
    assert_eq!(
        w.probed(lb.algorithm_mut(), 1, Probe::Connected, 3),
        Action::ReadClient
    );
    // one byte goes up and comes back
    assert_eq!(
        w.transferred(lb.algorithm_mut(), 1, Stage::ClientRead, IoResult::Done(1), 3),
        Action::WriteUpstream { len: 1 }
    );
    assert_eq!(
        w.transferred(lb.algorithm_mut(), 1, Stage::UpstreamWrite, IoResult::Done(1), 3),
        Action::ReadUpstream
    );
    assert_eq!(
        w.transferred(lb.algorithm_mut(), 1, Stage::UpstreamRead, IoResult::Done(1), 3),
        Action::WriteClient { len: 1 }
    );
    assert_eq!(
        w.transferred(lb.algorithm_mut(), 1, Stage::ClientWrite, IoResult::Done(1), 3),
        Action::Wait
    );
    assert!(lb.algorithm_mut().is_on_cooldown(host_a(), 3));
    assert_eq!(lb.algorithm_mut().consecutive_errors(host_a()), 1);
    assert_eq!(lb.algorithm_mut().consecutive_errors(host_b()), 0);
    assert_eq!(w.client(1).unwrap().get_target_addr(), Some(host_b()));
}

#[test]
fn all_upstreams_down() {
    let (mut lb, mut w) = one_client(vec![host_a(), host_b()]);
    let mut now = 0;
    let mut targets = Vec::new();
    for _ in 0..6 {
        let target = match w.ready(lb.algorithm_mut(), 1, false, now) {
            Action::Connect { target } => target,
            other => panic!("expected a connect, got {:?}", other),
        };
        targets.push(target);
        assert_eq!(
            w.connect_result(lb.algorithm_mut(), 1, target, true, now),
            Action::RegisterUpstream
        );
        now += 10;
        assert_eq!(
            w.probed(lb.algorithm_mut(), 1, Probe::Failed, now),
            Action::DropUpstream
        );
        assert_eq!(w.client(1).unwrap().state(), Lifecycle::Idle);
        if targets.len() == 2 {
            // both were tried once, well within two connect timeouts
            assert!(now <= 800);
            assert!(lb.algorithm_mut().is_on_cooldown(host_a(), now));
            assert!(lb.algorithm_mut().is_on_cooldown(host_b(), now));
            assert_eq!(lb.algorithm_mut().consecutive_errors(host_a()), 1);
            assert_eq!(lb.algorithm_mut().consecutive_errors(host_b()), 1);
        }
        now += 10;
    }
    assert_eq!(targets[0], host_a());
    assert_eq!(targets[1], host_b());
    assert!(w.client(1).unwrap().is_client_connected());
    assert!(w.reap(&mut lb).is_empty());
    assert_eq!(lb.client_count(0), 1);
    // the client goes away
    assert_eq!(w.ready(lb.algorithm_mut(), 1, true, now), Action::Shutdown);
    assert_eq!(w.reap(&mut lb), vec![1]);
    assert_eq!(lb.client_count(0), 0);
}

#[test]
fn upstream_connect_stalls() {
    let (mut lb, mut w) = one_client(vec![host_a(), host_b()]);
    // a second client on the same worker
    lb.add_client(1, peer(2));
    assert_eq!(w.absorb(&mut lb), vec![(2, 1)]);
    assert_eq!(
        w.ready(lb.algorithm_mut(), 1, false, 0),
        Action::Connect { target: host_a() }
    );
    assert_eq!(
        w.connect_result(lb.algorithm_mut(), 1, host_a(), true, 0),
        Action::RegisterUpstream
    );
    // while the connect to host A stalls, the other client is served
    assert_eq!(
        w.ready(lb.algorithm_mut(), 2, false, 100),
        Action::Connect { target: host_b() }
    );
    assert_eq!(
        w.connect_result(lb.algorithm_mut(), 2, host_b(), true, 100),
        Action::RegisterUpstream
    );
    assert_eq!(
        w.probed(lb.algorithm_mut(), 2, Probe::Connected, 120),
        Action::ReadClient
    );
    assert_eq!(
        w.transferred(lb.algorithm_mut(), 2, Stage::ClientRead, IoResult::WouldBlock, 120),
        Action::ReadUpstream
    );
    assert_eq!(
        w.transferred(lb.algorithm_mut(), 2, Stage::UpstreamRead, IoResult::WouldBlock, 120),
        Action::Wait
    );
    for now in [0u64, 100, 200, 399] {
        assert_eq!(w.tick(lb.algorithm_mut(), 1, now), Action::Wait);
        assert_eq!(w.tick(lb.algorithm_mut(), 2, now), Action::Wait);
    }
    assert_eq!(w.client(1).unwrap().state(), Lifecycle::Connecting);
    assert_eq!(w.tick(lb.algorithm_mut(), 1, 400), Action::DropUpstream);
    assert_eq!(w.tick(lb.algorithm_mut(), 2, 400), Action::Wait);
    assert_eq!(w.client(1).unwrap().state(), Lifecycle::Idle);
    assert_eq!(w.client(2).unwrap().state(), Lifecycle::Established);
    // the error was reported once for this attempt
    for now in [401u64, 500, 1000] {
        assert_eq!(w.tick(lb.algorithm_mut(), 1, now), Action::Wait);
    }
    assert_eq!(lb.algorithm_mut().consecutive_errors(host_a()), 1);
    assert_eq!(lb.algorithm_mut().consecutive_errors(host_b()), 0);
    assert!(lb.algorithm_mut().is_on_cooldown(host_a(), 899));
    assert!(!lb.algorithm_mut().is_on_cooldown(host_a(), 900));
}

#[test]
fn large_transfer() {
    let (mut lb, mut w) = one_client(vec![host_a()]);
    let target = match w.ready(lb.algorithm_mut(), 1, false, 0) {
        Action::Connect { target } => target,
        other => panic!("expected a connect, got {:?}", other),
    };
    w.connect_result(lb.algorithm_mut(), 1, target, true, 0);
    assert_eq!(
        w.probed(lb.algorithm_mut(), 1, Probe::Connected, 1),
        Action::ReadClient
    );
    assert_eq!(
        w.transferred(lb.algorithm_mut(), 1, Stage::ClientRead, IoResult::WouldBlock, 1),
        Action::ReadUpstream
    );
    assert_eq!(
        w.transferred(lb.algorithm_mut(), 1, Stage::UpstreamRead, IoResult::WouldBlock, 1),
        Action::Wait
    );
    let total: usize = 16 * 1024 * 1024;
    let mut up = 0;
    let mut down = 0;
    // the first pass carries a chunk up, each later one carries one up and
    // the echo of the one before down, the last carries the last echo down
    let chunks = total / BUFFER_SIZE;
    for pass in 0..=chunks {
        let sends = if pass < chunks { BUFFER_SIZE } else { 0 };
        let echoes = if pass > 0 { BUFFER_SIZE } else { 0 };
        let (u, d) = echo_pass(&mut lb, &mut w, sends, echoes);
        assert_eq!(u, sends);
        assert_eq!(d, echoes);
        up += u;
        down += d;
    }
    assert_eq!(up, total);
    assert_eq!(down, total);
    // a chunk that does not fill the buffer is handed on as it is
    assert_eq!(echo_pass(&mut lb, &mut w, 1, 4095), (1, 4095));
    assert_eq!(w.client(1).unwrap().state(), Lifecycle::Established);
    assert_eq!(lb.algorithm_mut().consecutive_errors(host_a()), 0);
}

#[test]
fn admitted_and_closed_at_once() {
    let (mut lb, mut w) = one_client(vec![host_a(), host_b()]);
    assert_eq!(w.client(1).unwrap().state(), Lifecycle::Idle);
    assert_eq!(w.ready(lb.algorithm_mut(), 1, true, 0), Action::Shutdown);
    let c = w.client(1).unwrap();
    assert_eq!(c.state(), Lifecycle::Dead);
    assert_eq!(c.get_target_addr(), None);
    assert_eq!(c.get_last_target_addr(), None);
    assert_eq!(w.reap(&mut lb), vec![1]);
    assert_eq!(lb.client_count(0), 0);
    // no host was selected: the first host is still the next one
    assert_eq!(lb.algorithm_mut().get_next_host(0), host_a());
}

#[test]
fn a_connect_that_never_completes() {
    let (mut lb, mut w) = one_client(vec![host_a()]);
    assert_eq!(
        w.ready(lb.algorithm_mut(), 1, false, 5000),
        Action::Connect { target: host_a() }
    );
    assert_eq!(
        w.connect_result(lb.algorithm_mut(), 1, host_a(), true, 5000),
        Action::RegisterUpstream
    );
    assert_eq!(w.client(1).unwrap().connect_deadline(), 5400);
    assert_eq!(
        w.probed(lb.algorithm_mut(), 1, Probe::NotConnected, 5399),
        Action::Wait
    );
    assert_eq!(w.tick(lb.algorithm_mut(), 1, 5400), Action::DropUpstream);
    assert_eq!(w.client(1).unwrap().state(), Lifecycle::Idle);
    assert!(lb.algorithm_mut().is_on_cooldown(host_a(), 5400));
    // the only host is handed out again, though it cools down
    assert_eq!(
        w.ready(lb.algorithm_mut(), 1, false, 5401),
        Action::Connect { target: host_a() }
    );
}
