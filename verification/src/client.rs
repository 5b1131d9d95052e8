use vstd::prelude::*;
use crate::endpoint::Endpoint;

verus! {

/// How long one connect attempt may stay pending, in milliseconds.
pub const CONNECT_TIMEOUT_MS: u64 = 400;

/// The size of the buffer one forwarding pass reads into.
pub const BUFFER_SIZE: usize = 4096;

/// Where a paired connection stands in its life.
#[derive(Clone, Copy, Debug, PartialEq, Eq, Structural)]
pub enum Lifecycle {
    /// The client socket was accepted and no poller knows it yet.
    Fresh,
    /// Registered with a poller, no upstream chosen.
    Idle,
    /// A non-blocking connect to the upstream is pending.
    Connecting,
    /// Both sockets are open and bytes are forwarded.
    Established,
    /// Both sockets are shut down; the entry waits to be removed.
    Dead,
}

/// What a zero-length peek on the upstream socket showed.
#[derive(Clone, Copy, Debug, PartialEq, Eq, Structural)]
pub enum Probe {
    /// The peek returned: the connect has completed.
    Connected,
    /// The socket is not connected yet.
    NotConnected,
    /// The peek failed in another way: the connect did not succeed.
    Failed,
}

impl Probe {
    /// What a look at the upstream socket of a pending connect shows, where
    /// `failed` says that the socket holds a connect error and
    /// `not_connected` that the peek was refused as not connected. An error
    /// on the socket is a failure; without one, any answer to the peek but
    /// "not connected" means that the connect has completed.
    pub open spec fn spec_of(failed: bool, not_connected: bool) -> Probe {
        if failed {
            Probe::Failed
        } else if not_connected {
            Probe::NotConnected
        } else {
            Probe::Connected
        }
    }

    /// Tells what a look at the upstream socket of a pending connect shows.
    pub fn of(failed: bool, not_connected: bool) -> (p: Probe)
        ensures
            p == Self::spec_of(failed, not_connected),
    {
        if failed {
            Probe::Failed
        } else if not_connected {
            Probe::NotConnected
        } else {
            Probe::Connected
        }
    }
}

/// The upstream socket reported a connect failure.
#[derive(Clone, Copy, Debug, PartialEq, Eq, Structural)]
pub enum ProbeError {
    ConnectFailed,
}

/// How one non-blocking read or write ended.
#[derive(Clone, Copy, Debug, PartialEq, Eq, Structural)]
pub enum IoResult {
    /// The call would have blocked: nothing was moved.
    WouldBlock,
    /// The call moved this many bytes; a read of 0 bytes is the end of the
    /// stream.
    Done(usize),
    /// The call failed.
    Failed,
}

/// The four steps of one forwarding pass, in their order.
#[derive(Clone, Copy, Debug, PartialEq, Eq, Structural)]
pub enum Stage {
    ClientRead,
    UpstreamWrite,
    UpstreamRead,
    ClientWrite,
}

/// What follows one step of a forwarding pass.
#[derive(Clone, Copy, Debug, PartialEq, Eq, Structural)]
pub enum Forward {
    /// Write the first `len` bytes of the buffer to the upstream.
    WriteUpstream { len: usize },
    /// Read from the upstream into the buffer.
    ReadUpstream,
    /// Write the first `len` bytes of the buffer to the client.
    WriteClient { len: usize },
    /// The pass is over and the connection lives on.
    Finished,
    /// The pass is over and the connection is dead.
    Closed,
}

/// What a paired connection is: the state of one client and of the upstream
/// it is paired with, if any.
pub struct Pairing {
    pub address: Endpoint,
    pub target: Option<Endpoint>,
    pub state: Lifecycle,
    pub target_registered: bool,
    pub last_target: Option<Endpoint>,
    pub last_target_error: bool,
    pub connect_deadline: u64,
}

/// The instant at which a connect attempt started at `now` expires. It stops
/// at the largest instant the clock can show.
pub open spec fn connect_deadline_from(now: u64) -> u64 {
    if now + CONNECT_TIMEOUT_MS <= u64::MAX {
        (now + CONNECT_TIMEOUT_MS) as u64
    } else {
        u64::MAX
    }
}

impl Pairing {
    /// A connection that was just accepted from `address`.
    pub open spec fn initial(address: Endpoint) -> Pairing {
        Pairing {
            address,
            target: None,
            state: Lifecycle::Fresh,
            target_registered: false,
            last_target: None,
            last_target_error: false,
            connect_deadline: 0,
        }
    }

    /// There is an upstream socket.
    pub open spec fn has_upstream(self) -> bool {
        self.state == Lifecycle::Connecting || self.state == Lifecycle::Established
    }

    /// A connection has an upstream address exactly while it is connecting
    /// or established, and only an upstream it has can be registered.
    pub open spec fn valid(self) -> bool {
        &&& self.has_upstream() <==> self.target.is_some()
        &&& self.target_registered ==> self.target.is_some()
    }

    /// The connection once a poller knows its client socket.
    pub open spec fn registered(self) -> Pairing {
        if self.state == Lifecycle::Fresh {
            Pairing { state: Lifecycle::Idle, ..self }
        } else {
            self
        }
    }

    /// The connection without its upstream. With `errored` the upstream is
    /// remembered as the one that failed last; without, that memory is
    /// cleared. A connecting or established connection becomes idle.
    pub open spec fn target_closed(self, errored: bool) -> Pairing {
        Pairing {
            address: self.address,
            target: None,
            state: if self.has_upstream() {
                Lifecycle::Idle
            } else {
                self.state
            },
            target_registered: false,
            last_target: if errored {
                self.target
            } else {
                None
            },
            last_target_error: errored,
            connect_deadline: self.connect_deadline,
        }
    }

    /// The connection after its client side ended: dead, without an
    /// upstream, and with no upstream remembered as failed. A dead
    /// connection stays as it is.
    pub open spec fn closed(self) -> Pairing {
        if self.state == Lifecycle::Dead {
            self
        } else {
            Pairing { state: Lifecycle::Dead, ..self.target_closed(false) }
        }
    }

    /// The connection after its upstream failed while forwarding: dead, its
    /// upstream remembered as failed.
    pub open spec fn upstream_failed(self) -> Pairing {
        Pairing { state: Lifecycle::Dead, ..self.target_closed(true) }
    }

    /// The connection after a connect to `target` was tried at `now`, where
    /// `started` says whether the connect is under way. Only an idle
    /// connection tries. A connect under way makes it connecting, with no
    /// upstream remembered as failed; one that could not start leaves it
    /// idle, with `target` remembered as failed.
    pub open spec fn connect_attempted(self, target: Endpoint, started: bool, now: u64) -> Pairing {
        if self.state != Lifecycle::Idle {
            self
        } else if started {
            Pairing {
                target: Some(target),
                state: Lifecycle::Connecting,
                connect_deadline: connect_deadline_from(now),
                ..self.target_closed(false)
            }
        } else {
            Pairing {
                last_target: Some(target),
                last_target_error: true,
                ..self.target_closed(false)
            }
        }
    }

    /// The connection after its upstream socket was registered with the
    /// poller, if it has one.
    pub open spec fn target_registered_now(self) -> Pairing {
        if self.has_upstream() {
            Pairing { target_registered: true, ..self }
        } else {
            self
        }
    }

    /// The connection after a peek on the upstream showed `probe`.
    pub open spec fn probed(self, probe: Probe) -> Pairing {
        if probe == Probe::Connected {
            Pairing { state: Lifecycle::Established, ..self }
        } else {
            self
        }
    }

    /// The connect attempt is pending and its deadline has come.
    pub open spec fn connect_expired(self, now: u64) -> bool {
        self.state == Lifecycle::Connecting && now >= self.connect_deadline
    }

    /// The connection after its pending connect was given up: idle, the
    /// upstream remembered as failed. Any other connection stays as it is.
    pub open spec fn connect_aborted(self) -> Pairing {
        if self.state == Lifecycle::Connecting {
            self.target_closed(true)
        } else {
            self
        }
    }

    /// What follows the step `stage` of a forwarding pass that ended with
    /// `result`.
    ///
    /// A read that would block moves nothing, and the pass goes on. A read
    /// of 0 bytes is a clean close by that side. Bytes that were read are
    /// written to the other side, exactly as many as were read. A write that
    /// would block, or that took fewer bytes, counts as done.
    pub open spec fn forward(stage: Stage, result: IoResult) -> Forward {
        match (stage, result) {
            (Stage::ClientRead, IoResult::WouldBlock) => Forward::ReadUpstream,
            (Stage::ClientRead, IoResult::Done(n)) => if n == 0 {
                Forward::Closed
            } else {
                Forward::WriteUpstream { len: n }
            },
            (Stage::UpstreamWrite, IoResult::WouldBlock) => Forward::ReadUpstream,
            (Stage::UpstreamWrite, IoResult::Done(_)) => Forward::ReadUpstream,
            (Stage::UpstreamRead, IoResult::WouldBlock) => Forward::Finished,
            (Stage::UpstreamRead, IoResult::Done(n)) => if n == 0 {
                Forward::Closed
            } else {
                Forward::WriteClient { len: n }
            },
            (Stage::ClientWrite, IoResult::WouldBlock) => Forward::Finished,
            (Stage::ClientWrite, IoResult::Done(_)) => Forward::Finished,
            (_, IoResult::Failed) => Forward::Closed,
        }
    }

    /// The step failed on the upstream side: a read or a write of the
    /// upstream that reported an error. A clean close is no failure.
    pub open spec fn blames_upstream(stage: Stage, result: IoResult) -> bool {
        result == IoResult::Failed && (stage == Stage::UpstreamWrite || stage
            == Stage::UpstreamRead)
    }

    /// The connection after the step `stage` of a forwarding pass ended with
    /// `result`: unchanged while the pass goes on, dead when it closed.
    pub open spec fn forwarded(self, stage: Stage, result: IoResult) -> Pairing {
        if Self::forward(stage, result) != Forward::Closed {
            self
        } else if Self::blames_upstream(stage, result) {
            self.upstream_failed()
        } else {
            self.closed()
        }
    }
}

/// One paired connection: a client and at most one upstream.
#[derive(Clone, Copy, Debug)]
pub struct TcpClient {
    pub address: Endpoint,
    target: Option<Endpoint>,
    state: Lifecycle,
    target_registered: bool,
    last_target: Option<Endpoint>,
    last_target_error: bool,
    connect_deadline: u64,
}

impl View for TcpClient {
    type V = Pairing;

    closed spec fn view(&self) -> Pairing {
        Pairing {
            address: self.address,
            target: self.target,
            state: self.state,
            target_registered: self.target_registered,
            last_target: self.last_target,
            last_target_error: self.last_target_error,
            connect_deadline: self.connect_deadline,
        }
    }
}

impl TcpClient {
    /// A connection for the client that was accepted from `address`.
    pub fn new(address: Endpoint) -> (c: TcpClient)
        ensures
            c@ == Pairing::initial(address),
            c@.valid(),
    {
        TcpClient {
            address,
            target: None,
            state: Lifecycle::Fresh,
            target_registered: false,
            last_target: None,
            last_target_error: false,
            connect_deadline: 0,
        }
    }

    /// Where the connection stands in its life.
    pub fn state(&self) -> (s: Lifecycle)
        ensures
            s == self@.state,
    {
        self.state
    }

    /// The upstream the connection is connecting to or established with.
    pub fn get_target_addr(&self) -> (t: Option<Endpoint>)
        ensures
            t == self@.target,
    {
        self.target
    }

    /// The upstream that failed last, if one is remembered.
    pub fn get_last_target_addr(&self) -> (t: Option<Endpoint>)
        ensures
            t == self@.last_target,
    {
        self.last_target
    }

    /// Whether the last attempt on an upstream ended with an error of that
    /// upstream.
    pub fn last_target_errored(&self) -> (b: bool)
        ensures
            b == self@.last_target_error,
    {
        self.last_target_error
    }

    /// Whether the connection is established.
    pub fn is_connected(&self) -> (b: bool)
        ensures
            b == (self@.state == Lifecycle::Established),
    {
        self.state == Lifecycle::Established
    }

    /// Whether a connect to the upstream is pending.
    pub fn is_connecting(&self) -> (b: bool)
        ensures
            b == (self@.state == Lifecycle::Connecting),
    {
        self.state == Lifecycle::Connecting
    }

    /// Whether the connection is not dead.
    pub fn is_client_connected(&self) -> (b: bool)
        ensures
            b == (self@.state != Lifecycle::Dead),
    {
        self.state != Lifecycle::Dead
    }

    /// Whether the upstream socket is registered with the poller.
    pub fn is_target_registered(&self) -> (b: bool)
        ensures
            b == self@.target_registered,
    {
        self.target_registered
    }

    /// The instant at which the connect attempt started last expires.
    pub fn connect_deadline(&self) -> (t: u64)
        ensures
            t == self@.connect_deadline,
    {
        self.connect_deadline
    }

    /// Notes that a poller now knows the client socket: a fresh connection
    /// becomes idle.
    pub fn mark_registered(&mut self)
        requires
            old(self)@.valid(),
        ensures
            final(self)@ == old(self)@.registered(),
            final(self)@.valid(),
    {
        if self.state == Lifecycle::Fresh {
            self.state = Lifecycle::Idle;
        }
    }

    /// Notes that the upstream socket is registered with the poller.
    /// Returns `None`, and changes nothing, when there is no upstream socket.
    pub fn register_target_with_poll(&mut self) -> (r: Option<()>)
        requires
            old(self)@.valid(),
        ensures
            r.is_some() <==> old(self)@.has_upstream(),
            final(self)@ == old(self)@.target_registered_now(),
            final(self)@.valid(),
    {
        if self.state == Lifecycle::Connecting || self.state == Lifecycle::Established {
            self.target_registered = true;
            Some(())
        } else {
            None
        }
    }

    /// Takes in the outcome of a connect to `target` that was tried at
    /// `now`. An idle connection whose connect is under way becomes
    /// connecting, with its deadline one connect timeout after `now`, and
    /// the result is true. In every other case the result is false; an idle
    /// connection then stays idle and remembers `target` as failed.
    pub fn connect_to_target(&mut self, target: Endpoint, started: bool, now: u64) -> (r: bool)
        requires
            old(self)@.valid(),
        ensures
            r == (old(self)@.state == Lifecycle::Idle && started),
            final(self)@ == old(self)@.connect_attempted(target, started, now),
            final(self)@.valid(),
    {
        if self.state != Lifecycle::Idle {
            return false;
        }
        self.close_connection_to_target(false);
        if !started {
            self.last_target = Some(target);
            self.last_target_error = true;
            return false;
        }
        self.state = Lifecycle::Connecting;
        self.target = Some(target);
        self.connect_deadline = now.saturating_add(CONNECT_TIMEOUT_MS);
        true
    }

    /// Takes in what a peek on the upstream socket showed. A completed
    /// connect makes the connection established.
    pub fn check_target_connected(&mut self, probe: Probe) -> (r: Result<bool, ProbeError>)
        requires
            old(self)@.valid(),
            old(self)@.has_upstream(),
        ensures
            r == match probe {
                Probe::Connected => Ok::<bool, ProbeError>(true),
                Probe::NotConnected => Ok::<bool, ProbeError>(false),
                Probe::Failed => Err::<bool, ProbeError>(ProbeError::ConnectFailed),
            },
            final(self)@ == old(self)@.probed(probe),
            final(self)@.valid(),
    {
        match probe {
            Probe::Connected => {
                self.set_connected();
                Ok(true)
            },
            Probe::NotConnected => Ok(false),
            Probe::Failed => Err(ProbeError::ConnectFailed),
        }
    }

    /// Makes the connection established.
    fn set_connected(&mut self)
        requires
            old(self)@.valid(),
            old(self)@.has_upstream(),
        ensures
            final(self)@ == (Pairing { state: Lifecycle::Established, ..old(self)@ }),
            final(self)@.valid(),
    {
        self.state = Lifecycle::Established;
    }

    /// Whether a connect is pending and its deadline has come.
    pub fn connect_timed_out(&self, now: u64) -> (b: bool)
        ensures
            b == self@.connect_expired(now),
    {
        self.state == Lifecycle::Connecting && now >= self.connect_deadline
    }

    /// Gives up a pending connect: the connection is idle again and its
    /// upstream is remembered as failed. The result says whether a connect
    /// was pending.
    pub fn abort_connect(&mut self) -> (r: bool)
        requires
            old(self)@.valid(),
        ensures
            r == (old(self)@.state == Lifecycle::Connecting),
            final(self)@ == old(self)@.connect_aborted(),
            final(self)@.valid(),
    {
        if self.state == Lifecycle::Connecting {
            self.close_connection_to_target(true);
            true
        } else {
            false
        }
    }

    /// Takes in how the step `stage` of a forwarding pass ended, and says
    /// what follows.
    pub fn process(&mut self, stage: Stage, result: IoResult) -> (next: Forward)
        requires
            old(self)@.valid(),
            old(self)@.state == Lifecycle::Established,
        ensures
            next == Pairing::forward(stage, result),
            final(self)@ == old(self)@.forwarded(stage, result),
            final(self)@.valid(),
            next == Forward::Closed <==> final(self)@.state == Lifecycle::Dead,
    {
        match result {
            IoResult::Failed => {
                match stage {
                    Stage::UpstreamWrite | Stage::UpstreamRead => {
                        self.close_connection_to_target(true);
                        self.state = Lifecycle::Dead;
                    },
                    Stage::ClientRead | Stage::ClientWrite => {
                        self.close_connection();
                    },
                }
                Forward::Closed
            },
            IoResult::WouldBlock => {
                match stage {
                    Stage::ClientRead | Stage::UpstreamWrite => Forward::ReadUpstream,
                    Stage::UpstreamRead | Stage::ClientWrite => Forward::Finished,
                }
            },
            IoResult::Done(n) => {
                match stage {
                    Stage::ClientRead => {
                        if n == 0 {
                            self.close_connection();
                            Forward::Closed
                        } else {
                            Forward::WriteUpstream { len: n }
                        }
                    },
                    Stage::UpstreamWrite => Forward::ReadUpstream,
                    Stage::UpstreamRead => {
                        if n == 0 {
                            self.close_connection();
                            Forward::Closed
                        } else {
                            Forward::WriteClient { len: n }
                        }
                    },
                    Stage::ClientWrite => Forward::Finished,
                }
            },
        }
    }

    /// Lets go of the upstream. With `target_errored` the upstream is
    /// remembered as the one that failed last; without, that memory is
    /// cleared.
    pub fn close_connection_to_target(&mut self, target_errored: bool)
        requires
            old(self)@.valid(),
        ensures
            final(self)@ == old(self)@.target_closed(target_errored),
            final(self)@.valid(),
    {
        if target_errored {
            self.last_target = self.target;
            self.last_target_error = true;
        } else {
            self.last_target = None;
            self.last_target_error = false;
        }
        self.target = None;
        self.target_registered = false;
        if self.state == Lifecycle::Connecting || self.state == Lifecycle::Established {
            self.state = Lifecycle::Idle;
        }
    }

    /// Ends the connection: it is dead and without an upstream.
    pub fn close_connection(&mut self)
        requires
            old(self)@.valid(),
        ensures
            final(self)@ == old(self)@.closed(),
            final(self)@.valid(),
    {
        if self.state != Lifecycle::Dead {
            self.close_connection_to_target(false);
            self.state = Lifecycle::Dead;
        }
    }
}

} // verus!
