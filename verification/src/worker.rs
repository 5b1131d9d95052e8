use vstd::prelude::*;
use std::collections::HashMap;
use crate::balancer::{inbox, Dispatch, LoadBalancer};
use crate::client::{Forward, IoResult, Lifecycle, Pairing, Probe, Stage, TcpClient};
use crate::endpoint::Endpoint;
use crate::round_robin::{Rotation, RoundRobin};

verus! {

broadcast use vstd::std_specs::hash::group_hash_axioms;

/// How long a worker waits on its poller at most, in milliseconds, so that
/// its inbox is drained even when no event comes.
pub const POLL_TIMEOUT_MS: u64 = 10;

/// What the caller does next for one paired connection.
///
/// `Connect`, `ProbeUpstream`, the two reads and the two writes ask for an
/// answer: the caller performs them and hands the outcome to the worker.
/// The others end the handling of the event.
#[derive(Clone, Copy, Debug, PartialEq, Eq, Structural)]
pub enum Action {
    /// No connection has this identifier: nothing is done.
    Ignore,
    /// Nothing is to be done until the next event.
    Wait,
    /// Open a non-blocking connect to `target`.
    Connect { target: Endpoint },
    /// Register the upstream socket with the poller, under the identifier
    /// of the client socket.
    RegisterUpstream,
    /// Peek at the upstream socket to see whether the connect completed.
    ProbeUpstream,
    /// Read from the client into the buffer.
    ReadClient,
    /// Write the first `len` bytes of the buffer to the upstream.
    WriteUpstream { len: usize },
    /// Read from the upstream into the buffer.
    ReadUpstream,
    /// Write the first `len` bytes of the buffer to the client.
    WriteClient { len: usize },
    /// Close the upstream socket; the client socket stays.
    DropUpstream,
    /// Shut down both sockets: the connection is dead.
    Shutdown,
}

/// One step of a paired connection: the connection and the host registry
/// after it, and what the caller does next.
pub struct Step {
    pub client: Pairing,
    pub hosts: Rotation,
    pub action: Action,
}

/// The step that changes nothing and waits.
pub open spec fn stay(c: Pairing, hosts: Rotation) -> Step {
    Step { client: c, hosts, action: Action::Wait }
}

/// The step on a readiness event, where `hangup` says that the event
/// reported the client's end of stream.
///
/// An idle connection whose client hung up dies, and no host is selected.
/// Any other idle connection selects a host and asks for a connect to it.
/// A connecting one asks for a peek at the upstream, an established one
/// starts a forwarding pass, a dead one waits to be removed.
pub open spec fn ready_step(c: Pairing, hosts: Rotation, hangup: bool, now: u64) -> Step {
    match c.state {
        Lifecycle::Idle => if hangup {
            Step { client: c.closed(), hosts, action: Action::Shutdown }
        } else {
            Step {
                client: c,
                hosts: hosts.after_selection(now),
                action: Action::Connect { target: hosts.hosts[hosts.selected(now)].endpoint },
            }
        },
        Lifecycle::Connecting => Step { client: c, hosts, action: Action::ProbeUpstream },
        Lifecycle::Established => Step { client: c, hosts, action: Action::ReadClient },
        Lifecycle::Fresh | Lifecycle::Dead => stay(c, hosts),
    }
}

/// The step on the outcome of a connect to `target`, where `started` says
/// whether the connect is under way.
///
/// A connect under way makes an idle connection connecting, and its
/// upstream socket is to be registered. One that could not start is
/// reported as an error of `target`, and the connection stays idle.
pub open spec fn connect_step(
    c: Pairing,
    hosts: Rotation,
    target: Endpoint,
    started: bool,
    now: u64,
) -> Step {
    if c.state != Lifecycle::Idle {
        stay(c, hosts)
    } else if started {
        Step {
            client: c.connect_attempted(target, true, now).target_registered_now(),
            hosts,
            action: Action::RegisterUpstream,
        }
    } else {
        Step {
            client: c.connect_attempted(target, false, now),
            hosts: hosts.after_error(target, now),
            action: Action::Wait,
        }
    }
}

/// The step that gives up a pending connect: the connection is idle again,
/// its upstream is reported as failed, and the upstream socket is closed.
pub open spec fn give_up_step(c: Pairing, hosts: Rotation, now: u64) -> Step {
    Step {
        client: c.connect_aborted(),
        hosts: hosts.after_error(c.target.unwrap(), now),
        action: Action::DropUpstream,
    }
}

/// The step on what a peek at the upstream of a connecting connection
/// showed.
///
/// A completed connect makes the connection established; a success is
/// reported for its host if that host was cooling down, and a forwarding
/// pass starts. A failed connect is given up. One that is still pending is
/// given up once its deadline has come, and waits before.
pub open spec fn probe_step(c: Pairing, hosts: Rotation, probe: Probe, now: u64) -> Step {
    if c.state != Lifecycle::Connecting {
        stay(c, hosts)
    } else {
        match probe {
            Probe::Connected => Step {
                client: c.probed(Probe::Connected),
                hosts: if hosts.on_cooldown(c.target.unwrap(), now) {
                    hosts.after_success(c.target.unwrap())
                } else {
                    hosts
                },
                action: Action::ReadClient,
            },
            Probe::NotConnected => if c.connect_expired(now) {
                give_up_step(c, hosts, now)
            } else {
                stay(c, hosts)
            },
            Probe::Failed => give_up_step(c, hosts, now),
        }
    }
}

/// What the caller does after a step of a forwarding pass.
pub open spec fn action_of(next: Forward) -> Action {
    match next {
        Forward::WriteUpstream { len } => Action::WriteUpstream { len },
        Forward::ReadUpstream => Action::ReadUpstream,
        Forward::WriteClient { len } => Action::WriteClient { len },
        Forward::Finished => Action::Wait,
        Forward::Closed => Action::Shutdown,
    }
}

/// The step on the outcome `result` of the step `stage` of a forwarding
/// pass of an established connection. An error of the upstream is reported
/// for its host; a clean close and an error of the client are not.
pub open spec fn forward_step(
    c: Pairing,
    hosts: Rotation,
    stage: Stage,
    result: IoResult,
    now: u64,
) -> Step {
    if c.state != Lifecycle::Established {
        stay(c, hosts)
    } else {
        Step {
            client: c.forwarded(stage, result),
            hosts: if Pairing::blames_upstream(stage, result) {
                hosts.after_error(c.target.unwrap(), now)
            } else {
                hosts
            },
            action: action_of(Pairing::forward(stage, result)),
        }
    }
}

/// The step on the passing of time: a pending connect whose deadline has
/// come is given up.
pub open spec fn tick_step(c: Pairing, hosts: Rotation, now: u64) -> Step {
    if c.connect_expired(now) {
        give_up_step(c, hosts, now)
    } else {
        stay(c, hosts)
    }
}

/// What a worker is: its registry of paired connections by identifier, the
/// identifier the next connection gets, and its index among the workers.
pub struct Engine {
    pub registry: Map<usize, Pairing>,
    pub next_id: usize,
    pub index: usize,
}

impl Engine {
    /// A worker that owns no connection yet.
    pub open spec fn initial(index: usize) -> Engine {
        Engine { registry: Map::empty(), next_id: 1, index }
    }

    /// The connection `c` can stand in a registry: it is valid, the poller
    /// knows its client socket, and its upstream socket too if it has one.
    pub open spec fn holds(c: Pairing) -> bool {
        &&& c.valid()
        &&& c.state != Lifecycle::Fresh
        &&& c.has_upstream() ==> c.target_registered
    }

    /// The registry is finite, no connection in it has the identifier 0,
    /// each can stand in it, and the next identifier is neither 0 nor the
    /// largest number.
    pub open spec fn valid(self) -> bool {
        &&& self.registry.dom().finite()
        &&& !self.registry.contains_key(0)
        &&& 1 <= self.next_id < usize::MAX
        &&& forall|id: usize| #[trigger]
            self.registry.contains_key(id) ==> Self::holds(self.registry[id])
    }

    /// The identifier that follows `id`: one more, and 1 where that would be
    /// the largest number, so that 0 is never handed out.
    pub open spec fn next_after(id: usize) -> usize {
        if id + 1 >= usize::MAX {
            1
        } else {
            (id + 1) as usize
        }
    }

    /// The worker after it adopted the connection `c` under its next
    /// identifier.
    pub open spec fn adopted(self, c: Pairing) -> Engine {
        Engine {
            registry: self.registry.insert(self.next_id, c.registered()),
            next_id: Self::next_after(self.next_id),
            index: self.index,
        }
    }

    /// The worker after it adopted all of `inbox`, the last first.
    pub open spec fn absorbed<S>(self, inbox: Seq<(Pairing, S)>) -> Engine
        decreases inbox.len(),
    {
        if inbox.len() == 0 {
            self
        } else {
            self.adopted(inbox.last().0).absorbed(inbox.drop_last())
        }
    }

    /// The identifiers given to the connections of `inbox`, the last first,
    /// each with the client socket of its connection.
    pub open spec fn adoptions<S>(self, inbox: Seq<(Pairing, S)>) -> Seq<(usize, S)>
        decreases inbox.len(),
    {
        if inbox.len() == 0 {
            Seq::empty()
        } else {
            seq![(self.next_id, inbox.last().1)] + self.adopted(inbox.last().0).adoptions(
                inbox.drop_last(),
            )
        }
    }

    /// The worker with the connection under `token` replaced by `c`.
    pub open spec fn stepped(self, token: usize, c: Pairing) -> Engine {
        Engine { registry: self.registry.insert(token, c), ..self }
    }

    /// The identifiers of the dead connections.
    pub open spec fn dead_ids(self) -> Set<usize> {
        Set::new(
            |id: usize| self.registry.contains_key(id) && self.registry[id].state == Lifecycle::Dead,
        )
    }

    /// The identifiers of the connections that are not dead.
    pub open spec fn live_ids(self) -> Set<usize> {
        Set::new(
            |id: usize| self.registry.contains_key(id) && self.registry[id].state != Lifecycle::Dead,
        )
    }

    /// No connection in the registry is dead.
    pub open spec fn settled(self) -> bool {
        forall|id: usize| #[trigger]
            self.registry.contains_key(id) ==> self.registry[id].state != Lifecycle::Dead
    }

    /// The worker without its dead connections.
    pub open spec fn reaped(self) -> Engine {
        Engine { registry: self.registry.remove_keys(self.dead_ids()), ..self }
    }

    /// The load of the worker: the number of connections in its registry.
    pub open spec fn load(self) -> nat {
        self.registry.len()
    }
}

/// The identifier that follows `id`: one more, and 1 where that would be
/// the largest number.
pub fn next_token_after(id: usize) -> (next: usize)
    ensures
        next == Engine::next_after(id),
{
    if id >= usize::MAX - 1 {
        1
    } else {
        id + 1
    }
}

/// Whether a worker, the host registry and the action are what `step` on
/// the connection under `token` makes of them. An identifier that the
/// worker does not hold changes nothing and is ignored.
pub open spec fn follows(
    before: Engine,
    hosts_before: Rotation,
    token: usize,
    step: Step,
    after: Engine,
    hosts_after: Rotation,
    action: Action,
) -> bool {
    if before.registry.contains_key(token) {
        &&& after == before.stepped(token, step.client)
        &&& hosts_after == step.hosts
        &&& action == step.action
    } else {
        &&& after == before
        &&& hosts_after == hosts_before
        &&& action == Action::Ignore
    }
}

/// One worker engine: it owns the paired connections that were handed to
/// it, and steps each through its life as events come in.
pub struct Worker {
    connected_sockets: HashMap<usize, TcpClient>,
    next_token_id: usize,
    client_list_index: usize,
    dead: Vec<usize>,
}

impl View for Worker {
    type V = Engine;

    closed spec fn view(&self) -> Engine {
        Engine {
            registry: Map::new(
                |id: usize| self.connected_sockets@.contains_key(id),
                |id: usize| self.connected_sockets@[id]@,
            ),
            next_id: self.next_token_id,
            index: self.client_list_index,
        }
    }
}

impl Worker {
    /// The invariant of the worker.
    pub closed spec fn wf(&self) -> bool {
        &&& self@.valid()
        &&& forall|id: usize|
            self.connected_sockets@.contains_key(id) && (#[trigger] self.connected_sockets@[id])@.state
                == Lifecycle::Dead ==> self.dead@.contains(id)
    }

    /// A well-formed worker has a valid view.
    pub proof fn lemma_wf_valid(&self)
        requires
            self.wf(),
        ensures
            self@.valid(),
    {
    }

    /// The worker with the index `index`, which owns no connection yet.
    pub fn new(index: usize) -> (w: Worker)
        ensures
            w.wf(),
            w@ == Engine::initial(index),
    {
        let w = Worker {
            connected_sockets: HashMap::new(),
            next_token_id: 1,
            client_list_index: index,
            dead: Vec::new(),
        };
        assert(w@.registry =~= Map::empty());
        w
    }

    /// The index of the worker among the workers.
    pub fn index(&self) -> (i: usize)
        ensures
            i == self@.index,
    {
        self.client_list_index
    }

    /// The number of connections in the registry.
    pub fn load(&self) -> (n: usize)
        requires
            self.wf(),
        ensures
            n == self@.load(),
    {
        proof {
            assert(self@.registry.dom() =~= self.connected_sockets@.dom());
        }
        self.connected_sockets.len()
    }

    /// The connection with the identifier `token`, if the worker holds one.
    pub fn client(&self, token: usize) -> (c: Option<TcpClient>)
        requires
            self.wf(),
        ensures
            c.is_some() == self@.registry.contains_key(token),
            c.is_some() ==> c.unwrap()@ == self@.registry[token] && Engine::holds(c.unwrap()@),
    {
        match self.connected_sockets.get(&token) {
            Some(c) => {
                assert(self@.registry.contains_key(token));
                Some(*c)
            },
            None => None,
        }
    }

    fn store(&mut self, token: usize, client: TcpClient)
        requires
            old(self).wf(),
            old(self)@.registry.contains_key(token),
            Engine::holds(client@),
        ensures
            final(self).wf(),
            final(self)@ == old(self)@.stepped(token, client@),
            final(self)@.load() == old(self)@.load(),
    {
        let ghost before = self.connected_sockets@;
        let ghost dead_before = self.dead@;
        proof {
            old(self)@.lemma_step_keeps_load(token, client@);
        }
        let was = self.connected_sockets.insert(token, client);
        let was_alive = match was {
            Some(c) => c.is_client_connected(),
            None => true,
        };
        if !client.is_client_connected() && was_alive {
            self.dead.push(token);
            assert(self.dead@[dead_before.len() as int] == token);
        }
        proof {
            assert(self@.registry =~= old(self)@.registry.insert(token, client@));
            assert forall|id: usize|
                self.connected_sockets@.contains_key(id) && (
                #[trigger] self.connected_sockets@[id])@.state
                    == Lifecycle::Dead implies self.dead@.contains(id) by {
                if id == token {
                    if was_alive {
                        assert(self.dead@[dead_before.len() as int] == token);
                    } else {
                        assert(before.contains_key(token));
                        assert(before[token]@.state == Lifecycle::Dead);
                        let k = choose|k: int| 0 <= k < dead_before.len() && dead_before[k] == id;
                        assert(self.dead@[k] == id);
                    }
                } else {
                    assert(before.contains_key(id));
                    assert(before[id] == self.connected_sockets@[id]);
                    let k = choose|k: int| 0 <= k < dead_before.len() && dead_before[k] == id;
                    assert(self.dead@[k] == id);
                }
            }
            assert forall|id: usize| #[trigger] self@.registry.contains_key(id) implies Engine::holds(
                self@.registry[id],
            ) by {
                if id != token {
                    assert(old(self)@.registry.contains_key(id));
                }
            }
        }
    }

    /// Adopts the fresh connection `client` under the next identifier and
    /// returns that identifier: the connection is in the registry, and idle.
    pub fn adopt(&mut self, client: TcpClient) -> (token: usize)
        requires
            old(self).wf(),
            client@.valid(),
            client@.state == Lifecycle::Fresh,
        ensures
            final(self).wf(),
            token == old(self)@.next_id,
            final(self)@ == old(self)@.adopted(client@),
    {
        let ghost before = self.connected_sockets@;
        let mut client = client;
        client.mark_registered();
        let token = self.next_token_id;
        self.next_token_id = next_token_after(token);
        self.connected_sockets.insert(token, client);
        proof {
            assert(self@.registry =~= old(self)@.registry.insert(token, client@));
            assert forall|id: usize|
                self.connected_sockets@.contains_key(id) && (
                #[trigger] self.connected_sockets@[id])@.state
                    == Lifecycle::Dead implies self.dead@.contains(id) by {
                assert(before.contains_key(id));
                assert(before[id] == self.connected_sockets@[id]);
            }
            assert forall|id: usize| #[trigger] self@.registry.contains_key(id) implies Engine::holds(
                self@.registry[id],
            ) by {
                if id != token {
                    assert(old(self)@.registry.contains_key(id));
                }
            }
        }
        token
    }

    /// Drains the worker's inbox: every connection that waits there is
    /// adopted, the last first, and the worker's load is published. Returns
    /// the client sockets, each with the identifier to register it under.
    pub fn absorb<S>(&mut self, lb: &mut LoadBalancer<S>) -> (adopted: Vec<(usize, S)>)
        requires
            old(self).wf(),
            old(lb).wf(),
            old(self)@.index < old(lb)@.workers(),
        ensures
            final(self).wf(),
            final(lb).wf(),
            final(self)@ == old(self)@.absorbed(old(lb)@.pending[old(self)@.index as int]),
            adopted@ == old(self)@.adoptions(old(lb)@.pending[old(self)@.index as int]),
            final(lb)@ == (Dispatch {
                pending: old(lb)@.pending.update(old(self)@.index as int, Seq::empty()),
                counts: old(lb)@.counts.update(
                    old(self)@.index as int,
                    final(self)@.load() as usize,
                ),
                ..old(lb)@
            }),
            final(lb)@.counts[final(self)@.index as int] == final(self)@.load(),
    {
        let index = self.client_list_index;
        proof {
            old(lb).lemma_wf_valid();
        }
        let mut pending = lb.take_pending(index);
        let ghost start = self@;
        let ghost waiting = inbox(pending@);
        let mut adopted: Vec<(usize, S)> = Vec::new();
        proof {
            assert forall|j: int| 0 <= j < pending.len() implies (
            #[trigger] pending[j]).client@.valid() && pending[j].client@.state
                == Lifecycle::Fresh by {
                assert(waiting[j] == old(lb)@.pending[index as int][j]);
            }
        }
        while pending.len() > 0
            invariant
                self.wf(),
                self@.index == index,
                forall|j: int|
                    0 <= j < pending.len() ==> (#[trigger] pending[j]).client@.valid()
                        && pending[j].client@.state == Lifecycle::Fresh,
                self@.absorbed(inbox(pending@)) == start.absorbed(waiting),
                adopted@ + self@.adoptions(inbox(pending@)) == start.adoptions(waiting),
            decreases pending.len(),
        {
            let ghost rest = inbox(pending@);
            let ghost engine = self@;
            let ghost so_far = adopted@;
            let p = pending.pop().unwrap();
            proof {
                assert(rest.last() == (p.client@, p.stream));
                assert(rest.drop_last() =~= inbox(pending@));
            }
            let token = self.adopt(p.client);
            adopted.push((token, p.stream));
            proof {
                assert(adopted@ + self@.adoptions(inbox(pending@)) =~= so_far + engine.adoptions(
                    rest,
                ));
            }
        }
        proof {
            assert(inbox(pending@) =~= Seq::<(Pairing, S)>::empty());
            assert(adopted@ + Seq::<(usize, S)>::empty() =~= adopted@);
        }
        let load = self.load();
        lb.publish_load(index, load);
        proof {
            lb.lemma_wf_valid();
        }
        adopted
    }

    /// Removes the dead connections from the registry and publishes the
    /// worker's load. Returns the identifiers that were removed, each once.
    pub fn reap<S>(&mut self, lb: &mut LoadBalancer<S>) -> (gone: Vec<usize>)
        requires
            old(self).wf(),
            old(lb).wf(),
            old(self)@.index < old(lb)@.workers(),
        ensures
            final(self).wf(),
            final(lb).wf(),
            final(self)@ == old(self)@.reaped(),
            final(self)@.settled(),
            gone@.no_duplicates(),
            gone@.to_set() == old(self)@.dead_ids(),
            final(lb)@ == (Dispatch {
                counts: old(lb)@.counts.update(
                    old(self)@.index as int,
                    final(self)@.load() as usize,
                ),
                ..old(lb)@
            }),
            final(lb)@.counts[final(self)@.index as int] == final(self)@.load(),
    {
        let ghost before = self.connected_sockets@;
        let mut gone: Vec<usize> = Vec::new();
        while self.dead.len() > 0
            invariant
                self@.valid(),
                self.next_token_id == old(self).next_token_id,
                self.client_list_index == old(self).client_list_index,
                before == old(self).connected_sockets@,
                forall|id: usize| #[trigger]
                    self.connected_sockets@.contains_key(id) ==> before.contains_key(id)
                        && before[id] == self.connected_sockets@[id],
                forall|id: usize|
                    #[trigger] before.contains_key(id) && !self.connected_sockets@.contains_key(id)
                        ==> before[id]@.state == Lifecycle::Dead && gone@.contains(id),
                forall|id: usize|
                    self.connected_sockets@.contains_key(id) && (
                    #[trigger] self.connected_sockets@[id])@.state == Lifecycle::Dead
                        ==> self.dead@.contains(id),
                forall|k: int|
                    0 <= k < gone.len() ==> before.contains_key(#[trigger] gone[k])
                        && !self.connected_sockets@.contains_key(gone[k]),
                gone@.no_duplicates(),
            decreases self.dead.len(),
        {
            let ghost map_before = self.connected_sockets@;
            let ghost dead_before = self.dead@;
            let ghost gone_before = gone@;
            let id = self.dead.pop().unwrap();
            let is_dead = match self.connected_sockets.get(&id) {
                Some(c) => !c.is_client_connected(),
                None => false,
            };
            if is_dead {
                self.connected_sockets.remove(&id);
                gone.push(id);
                proof {
                    assert(self@.registry =~= Map::new(
                        |k: usize| map_before.contains_key(k),
                        |k: usize| map_before[k]@,
                    ).remove(id));
                    assert forall|k: usize|
                        #[trigger] before.contains_key(k) && !self.connected_sockets@.contains_key(
                            k,
                        ) implies before[k]@.state == Lifecycle::Dead && gone@.contains(k) by {
                        if k == id {
                            assert(gone@[gone_before.len() as int] == id);
                        } else {
                            assert(!map_before.contains_key(k));
                            let j = choose|j: int| 0 <= j < gone_before.len() && gone_before[j] == k;
                            assert(gone@[j] == k);
                        }
                    }
                    assert forall|a: int, b: int|
                        0 <= a < gone@.len() && 0 <= b < gone@.len() && a != b implies gone@[a]
                        != gone@[b] by {
                        if a == gone_before.len() {
                            assert(gone_before[b] == gone@[b]);
                        } else if b == gone_before.len() {
                            assert(gone_before[a] == gone@[a]);
                        } else {
                            assert(gone_before[a] == gone@[a]);
                            assert(gone_before[b] == gone@[b]);
                        }
                    }
                    assert forall|k: int| 0 <= k < gone.len() implies before.contains_key(
                        #[trigger] gone[k],
                    ) && !self.connected_sockets@.contains_key(gone[k]) by {
                        if k < gone_before.len() {
                            assert(gone_before[k] == gone@[k]);
                        }
                    }
                }
            }
            proof {
                assert forall|k: usize| #[trigger]
                    self.connected_sockets@.contains_key(k) implies before.contains_key(k)
                    && before[k] == self.connected_sockets@[k] by {
                    assert(map_before.contains_key(k));
                }
                assert forall|k: usize|
                    self.connected_sockets@.contains_key(k) && (
                    #[trigger] self.connected_sockets@[k])@.state
                        == Lifecycle::Dead implies self.dead@.contains(k) by {
                    assert(map_before.contains_key(k));
                    assert(map_before[k] == self.connected_sockets@[k]);
                    let j = choose|j: int| 0 <= j < dead_before.len() && dead_before[j] == k;
                    assert(k != id);
                    assert(self.dead@[j] == k);
                }
                assert forall|k: usize| #[trigger] self@.registry.contains_key(k) implies Engine::holds(
                    self@.registry[k],
                ) by {
                    assert(old(self)@.registry.contains_key(k));
                }
            }
        }
        proof {
            assert forall|id: usize|
                self.connected_sockets@.contains_key(id) implies (
                #[trigger] self.connected_sockets@[id])@.state != Lifecycle::Dead by {
                if self.connected_sockets@[id]@.state == Lifecycle::Dead {
                    assert(self.dead@.contains(id));
                }
            }
            let dead_ids = old(self)@.dead_ids();
            assert(self@.registry =~= old(self)@.registry.remove_keys(dead_ids)) by {
                assert forall|id: usize|
                    self@.registry.contains_key(id) <==> old(self)@.registry.remove_keys(
                        dead_ids,
                    ).contains_key(id) by {
                    if before.contains_key(id) && !self.connected_sockets@.contains_key(id) {
                        assert(before[id]@.state == Lifecycle::Dead);
                    }
                    if self.connected_sockets@.contains_key(id) {
                        assert(before.contains_key(id));
                        assert(self.connected_sockets@[id]@.state != Lifecycle::Dead);
                    }
                }
                assert forall|id: usize| self@.registry.contains_key(id) implies self@.registry[id]
                    == old(self)@.registry.remove_keys(dead_ids)[id] by {
                    assert(before.contains_key(id));
                }
            }
            assert(gone@.to_set() =~= dead_ids) by {
                assert forall|id: usize| gone@.to_set().contains(id) <==> dead_ids.contains(
                    id,
                ) by {
                    if gone@.contains(id) {
                        let k = choose|k: int| 0 <= k < gone@.len() && gone@[k] == id;
                        assert(before.contains_key(gone[k]));
                        assert(!self.connected_sockets@.contains_key(gone[k]));
                    }
                    if dead_ids.contains(id) {
                        assert(before.contains_key(id));
                        if self.connected_sockets@.contains_key(id) {
                            assert(self.connected_sockets@[id]@.state != Lifecycle::Dead);
                        }
                    }
                }
            }
            assert forall|id: usize| #[trigger] self@.registry.contains_key(id) implies self@.registry[id].state
                != Lifecycle::Dead by {
                assert(self.connected_sockets@.contains_key(id));
            }
        }
        let load = self.load();
        lb.publish_load(self.client_list_index, load);
        proof {
            lb.lemma_wf_valid();
        }
        gone
    }
}

impl Worker {
    /// Putting the connection under `token` back as it is changes nothing.
    proof fn lemma_same(&self, token: usize)
        requires
            self@.registry.contains_key(token),
        ensures
            self@ == self@.stepped(token, self@.registry[token]),
    {
        assert(self@.registry =~= self@.registry.insert(token, self@.registry[token]));
    }

    /// Handles a readiness event for the connection under `token`, where
    /// `hangup` says that the event reported the client's end of stream.
    pub fn ready(
        &mut self,
        balancer: &mut RoundRobin,
        token: usize,
        hangup: bool,
        now: u64,
    ) -> (action: Action)
        requires
            old(self).wf(),
            old(balancer).wf(),
        ensures
            final(self).wf(),
            final(balancer).wf(),
            follows(
                old(self)@,
                old(balancer)@,
                token,
                ready_step(old(self)@.registry[token], old(balancer)@, hangup, now),
                final(self)@,
                final(balancer)@,
                action,
            ),
            final(self)@.load() == old(self)@.load(),
    {
        let mut client = match self.client(token) {
            Some(c) => c,
            None => {
                return Action::Ignore;
            },
        };
        proof {
            self.lemma_same(token);
            balancer.lemma_wf_valid();
        }
        if !client.is_client_connected() {
            return Action::Wait;
        }
        if client.is_connecting() {
            return Action::ProbeUpstream;
        }
        if client.is_connected() {
            return Action::ReadClient;
        }
        if hangup {
            client.close_connection();
            self.store(token, client);
            return Action::Shutdown;
        }
        let target = balancer.get_next_host(now);
        Action::Connect { target }
    }

    /// Takes in the outcome of the connect to `target` that was asked for
    /// the connection under `token`, where `started` says whether the
    /// connect is under way.
    pub fn connect_result(
        &mut self,
        balancer: &mut RoundRobin,
        token: usize,
        target: Endpoint,
        started: bool,
        now: u64,
    ) -> (action: Action)
        requires
            old(self).wf(),
            old(balancer).wf(),
        ensures
            final(self).wf(),
            final(balancer).wf(),
            follows(
                old(self)@,
                old(balancer)@,
                token,
                connect_step(old(self)@.registry[token], old(balancer)@, target, started, now),
                final(self)@,
                final(balancer)@,
                action,
            ),
            final(self)@.load() == old(self)@.load(),
    {
        let mut client = match self.client(token) {
            Some(c) => c,
            None => {
                return Action::Ignore;
            },
        };
        proof {
            self.lemma_same(token);
        }
        if client.state() != Lifecycle::Idle {
            return Action::Wait;
        }
        let success = client.connect_to_target(target, started, now);
        let action = if success {
            client.register_target_with_poll();
            Action::RegisterUpstream
        } else {
            let last_t = client.get_last_target_addr();
            if client.last_target_errored() && last_t.is_some() {
                balancer.report_error(last_t.unwrap(), now);
            }
            Action::Wait
        };
        self.store(token, client);
        action
    }

    /// Gives up the pending connect of `client`, which is the connection
    /// under `token`, and reports its upstream as failed.
    fn give_up(
        &mut self,
        balancer: &mut RoundRobin,
        token: usize,
        client: TcpClient,
        now: u64,
    ) -> (action: Action)
        requires
            old(self).wf(),
            old(balancer).wf(),
            old(self)@.registry.contains_key(token),
            old(self)@.registry[token] == client@,
            client@.state == Lifecycle::Connecting,
        ensures
            final(self).wf(),
            final(balancer).wf(),
            follows(
                old(self)@,
                old(balancer)@,
                token,
                give_up_step(client@, old(balancer)@, now),
                final(self)@,
                final(balancer)@,
                action,
            ),
            final(self)@.load() == old(self)@.load(),
    {
        proof {
            self.lemma_wf_valid();
        }
        let mut client = client;
        client.abort_connect();
        let last_t = client.get_last_target_addr();
        if client.last_target_errored() && last_t.is_some() {
            balancer.report_error(last_t.unwrap(), now);
        }
        self.store(token, client);
        Action::DropUpstream
    }

    /// Takes in what the peek at the upstream of the connection under
    /// `token` showed.
    pub fn probed(
        &mut self,
        balancer: &mut RoundRobin,
        token: usize,
        probe: Probe,
        now: u64,
    ) -> (action: Action)
        requires
            old(self).wf(),
            old(balancer).wf(),
        ensures
            final(self).wf(),
            final(balancer).wf(),
            follows(
                old(self)@,
                old(balancer)@,
                token,
                probe_step(old(self)@.registry[token], old(balancer)@, probe, now),
                final(self)@,
                final(balancer)@,
                action,
            ),
            final(self)@.load() == old(self)@.load(),
    {
        let mut client = match self.client(token) {
            Some(c) => c,
            None => {
                return Action::Ignore;
            },
        };
        proof {
            self.lemma_same(token);
        }
        if !client.is_connecting() {
            return Action::Wait;
        }
        let waiting = client;
        match client.check_target_connected(probe) {
            Ok(server_connected) => {
                if server_connected {
                    let addr = client.get_target_addr().unwrap();
                    if balancer.is_on_cooldown(addr, now) {
                        balancer.report_success(addr);
                    }
                    self.store(token, client);
                    Action::ReadClient
                } else if client.connect_timed_out(now) {
                    self.give_up(balancer, token, waiting, now)
                } else {
                    Action::Wait
                }
            },
            Err(_) => self.give_up(balancer, token, waiting, now),
        }
    }

    /// Takes in how the step `stage` of the forwarding pass of the
    /// connection under `token` ended.
    pub fn transferred(
        &mut self,
        balancer: &mut RoundRobin,
        token: usize,
        stage: Stage,
        result: IoResult,
        now: u64,
    ) -> (action: Action)
        requires
            old(self).wf(),
            old(balancer).wf(),
        ensures
            final(self).wf(),
            final(balancer).wf(),
            follows(
                old(self)@,
                old(balancer)@,
                token,
                forward_step(old(self)@.registry[token], old(balancer)@, stage, result, now),
                final(self)@,
                final(balancer)@,
                action,
            ),
            final(self)@.load() == old(self)@.load(),
    {
        let mut client = match self.client(token) {
            Some(c) => c,
            None => {
                return Action::Ignore;
            },
        };
        proof {
            self.lemma_same(token);
        }
        if !client.is_connected() {
            return Action::Wait;
        }
        let next = client.process(stage, result);
        match next {
            Forward::WriteUpstream { len } => Action::WriteUpstream { len },
            Forward::ReadUpstream => Action::ReadUpstream,
            Forward::WriteClient { len } => Action::WriteClient { len },
            Forward::Finished => Action::Wait,
            Forward::Closed => {
                let last_t = client.get_last_target_addr();
                if client.last_target_errored() && last_t.is_some() {
                    balancer.report_error(last_t.unwrap(), now);
                }
                self.store(token, client);
                Action::Shutdown
            },
        }
    }

    /// Lets time pass for the connection under `token`: a pending connect
    /// whose deadline has come is given up.
    pub fn tick(&mut self, balancer: &mut RoundRobin, token: usize, now: u64) -> (action: Action)
        requires
            old(self).wf(),
            old(balancer).wf(),
        ensures
            final(self).wf(),
            final(balancer).wf(),
            follows(
                old(self)@,
                old(balancer)@,
                token,
                tick_step(old(self)@.registry[token], old(balancer)@, now),
                final(self)@,
                final(balancer)@,
                action,
            ),
            final(self)@.load() == old(self)@.load(),
    {
        let client = match self.client(token) {
            Some(c) => c,
            None => {
                return Action::Ignore;
            },
        };
        proof {
            self.lemma_same(token);
        }
        if client.connect_timed_out(now) {
            self.give_up(balancer, token, client, now)
        } else {
            Action::Wait
        }
    }
}

/// The sum of the loads in `counts`.
pub open spec fn total_load(counts: Seq<usize>) -> nat
    decreases counts.len(),
{
    if counts.len() == 0 {
        0
    } else {
        total_load(counts.drop_last()) + counts.last() as nat
    }
}

/// The number of connections in the registries of `engines` that are not
/// dead.
pub open spec fn total_live(engines: Seq<Engine>) -> nat
    decreases engines.len(),
{
    if engines.len() == 0 {
        0
    } else {
        total_live(engines.drop_last()) + engines.last().live_ids().len()
    }
}

impl Engine {
    /// A step of a connection that the worker holds leaves its load as it
    /// is.
    pub proof fn lemma_step_keeps_load(self, token: usize, c: Pairing)
        requires
            self.registry.contains_key(token),
        ensures
            self.stepped(token, c).load() == self.load(),
    {
        assert(self.stepped(token, c).registry.dom() =~= self.registry.dom());
    }

    /// In a worker without dead connections the load is the number of live
    /// connections.
    pub proof fn lemma_settled_load(self)
        requires
            self.settled(),
        ensures
            self.load() == self.live_ids().len(),
    {
        assert(self.live_ids() =~= self.registry.dom());
    }

    /// Adopting the fresh connections of an inbox brings no dead connection
    /// into a worker that had none.
    pub proof fn lemma_absorb_keeps_settled<S>(self, inbox: Seq<(Pairing, S)>)
        requires
            self.settled(),
            forall|j: int| 0 <= j < inbox.len() ==> (#[trigger] inbox[j]).0.state == Lifecycle::Fresh,
        ensures
            self.absorbed(inbox).settled(),
        decreases inbox.len(),
    {
        if inbox.len() > 0 {
            let next = self.adopted(inbox.last().0);
            assert(next.settled());
            assert forall|j: int| 0 <= j < inbox.drop_last().len() implies (
            #[trigger] inbox.drop_last()[j]).0.state == Lifecycle::Fresh by {
                assert(inbox.drop_last()[j] == inbox[j]);
            }
            next.lemma_absorb_keeps_settled(inbox.drop_last());
        }
    }
}

/// Where every worker has published its load and holds no dead connection,
/// the published loads add up to the number of live connections of all
/// workers. A worker publishes its load whenever it has drained its inbox
/// or removed its dead, and no step of a connection changes its load.
pub proof fn lemma_loads_count_the_living(counts: Seq<usize>, engines: Seq<Engine>)
    requires
        counts.len() == engines.len(),
        forall|i: int|
            0 <= i < engines.len() ==> (#[trigger] engines[i]).settled() && counts[i]
                == engines[i].load(),
    ensures
        total_load(counts) == total_live(engines),
    decreases counts.len(),
{
    if counts.len() > 0 {
        let last = engines.len() - 1;
        assert(engines.last() == engines[last]);
        assert(counts.last() == counts[last]);
        engines[last].lemma_settled_load();
        assert forall|i: int| 0 <= i < engines.drop_last().len() implies (
        #[trigger] engines.drop_last()[i]).settled() && counts.drop_last()[i]
            == engines.drop_last()[i].load() by {
            assert(engines.drop_last()[i] == engines[i]);
            assert(counts.drop_last()[i] == counts[i]);
        }
        lemma_loads_count_the_living(counts.drop_last(), engines.drop_last());
    }
}

/// A step that makes a connection dead asks for both sockets to be shut
/// down, and no other step does: so the sockets of a dead connection are
/// shut down before the next event is handled.
pub proof fn lemma_death_shuts_down(
    c: Pairing,
    hosts: Rotation,
    hangup: bool,
    target: Endpoint,
    started: bool,
    probe: Probe,
    stage: Stage,
    result: IoResult,
    now: u64,
)
    requires
        c.valid(),
        c.state != Lifecycle::Dead,
    ensures
        ready_step(c, hosts, hangup, now).client.state == Lifecycle::Dead <==> ready_step(
            c,
            hosts,
            hangup,
            now,
        ).action == Action::Shutdown,
        connect_step(c, hosts, target, started, now).client.state != Lifecycle::Dead,
        connect_step(c, hosts, target, started, now).action != Action::Shutdown,
        probe_step(c, hosts, probe, now).client.state != Lifecycle::Dead,
        probe_step(c, hosts, probe, now).action != Action::Shutdown,
        forward_step(c, hosts, stage, result, now).client.state == Lifecycle::Dead <==> forward_step(
            c,
            hosts,
            stage,
            result,
            now,
        ).action == Action::Shutdown,
        tick_step(c, hosts, now).client.state != Lifecycle::Dead,
        tick_step(c, hosts, now).action != Action::Shutdown,
{
}

/// A dead connection takes no further step: every event leaves it as it is
/// and nothing is asked for.
pub proof fn lemma_dead_stays(
    c: Pairing,
    hosts: Rotation,
    hangup: bool,
    target: Endpoint,
    started: bool,
    probe: Probe,
    stage: Stage,
    result: IoResult,
    now: u64,
)
    requires
        c.state == Lifecycle::Dead,
    ensures
        ready_step(c, hosts, hangup, now) == stay(c, hosts),
        connect_step(c, hosts, target, started, now) == stay(c, hosts),
        probe_step(c, hosts, probe, now) == stay(c, hosts),
        forward_step(c, hosts, stage, result, now) == stay(c, hosts),
        tick_step(c, hosts, now) == stay(c, hosts),
{
}

/// A client that is admitted and hangs up before anything else happens:
/// its connection, idle once adopted, dies on its first event, no host is
/// selected and the host registry stays as it is.
pub proof fn lemma_hangup_contacts_no_upstream(address: Endpoint, hosts: Rotation, now: u64)
    ensures
        Pairing::initial(address).registered().state == Lifecycle::Idle,
        ready_step(Pairing::initial(address).registered(), hosts, true, now).client.state
            == Lifecycle::Dead,
        ready_step(Pairing::initial(address).registered(), hosts, true, now).hosts == hosts,
        ready_step(Pairing::initial(address).registered(), hosts, true, now).action
            == Action::Shutdown,
{
}

/// A connect that never completes: once its deadline has come, the passing
/// of time, or a peek that shows it still pending, makes the connection
/// idle again, and its host is on cooldown, if the registry holds it and the
/// clock has not run out.
pub proof fn lemma_stalled_connect_expires(c: Pairing, hosts: Rotation, now: u64)
    requires
        c.valid(),
        hosts.valid(),
        c.state == Lifecycle::Connecting,
        now >= c.connect_deadline,
        hosts.knows(c.target.unwrap()),
        now < u64::MAX,
    ensures
        tick_step(c, hosts, now) == give_up_step(c, hosts, now),
        probe_step(c, hosts, Probe::NotConnected, now) == give_up_step(c, hosts, now),
        give_up_step(c, hosts, now).client.state == Lifecycle::Idle,
        give_up_step(c, hosts, now).client.last_target == c.target,
        give_up_step(c, hosts, now).client.last_target_error,
        give_up_step(c, hosts, now).hosts.on_cooldown(c.target.unwrap(), now),
        give_up_step(c, hosts, now).action == Action::DropUpstream,
{
    hosts.lemma_error_cools(c.target.unwrap(), now);
}

/// A forwarding pass hands on what it read: after a read of `n` bytes from
/// one side, with `n` above 0, the next step writes the first `n` bytes of
/// the buffer to the other side, and the pass reads again only after that
/// write.
pub proof fn lemma_pass_writes_what_it_read(n: usize, written: IoResult)
    requires
        n > 0,
        written != IoResult::Failed,
    ensures
        Pairing::forward(Stage::ClientRead, IoResult::Done(n)) == (Forward::WriteUpstream {
            len: n,
        }),
        Pairing::forward(Stage::UpstreamWrite, written) == Forward::ReadUpstream,
        Pairing::forward(Stage::UpstreamRead, IoResult::Done(n)) == (Forward::WriteClient {
            len: n,
        }),
        Pairing::forward(Stage::ClientWrite, written) == Forward::Finished,
{
}

} // verus!
