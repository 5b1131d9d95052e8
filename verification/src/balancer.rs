use vstd::prelude::*;
use crate::client::{Lifecycle, Pairing, TcpClient};
use crate::endpoint::Endpoint;
use crate::round_robin::RoundRobin;
use crate::worker::{Engine, Worker};

verus! {

/// A connection that waits in a worker's inbox, with its client socket.
pub struct Pending<S> {
    pub client: TcpClient,
    pub stream: S,
}

/// How a wait on the poller ended.
#[derive(Clone, Copy, Debug, PartialEq, Eq, Structural)]
pub enum PollOutcome {
    /// The wait returned, with or without events.
    Ready,
    /// A signal interrupted the wait.
    Interrupted,
    /// The poller failed.
    Failed,
}

/// What a dispatcher is: the load each worker published last, each worker's
/// inbox, the stop flag, the debug flag and the host registry.
pub struct Dispatch<S> {
    pub counts: Seq<usize>,
    pub pending: Seq<Seq<(Pairing, S)>>,
    pub stopped: bool,
    pub debug: bool,
    pub algorithm: RoundRobin,
}

/// What waits in an inbox: each connection with its client socket.
pub open spec fn inbox<S>(pending: Seq<Pending<S>>) -> Seq<(Pairing, S)> {
    Seq::new(pending.len(), |j: int| (pending[j].client@, pending[j].stream))
}

/// Index `i` holds the smallest of `counts`, and no index before it does.
pub open spec fn is_least_loaded(counts: Seq<usize>, i: int) -> bool {
    &&& 0 <= i < counts.len()
    &&& forall|j: int| 0 <= j < counts.len() ==> counts[i] <= #[trigger] counts[j]
    &&& forall|j: int| 0 <= j < i ==> counts[i] < #[trigger] counts[j]
}

/// Only one index is the least loaded.
pub proof fn lemma_least_loaded_unique(counts: Seq<usize>, i: int, j: int)
    requires
        is_least_loaded(counts, i),
        is_least_loaded(counts, j),
    ensures
        i == j,
{
    if i < j {
        assert(counts[j] < counts[i]);
        assert(counts[i] <= counts[j]);
    } else if j < i {
        assert(counts[i] < counts[j]);
        assert(counts[j] <= counts[i]);
    }
}

/// The index of the smallest load, the lowest index among equals.
pub fn least_loaded(counts: &Vec<usize>) -> (i: usize)
    requires
        counts.len() > 0,
    ensures
        is_least_loaded(counts@, i as int),
{
    let mut min_index: usize = 0;
    let mut min_length: usize = counts[0];
    let mut i: usize = 1;
    while i < counts.len()
        invariant
            1 <= i <= counts.len(),
            min_index < i,
            min_length == counts[min_index as int],
            forall|j: int| 0 <= j < i ==> counts[min_index as int] <= #[trigger] counts[j],
            forall|j: int| 0 <= j < min_index ==> counts[min_index as int] < #[trigger] counts[j],
        decreases counts.len() - i,
    {
        let len = counts[i];
        if len < min_length {
            min_length = len;
            min_index = i;
        }
        i = i + 1;
    }
    min_index
}

/// The dispatcher: it hands each new client to the worker with the smallest
/// load, and holds what the workers share.
pub struct LoadBalancer<S> {
    client_counts: Vec<usize>,
    client_lists_pending: Vec<Vec<Pending<S>>>,
    threads: u16,
    stopped: bool,
    debug: bool,
    balancing_algorithm: RoundRobin,
}

impl<S> View for LoadBalancer<S> {
    type V = Dispatch<S>;

    closed spec fn view(&self) -> Dispatch<S> {
        Dispatch {
            counts: self.client_counts@,
            pending: Seq::new(
                self.client_lists_pending.len() as nat,
                |i: int| inbox(self.client_lists_pending[i]@),
            ),
            stopped: self.stopped,
            debug: self.debug,
            algorithm: self.balancing_algorithm,
        }
    }
}

impl<S> Dispatch<S> {
    /// The number of workers.
    pub open spec fn workers(self) -> int {
        self.counts.len() as int
    }

    /// There is a worker, every worker has a load and an inbox, the registry
    /// is well formed, and what waits in an inbox is fresh.
    pub open spec fn valid(self) -> bool {
        &&& 0 < self.counts.len() <= u16::MAX
        &&& self.pending.len() == self.counts.len()
        &&& self.algorithm.wf()
        &&& forall|i: int, j: int|
            0 <= i < self.pending.len() && 0 <= j < self.pending[i].len() ==> (
            #[trigger] self.pending[i][j]).0.valid() && self.pending[i][j].0.state
                == Lifecycle::Fresh
    }

    /// The dispatcher after a client from `address` with the socket
    /// `stream` was put into the inbox of `worker`.
    pub open spec fn admitted(self, worker: int, address: Endpoint, stream: S) -> Dispatch<S> {
        Dispatch {
            pending: self.pending.update(
                worker,
                self.pending[worker].push((Pairing::initial(address), stream)),
            ),
            ..self
        }
    }
}

impl<S> LoadBalancer<S> {
    /// The invariant of the dispatcher.
    pub closed spec fn wf(&self) -> bool {
        &&& self@.valid()
        &&& self.threads == self.client_counts.len()
    }

    /// A well-formed dispatcher has a valid view.
    pub proof fn lemma_wf_valid(&self)
        requires
            self.wf(),
        ensures
            self@.valid(),
    {
    }

    /// A dispatcher for `threads` workers over the registry
    /// `balancing_algorithm`: every load is 0 and every inbox is empty.
    pub fn new(balancing_algorithm: RoundRobin, threads: u16, debug: bool) -> (b: LoadBalancer<S>)
        requires
            balancing_algorithm.wf(),
            threads > 0,
        ensures
            b.wf(),
            b@.counts == Seq::new(threads as nat, |i: int| 0usize),
            b@.pending == Seq::new(threads as nat, |i: int| Seq::<(Pairing, S)>::empty()),
            !b@.stopped,
            b@.debug == debug,
            b@.algorithm == balancing_algorithm,
    {
        let mut client_counts: Vec<usize> = Vec::new();
        let mut client_lists_pending: Vec<Vec<Pending<S>>> = Vec::new();
        let mut i: u16 = 0;
        while i < threads
            invariant
                i <= threads,
                client_counts.len() == i,
                client_lists_pending.len() == i,
                forall|j: int| 0 <= j < i ==> client_counts[j] == 0,
                forall|j: int| 0 <= j < i ==> (#[trigger] client_lists_pending[j])@.len() == 0,
            decreases threads - i,
        {
            client_counts.push(0);
            client_lists_pending.push(Vec::new());
            i = i + 1;
        }
        let b = LoadBalancer {
            client_counts,
            client_lists_pending,
            threads,
            stopped: false,
            debug,
            balancing_algorithm,
        };
        proof {
            assert(b@.counts =~= Seq::new(threads as nat, |i: int| 0usize));
            assert forall|j: int| 0 <= j < threads implies #[trigger] b@.pending[j]
                == Seq::<(Pairing, S)>::empty() by {
                assert(inbox(b.client_lists_pending[j]@) =~= Seq::<(Pairing, S)>::empty());
            }
            assert(b@.pending =~= Seq::new(
                threads as nat,
                |i: int| Seq::<(Pairing, S)>::empty(),
            ));
        }
        b
    }

    /// The worker engines of this dispatcher, one for each worker and in
    /// the order of their indices, each with an empty registry.
    pub fn start(&mut self) -> (workers: Vec<Worker>)
        requires
            old(self).wf(),
        ensures
            final(self).wf(),
            final(self)@ == old(self)@,
            workers.len() == old(self)@.workers(),
            forall|i: int|
                0 <= i < workers.len() ==> (#[trigger] workers[i]).wf() && workers[i]@
                    == Engine::initial(i as usize),
    {
        self.spawn_threads()
    }

    fn spawn_threads(&mut self) -> (workers: Vec<Worker>)
        requires
            old(self).wf(),
        ensures
            final(self).wf(),
            final(self)@ == old(self)@,
            workers.len() == old(self)@.workers(),
            forall|i: int|
                0 <= i < workers.len() ==> (#[trigger] workers[i]).wf() && workers[i]@
                    == Engine::initial(i as usize),
    {
        let th = self.threads;
        let mut workers: Vec<Worker> = Vec::new();
        let mut id: u16 = 0;
        while id < th
            invariant
                id <= th,
                workers.len() == id,
                forall|i: int|
                    0 <= i < workers.len() ==> (#[trigger] workers[i]).wf() && workers[i]@
                        == Engine::initial(i as usize),
            decreases th - id,
        {
            workers.push(Worker::new(id as usize));
            id = id + 1;
        }
        workers
    }

    /// Admits a client: a fresh paired connection for it goes into the
    /// inbox of the worker with the smallest published load, the lowest
    /// index among equals. No load changes. Returns that worker's index.
    pub fn add_client(&mut self, stream: S, address: Endpoint) -> (worker: usize)
        requires
            old(self).wf(),
        ensures
            final(self).wf(),
            is_least_loaded(old(self)@.counts, worker as int),
            final(self)@ == old(self)@.admitted(worker as int, address, stream),
    {
        let client = TcpClient::new(address);
        let min_index = least_loaded(&self.client_counts);
        let ghost before = self@;
        self.client_lists_pending[min_index].push(Pending { client, stream });
        proof {
            let after = before.admitted(min_index as int, address, stream);
            assert forall|i: int| 0 <= i < after.pending.len() implies #[trigger] self@.pending[i]
                == after.pending[i] by {
                if i == min_index {
                    assert(self@.pending[i] =~= after.pending[i]);
                }
            }
            assert(self@.pending =~= after.pending);
        }
        min_index
    }

    /// Empties the inbox of `worker` and returns what waited in it, in the
    /// order of arrival.
    pub fn take_pending(&mut self, worker: usize) -> (taken: Vec<Pending<S>>)
        requires
            old(self).wf(),
            worker < old(self)@.workers(),
        ensures
            final(self).wf(),
            inbox(taken@) == old(self)@.pending[worker as int],
            final(self)@ == (Dispatch {
                pending: old(self)@.pending.update(worker as int, Seq::empty()),
                ..old(self)@
            }),
    {
        let mut taken: Vec<Pending<S>> = Vec::new();
        let ghost before = self@;
        core::mem::swap(&mut self.client_lists_pending[worker], &mut taken);
        proof {
            let after = before.pending.update(worker as int, Seq::empty());
            assert forall|i: int| 0 <= i < after.len() implies #[trigger] self@.pending[i]
                == after[i] by {
                if i == worker {
                    assert(self@.pending[i] =~= after[i]);
                }
            }
            assert(self@.pending =~= after);
            assert(inbox(taken@) == before.pending[worker as int]);
        }
        taken
    }

    /// Publishes `load` as the load of `worker`.
    pub fn publish_load(&mut self, worker: usize, load: usize)
        requires
            old(self).wf(),
            worker < old(self)@.workers(),
        ensures
            final(self).wf(),
            final(self)@ == (Dispatch {
                counts: old(self)@.counts.update(worker as int, load),
                ..old(self)@
            }),
    {
        self.client_counts.set(worker, load);
    }

    /// The load that `worker` published last.
    pub fn client_count(&self, worker: usize) -> (load: usize)
        requires
            self.wf(),
            worker < self@.workers(),
        ensures
            load == self@.counts[worker as int],
    {
        self.client_counts[worker]
    }

    /// The number of workers.
    pub fn threads(&self) -> (n: u16)
        requires
            self.wf(),
        ensures
            n == self@.workers(),
    {
        self.threads
    }

    /// Whether the balancer was asked to log what it does.
    pub fn debug(&self) -> (d: bool)
        ensures
            d == self@.debug,
    {
        self.debug
    }

    /// Raises the stop flag. It is never lowered.
    pub fn stop(&mut self)
        requires
            old(self).wf(),
        ensures
            final(self).wf(),
            final(self)@ == (Dispatch { stopped: true, ..old(self)@ }),
    {
        self.stopped = true;
    }

    /// Whether the stop flag is raised.
    pub fn is_stopped(&self) -> (s: bool)
        ensures
            s == self@.stopped,
    {
        self.stopped
    }

    /// Takes in how a worker's wait on the poller ended and says whether
    /// the worker goes on with this round. An interrupted wait raises the
    /// stop flag and the round goes on; a failed poller ends the worker.
    pub fn poll_finished(&mut self, outcome: PollOutcome) -> (proceed: bool)
        requires
            old(self).wf(),
        ensures
            final(self).wf(),
            proceed == (outcome != PollOutcome::Failed),
            final(self)@ == (Dispatch {
                stopped: old(self)@.stopped || outcome == PollOutcome::Interrupted,
                ..old(self)@
            }),
    {
        match outcome {
            PollOutcome::Ready => true,
            PollOutcome::Interrupted => {
                self.stopped = true;
                true
            },
            PollOutcome::Failed => false,
        }
    }

    /// The host registry, to select from and to report to.
    pub fn algorithm_mut(&mut self) -> (r: &mut RoundRobin)
        requires
            old(self).wf(),
        ensures
            *r == old(self)@.algorithm,
            final(self)@ == (Dispatch { algorithm: *final(r), ..old(self)@ }),
            final(r).wf() ==> final(self).wf(),
    {
        &mut self.balancing_algorithm
    }
}

} // verus!
