use vstd::prelude::*;
use crate::endpoint::Endpoint;
use crate::host::{backoff_factor, cooldown_deadline, Host};

verus! {

/// The upstream endpoints the balancer was started with, in file order.
pub struct HostManager {
    pub hosts: Vec<Endpoint>,
}

impl HostManager {
    /// The host list with the endpoints `hosts`, in their order.
    pub fn new(hosts: Vec<Endpoint>) -> (m: HostManager)
        ensures
            m.hosts == hosts,
    {
        HostManager { hosts }
    }
}

/// Why a host registry could not be built.
#[derive(Clone, Copy, Debug, PartialEq, Eq, Structural)]
pub enum StartupError {
    /// The host list is empty: there is nothing to balance over.
    NoHosts,
}

/// What a host registry is: its hosts in order, and the index of the host
/// that was handed out last.
pub struct Rotation {
    pub hosts: Seq<Host>,
    pub cursor: int,
}

impl Rotation {
    /// The registry right after startup over `endpoints`: every host healthy,
    /// the cursor on the last host, so that the first host is the first to be
    /// handed out.
    pub open spec fn initial(endpoints: Seq<Endpoint>) -> Rotation {
        Rotation {
            hosts: Seq::new(
                endpoints.len(),
                |i: int| Host { endpoint: endpoints[i], cooldown_until: 0, consecutive_errors: 0 },
            ),
            cursor: endpoints.len() - 1,
        }
    }

    /// Hosts that share an endpoint share their health record.
    pub open spec fn coherent(self) -> bool {
        forall|i: int, j: int|
            0 <= i < self.hosts.len() && 0 <= j < self.hosts.len() && self.hosts[i].endpoint
                == self.hosts[j].endpoint ==> self.hosts[i] == self.hosts[j]
    }

    /// The registry is not empty, the cursor is an index into it, and it is
    /// coherent.
    pub open spec fn valid(self) -> bool {
        &&& self.hosts.len() > 0
        &&& 0 <= self.cursor < self.hosts.len()
        &&& self.coherent()
    }

    /// Host `i` exists and is not cooling down at `now`.
    pub open spec fn healthy(self, i: int, now: u64) -> bool {
        0 <= i < self.hosts.len() && !self.hosts[i].cooling(now)
    }

    pub open spec fn any_healthy(self, now: u64) -> bool {
        exists|i: int| self.healthy(i, now)
    }

    /// How many steps after the cursor index `i` comes, going round: 0 for
    /// the index right after the cursor, the number of hosts less one for the
    /// cursor itself.
    pub open spec fn distance(self, i: int) -> int {
        if i > self.cursor {
            i - self.cursor - 1
        } else {
            i + self.hosts.len() - self.cursor - 1
        }
    }

    /// Host `i` is the healthy host that comes first after the cursor.
    pub open spec fn is_next_healthy(self, i: int, now: u64) -> bool {
        &&& self.healthy(i, now)
        &&& forall|j: int| self.healthy(j, now) ==> self.distance(i) <= self.distance(j)
    }

    /// Host `i` is the one whose cooldown ends first, the lowest index among
    /// equals.
    pub open spec fn is_soonest(self, i: int) -> bool {
        &&& 0 <= i < self.hosts.len()
        &&& forall|j: int|
            0 <= j < self.hosts.len() ==> self.hosts[i].cooldown_until
                <= #[trigger] self.hosts[j].cooldown_until
        &&& forall|j: int|
            0 <= j < i ==> self.hosts[i].cooldown_until < #[trigger] self.hosts[j].cooldown_until
    }

    /// Host `i` is the one a selection at `now` hands out: the next healthy
    /// host after the cursor, or, when every host is cooling down, the one
    /// whose cooldown ends first.
    pub open spec fn selects(self, i: int, now: u64) -> bool {
        if self.any_healthy(now) {
            self.is_next_healthy(i, now)
        } else {
            self.is_soonest(i)
        }
    }

    /// The index a selection at `now` hands out.
    pub open spec fn selected(self, now: u64) -> int {
        choose|i: int| self.selects(i, now)
    }

    /// The registry after a selection at `now`: the cursor moves to a healthy
    /// host that was handed out, and stays when none was healthy.
    pub open spec fn after_selection(self, now: u64) -> Rotation {
        if self.any_healthy(now) {
            Rotation { hosts: self.hosts, cursor: self.selected(now) }
        } else {
            self
        }
    }

    /// Some host has the endpoint `addr`.
    pub open spec fn knows(self, addr: Endpoint) -> bool {
        exists|i: int| 0 <= i < self.hosts.len() && #[trigger] self.hosts[i].endpoint == addr
    }

    /// Some host with the endpoint `addr` is cooling down at `now`.
    pub open spec fn on_cooldown(self, addr: Endpoint, now: u64) -> bool {
        exists|i: int|
            0 <= i < self.hosts.len() && (#[trigger] self.hosts[i]).endpoint == addr
                && self.hosts[i].cooling(now)
    }

    /// The consecutive errors on record for `addr`, 0 for an endpoint the
    /// registry does not hold.
    pub open spec fn errors_of(self, addr: Endpoint) -> u32 {
        if self.knows(addr) {
            let i = choose|i: int|
                0 <= i < self.hosts.len() && #[trigger] self.hosts[i].endpoint == addr;
            self.hosts[i].consecutive_errors
        } else {
            0
        }
    }

    /// The registry after an error of `addr` reported at `now`.
    pub open spec fn after_error(self, addr: Endpoint, now: u64) -> Rotation {
        Rotation {
            hosts: Seq::new(
                self.hosts.len(),
                |i: int|
                    if self.hosts[i].endpoint == addr {
                        self.hosts[i].errored(now)
                    } else {
                        self.hosts[i]
                    },
            ),
            cursor: self.cursor,
        }
    }

    /// The registry after a success of `addr`.
    pub open spec fn after_success(self, addr: Endpoint) -> Rotation {
        Rotation {
            hosts: Seq::new(
                self.hosts.len(),
                |i: int|
                    if self.hosts[i].endpoint == addr {
                        self.hosts[i].recovered()
                    } else {
                        self.hosts[i]
                    },
            ),
            cursor: self.cursor,
        }
    }

    /// At most one host is selected.
    pub proof fn lemma_selection_unique(self, i: int, j: int, now: u64)
        requires
            self.valid(),
            self.selects(i, now),
            self.selects(j, now),
        ensures
            i == j,
    {
        if self.any_healthy(now) {
            assert(self.distance(i) <= self.distance(j));
            assert(self.distance(j) <= self.distance(i));
        } else {
            if i < j {
                assert(self.hosts[j].cooldown_until < self.hosts[i].cooldown_until);
                assert(self.hosts[i].cooldown_until <= self.hosts[j].cooldown_until);
            } else if j < i {
                assert(self.hosts[i].cooldown_until < self.hosts[j].cooldown_until);
                assert(self.hosts[j].cooldown_until <= self.hosts[i].cooldown_until);
            }
        }
    }

    /// A host known to be selected is the selected one.
    pub proof fn lemma_selected_is(self, i: int, now: u64)
        requires
            self.valid(),
            self.selects(i, now),
        ensures
            self.selected(now) == i,
    {
        self.lemma_selection_unique(self.selected(now), i, now);
    }
}

/// The host registry with its round-robin selection policy.
pub struct RoundRobin {
    current_host: usize,
    max_host: usize,
    hosts: Vec<Host>,
}

impl View for RoundRobin {
    type V = Rotation;

    closed spec fn view(&self) -> Rotation {
        Rotation { hosts: self.hosts@, cursor: self.current_host as int }
    }
}

impl RoundRobin {
    /// The invariant of the registry.
    pub closed spec fn wf(&self) -> bool {
        &&& self.max_host == self.hosts.len()
        &&& self@.valid()
    }

    /// A well-formed registry is a valid rotation.
    pub proof fn lemma_wf_valid(&self)
        requires
            self.wf(),
        ensures
            self@.valid(),
    {
    }

    /// Builds the registry over the hosts of `host_manager`, all healthy.
    /// An empty host list is refused.
    pub fn new(host_manager: HostManager) -> (r: Result<RoundRobin, StartupError>)
        ensures
            host_manager.hosts.len() == 0 <==> r == Err::<RoundRobin, StartupError>(
                StartupError::NoHosts,
            ),
            host_manager.hosts.len() > 0 ==> r.is_ok() && r.unwrap().wf() && r.unwrap()@
                == Rotation::initial(host_manager.hosts@),
    {
        let max = host_manager.hosts.len();
        if max == 0 {
            return Err(StartupError::NoHosts);
        }
        let mut hosts: Vec<Host> = Vec::new();
        let mut i: usize = 0;
        while i < max
            invariant
                max == host_manager.hosts.len(),
                i <= max,
                hosts.len() == i,
                forall|j: int|
                    0 <= j < i ==> hosts[j] == (Host {
                        endpoint: host_manager.hosts[j],
                        cooldown_until: 0,
                        consecutive_errors: 0,
                    }),
            decreases max - i,
        {
            hosts.push(Host::new(host_manager.hosts[i]));
            i = i + 1;
        }
        let r = RoundRobin { current_host: max - 1, max_host: max, hosts };
        assert(r@.hosts =~= Rotation::initial(host_manager.hosts@).hosts);
        Ok(r)
    }

    /// The number of hosts.
    pub fn len(&self) -> (n: usize)
        ensures
            n == self@.hosts.len(),
    {
        self.hosts.len()
    }

    /// Picks the upstream for a new attempt at `now`: the next host after
    /// the cursor that is not cooling down, and the cursor moves to it.
    /// When every host is cooling down, the one whose cooldown ends first,
    /// the lowest index among equals, and the cursor stays.
    pub fn get_next_host(&mut self, now: u64) -> (addr: Endpoint)
        requires
            old(self).wf(),
        ensures
            final(self).wf(),
            old(self)@.selects(old(self)@.selected(now), now),
            addr == old(self)@.hosts[old(self)@.selected(now)].endpoint,
            final(self)@ == old(self)@.after_selection(now),
            old(self)@.any_healthy(now) ==> !final(self)@.on_cooldown(addr, now),
    {
        let n = self.hosts.len();
        let ghost r = self@;
        let mut idx: usize = self.current_host;
        let mut k: usize = 0;
        while k < n
            invariant
                self.wf(),
                self@ == r,
                r == old(self)@,
                n == r.hosts.len(),
                k <= n,
                idx < n,
                k == 0 ==> idx == r.cursor,
                k > 0 ==> r.distance(idx as int) == k - 1,
                forall|j: int| r.healthy(j, now) ==> r.distance(j) >= k,
            decreases n - k,
        {
            idx = if idx + 1 == n { 0 } else { idx + 1 };
            assert(r.distance(idx as int) == k);
            if !self.hosts[idx].is_cooling(now) {
                proof {
                    assert(r.healthy(idx as int, now));
                    assert(r.is_next_healthy(idx as int, now));
                    r.lemma_selected_is(idx as int, now);
                }
                self.current_host = idx;
                proof {
                    let f = self@;
                    assert forall|i: int|
                        0 <= i < f.hosts.len() && (#[trigger] f.hosts[i]).endpoint
                            == f.hosts[idx as int].endpoint implies !f.hosts[i].cooling(now) by {
                        assert(f.hosts[i] == f.hosts[idx as int]);
                    }
                }
                return self.hosts[idx].endpoint;
            }
            assert forall|j: int| r.healthy(j, now) implies r.distance(j) >= k + 1 by {
                if r.distance(j) == k {
                    assert(j == idx);
                }
            }
            k = k + 1;
        }
        assert(!r.any_healthy(now)) by {
            if r.any_healthy(now) {
                let j = choose|j: int| r.healthy(j, now);
                assert(r.distance(j) >= n);
            }
        }
        let mut best: usize = 0;
        let mut i: usize = 1;
        while i < n
            invariant
                self.wf(),
                self@ == r,
                r == old(self)@,
                n == r.hosts.len(),
                1 <= i <= n,
                best < i,
                forall|j: int|
                    0 <= j < i ==> r.hosts[best as int].cooldown_until
                        <= #[trigger] r.hosts[j].cooldown_until,
                forall|j: int|
                    0 <= j < best ==> r.hosts[best as int].cooldown_until
                        < #[trigger] r.hosts[j].cooldown_until,
            decreases n - i,
        {
            if self.hosts[i].cooldown_until < self.hosts[best].cooldown_until {
                best = i;
            }
            i = i + 1;
        }
        proof {
            assert(r.is_soonest(best as int));
            r.lemma_selected_is(best as int, now);
        }
        self.hosts[best].endpoint
    }

    /// Whether a host with the endpoint `addr` is cooling down at `now`.
    pub fn is_on_cooldown(&self, addr: Endpoint, now: u64) -> (b: bool)
        requires
            self.wf(),
        ensures
            b == self@.on_cooldown(addr, now),
    {
        let n = self.hosts.len();
        let mut i: usize = 0;
        while i < n
            invariant
                n == self@.hosts.len(),
                i <= n,
                forall|j: int|
                    0 <= j < i ==> !((#[trigger] self@.hosts[j]).endpoint == addr
                        && self@.hosts[j].cooling(now)),
            decreases n - i,
        {
            if self.hosts[i].endpoint == addr && self.hosts[i].is_cooling(now) {
                return true;
            }
            i = i + 1;
        }
        false
    }

    /// The consecutive errors on record for `addr`, 0 for an endpoint the
    /// registry does not hold.
    pub fn consecutive_errors(&self, addr: Endpoint) -> (n: u32)
        requires
            self.wf(),
        ensures
            n == self@.errors_of(addr),
    {
        let len = self.hosts.len();
        let mut i: usize = 0;
        while i < len
            invariant
                self.wf(),
                len == self@.hosts.len(),
                i <= len,
                forall|j: int| 0 <= j < i ==> (#[trigger] self@.hosts[j]).endpoint != addr,
            decreases len - i,
        {
            if self.hosts[i].endpoint == addr {
                proof {
                    let r = self@;
                    let c = choose|c: int|
                        0 <= c < r.hosts.len() && #[trigger] r.hosts[c].endpoint == addr;
                    assert(r.hosts[c] == r.hosts[i as int]);
                }
                return self.hosts[i].consecutive_errors;
            }
            i = i + 1;
        }
        0
    }

    /// Reports that an attempt on `addr` failed at `now`: every host with
    /// that endpoint cools down and counts one more error.
    pub fn report_error(&mut self, addr: Endpoint, now: u64)
        requires
            old(self).wf(),
        ensures
            final(self).wf(),
            final(self)@ == old(self)@.after_error(addr, now),
    {
        let n = self.hosts.len();
        let ghost r = self@;
        let mut i: usize = 0;
        while i < n
            invariant
                n == r.hosts.len(),
                self.hosts.len() == n,
                self.max_host == n,
                self.current_host == r.cursor,
                i <= n,
                forall|j: int| 0 <= j < i ==> self.hosts[j] == r.after_error(addr, now).hosts[j],
                forall|j: int| i <= j < n ==> self.hosts[j] == r.hosts[j],
            decreases n - i,
        {
            if self.hosts[i].endpoint == addr {
                let mut h = self.hosts[i];
                h.record_error(now);
                self.hosts.set(i, h);
            }
            i = i + 1;
        }
        proof {
            assert(self@.hosts =~= r.after_error(addr, now).hosts);
            r.lemma_error_keeps_valid(addr, now);
        }
    }

    /// Reports that an attempt on `addr` succeeded: every host with that
    /// endpoint is healthy again, with no error on record.
    pub fn report_success(&mut self, addr: Endpoint)
        requires
            old(self).wf(),
        ensures
            final(self).wf(),
            final(self)@ == old(self)@.after_success(addr),
    {
        let n = self.hosts.len();
        let ghost r = self@;
        let mut i: usize = 0;
        while i < n
            invariant
                n == r.hosts.len(),
                self.hosts.len() == n,
                self.max_host == n,
                self.current_host == r.cursor,
                i <= n,
                forall|j: int| 0 <= j < i ==> self.hosts[j] == r.after_success(addr).hosts[j],
                forall|j: int| i <= j < n ==> self.hosts[j] == r.hosts[j],
            decreases n - i,
        {
            if self.hosts[i].endpoint == addr {
                let mut h = self.hosts[i];
                h.record_success();
                self.hosts.set(i, h);
            }
            i = i + 1;
        }
        proof {
            assert(self@.hosts =~= r.after_success(addr).hosts);
            r.lemma_success_keeps_valid(addr);
        }
    }
}

impl Rotation {
    /// The index that lies `d` steps after the cursor, going round.
    pub open spec fn at_distance(self, d: int) -> int {
        if self.cursor + 1 + d < self.hosts.len() {
            self.cursor + 1 + d
        } else {
            self.cursor + 1 + d - self.hosts.len()
        }
    }

    /// Finds the healthy host that comes first after the cursor, where no
    /// healthy host lies fewer than `d` steps after it.
    proof fn lemma_next_healthy_from(self, now: u64, d: int) -> (i: int)
        requires
            self.valid(),
            self.any_healthy(now),
            0 <= d,
            forall|j: int| self.healthy(j, now) ==> self.distance(j) >= d,
        ensures
            self.is_next_healthy(i, now),
        decreases self.hosts.len() - d,
    {
        let some = choose|j: int| self.healthy(j, now);
        assert(d <= self.distance(some) < self.hosts.len());
        let p = self.at_distance(d);
        assert(self.distance(p) == d);
        if self.healthy(p, now) {
            p
        } else {
            assert forall|j: int| self.healthy(j, now) implies self.distance(j) >= d + 1 by {
                if self.distance(j) == d {
                    assert(j == p);
                }
            }
            self.lemma_next_healthy_from(now, d + 1)
        }
    }

    /// Finds the host among the first `n` whose cooldown ends first, the
    /// lowest index among equals.
    proof fn lemma_soonest_among(self, n: int) -> (i: int)
        requires
            0 < n <= self.hosts.len(),
        ensures
            0 <= i < n,
            forall|j: int|
                0 <= j < n ==> self.hosts[i].cooldown_until <= #[trigger] self.hosts[j].cooldown_until,
            forall|j: int|
                0 <= j < i ==> self.hosts[i].cooldown_until < #[trigger] self.hosts[j].cooldown_until,
        decreases n,
    {
        if n == 1 {
            0
        } else {
            let b = self.lemma_soonest_among(n - 1);
            if self.hosts[n - 1].cooldown_until < self.hosts[b].cooldown_until {
                n - 1
            } else {
                b
            }
        }
    }

    /// A valid registry always has a host to hand out.
    pub proof fn lemma_selection_exists(self, now: u64)
        requires
            self.valid(),
        ensures
            self.selects(self.selected(now), now),
            0 <= self.selected(now) < self.hosts.len(),
    {
        if self.any_healthy(now) {
            let i = self.lemma_next_healthy_from(now, 0);
            assert(self.selects(i, now));
        } else {
            let i = self.lemma_soonest_among(self.hosts.len() as int);
            assert(self.is_soonest(i));
            assert(self.selects(i, now));
        }
    }

    /// A selection keeps a valid registry valid.
    pub proof fn lemma_selection_keeps_valid(self, now: u64)
        requires
            self.valid(),
        ensures
            self.after_selection(now).valid(),
    {
        self.lemma_selection_exists(now);
    }

    /// While some host is healthy, the host that is handed out is not
    /// cooling down, and neither is any host with its endpoint.
    pub proof fn lemma_selected_is_healthy(self, now: u64)
        requires
            self.valid(),
            self.any_healthy(now),
        ensures
            !self.hosts[self.selected(now)].cooling(now),
            !self.on_cooldown(self.hosts[self.selected(now)].endpoint, now),
            !self.after_selection(now).on_cooldown(self.hosts[self.selected(now)].endpoint, now),
    {
        self.lemma_selection_exists(now);
        let s = self.selected(now);
        assert forall|i: int|
            0 <= i < self.hosts.len() && (#[trigger] self.hosts[i]).endpoint
                == self.hosts[s].endpoint implies !self.hosts[i].cooling(now) by {
            assert(self.hosts[i] == self.hosts[s]);
        }
    }

    /// A registry with a single host always hands that host out, whatever
    /// its health: also right after an error was reported for it.
    pub proof fn lemma_single_host(self, addr: Endpoint, at: u64, now: u64)
        requires
            self.valid(),
            self.hosts.len() == 1,
        ensures
            self.selected(now) == 0,
            self.after_error(addr, at).selected(now) == 0,
            self.after_error(addr, at).hosts[0].endpoint == self.hosts[0].endpoint,
    {
        self.lemma_selection_exists(now);
        self.lemma_error_keeps_valid(addr, at);
        self.after_error(addr, at).lemma_selection_exists(now);
    }

    /// The errors on record for the endpoint of host `i` are those of host
    /// `i`.
    pub proof fn lemma_errors_of_host(self, i: int)
        requires
            self.valid(),
            0 <= i < self.hosts.len(),
        ensures
            self.knows(self.hosts[i].endpoint),
            self.errors_of(self.hosts[i].endpoint) == self.hosts[i].consecutive_errors,
    {
        let addr = self.hosts[i].endpoint;
        let c = choose|c: int| 0 <= c < self.hosts.len() && #[trigger] self.hosts[c].endpoint == addr;
        assert(self.hosts[c] == self.hosts[i]);
    }

    /// After a success was reported for `addr`, `addr` is not on cooldown at
    /// any instant and has no error on record.
    pub proof fn lemma_success_clears(self, addr: Endpoint, now: u64)
        requires
            self.valid(),
        ensures
            !self.after_success(addr).on_cooldown(addr, now),
            self.after_success(addr).errors_of(addr) == 0,
    {
        let after = self.after_success(addr);
        self.lemma_success_keeps_valid(addr);
        if after.knows(addr) {
            let c = choose|c: int| 0 <= c < after.hosts.len() && #[trigger] after.hosts[c].endpoint == addr;
            after.lemma_errors_of_host(c);
            assert(self.hosts[c].endpoint == addr);
        }
    }

    /// An error reported for `addr` at `now` puts `addr` on cooldown at
    /// `now`, if the registry holds it and the clock has not run out.
    pub proof fn lemma_error_cools(self, addr: Endpoint, now: u64)
        requires
            self.valid(),
            self.knows(addr),
            now < u64::MAX,
        ensures
            self.after_error(addr, now).on_cooldown(addr, now),
    {
        let after = self.after_error(addr, now);
        let c = choose|c: int| 0 <= c < self.hosts.len() && #[trigger] self.hosts[c].endpoint == addr;
        assert(after.hosts[c].endpoint == addr);
        assert(backoff_factor(self.hosts[c].consecutive_errors as nat) >= 1) by {
            vstd::arithmetic::power2::lemma_pow2_pos(self.hosts[c].consecutive_errors as nat);
        }
        assert(after.hosts[c].cooldown_until > now) by (nonlinear_arith)
            requires
                after.hosts[c].cooldown_until == cooldown_deadline(
                    now,
                    self.hosts[c].consecutive_errors as nat,
                ),
                backoff_factor(self.hosts[c].consecutive_errors as nat) >= 1,
                now < u64::MAX,
        ;
    }

    /// The errors on record for an endpoint never go down but by a success
    /// reported for that endpoint: not by an error report, not by a
    /// selection, not by a success of another endpoint.
    pub proof fn lemma_errors_monotone(self, h: Endpoint, addr: Endpoint, now: u64)
        requires
            self.valid(),
        ensures
            self.after_error(addr, now).errors_of(h) >= self.errors_of(h),
            self.after_selection(now).errors_of(h) == self.errors_of(h),
            addr != h ==> self.after_success(addr).errors_of(h) == self.errors_of(h),
    {
        self.lemma_error_keeps_valid(addr, now);
        self.lemma_success_keeps_valid(addr);
        self.lemma_selection_keeps_valid(now);
        let e = self.after_error(addr, now);
        let s = self.after_success(addr);
        let n = self.after_selection(now);
        if self.knows(h) {
            let c = choose|c: int| 0 <= c < self.hosts.len() && #[trigger] self.hosts[c].endpoint == h;
            self.lemma_errors_of_host(c);
            assert(e.hosts[c].endpoint == h);
            e.lemma_errors_of_host(c);
            assert(n.hosts[c].endpoint == h);
            n.lemma_errors_of_host(c);
            assert(s.hosts[c].endpoint == h);
            s.lemma_errors_of_host(c);
        } else {
            assert forall|i: int| 0 <= i < e.hosts.len() implies (#[trigger] e.hosts[i]).endpoint
                != h by {
                assert(self.hosts[i].endpoint != h);
            }
            assert forall|i: int| 0 <= i < s.hosts.len() implies (#[trigger] s.hosts[i]).endpoint
                != h by {
                assert(self.hosts[i].endpoint != h);
            }
            assert forall|i: int| 0 <= i < n.hosts.len() implies (#[trigger] n.hosts[i]).endpoint
                != h by {
                assert(self.hosts[i].endpoint != h);
            }
        }
    }

    /// An error report keeps a valid registry valid.
    pub proof fn lemma_error_keeps_valid(self, addr: Endpoint, now: u64)
        requires
            self.valid(),
        ensures
            self.after_error(addr, now).valid(),
    {
    }

    /// A success report keeps a valid registry valid.
    pub proof fn lemma_success_keeps_valid(self, addr: Endpoint)
        requires
            self.valid(),
        ensures
            self.after_success(addr).valid(),
    {
    }
}

} // verus!
