//! The conductor: its workers and clients, and how a client comes to a worker.

use crate::args::Threads;
use crate::clients;
use crate::clients::{ActiveClientInfo, ActiveClients};
use crate::config::Config;
use crate::env_cache;
use crate::env_cache::EnvCache;
use crate::pools;
use crate::pools::Pools;
use crate::pressure::PressureMonitor;
use crate::protocol::{PortPool, PORT_POOL_NONE};
use crate::request;
use crate::request::{ClientPlan, ClientRequest};
use crate::selection::Limits;
use crate::worker::Worker;
use vstd::prelude::*;

verus! {

/// A worker on its way out, and the pool that it was in.
pub struct PendingKill {
    pub key: String,
    pub worker: Worker,
}

pub struct Conductor {
    pub config: Config,
    pub pools: Pools,
    pub active_clients: ActiveClients,
    pub port_pool: Option<PortPool>,
    /// A worker that waits for the first client without one.
    pub reserve: Option<Worker>,
    pub next_worker_id: u32,
    pub client_counter: u32,
    pub env_cache: EnvCache,
    pub pending_kills: Vec<PendingKill>,
    pub pressure: PressureMonitor,
}

// ---------------------------------------------------------------------
// Model
// ---------------------------------------------------------------------

/// For each set of ports, whether it is free; none where there is no pool.
pub open spec fn free_sets(p: Option<PortPool>) -> Seq<bool> {
    match p {
        Some(pool) => pool.free_sets(),
        None => Seq::empty(),
    }
}

/// There is a pool of ports where there was one, and it begins at the same
/// port.
pub open spec fn same_pool(after: Option<PortPool>, before: Option<PortPool>) -> bool {
    &&& after is Some == before is Some
    &&& after matches Some(p) ==> p.first_port() == before->0.first_port()
}

/// The sets of ports after `set` was given back.
pub open spec fn given_back(free: Seq<bool>, set: u16) -> Seq<bool> {
    if set != PORT_POOL_NONE && set < free.len() {
        free.update(set as int, true)
    } else {
        free
    }
}

impl Conductor {
    /// No two workers have the same number, numbers that were not given yet
    /// belong to nobody, the reserve has no session, and all parts are sound.
    pub open spec fn wf(&self) -> bool {
        &&& self.pools.wf()
        &&& self.active_clients.wf()
        &&& self.env_cache.wf()
        &&& self.port_pool matches Some(p) ==> p.wf()
        &&& self.reserve matches Some(r) ==> r.wf() && !pools::has_worker(self.pools@, r.id)
            && r.id < self.next_worker_id && r.session_label is None
        &&& forall|p: int, i: int|
            pools::in_range(self.pools@, p, i) ==> #[trigger] self.pools@[p].workers[i].id
                < self.next_worker_id
    }

    /// The reserve has the number `id`.
    pub open spec fn reserve_is(&self, id: u32) -> bool {
        self.reserve matches Some(r) && r.id == id
    }

    /// Some worker has the number `id`.
    pub open spec fn knows(&self, id: u32) -> bool {
        self.reserve_is(id) || pools::has_worker(self.pools@, id)
    }

    /// The worker with the number `id`.
    pub open spec fn worker(&self, id: u32) -> Worker {
        if self.reserve_is(id) {
            self.reserve->0
        } else {
            pools::worker_in(self.pools@, id)
        }
    }

    /// This is `other` with `w` in place of the worker of the same number,
    /// and nothing else is different.
    pub open spec fn has_instead(&self, other: &Conductor, w: Worker) -> bool {
        &&& *self == (Conductor { pools: self.pools, reserve: self.reserve, ..*other })
        &&& if other.reserve_is(w.id) {
            self.reserve == Some(w) && self.pools@ == other.pools@
        } else {
            self.reserve == other.reserve && self.pools@ == pools::with_worker(other.pools@, w)
        }
    }

    pub open spec fn limit(&self) -> Limits {
        Limits { max_clients: self.config.worker_maxclients, label_ttl: self.config.label_ttl }
    }

    /// No two clients have the same ports, and ports that a client has are
    /// not free.
    pub open spec fn ports_sound(&self) -> bool {
        &&& clients::ports_exclusive(self.active_clients@)
        &&& forall|pid: u32|
            self.active_clients@.contains_key(pid) ==> {
                let set = (#[trigger] self.active_clients@[pid]).port_set;
                set != PORT_POOL_NONE && set < free_sets(self.port_pool).len() ==> !free_sets(
                    self.port_pool,
                )[set as int]
            }
    }
}

// ---------------------------------------------------------------------
// Beginning
// ---------------------------------------------------------------------

impl Conductor {
    pub fn new(config: Config, pressure: PressureMonitor) -> (r: Self)
        ensures
            r.wf(),
            r.config == config,
            r.pressure == pressure,
            r.pools@.len() == 0,
            r.active_clients@ == Map::<u32, ActiveClientInfo>::empty(),
            r.reserve is None,
            r.next_worker_id == 0,
            r.client_counter == 0,
            r.env_cache.uses() == 0,
            r.env_cache.slots() == Seq::new(env_cache::SLOTS as nat, |i: int| None::<env_cache::Kept>),
            r.pending_kills@.len() == 0,
            r.port_pool is Some <==> config.port_range is Some,
            match config.port_range {
                Some((base, count)) => r.port_pool matches Some(p) && p.first_port() == base
                    && p.free_sets() == Seq::new(count as nat, |i: int| true),
                None => r.port_pool is None,
            },
            r.ports_sound(),
    {
        let port_pool = match config.port_range {
            Some((base, count)) => Some(PortPool::new(base, count)),
            None => None,
        };
        Conductor {
            config,
            pools: Pools::new(),
            active_clients: ActiveClients::new(),
            port_pool,
            reserve: None,
            next_worker_id: 0,
            client_counter: 0,
            env_cache: EnvCache::new(),
            pending_kills: Vec::new(),
            pressure,
        }
    }

    pub fn limits(&self) -> (r: Limits)
        ensures
            r == self.limit(),
    {
        Limits { max_clients: self.config.worker_maxclients, label_ttl: self.config.label_ttl }
    }

    // -----------------------------------------------------------------
    // Looking for workers
    // -----------------------------------------------------------------

    /// The worker with the number `id`.
    pub fn get_worker(&self, id: u32) -> (r: Option<&Worker>)
        requires
            self.wf(),
        ensures
            match r {
                Some(w) => self.knows(id) && *w == self.worker(id) && w.id == id,
                None => !self.knows(id),
            },
    {
        if let Some(r) = &self.reserve {
            if r.id == id {
                return Some(r);
            }
        }
        match self.pools.find(id) {
            Some((p, i)) => {
                proof {
                    pools::lemma_worker_in(self.pools@, p as int, i as int);
                }
                Some(self.pools.get(p, i))
            },
            None => None,
        }
    }

    /// The worker with the number `id`, to be changed.
    pub fn get_worker_mut(&mut self, id: u32) -> (r: Option<&mut Worker>)
        requires
            old(self).wf(),
        ensures
            match r {
                Some(w) => {
                    &&& old(self).knows(id)
                    &&& *w == old(self).worker(id)
                    &&& w.id == id
                    &&& w.wf()
                    &&& (final(w).id == id && final(w).wf() && (old(self).reserve_is(id)
                        ==> final(w).session_label is None)) ==> final(self).wf() && final(
                        self).has_instead(old(self), *final(w))
                },
                None => !old(self).knows(id) && *final(self) == *old(self),
            },
    {
        let in_reserve: bool = match &self.reserve {
            Some(r) => r.id == id,
            None => false,
        };
        if in_reserve {
            return self.reserve.as_mut();
        }
        let ghost before = self.pools@;
        match self.pools.find(id) {
            Some((p, i)) => {
                proof {
                    pools::lemma_worker_in(before, p as int, i as int);
                    assert forall|w: Worker| w.id == id implies #[trigger] pools::replaced(
                        before,
                        p as int,
                        i as int,
                        w,
                    ) == pools::with_worker(before, w) by {
                        pools::lemma_with_worker(before, p as int, i as int, w);
                    }
                    assert forall|w: Worker, k: u32|
                        #![trigger pools::has_worker(pools::with_worker(before, w), k)]
                        pools::has_worker(pools::with_worker(before, w), k) == pools::has_worker(
                            before,
                            k,
                        ) by {
                        lemma_same_numbers(before, w);
                    }
                    assert forall|w: Worker, q: int, j: int|
                        #![trigger pools::with_worker(before, w)[q].workers[j].id]
                        pools::in_range(pools::with_worker(before, w), q, j) implies
                        pools::in_range(before, q, j) && pools::with_worker(
                        before,
                        w,
                    )[q].workers[j].id == before[q].workers[j].id by {
                        lemma_same_numbers(before, w);
                    }
                }
                Some(self.pools.worker_mut(p, i))
            },
            None => None,
        }
    }
}

/// Changing a worker changes no numbers.
proof fn lemma_same_numbers(s: Seq<pools::PoolView>, w: Worker)
    ensures
        forall|id: u32|
            pools::has_worker(pools::with_worker(s, w), id) <==> pools::has_worker(s, id),
        forall|p: int, i: int|
            pools::in_range(pools::with_worker(s, w), p, i) <==> pools::in_range(s, p, i),
        forall|p: int, i: int|
            pools::in_range(s, p, i) ==> #[trigger] pools::with_worker(s, w)[p].workers[i].id
                == s[p].workers[i].id,
{
    let t = pools::with_worker(s, w);
    assert forall|p: int, i: int| pools::in_range(s, p, i) implies #[trigger] t[p].workers[i].id
        == s[p].workers[i].id by {}
    assert forall|id: u32| pools::has_worker(t, id) == pools::has_worker(s, id) by {
        if pools::has_worker(s, id) {
            let (p, i) = choose|p: int, i: int|
                pools::in_range(s, p, i) && #[trigger] s[p].workers[i].id == id;
            assert(pools::in_range(t, p, i) && t[p].workers[i].id == id);
        }
        if pools::has_worker(t, id) {
            let (p, i) = choose|p: int, i: int|
                pools::in_range(t, p, i) && #[trigger] t[p].workers[i].id == id;
            assert(pools::in_range(s, p, i) && s[p].workers[i].id == id);
        }
    }
}

// ---------------------------------------------------------------------
// Requests
// ---------------------------------------------------------------------

impl Conductor {
    /// A worker that serves the session `label`, in whatever pool; where
    /// several do, any of them.
    pub fn find_worker_by_label_global(&self, label: &str) -> (r: Option<u32>)
        ensures
            match r {
                Some(id) => exists|p: int, i: int|
                    pools::in_range(self.pools@, p, i) && (
                    #[trigger] self.pools@[p].workers[i]).serves(label@)
                        && self.pools@[p].workers[i].id == id,
                None => forall|p: int, i: int|
                    pools::in_range(self.pools@, p, i) ==> !(
                    #[trigger] self.pools@[p].workers[i]).serves(label@),
            },
    {
        let mut p: usize = 0;
        while p < self.pools.len()
            invariant
                p <= self.pools@.len(),
                forall|q: int, j: int|
                    0 <= q < p && pools::in_range(self.pools@, q, j) ==> !(
                    #[trigger] self.pools@[q].workers[j]).serves(label@),
            decreases self.pools@.len() - p,
        {
            let ws = self.pools.workers(p);
            let mut i: usize = 0;
            while i < ws.len()
                invariant
                    p < self.pools@.len(),
                    ws@ == self.pools@[p as int].workers,
                    i <= ws@.len(),
                    forall|j: int|
                        0 <= j < i ==> !(#[trigger] self.pools@[p as int].workers[j]).serves(
                            label@,
                        ),
                decreases ws@.len() - i,
            {
                if ws[i].is_serving(label) {
                    assert(pools::in_range(self.pools@, p as int, i as int));
                    assert(self.pools@[p as int].workers[i as int].serves(label@));
                    return Some(ws[i].id);
                }
                i = i + 1;
            }
            p = p + 1;
        }
        None
    }

    /// Counts a client and decides what becomes of its request.
    pub fn plan_client(&mut self, q: &ClientRequest, is_remote: bool, linux: bool) -> (r: (
        u32,
        ClientPlan<String, Threads>,
    ))
        requires
            old(self).client_counter < u32::MAX,
        ensures
            *final(self) == (Conductor {
                client_counter: (old(self).client_counter + 1) as u32,
                ..*old(self)
            }),
            r.0 == old(self).client_counter + 1,
            exists|found: Option<u32>|
                {
                    &&& #[trigger] old(self).serves_session(
                        q.joins(
                            q.mode(is_remote, old(self).config.sandbox_remote_clients),
                            old(self).config.sandbox_session_bypass,
                        ),
                        found,
                    )
                    &&& request::plan_view(r.1) == q.plan(
                        is_remote,
                        old(self).config.sandbox_remote_clients,
                        linux,
                        found,
                    )
                },
    {
        self.client_counter = self.client_counter + 1;
        let confined = self.config.sandbox_remote_clients;
        let mode = q.sandbox_mode(is_remote, confined);
        let found: Option<u32> = match q.joined_session(mode, self.config.sandbox_session_bypass) {
            Some(label) => self.find_worker_by_label_global(label),
            None => None,
        };
        assert(old(self).serves_session(
            q.joins(
                q.mode(is_remote, old(self).config.sandbox_remote_clients),
                old(self).config.sandbox_session_bypass,
            ),
            found,
        ));
        (self.client_counter, q.decide(is_remote, confined, linux, found))
    }

    /// `found` is a worker that serves `label`, or none where there is none.
    pub open spec fn serves_session(&self, label: Option<Seq<char>>, found: Option<u32>) -> bool {
        match label {
            None => found is None,
            Some(l) => match found {
                Some(id) => exists|p: int, i: int|
                    pools::in_range(self.pools@, p, i) && (
                    #[trigger] self.pools@[p].workers[i]).serves(l)
                        && self.pools@[p].workers[i].id == id,
                None => forall|p: int, i: int|
                    pools::in_range(self.pools@, p, i) ==> !(
                    #[trigger] self.pools@[p].workers[i]).serves(l),
            },
        }
    }

    /// Whether one more client can be counted.
    pub fn can_count_client(&self) -> (r: bool)
        ensures
            r == (self.client_counter < u32::MAX),
    {
        self.client_counter < u32::MAX
    }

    // -----------------------------------------------------------------
    // Ports
    // -----------------------------------------------------------------

    /// This is `other` after the set of ports `set` was taken: the lowest free
    /// one, none where there is no pool. Where all are taken, `set` is `None`
    /// and nothing changes.
    pub open spec fn has_allocated(&self, other: &Conductor, set: Option<u16>) -> bool {
        let free = free_sets(other.port_pool);
        &&& *self == (Conductor { port_pool: self.port_pool, ..*other })
        &&& match set {
            Some(s) => if other.port_pool is None {
                s == PORT_POOL_NONE && self.port_pool is None
            } else {
                &&& s < free.len()
                &&& free[s as int]
                &&& forall|j: int| 0 <= j < s ==> !free[j]
                &&& self.port_pool is Some
                &&& self.port_pool->0.first_port() == other.port_pool->0.first_port()
                &&& free_sets(self.port_pool) == free.update(s as int, false)
            },
            None => {
                &&& other.port_pool is Some
                &&& forall|j: int| 0 <= j < free.len() ==> !free[j]
                &&& self.port_pool is Some
                &&& self.port_pool->0.first_port() == other.port_pool->0.first_port()
                &&& free_sets(self.port_pool) == free
            },
        }
    }

    /// Takes a set of ports for a client: the lowest free one, none where
    /// there is no pool; `None` where all are taken.
    pub fn allocate_port_set(&mut self) -> (r: Option<u16>)
        requires
            old(self).wf(),
        ensures
            final(self).wf(),
            final(self).has_allocated(old(self), r),
            old(self).ports_sound() ==> final(self).ports_sound(),
            (old(self).ports_sound() && r is Some && r->0 != PORT_POOL_NONE)
                ==> clients::nobody_has(final(self).active_clients@, r->0),
    {
        match &mut self.port_pool {
            Some(pool) => pool.allocate(),
            None => Some(PORT_POOL_NONE),
        }
    }

    /// Gives a set of ports back.
    pub fn release_port_set(&mut self, port_set: u16)
        requires
            old(self).wf(),
        ensures
            final(self).wf(),
            *final(self) == (Conductor { port_pool: final(self).port_pool, ..*old(self) }),
            free_sets(final(self).port_pool) == given_back(
                free_sets(old(self).port_pool),
                port_set,
            ),
            same_pool(final(self).port_pool, old(self).port_pool),
            (old(self).ports_sound() && clients::nobody_has(
                old(self).active_clients@,
                port_set,
            )) ==> final(self).ports_sound(),
    {
        if port_set != PORT_POOL_NONE {
            if let Some(pool) = &mut self.port_pool {
                pool.release(port_set);
            }
        }
    }
}

} // verus!
