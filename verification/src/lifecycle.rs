//! How clients leave and workers go.

use crate::clients;
use crate::clients::ActiveClientInfo;
use crate::conductor;
use crate::conductor::{Conductor, PendingKill};
use crate::pools;
use crate::protocol::PORT_POOL_NONE;
use crate::selection;
use crate::text::owned;
use crate::worker::{RetireStage, Worker};
use vstd::prelude::*;

verus! {

// ---------------------------------------------------------------------
// Clients that leave
// ---------------------------------------------------------------------

/// One of the clients `gone` had the ports `j`.
pub open spec fn had_ports(m: Map<u32, ActiveClientInfo>, gone: Set<u32>, j: int) -> bool {
    exists|pid: u32|
        gone.contains(pid) && m.contains_key(pid) && (#[trigger] m[pid]).port_set == j
            && m[pid].port_set != PORT_POOL_NONE
}

/// The sets of ports after the clients `gone` have left.
pub open spec fn freed(
    free: Seq<bool>,
    m: Map<u32, ActiveClientInfo>,
    gone: Set<u32>,
) -> Seq<bool> {
    Seq::new(free.len(), |j: int| free[j] || had_ports(m, gone, j))
}

impl Conductor {
    /// This is `other` without the clients `gone`, whose ports are free again,
    /// and nothing else is different.
    pub open spec fn lacks(&self, other: &Conductor, gone: Set<u32>) -> bool {
        &&& *self == (Conductor {
            active_clients: self.active_clients,
            port_pool: self.port_pool,
            ..*other
        })
        &&& self.lacks_clients(other, gone)
    }

    /// The clients and ports are those of `other` without the clients `gone`.
    pub open spec fn lacks_clients(&self, other: &Conductor, gone: Set<u32>) -> bool {
        &&& self.active_clients@ == other.active_clients@.remove_keys(gone)
        &&& conductor::free_sets(self.port_pool) == freed(
            conductor::free_sets(other.port_pool),
            other.active_clients@,
            gone,
        )
        &&& self.port_pool is Some == other.port_pool is Some
        &&& self.port_pool matches Some(p) ==> p.first_port() == other.port_pool->0.first_port()
    }
}

/// Ports stay sound when clients leave.
pub proof fn law_ports_stay_sound(before: Conductor, after: Conductor, gone: Set<u32>)
    requires
        before.ports_sound(),
        after.lacks_clients(&before, gone),
    ensures
        after.ports_sound(),
{
    let m = before.active_clients@;
    let n = after.active_clients@;
    assert forall|a: u32, b: u32|
        n.contains_key(a) && n.contains_key(b) && a != b && (#[trigger] n[a]).port_set
            != PORT_POOL_NONE implies n[a].port_set != (#[trigger] n[b]).port_set by {
        assert(m.contains_key(a) && m.contains_key(b) && n[a] == m[a] && n[b] == m[b]);
    }
    assert forall|pid: u32| n.contains_key(pid) implies {
        let set = (#[trigger] n[pid]).port_set;
        set != PORT_POOL_NONE && set < conductor::free_sets(after.port_pool).len()
            ==> !conductor::free_sets(after.port_pool)[set as int]
    } by {
        let set = n[pid].port_set;
        assert(m.contains_key(pid) && n[pid] == m[pid]);
        if set != PORT_POOL_NONE && set < conductor::free_sets(after.port_pool).len() {
            if had_ports(m, gone, set as int) {
                let q = choose|q: u32|
                    gone.contains(q) && m.contains_key(q) && (#[trigger] m[q]).port_set == set
                        && m[q].port_set != PORT_POOL_NONE;
                assert(q != pid);
                assert(m[q].port_set == m[pid].port_set);
            }
        }
    }
}

impl Conductor {
    /// Takes a client off and gives its ports back.
    fn forget_client(&mut self, pid: u32) -> (r: Option<ActiveClientInfo>)
        requires
            old(self).wf(),
        ensures
            final(self).wf(),
            match r {
                Some(info) => old(self).active_clients@.contains_key(pid) && old(
                    self).active_clients@[pid] == info && final(self).lacks(
                    old(self),
                    set![pid],
                ),
                None => !old(self).active_clients@.contains_key(pid) && *final(self) == *old(
                    self,
                ),
            },
    {
        let ghost m = self.active_clients@;
        if self.active_clients.get(pid).is_none() {
            return None;
        }
        let ghost free = conductor::free_sets(self.port_pool);
        match self.active_clients.remove(pid) {
            Some(info) => {
                self.release_port_set(info.port_set);
                proof {
                    assert(m.remove(pid) =~= m.remove_keys(set![pid]));
                    let now = conductor::free_sets(self.port_pool);
                    assert forall|j: int| 0 <= j < free.len() implies now[j] == (free[j]
                        || had_ports(m, set![pid], j)) by {
                        if j == info.port_set && info.port_set != PORT_POOL_NONE {
                            assert(set![pid].contains(pid) && m[pid].port_set == j);
                        }
                    }
                    assert(now =~= freed(free, m, set![pid]));
                }
                Some(info)
            },
            None => None,
        }
    }

    /// Takes all clients of the worker `id` off and gives their ports back.
    pub fn remove_active_clients_for_worker(&mut self, id: u32)
        requires
            old(self).wf(),
        ensures
            final(self).wf(),
            final(self).lacks(old(self), clients::clients_of(old(self).active_clients@, id)),
    {
        let pids = self.active_clients.of_worker(id);
        let ghost m = self.active_clients@;
        let ghost all = clients::clients_of(m, id);
        let mut i: usize = 0;
        proof {
            assert(m.remove_keys(Set::empty()) =~= m);
            assert(freed(conductor::free_sets(self.port_pool), m, Set::empty())
                =~= conductor::free_sets(self.port_pool));
            assert(pids@.take(0).to_set() =~= Set::empty());
        }
        while i < pids.len()
            invariant
                i <= pids@.len(),
                self.wf(),
                m == old(self).active_clients@,
                all == clients::clients_of(m, id),
                pids@.no_duplicates(),
                forall|pid: u32| pids@.contains(pid) <==> all.contains(pid),
                self.lacks(old(self), pids@.take(i as int).to_set()),
            decreases pids@.len() - i,
        {
            let ghost mid = *self;
            let ghost done = pids@.take(i as int).to_set();
            let pid: u32 = pids[i];
            let gone = self.forget_client(pid);
            proof {
                assert(pids@.contains(pid));
                assert(all.contains(pid));
                assert(!done.contains(pid)) by {
                    if done.contains(pid) {
                        let j = pids@.take(i as int).index_of(pid);
                        assert(pids@[j] == pids@[i as int]);
                    }
                }
                let more = pids@.take(i + 1).to_set();
                assert(pids@.take(i + 1) =~= pids@.take(i as int).push(pid));
                assert(more =~= done.insert(pid)) by {
                    assert forall|q: u32| more.contains(q) == done.insert(pid).contains(q) by {
                        let a = pids@.take(i as int);
                        let b = a.push(pid);
                        if b.contains(q) {
                            let j = b.index_of(q);
                            if j < a.len() {
                                assert(a[j] == q);
                            }
                        }
                        if a.contains(q) {
                            let j = a.index_of(q);
                            assert(b[j] == q);
                        }
                        if q == pid {
                            assert(b[a.len() as int] == q);
                        }
                    }
                }
                assert(mid.active_clients@[pid] == m[pid]);
                assert(m.remove_keys(done).remove_keys(set![pid]) =~= m.remove_keys(more));
                let free = conductor::free_sets(old(self).port_pool);
                let a = conductor::free_sets(mid.port_pool);
                assert forall|j: int| 0 <= j < free.len() implies (a[j] || had_ports(
                    mid.active_clients@,
                    set![pid],
                    j,
                )) == (free[j] || had_ports(m, more, j)) by {
                    lemma_had_ports(m, done, pid, j);
                }
                assert(conductor::free_sets(self.port_pool) =~= freed(free, m, more));
            }
            i = i + 1;
        }
        proof {
            assert(pids@.take(i as int) =~= pids@);
            assert(pids@.to_set() =~= all);
        }
    }
}

/// Who had the ports `j`, among one client more.
proof fn lemma_had_ports(m: Map<u32, ActiveClientInfo>, done: Set<u32>, pid: u32, j: int)
    requires
        m.contains_key(pid),
        !done.contains(pid),
    ensures
        had_ports(m, done.insert(pid), j) == (had_ports(m, done, j) || had_ports(
            m.remove_keys(done),
            set![pid],
            j,
        )),
{
    let more = done.insert(pid);
    let rest = m.remove_keys(done);
    assert(rest.contains_key(pid) && rest[pid] == m[pid]);
    if had_ports(m, more, j) {
        let q = choose|q: u32|
            more.contains(q) && m.contains_key(q) && (#[trigger] m[q]).port_set == j
                && m[q].port_set != PORT_POOL_NONE;
        if q == pid {
            assert(set![pid].contains(pid) && rest[pid].port_set == j);
        } else {
            assert(done.contains(q) && m[q].port_set == j);
        }
    }
    if had_ports(m, done, j) {
        let q = choose|q: u32|
            done.contains(q) && m.contains_key(q) && (#[trigger] m[q]).port_set == j
                && m[q].port_set != PORT_POOL_NONE;
        assert(more.contains(q) && m[q].port_set == j);
    }
    if had_ports(rest, set![pid], j) {
        assert(more.contains(pid) && m[pid].port_set == j);
    }
}

// ---------------------------------------------------------------------
// Workers that go
// ---------------------------------------------------------------------

/// The place of the worker `id` among `ws`, or their number.
pub open spec fn number_place(ws: Seq<Worker>, id: u32) -> int {
    selection::first_where(ws, |w: Worker| w.id == id)
}

/// All workers of `t` are workers of `s`.
pub open spec fn numbers_within(t: Seq<pools::PoolView>, s: Seq<pools::PoolView>) -> bool {
    forall|p: int, i: int|
        pools::in_range(t, p, i) ==> pools::has_worker(s, #[trigger] t[p].workers[i].id)
}

pub proof fn lemma_within(before: Conductor, t: Seq<pools::PoolView>)
    requires
        before.wf(),
        numbers_within(t, before.pools@),
    ensures
        forall|p: int, i: int|
            pools::in_range(t, p, i) ==> #[trigger] t[p].workers[i].id < before.next_worker_id,
        before.reserve matches Some(r) ==> !pools::has_worker(t, r.id),
{
    assert forall|p: int, i: int| pools::in_range(t, p, i) implies #[trigger] t[p].workers[i].id
        < before.next_worker_id by {
        crate::assignment::lemma_number_below(before, t[p].workers[i].id);
    }
    if let Some(r) = before.reserve {
        if pools::has_worker(t, r.id) {
            let (p, i) = choose|p: int, i: int|
                pools::in_range(t, p, i) && #[trigger] t[p].workers[i].id == r.id;
            assert(pools::has_worker(before.pools@, t[p].workers[i].id));
        }
    }
}

pub proof fn lemma_removed_within(s: Seq<pools::PoolView>, p: int, i: int)
    requires
        pools::in_range(s, p, i),
    ensures
        numbers_within(pools::removed(s, p, i), s),
        numbers_within(pools::swap_removed(s, p, i), s),
{
    let t = pools::removed(s, p, i);
    assert forall|q: int, j: int| pools::in_range(t, q, j) implies pools::has_worker(
        s,
        #[trigger] t[q].workers[j].id,
    ) by {
        let k = if q == p && j >= i {
            j + 1
        } else {
            j
        };
        assert(pools::in_range(s, q, k) && s[q].workers[k].id == t[q].workers[j].id);
    }
    let u = pools::swap_removed(s, p, i);
    assert forall|q: int, j: int| pools::in_range(u, q, j) implies pools::has_worker(
        s,
        #[trigger] u[q].workers[j].id,
    ) by {
        let k = if q == p && j == i {
            s[p].workers.len() - 1
        } else {
            j
        };
        assert(pools::in_range(s, q, k) && s[q].workers[k].id == u[q].workers[j].id);
    }
}

pub proof fn lemma_pool_removed_within(s: Seq<pools::PoolView>, p: int)
    requires
        0 <= p < s.len(),
    ensures
        numbers_within(s.remove(p), s),
{
    let t = s.remove(p);
    assert forall|q: int, j: int| pools::in_range(t, q, j) implies pools::has_worker(
        s,
        #[trigger] t[q].workers[j].id,
    ) by {
        let k = if q >= p {
            q + 1
        } else {
            q
        };
        assert(pools::in_range(s, k, j) && s[k].workers[j].id == t[q].workers[j].id);
    }
}

impl Conductor {
    /// The worker `id` of the pool with `key` is there; the reserve counts as
    /// the worker of a pool without a name.
    pub open spec fn can_retire(&self, key: Seq<char>, id: u32) -> bool {
        (key.len() == 0 && self.reserve_is(id)) || number_place(self.pool(key), id) < self.pool(
            key,
        ).len()
    }

    /// The worker that goes.
    pub open spec fn retiree(&self, key: Seq<char>, id: u32) -> Worker {
        if key.len() == 0 && self.reserve_is(id) {
            self.reserve->0
        } else {
            self.pool(key)[number_place(self.pool(key), id)]
        }
    }

    /// This is `other` after the worker `id` of the pool with `key` was put on
    /// its way out at `now`, without its clients.
    pub open spec fn has_retired(
        &self,
        other: &Conductor,
        key: Seq<char>,
        id: u32,
        now: i64,
    ) -> bool {
        &&& *self == (Conductor {
            active_clients: self.active_clients,
            port_pool: self.port_pool,
            pools: self.pools,
            reserve: self.reserve,
            pending_kills: self.pending_kills,
            ..*other
        })
        &&& self.lacks_clients(other, clients::clients_of(other.active_clients@, id))
        &&& if key.len() == 0 && other.reserve_is(id) {
            self.reserve is None && self.pools@ == other.pools@
        } else {
            self.reserve == other.reserve && self.pools@ == pools::removed(
                other.pools@,
                pools::place_of(other.pools@, key),
                number_place(other.pool(key), id),
            )
        }
        &&& self.pending_kills@.len() == other.pending_kills@.len() + 1
        &&& self.pending_kills@.drop_last() == other.pending_kills@
        &&& self.pending_kills@.last().key@ == key
        &&& self.pending_kills@.last().worker == (Worker {
            retire_stage: RetireStage::Soft,
            retire_since: now,
            ..other.retiree(key, id)
        })
    }

    /// Puts a worker on its way out: it leaves its pool and its clients, and
    /// is to be asked to exit. Returns whether there was such a worker.
    pub fn retire_worker(&mut self, key: &str, id: u32, now: i64) -> (r: bool)
        requires
            old(self).wf(),
        ensures
            final(self).wf(),
            r == old(self).can_retire(key@, id),
            if r {
                final(self).has_retired(old(self), key@, id, now)
            } else {
                *final(self) == *old(self)
            },
    {
        let ghost before = *self;
        let mut taken: Option<Worker> = None;
        let is_reserve: bool = match &self.reserve {
            Some(r) => r.id == id,
            None => false,
        };
        if key.unicode_len() == 0 && is_reserve {
            taken = self.reserve.take();
        } else {
            match self.pools.position(key) {
                Some(p) => {
                    let ws = self.pools.workers(p);
                    let ghost f = |w: Worker| w.id == id;
                    let mut i: usize = 0;
                    while i < ws.len() && ws[i].id != id
                        invariant
                            i <= ws@.len(),
                            f == (|w: Worker| w.id == id),
                            forall|j: int| 0 <= j < i ==> !f(#[trigger] ws@[j]),
                        decreases ws@.len() - i,
                    {
                        i = i + 1;
                    }
                    proof {
                        selection::lemma_first_where_is(ws@, f, i as int);
                    }
                    if i < ws.len() {
                        taken = Some(self.pools.remove_worker(p, i));
                        proof {
                            lemma_removed_within(before.pools@, p as int, i as int);
                            lemma_within(before, self.pools@);
                        }
                    }
                },
                None => {
                    proof {
                        selection::lemma_first_where(
                            Seq::<Worker>::empty(),
                            |w: Worker| w.id == id,
                        );
                    }
                },
            }
        }
        match taken {
            None => false,
            Some(mut w) => {
                self.remove_active_clients_for_worker(id);
                w.retire_stage = RetireStage::Soft;
                w.retire_since = now;
                self.pending_kills.push(PendingKill { key: owned(key), worker: w });
                assert(self.pending_kills@.drop_last() =~= before.pending_kills@);
                true
            },
        }
    }
}

// ---------------------------------------------------------------------
// A client that is done
// ---------------------------------------------------------------------

/// What is left to do about a client that is done.
pub struct Done {
    pub info: ActiveClientInfo,
    /// Its worker has no client any more.
    pub went_idle: bool,
    /// Its worker was put on its way out, and is to be asked to exit.
    pub retired: bool,
    /// Its worker is to be asked whether it is well.
    pub check: bool,
}

/// The worker `w` after a client has left it.
pub open spec fn left_by_client(w: Worker, now: i64) -> Worker {
    Worker {
        active_clients: if w.active_clients > 0 {
            (w.active_clients - 1) as u32
        } else {
            0
        },
        last_active: now,
        ..w
    }
}

impl Conductor {
    /// This is `other` without the client `pid`, whose worker has one client
    /// less.
    pub open spec fn is_left_by(&self, other: &Conductor, pid: u32, now: i64) -> bool {
        let id = other.active_clients@[pid].worker_id;
        &&& self.lacks_clients(other, set![pid])
        &&& if other.knows(id) {
            &&& *self == (Conductor {
                active_clients: self.active_clients,
                port_pool: self.port_pool,
                pools: self.pools,
                reserve: self.reserve,
                ..*other
            })
            &&& if other.reserve_is(id) {
                self.reserve == Some(left_by_client(other.worker(id), now)) && self.pools@
                    == other.pools@
            } else {
                self.reserve == other.reserve && self.pools@ == pools::with_worker(
                    other.pools@,
                    left_by_client(other.worker(id), now),
                )
            }
        } else {
            *self == (Conductor {
                active_clients: self.active_clients,
                port_pool: self.port_pool,
                ..*other
            })
        }
    }

    /// This is `other` after the client `pid` was taken off, with `r` left to
    /// do. An interactive worker goes with its last client; any other that has
    /// no client left is to be looked after.
    pub open spec fn has_done(
        &self,
        other: &Conductor,
        pid: u32,
        now: i64,
        r: Option<Done>,
    ) -> bool {
        match r {
            None => !other.active_clients@.contains_key(pid) && *self == *other,
            Some(done) => {
                let info = other.active_clients@[pid];
                let known = other.knows(info.worker_id);
                let w = left_by_client(other.worker(info.worker_id), now);
                &&& other.active_clients@.contains_key(pid)
                &&& done.info == info
                &&& done.went_idle == (known && w.active_clients == 0)
                &&& done.retired == (done.went_idle && w.interactive && !other.reserve_is(
                    info.worker_id,
                ))
                &&& done.check == (done.went_idle && !w.interactive)
                &&& exists|mid: Conductor|
                    {
                        &&& #[trigger] mid.is_left_by(other, pid, now)
                        &&& if done.retired {
                            exists|key: Seq<char>|
                                {
                                    &&& #[trigger] mid.pool(key).contains(w)
                                    &&& self.has_retired(&mid, key, info.worker_id, now)
                                }
                        } else {
                            *self == mid
                        }
                    }
            },
        }
    }

    /// Takes off a client that is done. An interactive worker goes with its
    /// last client; any other that has no client left is to be looked after.
    pub fn client_done(&mut self, pid: u32, now: i64) -> (r: Option<Done>)
        requires
            old(self).wf(),
        ensures
            final(self).wf(),
            final(self).has_done(old(self), pid, now, r),
    {
        let ghost start = *self;
        let info = match self.forget_client(pid) {
            Some(info) => info,
            None => {
                return None;
            },
        };
        let id: u32 = info.worker_id;
        let mut went_idle: bool = false;
        let mut interactive: bool = false;
        if let Some(w) = self.get_worker_mut(id) {
            if w.active_clients > 0 {
                w.active_clients = w.active_clients - 1;
            }
            w.last_active = now;
            went_idle = w.active_clients == 0;
            interactive = w.interactive;
        }
        let ghost mid = *self;
        let ghost left = left_by_client(start.worker(id), now);
        proof {
            assert(mid.is_left_by(&start, pid, now));
            assert(mid.reserve_is(id) == start.reserve_is(id));
            if start.knows(id) && !start.reserve_is(id) {
                lemma_still_there(start.pools@, left);
            }
        }
        let mut retired: bool = false;
        if went_idle && interactive {
            match self.pools.find(id) {
                Some((p, i)) => {
                    let key = owned(self.pools.key(p));
                    proof {
                        lemma_pool_at(mid, p as int, i as int);
                        assert(mid.pools@[p as int].workers[i as int] == left);
                    }
                    retired = self.retire_worker(key.as_str(), id, now);
                },
                None => {},
            }
        }
        Some(Done { info, went_idle, retired, check: went_idle && !interactive })
    }
}

/// A worker that was changed is still there.
proof fn lemma_still_there(s: Seq<pools::PoolView>, w: Worker)
    requires
        pools::has_worker(s, w.id),
    ensures
        pools::has_worker(pools::with_worker(s, w), w.id),
{
    let (p, i) = choose|p: int, i: int|
        pools::in_range(s, p, i) && #[trigger] s[p].workers[i].id == w.id;
    let t = pools::with_worker(s, w);
    assert(pools::in_range(t, p, i) && t[p].workers[i].id == w.id);
}

/// A worker is where its pool's key says, and at one place only.
pub proof fn lemma_pool_at(c: Conductor, p: int, i: int)
    requires
        c.wf(),
        pools::in_range(c.pools@, p, i),
    ensures
        pools::place_of(c.pools@, c.pools@[p].key) == p,
        c.pool(c.pools@[p].key) == c.pools@[p].workers,
        c.pool(c.pools@[p].key).contains(c.pools@[p].workers[i]),
        number_place(c.pool(c.pools@[p].key), c.pools@[p].workers[i].id) == i,
        !c.reserve_is(c.pools@[p].workers[i].id),
        c.worker(c.pools@[p].workers[i].id) == c.pools@[p].workers[i],
{
    let s = c.pools@;
    pools::lemma_place_is(s, s[p].key, p);
    pools::lemma_worker_in(s, p, i);
    let ws = s[p].workers;
    let id = ws[i].id;
    let f = |w: Worker| w.id == id;
    assert forall|j: int| 0 <= j < i implies !f(#[trigger] ws[j]) by {
        assert(pools::in_range(s, p, j));
        assert(s[p].workers[j].id != s[p].workers[i].id);
    }
    selection::lemma_first_where_is(ws, f, i);
}

} // verus!
