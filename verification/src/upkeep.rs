//! What the conductor does from time to time: it looks after its workers, and
//! lets go of those that are no longer needed.

use crate::clients;
use crate::conductor;
use crate::conductor::{Conductor, PendingKill};
use crate::lifecycle;
use crate::pools;
use crate::selection;
use crate::worker::{RetireStage, Worker};
use vstd::prelude::*;

verus! {

// ---------------------------------------------------------------------
// Workers on their way out
// ---------------------------------------------------------------------

/// How many seconds a worker has for each stage of its way out.
pub const RETIRE_GRACE_SECS: i64 = 5;

/// What is to be done to a worker on its way out.
#[derive(Clone, Copy, Debug, PartialEq, Eq, Structural)]
pub enum KillAction {
    /// Ask it to terminate.
    Term(u32),
    /// Kill it, and clear away the directory that it had where it was
    /// confined.
    Kill(u32, bool),
    /// Forget it.
    Forget(u32),
}

/// The grace of a stage is over.
pub open spec fn grace_over(w: Worker, now: i64) -> bool {
    now - w.retire_since >= RETIRE_GRACE_SECS
}

/// What becomes of a worker on its way out: it is asked first, told to
/// terminate when the first grace is over, and killed when the second is.
pub open spec fn swept_one(pk: PendingKill, now: i64) -> (Option<PendingKill>, Option<KillAction>) {
    let w = pk.worker;
    match w.retire_stage {
        RetireStage::Soft => if grace_over(w, now) {
            (
                Some(
                    PendingKill {
                        worker: Worker {
                            retire_stage: RetireStage::Term,
                            retire_since: now,
                            ..w
                        },
                        ..pk
                    },
                ),
                Some(KillAction::Term(w.id)),
            )
        } else {
            (Some(pk), None)
        },
        RetireStage::Term => if grace_over(w, now) {
            (None, Some(KillAction::Kill(w.id, w.sandboxed)))
        } else {
            (Some(pk), None)
        },
        RetireStage::Running => (None, Some(KillAction::Forget(w.id))),
    }
}

pub open spec fn as_seq<A>(o: Option<A>) -> Seq<A> {
    match o {
        Some(a) => seq![a],
        None => Seq::empty(),
    }
}

/// Those that are still on their way.
pub open spec fn still_pending(pks: Seq<PendingKill>, now: i64) -> Seq<PendingKill>
    decreases pks.len(),
{
    if pks.len() == 0 {
        Seq::empty()
    } else {
        still_pending(pks.drop_last(), now) + as_seq(swept_one(pks.last(), now).0)
    }
}

/// What is to be done.
pub open spec fn kill_actions(pks: Seq<PendingKill>, now: i64) -> Seq<KillAction>
    decreases pks.len(),
{
    if pks.len() == 0 {
        Seq::empty()
    } else {
        kill_actions(pks.drop_last(), now) + as_seq(swept_one(pks.last(), now).1)
    }
}

pub open spec fn graces_fit(pks: Seq<PendingKill>, now: i64) -> bool {
    forall|i: int|
        0 <= i < pks.len() && (#[trigger] pks[i]).worker.retire_stage != RetireStage::Running
            ==> selection::fits(now, pks[i].worker.retire_since)
}

/// A worker is killed no sooner than two graces after it was asked to go, and
/// is told to terminate in between.
pub proof fn law_two_graces_before_the_kill(pk: PendingKill, b: i64, c: i64)
    requires
        pk.worker.retire_stage == RetireStage::Soft,
    ensures
        swept_one(pk, b).0 is Some,
        match swept_one(pk, b).1 {
            Some(a) => a == KillAction::Term(pk.worker.id) && (match swept_one(
                swept_one(pk, b).0->0,
                c,
            ).1 {
                Some(k) => k == KillAction::Kill(pk.worker.id, pk.worker.sandboxed) && c
                    >= pk.worker.retire_since + 2 * RETIRE_GRACE_SECS,
                None => c < b + RETIRE_GRACE_SECS,
            }),
            None => swept_one(pk, b).0 == Some(pk) && b < pk.worker.retire_since
                + RETIRE_GRACE_SECS,
        },
{
}

impl Conductor {
    /// Moves workers along on their way out.
    pub fn sweep_pending_kills(&mut self, now: i64) -> (r: Vec<KillAction>)
        requires
            old(self).wf(),
            graces_fit(old(self).pending_kills@, now),
        ensures
            final(self).wf(),
            *final(self) == (Conductor {
                pending_kills: final(self).pending_kills,
                ..*old(self)
            }),
            final(self).pending_kills@ == still_pending(old(self).pending_kills@, now),
            r@ == kill_actions(old(self).pending_kills@, now),
    {
        let ghost all = self.pending_kills@;
        let ghost mut k: int = 0;
        let mut actions: Vec<KillAction> = Vec::new();
        let mut i: usize = 0;
        assert(all.take(0) =~= Seq::empty());
        assert(Seq::<PendingKill>::empty() + all.skip(0) =~= all);
        while i < self.pending_kills.len()
            invariant
                old(self).wf(),
                graces_fit(all, now),
                all == old(self).pending_kills@,
                0 <= k <= all.len(),
                *self == (Conductor { pending_kills: self.pending_kills, ..*old(self) }),
                i == still_pending(all.take(k), now).len(),
                self.pending_kills@ == still_pending(all.take(k), now) + all.skip(k),
                actions@ == kill_actions(all.take(k), now),
            decreases all.len() - k,
        {
            let ghost done = still_pending(all.take(k), now);
            let ghost before = actions@;
            let ghost pk = all[k];
            proof {
                assert(self.pending_kills@[i as int] == pk);
                assert(all.take(k + 1).drop_last() =~= all.take(k));
                assert(all.take(k + 1).last() == pk);
                assert(done + all.skip(k) =~= (done + seq![pk]) + all.skip(k + 1));
            }
            let id: u32 = self.pending_kills[i].worker.id;
            let stage = self.pending_kills[i].worker.retire_stage;
            if stage == RetireStage::Running {
                self.pending_kills.remove(i);
                actions.push(KillAction::Forget(id));
                assert(self.pending_kills@ =~= done + all.skip(k + 1));
                assert(done + Seq::<PendingKill>::empty() =~= done);
            } else {
                let over: bool = now - self.pending_kills[i].worker.retire_since
                    >= RETIRE_GRACE_SECS;
                if !over {
                    assert(before + Seq::<KillAction>::empty() =~= before);
                    i = i + 1;
                } else if stage == RetireStage::Soft {
                    self.pending_kills[i].worker.retire_stage = RetireStage::Term;
                    self.pending_kills[i].worker.retire_since = now;
                    actions.push(KillAction::Term(id));
                    assert(self.pending_kills@ =~= (done + seq![
                        swept_one(pk, now).0->0,
                    ]) + all.skip(k + 1));
                    i = i + 1;
                } else {
                    let sandboxed = self.pending_kills[i].worker.sandboxed;
                    self.pending_kills.remove(i);
                    actions.push(KillAction::Kill(id, sandboxed));
                    assert(self.pending_kills@ =~= done + all.skip(k + 1));
                    assert(done + Seq::<PendingKill>::empty() =~= done);
                }
            }
            proof {
                assert(actions@ =~= before + as_seq(swept_one(pk, now).1));
                k = k + 1;
            }
        }
        proof {
            assert(k == all.len());
            assert(all.take(k) =~= all);
            assert(all.skip(k) =~= Seq::empty());
            assert(still_pending(all, now) + Seq::<PendingKill>::empty() =~= still_pending(
                all,
                now,
            ));
        }
        actions
    }
}

// ---------------------------------------------------------------------
// Workers that do not answer, and workers of a project
// ---------------------------------------------------------------------

/// What became of a worker that does not answer.
#[derive(Clone, Copy, Debug, PartialEq, Eq, Structural)]
pub enum Killed {
    /// It was the reserve, which is given up.
    Reserve,
    /// It is to be killed; where it was confined its directory goes.
    Worker(bool),
    /// There was no such worker.
    Unknown,
}

impl Conductor {
    /// This is `other` after the worker `id` was given up, with its clients
    /// where it is not the reserve.
    pub open spec fn has_killed(&self, other: &Conductor, id: u32, r: Killed) -> bool {
        match r {
            Killed::Reserve => other.reserve_is(id) && *self == (Conductor {
                reserve: None,
                ..*other
            }),
            Killed::Worker(sandboxed) => {
                &&& !other.reserve_is(id)
                &&& other.knows(id)
                &&& sandboxed == other.worker(id).sandboxed
                &&& *self == (Conductor {
                    active_clients: self.active_clients,
                    port_pool: self.port_pool,
                    pools: self.pools,
                    ..*other
                })
                &&& self.lacks_clients(other, clients::clients_of(other.active_clients@, id))
                &&& exists|p: int, i: int|
                    pools::in_range(other.pools@, p, i) && #[trigger] other.pools@[p].workers[i].id
                        == id && self.pools@ == pools::swap_removed(other.pools@, p, i)
            },
            Killed::Unknown => !other.knows(id) && self.lacks(
                other,
                clients::clients_of(other.active_clients@, id),
            ),
        }
    }

    /// Gives up a worker that does not answer.
    pub fn kill_unresponsive_worker(&mut self, id: u32) -> (r: Killed)
        requires
            old(self).wf(),
        ensures
            final(self).wf(),
            !final(self).knows(id),
            final(self).has_killed(old(self), id, r),
    {
        let is_reserve: bool = match &self.reserve {
            Some(r) => r.id == id,
            None => false,
        };
        if is_reserve {
            self.reserve = None;
            return Killed::Reserve;
        }
        self.remove_active_clients_for_worker(id);
        let ghost before = *self;
        match self.pools.find(id) {
            Some((p, i)) => {
                proof {
                    pools::lemma_worker_in(self.pools@, p as int, i as int);
                    assert(old(self).pools@[p as int].workers[i as int].id == id);
                }
                let w = self.pools.swap_remove_worker(p, i);
                proof {
                    lifecycle::lemma_removed_within(before.pools@, p as int, i as int);
                    lifecycle::lemma_within(before, self.pools@);
                }
                Killed::Worker(w.sandboxed)
            },
            None => Killed::Unknown,
        }
    }

    /// The clients of the workers `ws`.
    pub open spec fn clients_of_all(&self, ws: Seq<Worker>) -> Set<u32> {
        Set::new(
            |pid: u32|
                self.active_clients@.contains_key(pid) && exists|i: int|
                    0 <= i < ws.len() && (#[trigger] ws[i]).id
                        == self.active_clients@[pid].worker_id,
        )
    }

    /// Gives up the workers of the pool with `key`, which are to be asked to
    /// exit, and the pool with them.
    pub fn kill_workers_for_project(&mut self, key: &str) -> (r: Vec<Worker>)
        requires
            old(self).wf(),
        ensures
            final(self).wf(),
            r@ == old(self).pool(key@),
            *final(self) == (Conductor {
                active_clients: final(self).active_clients,
                port_pool: final(self).port_pool,
                pools: final(self).pools,
                ..*old(self)
            }),
            final(self).lacks_clients(old(self), old(self).clients_of_all(r@)),
            final(self).pools@ == if pools::has_pool(old(self).pools@, key@) {
                old(self).pools@.remove(pools::place_of(old(self).pools@, key@))
            } else {
                old(self).pools@
            },
    {
        let ghost start = *self;
        match self.pools.position(key) {
            None => {
                let none: Vec<Worker> = Vec::new();
                proof {
                    assert(start.clients_of_all(none@) =~= Set::empty());
                    lemma_lacks_nobody(start);
                }
                none
            },
            Some(p) => {
                let ws = self.pools.remove_pool(p);
                proof {
                    lifecycle::lemma_pool_removed_within(start.pools@, p as int);
                    lifecycle::lemma_within(start, self.pools@);
                    assert(start.clients_of_all(ws@.take(0)) =~= Set::empty());
                    lemma_lacks_nobody(start);
                }
                let mut i: usize = 0;
                while i < ws.len()
                    invariant
                        i <= ws@.len(),
                        self.wf(),
                        *self == (Conductor {
                            active_clients: self.active_clients,
                            port_pool: self.port_pool,
                            pools: self.pools,
                            ..start
                        }),
                        self.pools@ == start.pools@.remove(p as int),
                        self.lacks_clients(&start, start.clients_of_all(ws@.take(i as int))),
                    decreases ws@.len() - i,
                {
                    let ghost mid = *self;
                    self.remove_active_clients_for_worker(ws[i].id);
                    proof {
                        let a = start.clients_of_all(ws@.take(i as int));
                        let b = clients::clients_of(mid.active_clients@, ws@[i as int].id);
                        let c = start.clients_of_all(ws@.take(i + 1));
                        assert(c =~= a.union(b)) by {
                            lemma_more_clients(start, ws@, i as int, mid);
                        }
                        lemma_lacks_both(start, mid, *self, a, b);
                    }
                    i = i + 1;
                }
                assert(ws@.take(i as int) =~= ws@);
                ws
            },
        }
    }
}

proof fn lemma_lacks_nobody(c: Conductor)
    ensures
        c.lacks_clients(&c, Set::empty()),
{
    assert(c.active_clients@.remove_keys(Set::empty()) =~= c.active_clients@);
    assert(lifecycle::freed(
        conductor::free_sets(c.port_pool),
        c.active_clients@,
        Set::empty(),
    ) =~= conductor::free_sets(c.port_pool));
}

proof fn lemma_more_clients(start: Conductor, ws: Seq<Worker>, i: int, mid: Conductor)
    requires
        0 <= i < ws.len(),
        mid.lacks_clients(&start, start.clients_of_all(ws.take(i))),
    ensures
        start.clients_of_all(ws.take(i + 1)) == start.clients_of_all(ws.take(i)).union(
            clients::clients_of(mid.active_clients@, ws[i].id),
        ),
{
    let m = start.active_clients@;
    let a = start.clients_of_all(ws.take(i));
    let b = clients::clients_of(mid.active_clients@, ws[i].id);
    let c = start.clients_of_all(ws.take(i + 1));
    assert forall|pid: u32| c.contains(pid) == a.union(b).contains(pid) by {
        if c.contains(pid) && !a.contains(pid) {
            let j = choose|j: int|
                0 <= j < ws.take(i + 1).len() && (#[trigger] ws.take(i + 1)[j]).id
                    == m[pid].worker_id;
            if j < i {
                assert(ws.take(i)[j].id == m[pid].worker_id);
            }
            assert(j == i);
            assert(mid.active_clients@.contains_key(pid));
        }
        if a.contains(pid) {
            let j = choose|j: int|
                0 <= j < ws.take(i).len() && (#[trigger] ws.take(i)[j]).id == m[pid].worker_id;
            assert(ws.take(i + 1)[j].id == m[pid].worker_id);
        }
        if b.contains(pid) {
            assert(ws.take(i + 1)[i].id == m[pid].worker_id);
        }
    }
    assert(c =~= a.union(b));
}

/// Those who left in two steps.
proof fn lemma_lacks_both(
    start: Conductor,
    mid: Conductor,
    end: Conductor,
    a: Set<u32>,
    b: Set<u32>,
)
    requires
        mid.lacks_clients(&start, a),
        end.lacks_clients(&mid, b),
    ensures
        end.lacks_clients(&start, a.union(b)),
{
    let m = start.active_clients@;
    let c = a.union(b);
    assert(m.remove_keys(a).remove_keys(b) =~= m.remove_keys(c));
    let free = conductor::free_sets(start.port_pool);
    let mid_free = conductor::free_sets(mid.port_pool);
    assert forall|j: int| 0 <= j < free.len() implies (mid_free[j] || lifecycle::had_ports(
        mid.active_clients@,
        b,
        j,
    )) == (free[j] || lifecycle::had_ports(m, c, j)) by {
        if lifecycle::had_ports(m, c, j) {
            let q = choose|q: u32|
                c.contains(q) && m.contains_key(q) && (#[trigger] m[q]).port_set == j
                    && m[q].port_set != crate::protocol::PORT_POOL_NONE;
            if a.contains(q) {
                assert(m[q].port_set == j);
            } else {
                assert(mid.active_clients@[q].port_set == j);
            }
        }
        if lifecycle::had_ports(m, a, j) {
            let q = choose|q: u32|
                a.contains(q) && m.contains_key(q) && (#[trigger] m[q]).port_set == j
                    && m[q].port_set != crate::protocol::PORT_POOL_NONE;
            assert(c.contains(q) && m[q].port_set == j);
        }
        if lifecycle::had_ports(mid.active_clients@, b, j) {
            let q = choose|q: u32|
                b.contains(q) && mid.active_clients@.contains_key(q) && (
                #[trigger] mid.active_clients@[q]).port_set == j && mid.active_clients@[q].port_set
                    != crate::protocol::PORT_POOL_NONE;
            assert(c.contains(q) && m[q].port_set == j);
        }
    }
    assert(conductor::free_sets(end.port_pool) =~= lifecycle::freed(free, m, c));
}

} // verus!
