//! What becomes of workers and clients that leave.

use crate::assignment;
use crate::assignment::{Chosen, SpawnPlan};
use crate::clients;
use crate::conductor;
use crate::conductor::{Conductor, PendingKill};
use crate::lifecycle;
use crate::lifecycle::Done;
use crate::pools;
use crate::request::{ClientRequest, SandboxMode};
use crate::rounds;
use crate::text;
use crate::upkeep;
use crate::upkeep::{KillAction, Killed};
use crate::worker::{RetireStage, Worker};
use vstd::prelude::*;

verus! {

// ---------------------------------------------------------------------
// Clients that leave
// ---------------------------------------------------------------------

/// The client `pid` is entered with worker `id`.
pub open spec fn is_with(c: Conductor, pid: u32, id: u32) -> bool {
    c.active_clients@.contains_key(pid) && c.active_clients@[pid].worker_id == id
}

/// The client `pid` is entered in both, and alike.
pub open spec fn stays(before: Conductor, after: Conductor, pid: u32) -> bool {
    &&& before.active_clients@.contains_key(pid)
    &&& after.active_clients@.contains_key(pid)
    &&& after.active_clients@[pid] == before.active_clients@[pid]
}

/// The port set `j` is there and free.
pub open spec fn is_free(c: Conductor, j: int) -> bool {
    c.port_pool matches Some(p) && 0 <= j < p.free_sets().len() && p.free_sets()[j]
}

/// The clients `gone` have left and no other has; their ports are free, and
/// no other port has become so.
pub open spec fn have_left(before: Conductor, after: Conductor, gone: Set<u32>) -> bool {
    &&& forall|pid: u32|
        before.active_clients@.contains_key(pid) && !gone.contains(pid) ==> #[trigger] stays(
            before,
            after,
            pid,
        )
    &&& forall|pid: u32| #[trigger]
        after.active_clients@.contains_key(pid) ==> before.active_clients@.contains_key(pid)
            && !gone.contains(pid)
    &&& forall|j: int| is_free(before, j) ==> #[trigger] is_free(after, j)
    &&& forall|pid: u32|
        before.active_clients@.contains_key(pid) && gone.contains(pid) && before.port_pool is Some && (
        #[trigger] before.active_clients@[pid]).port_set < before.port_pool->0.free_sets().len()
            && before.active_clients@[pid].port_set != 0xffff ==> is_free(
            after,
            before.active_clients@[pid].port_set as int,
        )
    &&& forall|j: int| #[trigger]
        is_free(after, j) && !is_free(before, j) ==> exists|pid: u32|
            before.active_clients@.contains_key(pid) && gone.contains(pid) && (
            #[trigger] before.active_clients@[pid]).port_set == j
}

proof fn lemma_have_left(before: Conductor, after: Conductor, gone: Set<u32>)
    requires
        after.lacks_clients(&before, gone),
    ensures
        have_left(before, after, gone),
{
    let m = before.active_clients@;
    let n = after.active_clients@;
    let free = conductor::free_sets(before.port_pool);
    let now_free = conductor::free_sets(after.port_pool);
    assert(n == m.remove_keys(gone));
    assert(now_free == lifecycle::freed(free, m, gone));
    assert forall|pid: u32| m.contains_key(pid) && !gone.contains(pid) implies #[trigger] stays(
        before,
        after,
        pid,
    ) by {}
    assert forall|j: int| is_free(before, j) implies #[trigger] is_free(after, j) by {
        assert(now_free[j]);
    }
    assert forall|pid: u32|
        m.contains_key(pid) && gone.contains(pid) && before.port_pool is Some && (
        #[trigger] m[pid]).port_set < before.port_pool->0.free_sets().len() && m[pid].port_set
            != 0xffff implies is_free(after, m[pid].port_set as int) by {
        assert(lifecycle::had_ports(m, gone, m[pid].port_set as int));
        assert(now_free[m[pid].port_set as int]);
    }
    assert forall|j: int| #[trigger] is_free(after, j) && !is_free(before, j) implies exists|
        pid: u32,
    |
        m.contains_key(pid) && gone.contains(pid) && (#[trigger] m[pid]).port_set == j by {
        assert(lifecycle::had_ports(m, gone, j));
    }
}

/// Two conductors know the same workers in the same pools, but for worker
/// `id`.
pub open spec fn same_but(before: Conductor, after: Conductor, id: u32) -> bool {
    &&& forall|key: Seq<char>, w: Worker|
        w.id != id ==> #[trigger] after.pool(key).contains(w) == before.pool(key).contains(w)
    &&& after.reserve matches Some(w) ==> w.id == id || before.reserve == Some(w)
    &&& before.reserve matches Some(w) ==> w.id == id || after.reserve == Some(w)
}

proof fn lemma_pool_removed(s: Seq<pools::PoolView>, p: int, i: int, key: Seq<char>)
    requires
        pools::in_range(s, p, i),
    ensures
        pools::workers_of(pools::removed(s, p, i), key) == if pools::place_of(s, key) == p {
            pools::workers_of(s, key).remove(i)
        } else {
            pools::workers_of(s, key)
        },
{
    let t = pools::removed(s, p, i);
    pools::lemma_place_of(s, key);
    pools::lemma_place_of(t, key);
    let a = pools::place_of(s, key);
    let b = pools::place_of(t, key);
    assert(forall|q: int| 0 <= q < s.len() ==> (#[trigger] t[q]).key == s[q].key);
    if a < s.len() {
        assert(t[a].key == key);
    }
    if b < t.len() {
        assert(s[b].key == key);
    }
    if a < b {
        assert(t[a].key != key);
    } else if b < a {
        assert(s[b].key != key);
    }
}

proof fn lemma_others_stay(ws: Seq<Worker>, i: int, w: Worker)
    requires
        0 <= i < ws.len(),
        w.id != ws[i].id,
    ensures
        ws.remove(i).contains(w) == ws.contains(w),
{
    let rest = ws.remove(i);
    if ws.contains(w) {
        let k = ws.index_of(w);
        if k < i {
            assert(rest[k] == w);
        } else {
            assert(rest[k - 1] == w);
        }
    }
    if rest.contains(w) {
        let k = rest.index_of(w);
        if k < i {
            assert(ws[k] == w);
        } else {
            assert(ws[k + 1] == w);
        }
    }
}

/// A worker that is retired is in no pool any more and waits, asked but not
/// yet forced to go, from now on. Its clients have left with it; no other
/// worker and no other client is touched.
pub proof fn law_a_retired_worker_waits_outside(
    before: Conductor,
    after: Conductor,
    key: Seq<char>,
    id: u32,
    now: i64,
)
    requires
        before.wf(),
        before.can_retire(key, id),
        after.has_retired(&before, key, id, now),
    ensures
        before.knows(id),
        !after.knows(id),
        after.pending_kills@.len() == before.pending_kills@.len() + 1,
        after.pending_kills@.last().key@ == key,
        after.pending_kills@.last().worker == (Worker {
            retire_stage: RetireStage::Soft,
            retire_since: now,
            ..before.worker(id)
        }),
        forall|k: int|
            0 <= k < before.pending_kills@.len() ==> after.pending_kills@[k]
                == #[trigger] before.pending_kills@[k],
        have_left(before, after, Set::new(|pid: u32| is_with(before, pid, id))),
        same_but(before, after, id),
        after.next_worker_id == before.next_worker_id,
        after.config == before.config,
{
    rounds::lemma_can_retire(before, (key, id));
    rounds::lemma_retired(before, after, (key, id), now);
    let gone = clients::clients_of(before.active_clients@, id);
    lemma_have_left(before, after, gone);
    assert(gone =~= Set::new(|pid: u32| is_with(before, pid, id)));
    assert(after.pending_kills@.drop_last() == before.pending_kills@);
    assert forall|k: int| 0 <= k < before.pending_kills@.len() implies after.pending_kills@[k]
        == #[trigger] before.pending_kills@[k] by {
        assert(after.pending_kills@.drop_last()[k] == before.pending_kills@[k]);
    }
    if !(key.len() == 0 && before.reserve_is(id)) {
        let ws = before.pool(key);
        let i = lifecycle::number_place(ws, id);
        let p = pools::place_of(before.pools@, key);
        crate::selection::lemma_first_where(ws, |w: Worker| w.id == id);
        assert(ws[i].id == id);
        pools::lemma_place_of(before.pools@, key);
        assert(pools::in_range(before.pools@, p, i));
        assert(before.pools@[p].workers[i] == ws[i]);
        pools::lemma_worker_in(before.pools@, p, i);
        assert(!before.reserve_is(id)) by {
            assert(pools::has_worker(before.pools@, id));
        }
        assert(before.worker(id) == ws[i]);
        assert forall|k: Seq<char>, w: Worker| w.id != id implies #[trigger] after.pool(k).contains(w)
            == before.pool(k).contains(w) by {
            lemma_pool_removed(before.pools@, p, i, k);
            if pools::place_of(before.pools@, k) == p {
                lemma_others_stay(before.pool(k), i, w);
            }
        }
    } else {
        assert forall|k: Seq<char>, w: Worker| w.id != id implies #[trigger] after.pool(k).contains(w)
            == before.pool(k).contains(w) by {
            assert(after.pool(k) == before.pool(k));
        }
    }
}

/// A client that is done leaves its worker with one client fewer and with the
/// time of its leaving; its own entry and ports are gone. A worker that serves
/// a terminal goes with its last client, another is asked whether it is well.
pub proof fn law_a_client_that_is_done_leaves(
    before: Conductor,
    after: Conductor,
    pid: u32,
    now: i64,
    r: Option<Done>,
    id: u32,
)
    requires
        before.wf(),
        after.has_done(&before, pid, now, r),
        is_with(before, pid, id),
        before.knows(id),
    ensures
        r is Some,
        r->0.info == before.active_clients@[pid],
        !after.active_clients@.contains_key(pid),
        r->0.went_idle <==> before.worker(id).active_clients <= 1,
        r->0.retired <==> before.worker(id).active_clients <= 1 && before.worker(id).interactive
            && !(before.reserve is Some && before.reserve->0.id == id),
        r->0.check <==> before.worker(id).active_clients <= 1 && !before.worker(id).interactive,
        !r->0.retired ==> {
            &&& have_left(before, after, set![pid])
            &&& after.knows(id)
            &&& before.worker(id).active_clients > 0 ==> after.worker(id).active_clients
                == before.worker(id).active_clients - 1
            &&& before.worker(id).active_clients == 0 ==> after.worker(id).active_clients == 0
            &&& after.worker(id).last_active == now
            &&& after.pending_kills@ == before.pending_kills@
        },
        r->0.retired ==> !after.knows(id) && after.pending_kills@.len()
            == before.pending_kills@.len() + 1 && after.pending_kills@.last().worker.id == id,
{
    rounds::lemma_done(before, after, pid, now, r);
    let done = r->0;
    let w = lifecycle::left_by_client(before.worker(id), now);
    let mid = choose|mid: Conductor|
        {
            &&& #[trigger] mid.is_left_by(&before, pid, now)
            &&& if done.retired {
                exists|key: Seq<char>|
                    {
                        &&& #[trigger] mid.pool(key).contains(w)
                        &&& after.has_retired(&mid, key, id, now)
                    }
            } else {
                after == mid
            }
        };
    lemma_have_left(before, mid, set![pid]);
    if !before.reserve_is(id) {
        let (p, i) = choose|p: int, i: int|
            pools::in_range(before.pools@, p, i) && #[trigger] before.pools@[p].workers[i].id == id;
        pools::lemma_worker_in(before.pools@, p, i);
        assert(mid.pools@[p].workers[i] == w);
        assert(pools::in_range(mid.pools@, p, i) && mid.pools@[p].workers[i].id == id);
        assert(pools::has_worker(mid.pools@, id));
        lemma_same_places(before.pools@, w);
        pools::lemma_worker_in(mid.pools@, p, i);
        assert(mid.worker(id) == w);
    } else {
        assert(mid.worker(id) == w);
    }
    if done.retired {
        let key = choose|key: Seq<char>|
            {
                &&& #[trigger] mid.pool(key).contains(w)
                &&& after.has_retired(&mid, key, id, now)
            };
        assert(rounds::apart(mid)) by {
            lemma_same_places(before.pools@, w);
            lemma_same_numbers(before.pools@, w);
        }
        let ws = mid.pool(key);
        let k = ws.index_of(w);
        crate::selection::lemma_first_where(ws, |v: Worker| v.id == id);
        assert(ws[k].id == id);
        assert(mid.can_retire(key, id));
        rounds::lemma_retired(mid, after, (key, id), now);
        let i = lifecycle::number_place(ws, id);
        assert(ws[i].id == id);
    }
}

proof fn lemma_same_places(s: Seq<pools::PoolView>, w: Worker)
    requires
        pools::distinct(s),
    ensures
        pools::distinct(pools::with_worker(s, w)),
{
    let t = pools::with_worker(s, w);
    assert(forall|p: int| 0 <= p < s.len() ==> (#[trigger] t[p]).key == s[p].key);
    assert forall|p: int, i: int, q: int, j: int|
        pools::in_range(t, p, i) && pools::in_range(t, q, j) && #[trigger] t[p].workers[i].id
            == #[trigger] t[q].workers[j].id implies p == q && i == j by {
        assert(pools::in_range(s, p, i) && pools::in_range(s, q, j));
        assert(t[p].workers[i].id == s[p].workers[i].id);
        assert(t[q].workers[j].id == s[q].workers[j].id);
    }
}

proof fn lemma_same_numbers(s: Seq<pools::PoolView>, w: Worker)
    ensures
        forall|id: u32|
            pools::has_worker(pools::with_worker(s, w), id) <==> pools::has_worker(s, id),
{
    let t = pools::with_worker(s, w);
    assert forall|id: u32| pools::has_worker(t, id) <==> pools::has_worker(s, id) by {
        if pools::has_worker(s, id) {
            let (p, i) = choose|p: int, i: int|
                pools::in_range(s, p, i) && #[trigger] s[p].workers[i].id == id;
            assert(pools::in_range(t, p, i) && t[p].workers[i].id == id);
        }
        if pools::has_worker(t, id) {
            let (p, i) = choose|p: int, i: int|
                pools::in_range(t, p, i) && #[trigger] t[p].workers[i].id == id;
            assert(pools::in_range(s, p, i) && s[p].workers[i].id == id);
        }
    }
}

// ---------------------------------------------------------------------
// Workers on their way out
// ---------------------------------------------------------------------

/// The worker was asked to go, and has not in five seconds.
pub open spec fn is_slow(w: Worker, now: i64) -> bool {
    w.retire_stage == RetireStage::Soft && now - w.retire_since >= 5
}

/// The worker was told to terminate, and has not in five seconds.
pub open spec fn is_stuck(w: Worker, now: i64) -> bool {
    w.retire_stage == RetireStage::Term && now - w.retire_since >= 5
}

/// The same worker, told to terminate now.
pub open spec fn told(pk: PendingKill, now: i64) -> PendingKill {
    PendingKill {
        worker: Worker { retire_stage: RetireStage::Term, retire_since: now, ..pk.worker },
        ..pk
    }
}

/// A worker that was asked to go is told to terminate after five seconds, and
/// is killed after five more. Until then it is left in peace.
pub proof fn law_workers_are_given_time_to_go(pks: Seq<PendingKill>, now: i64, i: int)
    requires
        0 <= i < pks.len(),
    ensures
        is_slow(pks[i].worker, now) ==> {
            &&& upkeep::kill_actions(pks, now).contains(KillAction::Term(pks[i].worker.id))
            &&& upkeep::still_pending(pks, now).contains(told(pks[i], now))
        },
        is_stuck(pks[i].worker, now) ==> upkeep::kill_actions(pks, now).contains(
            KillAction::Kill(pks[i].worker.id, pks[i].worker.sandboxed),
        ),
        pks[i].worker.retire_stage != RetireStage::Running && !is_slow(pks[i].worker, now)
            && !is_stuck(pks[i].worker, now) ==> upkeep::still_pending(pks, now).contains(pks[i]),
    decreases pks.len(),
{
    let front = pks.drop_last();
    let a = upkeep::kill_actions(front, now);
    let b = upkeep::as_seq(upkeep::swept_one(pks.last(), now).1);
    let c = upkeep::still_pending(front, now);
    let d = upkeep::as_seq(upkeep::swept_one(pks.last(), now).0);
    if i < pks.len() - 1 {
        law_workers_are_given_time_to_go(front, now, i);
        assert(front[i] == pks[i]);
        assert forall|x: KillAction| a.contains(x) implies #[trigger] (a + b).contains(x) by {
            assert((a + b)[a.index_of(x)] == x);
        }
        assert forall|x: PendingKill| c.contains(x) implies #[trigger] (c + d).contains(x) by {
            assert((c + d)[c.index_of(x)] == x);
        }
    } else {
        if b.len() > 0 {
            assert((a + b)[a.len() as int] == b[0]);
        }
        if d.len() > 0 {
            assert((c + d)[c.len() as int] == d[0]);
        }
    }
}

/// `x` is what becomes of one of the first workers of `pks`.
pub open spec fn is_due(x: KillAction, pk: PendingKill, now: i64) -> bool {
    match x {
        KillAction::Term(id) => id == pk.worker.id && is_slow(pk.worker, now),
        KillAction::Kill(id, sandboxed) => id == pk.worker.id && sandboxed == pk.worker.sandboxed
            && is_stuck(pk.worker, now),
        KillAction::Forget(id) => id == pk.worker.id && pk.worker.retire_stage
            == RetireStage::Running,
    }
}

/// Nobody is told to terminate, killed or forgotten before time, and who was
/// killed does not wait any more.
pub proof fn law_nobody_goes_before_time(pks: Seq<PendingKill>, now: i64)
    ensures
        forall|k: int|
            0 <= k < upkeep::kill_actions(pks, now).len() ==> exists|i: int|
                0 <= i < pks.len() && is_due(
                    #[trigger] upkeep::kill_actions(pks, now)[k],
                    #[trigger] pks[i],
                    now,
                ),
        forall|k: int|
            0 <= k < upkeep::still_pending(pks, now).len() ==> exists|i: int|
                0 <= i < pks.len() && !is_stuck((#[trigger] pks[i]).worker, now) && (
                #[trigger] upkeep::still_pending(pks, now)[k]) == if is_slow(pks[i].worker, now) {
                    told(pks[i], now)
                } else {
                    pks[i]
                },
    decreases pks.len(),
{
    if pks.len() > 0 {
        let front = pks.drop_last();
        let last = pks.len() - 1;
        law_nobody_goes_before_time(front, now);
        let a = upkeep::kill_actions(front, now);
        let c = upkeep::still_pending(front, now);
        let all = upkeep::kill_actions(pks, now);
        let rest = upkeep::still_pending(pks, now);
        assert forall|k: int| 0 <= k < all.len() implies exists|i: int|
            0 <= i < pks.len() && is_due(#[trigger] all[k], #[trigger] pks[i], now) by {
            if k < a.len() {
                assert(all[k] == a[k]);
                let i = choose|i: int|
                    0 <= i < front.len() && is_due(#[trigger] a[k], #[trigger] front[i], now);
                assert(pks[i] == front[i]);
            } else {
                assert(is_due(all[k], pks[last], now));
            }
        }
        assert forall|k: int| 0 <= k < rest.len() implies exists|i: int|
            0 <= i < pks.len() && !is_stuck((#[trigger] pks[i]).worker, now) && (#[trigger] rest[k])
                == if is_slow(pks[i].worker, now) {
                told(pks[i], now)
            } else {
                pks[i]
            } by {
            if k < c.len() {
                assert(rest[k] == c[k]);
                let i = choose|i: int|
                    0 <= i < front.len() && !is_stuck((#[trigger] front[i]).worker, now) && (
                    #[trigger] c[k]) == if is_slow(front[i].worker, now) {
                        told(front[i], now)
                    } else {
                        front[i]
                    };
                assert(pks[i] == front[i]);
            } else {
                assert(!is_stuck(pks[last].worker, now));
            }
        }
    }
}

/// A worker that does not answer is known no more. Its clients have left with
/// it unless it was the reserve, which had none to lose.
pub proof fn law_a_silent_worker_is_given_up(
    before: Conductor,
    after: Conductor,
    id: u32,
    r: Killed,
)
    requires
        before.wf(),
        after.has_killed(&before, id, r),
    ensures
        r is Reserve <==> before.reserve is Some && before.reserve->0.id == id,
        r is Unknown <==> !before.knows(id),
        r matches Killed::Worker(confined) ==> confined == before.worker(id).sandboxed,
        !(r is Reserve) ==> have_left(
            before,
            after,
            Set::new(|pid: u32| is_with(before, pid, id)),
        ),
        r is Reserve ==> after.reserve is None && after.active_clients == before.active_clients
            && after.pools == before.pools,
        after.pending_kills == before.pending_kills,
        !(r is Unknown) ==> same_but(before, after, id),
        !after.knows(id),
{
    if r is Worker {
        let s = before.pools@;
        let (p, i) = choose|p: int, i: int|
            pools::in_range(s, p, i) && #[trigger] s[p].workers[i].id == id && after.pools@
                == pools::swap_removed(s, p, i);
        let t = after.pools@;
        assert(!pools::has_worker(t, id)) by {
            if pools::has_worker(t, id) {
                let (q, j) = choose|q: int, j: int|
                    pools::in_range(t, q, j) && #[trigger] t[q].workers[j].id == id;
                if q == p {
                    let k = if j == i {
                        s[p].workers.len() - 1
                    } else {
                        j
                    };
                    assert(t[q].workers[j] == s[p].workers[k]);
                    assert(pools::in_range(s, p, k));
                    assert(s[p].workers[k].id == s[p].workers[i].id);
                } else {
                    assert(t[q].workers[j] == s[q].workers[j]);
                    assert(pools::in_range(s, q, j));
                    assert(s[q].workers[j].id == s[p].workers[i].id);
                }
            }
        }
        assert forall|key: Seq<char>, w: Worker| w.id != id implies #[trigger] after.pool(
            key,
        ).contains(w) == before.pool(key).contains(w) by {
            lemma_pool_swap_removed(s, p, i, key);
            if pools::place_of(s, key) == p {
                lemma_others_stay_swapped(before.pool(key), i, w);
            }
        }
    } else if r is Reserve {
        assert forall|key: Seq<char>, w: Worker| w.id != id implies #[trigger] after.pool(
            key,
        ).contains(w) == before.pool(key).contains(w) by {
            assert(after.pool(key) == before.pool(key));
        }
    }
    let gone = clients::clients_of(before.active_clients@, id);
    assert(gone =~= Set::new(|pid: u32| is_with(before, pid, id)));
    if !(r is Reserve) {
        lemma_have_left(before, after, gone);
    }
}

proof fn lemma_pool_swap_removed(s: Seq<pools::PoolView>, p: int, i: int, key: Seq<char>)
    requires
        pools::in_range(s, p, i),
    ensures
        pools::workers_of(pools::swap_removed(s, p, i), key) == if pools::place_of(s, key) == p {
            pools::workers_of(s, key).update(i, pools::workers_of(s, key).last()).drop_last()
        } else {
            pools::workers_of(s, key)
        },
{
    let t = pools::swap_removed(s, p, i);
    pools::lemma_place_of(s, key);
    pools::lemma_place_of(t, key);
    assert(forall|q: int| 0 <= q < s.len() ==> (#[trigger] t[q]).key == s[q].key);
    pools::lemma_place_is(t, key, pools::place_of(s, key));
}

proof fn lemma_others_stay_swapped(ws: Seq<Worker>, i: int, w: Worker)
    requires
        0 <= i < ws.len(),
        w.id != ws[i].id,
    ensures
        ws.update(i, ws.last()).drop_last().contains(w) == ws.contains(w),
{
    let rest = ws.update(i, ws.last()).drop_last();
    if ws.contains(w) {
        let k = ws.index_of(w);
        if k == ws.len() - 1 {
            assert(rest[i] == w);
        } else {
            assert(rest[k] == w);
        }
    }
    if rest.contains(w) {
        let k = rest.index_of(w);
        if k == i {
            assert(ws[ws.len() - 1] == w);
        } else {
            assert(ws[k] == w);
        }
    }
}

/// With the workers of a pool go their clients, and no others.
pub proof fn law_clients_go_with_their_pool(before: Conductor, after: Conductor, key: Seq<char>)
    requires
        after.lacks_clients(&before, before.clients_of_all(before.pool(key))),
    ensures
        have_left(
            before,
            after,
            Set::new(
                |pid: u32|
                    before.active_clients@.contains_key(pid) && exists|w: Worker| #[trigger]
                        before.pool(key).contains(w) && w.id
                            == before.active_clients@[pid].worker_id,
            ),
        ),
{
    let ws = before.pool(key);
    let gone = before.clients_of_all(ws);
    let those = Set::new(
        |pid: u32|
            before.active_clients@.contains_key(pid) && exists|w: Worker| #[trigger]
                ws.contains(w) && w.id == before.active_clients@[pid].worker_id,
    );
    lemma_have_left(before, after, gone);
    assert forall|pid: u32| gone.contains(pid) == those.contains(pid) by {
        let id = before.active_clients@[pid].worker_id;
        if gone.contains(pid) {
            let i = choose|i: int| 0 <= i < ws.len() && (#[trigger] ws[i]).id == id;
            assert(ws.contains(ws[i]));
        }
        if those.contains(pid) {
            let w = choose|w: Worker| #[trigger] ws.contains(w) && w.id == id;
            assert(ws[ws.index_of(w)] == w);
        }
    }
    assert(gone =~= those);
}

// ---------------------------------------------------------------------
// Workers that come
// ---------------------------------------------------------------------

/// The reserve is taken only for a client that is not to be confined, needs no
/// terminal, and asks for what the reserve was started with; it then is in the
/// client's pool. All others get a worker with a number that none has had.
pub proof fn law_the_reserve_goes_to_whom_it_suits(
    before: Conductor,
    after: Conductor,
    key: Seq<char>,
    channel: Option<Seq<char>>,
    interactive: bool,
    threads: Seq<u16>,
    mode: SandboxMode,
    r: SpawnPlan,
)
    requires
        before.wf(),
        after.has_planned(&before, key, channel, interactive, threads, mode, r),
        r is Reserve || before.next_worker_id < u32::MAX,
    ensures
        r is Reserve <==> mode == SandboxMode::Off && !interactive && (before.reserve matches Some(
            w,
        ) && text::opt_view(w.julia_channel) == channel && w.threads@ == threads),
        r is Sandboxed <==> mode != SandboxMode::Off,
        r matches SpawnPlan::Reserve(id) ==> {
            &&& before.reserve matches Some(w) && w.id == id && after.pool(key).contains(w)
            &&& after.reserve is None
            &&& after.next_worker_id == before.next_worker_id
        },
        r matches SpawnPlan::Plain(id) ==> {
            &&& forall|other: u32| before.knows(other) ==> other != id
            &&& id < after.next_worker_id
            &&& after.reserve == before.reserve && after.pools == before.pools
        },
        r matches SpawnPlan::Sandboxed(id) ==> {
            &&& forall|other: u32| before.knows(other) ==> other != id
            &&& id < after.next_worker_id
            &&& after.reserve == before.reserve && after.pools == before.pools
        },
{
    if r is Reserve {
        let s = before.pools@;
        let w = before.reserve->0;
        let t = pools::added(s, key, w);
        pools::lemma_place_of(s, key);
        pools::lemma_place_of(t, key);
        let p = pools::place_of(s, key);
        assert(forall|q: int| 0 <= q < s.len() ==> (#[trigger] t[q]).key == s[q].key);
        assert(t[p].key == key);
        pools::lemma_place_is(t, key, p);
        let ws = t[p].workers;
        assert(ws[ws.len() - 1] == w);
        assert(after.pool(key) == ws);
    }
}

// ---------------------------------------------------------------------
// Workers that are chosen
// ---------------------------------------------------------------------

/// A worker that is chosen for a client notes the client's parent where it
/// would note the next one, takes the client's session unless it has one, and
/// counts as asked just now. Nothing else of it changes.
pub proof fn law_a_chosen_worker_takes_note(
    w: Worker,
    after: Worker,
    label: Option<Seq<char>>,
    ppid: u32,
    max_history: u32,
    now: i64,
    k: int,
)
    requires
        w.wf(),
        assignment::chosen_for(w, after, label, ppid, max_history, now),
    ensures
        after.last_pinged == now,
        after.recent_ppids@[w.recent_ppids_next as int] == ppid,
        0 <= k < 32 && k != w.recent_ppids_next ==> after.recent_ppids@[k] == w.recent_ppids@[k],
        1 <= max_history <= 32 ==> after.recent_ppids_next == (w.recent_ppids_next + 1)
            % max_history as int,
        max_history == 0 || max_history > 32 ==> after.recent_ppids_next == (w.recent_ppids_next
            + 1) % 32,
        w.session_label is Some ==> after.session_label == w.session_label,
        w.session_label is None ==> text::opt_view(after.session_label) == label,
        after.id == w.id,
        after.active_clients == w.active_clients,
        after.last_active == w.last_active,
        after.created_at == w.created_at,
        after.sandboxed == w.sandboxed,
        after.interactive == w.interactive,
        after.ping_pending == w.ping_pending,
        after.retire_stage == w.retire_stage,
{
}

/// A session is given up where the client asks for none or for another.
pub proof fn law_sessions_are_given_up(own: Seq<char>, asked: Option<Seq<char>>)
    ensures
        assignment::given_up(Some(own), Some(own)) is None,
        asked != Some(own) ==> assignment::given_up(Some(own), asked) == Some(own),
        assignment::given_up(None, asked) is None,
{
}

/// A worker counts as many clients as it says that it has; nothing else of it
/// changes, nor any other worker.
pub proof fn law_a_worker_counts_its_clients(
    before: Conductor,
    after: Conductor,
    id: u32,
    active: u32,
)
    requires
        before.wf(),
        after.has_active(&before, id, active),
        before.knows(id),
    ensures
        after.knows(id),
        after.worker(id) == (Worker { active_clients: active, ..before.worker(id) }),
        after.active_clients == before.active_clients,
        after.port_pool == before.port_pool,
        after.pending_kills == before.pending_kills,
        forall|key: Seq<char>, w: Worker|
            w.id != id && before.pool(key).contains(w) ==> #[trigger] after.pool(key).contains(w),
{
    let w = Worker { active_clients: active, ..before.worker(id) };
    lemma_number_of(before, id);
    assert(w.id == id);
    if !before.reserve_is(id) {
        let s = before.pools@;
        let (p, i) = choose|p: int, i: int|
            pools::in_range(s, p, i) && #[trigger] s[p].workers[i].id == id;
        pools::lemma_worker_in(s, p, i);
        let t = after.pools@;
        assert(t[p].workers[i] == w);
        assert(pools::in_range(t, p, i) && t[p].workers[i].id == id);
        lemma_same_places(s, w);
        pools::lemma_worker_in(t, p, i);
        assert forall|key: Seq<char>, v: Worker|
            v.id != id && before.pool(key).contains(v) implies #[trigger] after.pool(key).contains(
            v,
        ) by {
            lemma_pool_with(s, w, key);
            let k = before.pool(key).index_of(v);
            assert(after.pool(key)[k] == v);
        }
    } else {
        assert forall|key: Seq<char>, v: Worker|
            v.id != id && before.pool(key).contains(v) implies #[trigger] after.pool(key).contains(
            v,
        ) by {
            assert(after.pool(key) == before.pool(key));
        }
    }
}

proof fn lemma_number_of(c: Conductor, id: u32)
    requires
        c.wf(),
        c.knows(id),
    ensures
        c.worker(id).id == id,
{
    if !c.reserve_is(id) {
        let s = c.pools@;
        let (p, i) = choose|p: int, i: int|
            pools::in_range(s, p, i) && #[trigger] s[p].workers[i].id == id;
        pools::lemma_worker_in(s, p, i);
    }
}

proof fn lemma_pool_with(s: Seq<pools::PoolView>, w: Worker, key: Seq<char>)
    ensures
        ({
            let a = pools::workers_of(s, key);
            let b = pools::workers_of(pools::with_worker(s, w), key);
            b.len() == a.len() && forall|i: int|
                0 <= i < a.len() && (#[trigger] a[i]).id != w.id ==> b[i] == a[i]
        }),
{
    let t = pools::with_worker(s, w);
    pools::lemma_place_of(s, key);
    pools::lemma_place_of(t, key);
    let a = pools::place_of(s, key);
    assert(forall|q: int| 0 <= q < s.len() ==> (#[trigger] t[q]).key == s[q].key);
    pools::lemma_place_is(t, key, a);
}

/// A worker that is added is in the pool of its key, behind those that were
/// there; no other pool changes.
pub proof fn law_a_worker_is_added_to_its_pool(
    before: Conductor,
    after: Conductor,
    key: Seq<char>,
    w: Worker,
    other: Seq<char>,
)
    requires
        after.has_added(&before, key, w),
    ensures
        after.pool(key) == before.pool(key).push(w),
        other != key ==> after.pool(other) == before.pool(other),
        after.active_clients == before.active_clients,
        after.reserve == before.reserve,
{
    let s = before.pools@;
    let t = pools::added(s, key, w);
    pools::lemma_place_of(s, key);
    pools::lemma_place_of(s, other);
    pools::lemma_place_of(t, key);
    pools::lemma_place_of(t, other);
    assert(forall|q: int| 0 <= q < s.len() ==> (#[trigger] t[q]).key == s[q].key);
    let p = pools::place_of(s, key);
    assert(t[p].key == key);
    pools::lemma_place_is(t, key, p);
    if p == s.len() {
        assert(before.pool(key).push(w) =~= seq![w]);
    }
    if other != key {
        let o = pools::place_of(s, other);
        if o < s.len() {
            pools::lemma_place_is(t, other, o);
        } else {
            pools::lemma_place_is(t, other, t.len() as int);
        }
    }
}

/// A worker that is chosen gives up its session where the client asks for
/// another or for none, and otherwise nothing changes.
pub proof fn law_a_chosen_worker_gives_up_its_session(
    before: Conductor,
    after: Conductor,
    key: Seq<char>,
    q: ClientRequest,
    mode: SandboxMode,
    now: i64,
    r: Option<Chosen>,
)
    requires
        before.wf(),
        after.has_selected(&before, key, &q, mode, now, r),
    ensures
        r is None ==> after == before,
        r matches Some(c) ==> {
            let w = before.worker(c.id);
            &&& before.pool(key).contains(w)
            &&& w.id == c.id
            &&& c.dropped is Some <==> w.session_label is Some && text::opt_view(w.session_label)
                != q.value("--session"@)
            &&& c.dropped matches Some(l) ==> text::opt_view(w.session_label) == Some(l@)
            &&& c.dropped is None ==> after == before
            &&& c.dropped is Some ==> after.knows(c.id) && after.worker(c.id) == (Worker {
                session_label: None,
                ..w
            })
        },
{
    if let Some(c) = r {
        let w = before.worker(c.id);
        if c.dropped is Some {
            let v = Worker { session_label: None, ..w };
            if !before.reserve_is(c.id) {
                let s = before.pools@;
                let (p, i) = choose|p: int, i: int|
                    pools::in_range(s, p, i) && #[trigger] s[p].workers[i].id == c.id;
                pools::lemma_worker_in(s, p, i);
                let t = after.pools@;
                assert(t[p].workers[i] == v);
                assert(pools::in_range(t, p, i) && t[p].workers[i].id == c.id);
                lemma_same_places(s, v);
                pools::lemma_worker_in(t, p, i);
            }
        }
    }
}

} // verus!
