//! Which workers are asked how they are, which have idled too long, and what
//! a notice is answered with.

use crate::clients;
use crate::conductor::Conductor;
use crate::pools;
use crate::protocol::notification::Type;
use crate::selection;
use crate::text;
use crate::text::owned;
use crate::worker::Worker;
use vstd::prelude::*;

verus! {

// ---------------------------------------------------------------------
// Pings
// ---------------------------------------------------------------------

impl Worker {
    /// The time since the last ping can be counted, where it matters.
    pub open spec fn ping_age_fits(&self, now: i64) -> bool {
        !self.ping_pending && self.active_clients == 0 ==> selection::fits(now, self.last_pinged)
    }
}

/// A worker before worker `i` of pool `p` has the number `id`.
spec fn comes_before(s: Seq<pools::PoolView>, id: u32, p: int, i: int) -> bool {
    exists|q: int, j: int|
        (q < p || (q == p && j < i)) && pools::in_range(s, q, j)
            && #[trigger] s[q].workers[j].id == id
}

/// Workers further on have other numbers.
proof fn lemma_comes_before(s: Seq<pools::PoolView>, id: u32, p: int, i: int)
    requires
        pools::distinct(s),
        pools::in_range(s, p, i),
        comes_before(s, id, p, i),
    ensures
        id != s[p].workers[i].id,
        comes_before(s, id, p, i + 1),
{
    let (q, j) = choose|q: int, j: int|
        (q < p || (q == p && j < i)) && pools::in_range(s, q, j)
            && #[trigger] s[q].workers[j].id == id;
    assert(s[q].workers[j].id == id);
}

/// The end of a pool is the beginning of the next.
proof fn lemma_next_pool(s: Seq<pools::PoolView>, id: u32, p: int, i: int)
    requires
        comes_before(s, id, p, i),
    ensures
        comes_before(s, id, p + 1, 0),
{
    let (q, j) = choose|q: int, j: int|
        (q < p || (q == p && j < i)) && pools::in_range(s, q, j)
            && #[trigger] s[q].workers[j].id == id;
    assert(s[q].workers[j].id == id);
}

impl Conductor {
    /// `f` holds of every worker.
    pub open spec fn every_worker(&self, f: spec_fn(Worker) -> bool) -> bool {
        &&& self.reserve matches Some(r) ==> f(r)
        &&& forall|p: int, i: int|
            pools::in_range(self.pools@, p, i) ==> f(#[trigger] self.pools@[p].workers[i])
    }

    /// The workers that are due for a ping, the reserve before all others.
    pub fn due_for_ping(&self, now: i64) -> (r: Vec<u32>)
        requires
            self.wf(),
            self.every_worker(|w: Worker| w.ping_age_fits(now)),
        ensures
            r@.no_duplicates(),
            forall|id: u32|
                r@.contains(id) <==> self.knows(id) && self.worker(id).ping_due(
                    now,
                    self.config.ping_interval,
                ),
            self.reserve matches Some(w) ==> (w.ping_due(now, self.config.ping_interval)
                ==> r@.len() > 0 && r@[0] == w.id),
    {
        let interval: u64 = self.config.ping_interval;
        let ghost f = |w: Worker| w.ping_age_fits(now);
        let mut out: Vec<u32> = Vec::new();
        if let Some(w) = &self.reserve {
            assert(f(*w));
            if w.should_ping(now, interval) {
                out.push(w.id);
                assert(out@[0] == w.id);
            }
        }
        let mut p: usize = 0;
        while p < self.pools.len()
            invariant
                self.wf(),
                p <= self.pools@.len(),
                interval == self.config.ping_interval,
                f == (|w: Worker| w.ping_age_fits(now)),
                self.every_worker(f),
                out@.no_duplicates(),
                forall|k: int|
                    0 <= k < out@.len() ==> self.reserve_is(#[trigger] out@[k]) || comes_before(
                        self.pools@,
                        out@[k],
                        p as int,
                        0,
                    ),
                forall|k: int|
                    0 <= k < out@.len() ==> self.is_due(#[trigger] out@[k], now, interval),
                self.reserve matches Some(w) ==> (w.ping_due(now, interval) ==> out@.len() > 0
                    && out@[0] == w.id),
                self.reserve matches Some(r) ==> (r.ping_due(now, interval) ==> out@.contains(
                    r.id,
                )),
                forall|q: int, j: int|
                    0 <= q < p && pools::in_range(self.pools@, q, j) && (
                    #[trigger] self.pools@[q].workers[j]).ping_due(now, interval)
                        ==> out@.contains(self.pools@[q].workers[j].id),
            decreases self.pools@.len() - p,
        {
            let ws = self.pools.workers(p);
            let mut i: usize = 0;
            while i < ws.len()
                invariant
                    self.wf(),
                    p < self.pools@.len(),
                    ws@ == self.pools@[p as int].workers,
                    i <= ws@.len(),
                    interval == self.config.ping_interval,
                    f == (|w: Worker| w.ping_age_fits(now)),
                    self.every_worker(f),
                    out@.no_duplicates(),
                    forall|k: int|
                        0 <= k < out@.len() ==> self.reserve_is(#[trigger] out@[k])
                            || comes_before(self.pools@, out@[k], p as int, i as int),
                    forall|k: int|
                        0 <= k < out@.len() ==> self.is_due(#[trigger] out@[k], now, interval),
                    self.reserve matches Some(w) ==> (w.ping_due(now, interval) ==> out@.len() > 0
                        && out@[0] == w.id),
                    self.reserve matches Some(r) ==> (r.ping_due(now, interval)
                        ==> out@.contains(r.id)),
                    forall|q: int, j: int|
                        0 <= q < p && pools::in_range(self.pools@, q, j) && (
                        #[trigger] self.pools@[q].workers[j]).ping_due(now, interval)
                            ==> out@.contains(self.pools@[q].workers[j].id),
                    forall|j: int|
                        0 <= j < i && (#[trigger] self.pools@[p as int].workers[j]).ping_due(
                            now,
                            interval,
                        ) ==> out@.contains(self.pools@[p as int].workers[j].id),
                decreases ws@.len() - i,
            {
                let ghost before = out@;
                assert(pools::in_range(self.pools@, p as int, i as int));
                assert(f(self.pools@[p as int].workers[i as int]));
                proof {
                    pools::lemma_worker_in(self.pools@, p as int, i as int);
                    assert forall|k: int| 0 <= k < out@.len() implies out@[k] != ws@[i as int].id
                        && (self.reserve_is(#[trigger] out@[k]) || comes_before(
                        self.pools@,
                        out@[k],
                        p as int,
                        i + 1,
                    )) by {
                        if !self.reserve_is(out@[k]) {
                            lemma_comes_before(self.pools@, out@[k], p as int, i as int);
                        }
                    }
                }
                if ws[i].should_ping(now, interval) {
                    out.push(ws[i].id);
                    proof {
                        assert(comes_before(
                            self.pools@,
                            self.pools@[p as int].workers[i as int].id,
                            p as int,
                            i + 1,
                        ));
                        assert(out@[before.len() as int] == ws@[i as int].id);
                        assert forall|id: u32| before.contains(id) implies out@.contains(id) by {
                            let k = before.index_of(id);
                            assert(out@[k] == id);
                        }
                    }
                }
                i = i + 1;
            }
            proof {
                assert forall|k: int| 0 <= k < out@.len() implies self.reserve_is(
                    #[trigger] out@[k],
                ) || comes_before(self.pools@, out@[k], p + 1, 0) by {
                    if !self.reserve_is(out@[k]) {
                        lemma_next_pool(self.pools@, out@[k], p as int, i as int);
                    }
                }
            }
            p = p + 1;
        }
        proof {
            assert forall|id: u32| out@.contains(id) == self.is_due(id, now, interval) by {
                if out@.contains(id) {
                    let k = out@.index_of(id);
                    assert(self.is_due(out@[k], now, interval));
                }
                if self.is_due(id, now, interval) && !self.reserve_is(id) {
                    let (q, j) = choose|q: int, j: int|
                        pools::in_range(self.pools@, q, j)
                            && #[trigger] self.pools@[q].workers[j].id == id;
                    pools::lemma_worker_in(self.pools@, q, j);
                    assert(self.pools@[q].workers[j].ping_due(now, interval));
                }
            }
        }
        out
    }

    spec fn is_due(&self, id: u32, now: i64, interval: u64) -> bool {
        self.knows(id) && self.worker(id).ping_due(now, interval)
    }

    /// Whether the worker `id` counts its clients otherwise than the
    /// conductor, by its answer to a ping.
    pub fn counts_differ(&self, id: u32, reported: u16) -> (r: bool)
        requires
            self.wf(),
        ensures
            r == (reported != if self.knows(id) {
                self.worker(id).active_clients
            } else {
                0
            }),
    {
        let known: u32 = match self.get_worker(id) {
            Some(w) => w.active_clients,
            None => 0,
        };
        reported as u32 != known
    }

    /// The clients that the worker `id` should have and does not report.
    pub fn stale_clients(&self, id: u32, actual: &[u32]) -> (r: Vec<u32>)
        requires
            self.wf(),
        ensures
            r@.no_duplicates(),
            forall|pid: u32|
                r@.contains(pid) <==> clients::clients_of(self.active_clients@, id).contains(pid)
                    && !actual@.contains(pid),
    {
        let pids = self.active_clients.of_worker(id);
        let mut out: Vec<u32> = Vec::new();
        let mut i: usize = 0;
        while i < pids.len()
            invariant
                i <= pids@.len(),
                pids@.no_duplicates(),
                out@.no_duplicates(),
                forall|pid: u32|
                    #[trigger]
                    out@.contains(pid) <==> pids@.take(i as int).contains(pid)
                        && !actual@.contains(pid),
            decreases pids@.len() - i,
        {
            let pid: u32 = pids[i];
            let ghost before = out@;
            let ghost seen = pids@.take(i as int);
            let mut j: usize = 0;
            while j < actual.len() && actual[j] != pid
                invariant
                    j <= actual@.len(),
                    forall|k: int| 0 <= k < j ==> actual@[k] != pid,
                decreases actual@.len() - j,
            {
                j = j + 1;
            }
            let reported: bool = j < actual.len();
            assert(reported == actual@.contains(pid)) by {
                if reported {
                    assert(actual@[j as int] == pid);
                }
            }
            if !reported {
                out.push(pid);
            }
            proof {
                let more = pids@.take(i + 1);
                assert(more =~= seen.push(pid));
                assert(!seen.contains(pid)) by {
                    if seen.contains(pid) {
                        let k = seen.index_of(pid);
                        assert(pids@[k] == pids@[i as int]);
                    }
                }
                assert forall|q: u32| #[trigger]
                    out@.contains(q) <==> more.contains(q) && !actual@.contains(q) by {
                    if more.contains(q) {
                        let k = more.index_of(q);
                        if k < i {
                            assert(seen[k] == q);
                        }
                    }
                    if seen.contains(q) {
                        let k = seen.index_of(q);
                        assert(more[k] == q);
                    }
                    if q == pid {
                        assert(more[i as int] == q);
                    }
                    if out@.contains(q) {
                        let k = out@.index_of(q);
                        if k < before.len() {
                            assert(before[k] == q);
                        }
                    }
                    if before.contains(q) {
                        let k = before.index_of(q);
                        assert(out@[k] == q);
                    }
                    if !reported {
                        assert(out@[before.len() as int] == pid);
                    }
                }
                assert(out@.no_duplicates()) by {
                    if !reported {
                        assert(!before.contains(pid));
                    }
                }
            }
            i = i + 1;
        }
        assert(pids@.take(i as int) =~= pids@);
        out
    }
}

// ---------------------------------------------------------------------
// Idle workers
// ---------------------------------------------------------------------

/// A worker that may go, and its pool.
pub struct Idle {
    pub key: String,
    pub id: u32,
}

impl Conductor {
    /// Worker `i` of pool `p` may go.
    pub open spec fn may_go_at(&self, p: int, i: int, now: i64) -> bool {
        pools::in_range(self.pools@, p, i) && self.pools@[p].workers[i].may_go(self.limit(), now)
    }

    /// The workers that may go: without a client, and without a session that
    /// is kept.
    pub fn idle_workers(&self, now: i64) -> (r: Vec<Idle>)
        requires
            self.wf(),
            self.every_worker(|w: Worker| w.label_age_fits(now)),
        ensures
            lists_idle(*self, r@, now),
            forall|p: int, i: int|
                #[trigger] self.may_go_at(p, i, now) ==> self.is_listed(r@, p, i),
    {
        let limits = self.limits();
        let ghost f = |w: Worker| w.label_age_fits(now);
        let mut out: Vec<Idle> = Vec::new();
        let mut p: usize = 0;
        while p < self.pools.len()
            invariant
                self.wf(),
                p <= self.pools@.len(),
                limits == self.limit(),
                f == (|w: Worker| w.label_age_fits(now)),
                self.every_worker(f),
                forall|k: int, l: int|
                    0 <= k < l < out@.len() ==> (#[trigger] out@[k]).id != (#[trigger] out@[l]).id,
                forall|k: int|
                    0 <= k < out@.len() ==> comes_before(
                        self.pools@,
                        (#[trigger] out@[k]).id,
                        p as int,
                        0,
                    ),
                forall|k: int| 0 <= k < out@.len() ==> self.is_idle(#[trigger] out@[k], now),
                forall|q: int, j: int|
                    0 <= q < p && #[trigger] self.may_go_at(q, j, now) ==> self.is_listed(
                        out@,
                        q,
                        j,
                    ),
            decreases self.pools@.len() - p,
        {
            let ws = self.pools.workers(p);
            let mut i: usize = 0;
            while i < ws.len()
                invariant
                    self.wf(),
                    p < self.pools@.len(),
                    limits == self.limit(),
                    ws@ == self.pools@[p as int].workers,
                    i <= ws@.len(),
                    f == (|w: Worker| w.label_age_fits(now)),
                    self.every_worker(f),
                    forall|k: int, l: int|
                        0 <= k < l < out@.len() ==> (#[trigger] out@[k]).id != (
                        #[trigger] out@[l]).id,
                    forall|k: int|
                        0 <= k < out@.len() ==> comes_before(
                            self.pools@,
                            (#[trigger] out@[k]).id,
                            p as int,
                            i as int,
                        ),
                    forall|k: int| 0 <= k < out@.len() ==> self.is_idle(#[trigger] out@[k], now),
                    forall|q: int, j: int|
                        (0 <= q < p || (q == p && j < i)) && #[trigger] self.may_go_at(q, j, now)
                            ==> self.is_listed(out@, q, j),
                decreases ws@.len() - i,
            {
                assert(pools::in_range(self.pools@, p as int, i as int));
                assert(f(self.pools@[p as int].workers[i as int]));
                proof {
                    assert forall|k: int| 0 <= k < out@.len() implies out@[k].id
                        != ws@[i as int].id && comes_before(
                        self.pools@,
                        (#[trigger] out@[k]).id,
                        p as int,
                        i + 1,
                    ) by {
                        lemma_comes_before(self.pools@, out@[k].id, p as int, i as int);
                    }
                }
                if ws[i].cullable(limits, now) {
                    let ghost before = out@;
                    assert(comes_before(
                        self.pools@,
                        self.pools@[p as int].workers[i as int].id,
                        p as int,
                        i + 1,
                    ));
                    out.push(Idle { key: owned(self.pools.key(p)), id: ws[i].id });
                    proof {
                        assert(self.may_go_at(p as int, i as int, now));
                        assert(out@[before.len() as int].id == ws@[i as int].id);
                        assert forall|k: int| 0 <= k < out@.len() implies self.is_idle(
                            #[trigger] out@[k],
                            now,
                        ) by {
                            if k < before.len() {
                                assert(out@[k] == before[k]);
                            }
                        }
                        assert forall|q: int, j: int|
                            (0 <= q < p || (q == p && j < i + 1)) && #[trigger] self.may_go_at(
                                q,
                                j,
                                now,
                            ) implies self.is_listed(out@, q, j) by {
                            if !(q == p && j == i) {
                                let k = choose|k: int|
                                    0 <= k < before.len() && (#[trigger] before[k]).key@
                                        == self.pools@[q].key && before[k].id
                                        == self.pools@[q].workers[j].id;
                                assert(out@[k] == before[k]);
                            }
                        }
                    }
                }
                i = i + 1;
            }
            proof {
                assert forall|k: int| 0 <= k < out@.len() implies comes_before(
                    self.pools@,
                    (#[trigger] out@[k]).id,
                    p + 1,
                    0,
                ) by {
                    lemma_next_pool(self.pools@, out@[k].id, p as int, i as int);
                }
            }
            p = p + 1;
        }
        out
    }

    /// `e` is a worker that may go.
    pub open spec fn is_idle(&self, e: Idle, now: i64) -> bool {
        exists|p: int, i: int|
            #[trigger] self.may_go_at(p, i, now) && self.pools@[p].key == e.key@
                && self.pools@[p].workers[i].id == e.id
    }

    /// Worker `i` of pool `p` is among `out`.
    pub open spec fn is_listed(&self, out: Seq<Idle>, p: int, i: int) -> bool {
        exists|k: int|
            0 <= k < out.len() && (#[trigger] out[k]).key@ == self.pools@[p].key && out[k].id
                == self.pools@[p].workers[i].id
    }

    /// Takes away the pools without workers; their keys come back.
    pub fn drop_empty_pools(&mut self) -> (r: Vec<String>)
        requires
            old(self).wf(),
        ensures
            final(self).wf(),
            *final(self) == (Conductor { pools: final(self).pools, ..*old(self) }),
            final(self).pools@ == old(self).pools@.filter(
                |p: pools::PoolView| p.workers.len() > 0,
            ),
            text::views(r@) == keys_of(
                old(self).pools@.filter(|p: pools::PoolView| p.workers.len() == 0),
            ),
    {
        let ghost start = *self;
        let ghost all = self.pools@;
        let ghost full = |p: pools::PoolView| p.workers.len() > 0;
        let ghost empty = |p: pools::PoolView| p.workers.len() == 0;
        let ghost mut k: int = 0;
        let mut keys: Vec<String> = Vec::new();
        let mut p: usize = 0;
        proof {
            reveal(Seq::filter);
            assert(all.take(0) =~= Seq::empty());
            assert(all.take(0).filter(full) =~= Seq::empty());
            assert(all.take(0).filter(empty) =~= Seq::empty());
            assert(Seq::<pools::PoolView>::empty() + all.skip(0) =~= all);
            assert(text::views(keys@) =~= keys_of(Seq::empty()));
        }
        while p < self.pools.len()
            invariant
                start.wf(),
                self.wf(),
                all == start.pools@,
                full == (|p: pools::PoolView| p.workers.len() > 0),
                empty == (|p: pools::PoolView| p.workers.len() == 0),
                0 <= k <= all.len(),
                *self == (Conductor { pools: self.pools, ..start }),
                p == all.take(k).filter(full).len(),
                self.pools@ == all.take(k).filter(full) + all.skip(k),
                text::views(keys@) == keys_of(all.take(k).filter(empty)),
            decreases all.len() - k,
        {
            let ghost done = all.take(k).filter(full);
            let ghost gone = all.take(k).filter(empty);
            let ghost one = all[k];
            proof {
                assert(self.pools@[p as int] == one);
                assert(all.take(k + 1).drop_last() =~= all.take(k));
                assert(all.take(k + 1).last() == one);
                assert(all.take(k + 1) =~= all.take(k).push(one));
                lemma_filter_push(all.take(k), one, full);
                lemma_filter_push(all.take(k), one, empty);
            }
            if self.pools.workers(p).len() == 0 {
                let key = owned(self.pools.key(p));
                proof {
                    text::lemma_views_push(keys@, key);
                    assert(keys_of(gone.push(one)) =~= keys_of(gone).push(one.key));
                }
                keys.push(key);
                let ghost before = *self;
                let none = self.pools.remove_pool(p);
                proof {
                    crate::lifecycle::lemma_pool_removed_within(before.pools@, p as int);
                    crate::lifecycle::lemma_within(before, self.pools@);
                    assert(self.pools@ =~= done + all.skip(k + 1));
                }
            } else {
                proof {
                    assert(done + all.skip(k) =~= done.push(one) + all.skip(k + 1));
                }
                p = p + 1;
            }
            proof {
                k = k + 1;
            }
        }
        proof {
            assert(k == all.len());
            assert(all.take(k) =~= all);
            assert(all.filter(full) + all.skip(k) =~= all.filter(full));
        }
        keys
    }
}

/// All of `idle` are workers that may go, and none is listed twice.
pub open spec fn lists_idle(c: Conductor, idle: Seq<Idle>, now: i64) -> bool {
    &&& forall|k: int| 0 <= k < idle.len() ==> c.is_idle(#[trigger] idle[k], now)
    &&& forall|k: int, l: int|
        0 <= k < l < idle.len() ==> (#[trigger] idle[k]).id != (#[trigger] idle[l]).id
}

/// The keys of pools.
pub open spec fn keys_of(s: Seq<pools::PoolView>) -> Seq<Seq<char>> {
    Seq::new(s.len(), |i: int| s[i].key)
}

proof fn lemma_filter_push<A>(s: Seq<A>, a: A, f: spec_fn(A) -> bool)
    ensures
        s.push(a).filter(f) == if f(a) {
            s.filter(f).push(a)
        } else {
            s.filter(f)
        },
{
    reveal(Seq::filter);
    assert(s.push(a).drop_last() =~= s);
}

// ---------------------------------------------------------------------
// Eviction
// ---------------------------------------------------------------------

/// How many workers go at most when memory is short.
pub const MAX_EVICT_PER_EPISODE: usize = 4;

/// Candidate `i` goes before candidate `j`: it ranks lower, or stands before
/// it.
pub open spec fn goes_before(ranks: Seq<i64>, i: int, j: int) -> bool {
    ranks[i] < ranks[j] || (ranks[i] == ranks[j] && i < j)
}

/// `chosen` are the cheapest by `ranks`, as many as may go at once, the
/// cheapest first.
pub open spec fn are_cheapest(ranks: Seq<i64>, chosen: Seq<usize>) -> bool {
    &&& chosen.len() == if ranks.len() < MAX_EVICT_PER_EPISODE {
        ranks.len() as int
    } else {
        MAX_EVICT_PER_EPISODE as int
    }
    &&& forall|k: int| 0 <= k < chosen.len() ==> (#[trigger] chosen[k]) < ranks.len()
    &&& forall|k: int, l: int|
        0 <= k < l < chosen.len() ==> goes_before(
            ranks,
            (#[trigger] chosen[k]) as int,
            (#[trigger] chosen[l]) as int,
        )
    &&& forall|k: int, j: usize|
        0 <= k < chosen.len() && j < ranks.len() && !(#[trigger] chosen.contains(j))
            ==> goes_before(ranks, (#[trigger] chosen[k]) as int, j as int)
}

/// The candidates to evict, those that rank lowest first, in that order.
pub fn choose_evictions(ranks: &[i64]) -> (r: Vec<usize>)
    ensures
        are_cheapest(ranks@, r@),
{
    let mut out: Vec<usize> = Vec::new();
    while out.len() < MAX_EVICT_PER_EPISODE && out.len() < ranks.len()
        invariant
            out@.len() <= MAX_EVICT_PER_EPISODE,
            out@.len() <= ranks@.len(),
            forall|k: int| 0 <= k < out@.len() ==> (#[trigger] out@[k]) < ranks@.len(),
            forall|k: int, l: int|
                0 <= k < l < out@.len() ==> goes_before(
                    ranks@,
                    (#[trigger] out@[k]) as int,
                    (#[trigger] out@[l]) as int,
                ),
            forall|k: int, j: usize|
                0 <= k < out@.len() && j < ranks@.len() && !(#[trigger] out@.contains(j))
                    ==> goes_before(ranks@, (#[trigger] out@[k]) as int, j as int),
        decreases ranks@.len() - out@.len(),
    {
        let mut best: Option<usize> = None;
        let mut i: usize = 0;
        while i < ranks.len()
            invariant
                i <= ranks@.len(),
                best is None ==> forall|j: usize| j < i ==> #[trigger] out@.contains(j),
                best matches Some(b) ==> b < i && !out@.contains(b) && forall|j: usize|
                    j < i && j != b && !(#[trigger] out@.contains(j)) ==> goes_before(
                        ranks@,
                        b as int,
                        j as int,
                    ),
            decreases ranks@.len() - i,
        {
            let mut taken: bool = false;
            let mut k: usize = 0;
            while k < out.len()
                invariant
                    k <= out@.len(),
                    taken == exists|l: int| 0 <= l < k && out@[l] == i,
                decreases out@.len() - k,
            {
                if out[k] == i {
                    assert(out@[k as int] == i);
                    taken = true;
                }
                k = k + 1;
            }
            assert(taken == out@.contains(i));
            if !taken {
                let lower: bool = match best {
                    Some(b) => ranks[i] < ranks[b],
                    None => true,
                };
                if lower {
                    best = Some(i);
                }
            }
            i = i + 1;
        }
        proof {
            if best is None {
                lemma_all_taken(out@, ranks@.len());
            }
        }
        match best {
            Some(b) => {
                let ghost before = out@;
                out.push(b);
                proof {
                    assert forall|j: usize| before.contains(j) implies out@.contains(j) by {
                        let k = before.index_of(j);
                        assert(out@[k] == j);
                    }
                    assert(out@[before.len() as int] == b);
                    assert(out@.contains(b));
                    assert forall|k: int, j: usize|
                        0 <= k < out@.len() && j < ranks@.len() && !(#[trigger] out@.contains(
                            j,
                        )) implies goes_before(ranks@, (#[trigger] out@[k]) as int, j as int) by {
                        assert(!before.contains(j));
                        if k < before.len() {
                            assert(out@[k] == before[k]);
                        }
                    }
                }
            },
            None => {
                return out;
            },
        }
    }
    out
}

/// A list that holds all numbers below `n` is no shorter than `n`.
proof fn lemma_all_taken(out: Seq<usize>, n: nat)
    requires
        forall|j: usize| j < n ==> #[trigger] out.contains(j),
        n <= usize::MAX,
    ensures
        out.len() >= n,
    decreases n,
{
    if n > 0 {
        let last = (n - 1) as usize;
        assert(out.contains(last));
        let k = out.index_of(last);
        let rest = out.remove(k);
        assert forall|j: usize| j < n - 1 implies #[trigger] rest.contains(j) by {
            assert(out.contains(j));
            let l = out.index_of(j);
            assert(l != k);
            assert(rest[if l < k {
                l
            } else {
                l - 1
            }] == j);
        }
        lemma_all_taken(rest, (n - 1) as nat);
    }
}

// ---------------------------------------------------------------------
// Notices
// ---------------------------------------------------------------------

/// What a notice about the process `pid` is answered with.
#[derive(Clone, Copy, Debug, PartialEq, Eq, Structural)]
pub enum NoticeAction {
    /// Take the client off.
    Done,
    /// Take the client off and look after its worker.
    DoneAndCheck,
    /// End the view of the status that it has open.
    EndView,
    /// Interrupt the worker that serves it.
    Interrupt,
    /// Write down that a worker exits.
    NoteExit,
    Ignore,
}

/// `watches` says whether the process has a view of the status open; such a
/// process is no client.
pub fn notice_action(about: Option<Type>, watches: bool) -> (r: NoticeAction)
    ensures
        r == match about {
            Some(Type::ClientDone) => NoticeAction::Done,
            Some(Type::ClientExit) => if watches {
                NoticeAction::EndView
            } else {
                NoticeAction::DoneAndCheck
            },
            Some(Type::ClientInterrupt) => if watches {
                NoticeAction::EndView
            } else {
                NoticeAction::Interrupt
            },
            Some(Type::WorkerExit) => NoticeAction::NoteExit,
            Some(Type::WorkerUnresponsive) => NoticeAction::Ignore,
            None => NoticeAction::Ignore,
        },
{
    match about {
        Some(Type::ClientDone) => NoticeAction::Done,
        Some(Type::ClientExit) => if watches {
            NoticeAction::EndView
        } else {
            NoticeAction::DoneAndCheck
        },
        Some(Type::ClientInterrupt) => if watches {
            NoticeAction::EndView
        } else {
            NoticeAction::Interrupt
        },
        Some(Type::WorkerExit) => NoticeAction::NoteExit,
        Some(Type::WorkerUnresponsive) => NoticeAction::Ignore,
        None => NoticeAction::Ignore,
    }
}

impl Conductor {
    /// The worker that an interrupt of the client `pid` goes to.
    pub fn handle_interrupt(&self, pid: u32) -> (r: Option<u32>)
        requires
            self.wf(),
        ensures
            r == if self.active_clients@.contains_key(pid) && self.knows(
                self.active_clients@[pid].worker_id,
            ) {
                Some(self.active_clients@[pid].worker_id)
            } else {
                None
            },
    {
        match self.active_clients.get(pid) {
            Some(info) => if self.get_worker(info.worker_id).is_some() {
                Some(info.worker_id)
            } else {
                None
            },
            None => None,
        }
    }

    /// The numbers of all workers, pool by pool, the reserve's last.
    pub fn all_workers(&self) -> (r: Vec<u32>)
        requires
            self.wf(),
        ensures
            r@ == pools::ids(pools::flat(self.pools@)) + (match self.reserve {
                Some(w) => seq![w.id],
                None => Seq::empty(),
            }),
            r@.no_duplicates(),
            forall|id: u32| r@.contains(id) <==> self.knows(id),
    {
        let mut out: Vec<u32> = Vec::new();
        let ghost s = self.pools@;
        let mut p: usize = 0;
        assert(s.take(0) =~= Seq::empty());
        while p < self.pools.len()
            invariant
                s == self.pools@,
                p <= s.len(),
                out@ =~= pools::ids(pools::flat(s.take(p as int))),
            decreases s.len() - p,
        {
            let ws = self.pools.workers(p);
            let mut i: usize = 0;
            while i < ws.len()
                invariant
                    s == self.pools@,
                    p < s.len(),
                    ws@ == s[p as int].workers,
                    i <= ws@.len(),
                    out@ =~= pools::ids(pools::flat(s.take(p as int)) + ws@.take(i as int)),
                decreases ws@.len() - i,
            {
                out.push(ws[i].id);
                i = i + 1;
            }
            assert(ws@.take(i as int) =~= ws@);
            assert(s.take(p + 1).drop_last() =~= s.take(p as int));
            p = p + 1;
        }
        assert(s.take(p as int) =~= s);
        let ghost pooled = out@;
        if let Some(w) = &self.reserve {
            out.push(w.id);
        }
        proof {
            pools::lemma_flat(s);
            assert(pooled == pools::ids(pools::flat(s)));
            assert forall|id: u32| out@.contains(id) == self.knows(id) by {
                if out@.contains(id) {
                    let k = out@.index_of(id);
                    if k < pooled.len() {
                        assert(pooled[k] == id);
                        assert(pooled.contains(id));
                    }
                }
                if pools::has_worker(s, id) {
                    assert(pooled.contains(id));
                    let k = pooled.index_of(id);
                    assert(out@[k] == id);
                }
                if self.reserve_is(id) {
                    assert(out@[pooled.len() as int] == id);
                }
            }
            if self.reserve is Some {
                assert(!pooled.contains(self.reserve->0.id));
            }
            assert forall|j: int, k: int| 0 <= j < out@.len() && 0 <= k < out@.len() && j
                != k implies out@[j] != out@[k] by {
                if j < pooled.len() {
                    assert(pooled[j] == out@[j]);
                }
                if k < pooled.len() {
                    assert(pooled[k] == out@[k]);
                }
            }
        }
        out
    }
}

} // verus!
