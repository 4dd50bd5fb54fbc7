//! What the conductor does about its workers from time to time.

use crate::clients;
use crate::conductor::Conductor;
use crate::handover;
use crate::health;
use crate::health::{choose_evictions, Idle};
use crate::lifecycle;
use crate::lifecycle::Done;
use crate::pools;
use crate::pressure::{MemReading, PressureMonitor};
use crate::selection;
use crate::text;
use crate::text::owned;
use crate::upkeep::Killed;
use crate::worker::Worker;
use vstd::prelude::*;

verus! {

// ---------------------------------------------------------------------
// When the rounds are made
// ---------------------------------------------------------------------

/// The most seconds from one look at the memory to the next.
pub const MAX_EVICTION_PERIOD: u64 = 5;

/// When the workers are looked after: how they are, and whether they have
/// idled too long, once in `interval` seconds; how short memory is, at least
/// that often.
#[derive(Clone, Copy, Debug, PartialEq, Eq, Structural)]
pub struct Timetable {
    pub interval: u64,
    /// The seconds to the next look at the memory.
    pub to_eviction: u64,
    /// The seconds to the next look at the workers.
    pub to_check: u64,
}

/// What is due after `wait` seconds.
#[derive(Clone, Copy, Debug, PartialEq, Eq, Structural)]
pub struct Round {
    pub wait: u64,
    pub evict: bool,
    pub check: bool,
}

impl Timetable {
    /// The seconds from one look at the memory to the next.
    pub open spec fn period(&self) -> u64 {
        if self.interval < MAX_EVICTION_PERIOD {
            self.interval
        } else {
            MAX_EVICTION_PERIOD
        }
    }

    pub open spec fn wf(&self) -> bool {
        self.to_eviction <= self.period() && self.to_check <= self.interval
    }

    pub fn new(interval: u64) -> (r: Self)
        ensures
            r.wf(),
            r.interval == interval,
            r.to_eviction == r.period(),
            r.to_check == interval,
    {
        let to_eviction: u64 = if interval < MAX_EVICTION_PERIOD {
            interval
        } else {
            MAX_EVICTION_PERIOD
        };
        Timetable { interval, to_eviction, to_check: interval }
    }

    /// What is due next, and after how long. What is done begins anew, and
    /// what is not comes so much nearer.
    pub fn next_round(&mut self) -> (r: Round)
        requires
            old(self).wf(),
        ensures
            final(self).wf(),
            final(self).interval == old(self).interval,
            r.wait == if old(self).to_eviction < old(self).to_check {
                old(self).to_eviction
            } else {
                old(self).to_check
            },
            r.evict == (old(self).to_eviction == r.wait),
            r.check == (old(self).to_check == r.wait),
            final(self).to_eviction == if r.evict {
                old(self).period() as int
            } else {
                old(self).to_eviction - r.wait
            },
            final(self).to_check == if r.check {
                old(self).interval as int
            } else {
                old(self).to_check - r.wait
            },
    {
        let wait: u64 = if self.to_eviction < self.to_check {
            self.to_eviction
        } else {
            self.to_check
        };
        let evict = self.to_eviction == wait;
        let check = self.to_check == wait;
        self.to_eviction = if evict {
            if self.interval < MAX_EVICTION_PERIOD {
                self.interval
            } else {
                MAX_EVICTION_PERIOD
            }
        } else {
            self.to_eviction - wait
        };
        self.to_check = if check {
            self.interval
        } else {
            self.to_check - wait
        };
        Round { wait, evict, check }
    }
}

// ---------------------------------------------------------------------
// Workers on their way out
// ---------------------------------------------------------------------

/// The key of a pool, and the number of a worker.
pub type Place = (Seq<char>, u32);

pub open spec fn place(e: Idle) -> Place {
    (e.key@, e.id)
}

pub open spec fn places(list: Seq<Idle>) -> Seq<Place> {
    Seq::new(list.len(), |k: int| place(list[k]))
}

impl Conductor {
    /// This is `other` after the workers of `list` were put on their way out
    /// one after the other, as far as they were there.
    pub open spec fn has_retired_all(&self, other: &Conductor, list: Seq<Place>, now: i64) -> bool
        decreases list.len(),
    {
        if list.len() == 0 {
            *self == *other
        } else {
            exists|mid: Conductor|
                mid.has_retired_all(other, list.drop_last(), now)
                    && #[trigger] self.has_retired_if_there(&mid, list.last(), now)
        }
    }

    /// This is `other` after one worker was put on its way out, if it was
    /// there.
    pub open spec fn has_retired_if_there(&self, other: &Conductor, at: Place, now: i64) -> bool {
        if other.can_retire(at.0, at.1) {
            self.has_retired(other, at.0, at.1, now)
        } else {
            *self == *other
        }
    }

    /// Since `other`, the workers `exits` have been put on their way out, in
    /// that order.
    pub open spec fn waits_for(&self, other: &Conductor, exits: Seq<u32>) -> bool {
        let n = other.pending_kills@.len();
        &&& self.pending_kills@.len() == n + exits.len()
        &&& self.pending_kills@.take(n as int) == other.pending_kills@
        &&& forall|k: int|
            0 <= k < exits.len() ==> (#[trigger] exits[k]) == self.pending_kills@[n
                + k].worker.id
    }

    /// Puts the workers of `list` on their way out, as far as they are there.
    /// Returns those that are to be asked to exit.
    pub fn retire_all(&mut self, list: &[Idle], now: i64) -> (r: Vec<u32>)
        requires
            old(self).wf(),
        ensures
            final(self).wf(),
            final(self).has_retired_all(old(self), places(list@), now),
            final(self).waits_for(old(self), r@),
    {
        let mut out: Vec<u32> = Vec::new();
        let ghost start = *self;
        let ghost all = places(list@);
        let mut i: usize = 0;
        assert(all.take(0).len() == 0);
        assert(start.pending_kills@.take(start.pending_kills@.len() as int)
            =~= start.pending_kills@);
        while i < list.len()
            invariant
                i <= list@.len(),
                all == places(list@),
                self.wf(),
                self.has_retired_all(&start, all.take(i as int), now),
                self.waits_for(&start, out@),
            decreases list@.len() - i,
        {
            let ghost mid = *self;
            let ghost so_far = out@;
            proof {
                assert(all.take(i + 1).drop_last() =~= all.take(i as int));
                assert(all.take(i + 1).last() == place(list@[i as int]));
                lemma_can_retire(mid, place(list@[i as int]));
            }
            if self.retire_worker(list[i].key.as_str(), list[i].id, now) {
                out.push(list[i].id);
                proof {
                    lemma_waits_longer(start, mid, *self, so_far);
                }
            }
            assert(self.has_retired_if_there(&mid, place(list@[i as int]), now));
            i = i + 1;
        }
        assert(all.take(i as int) =~= all);
        out
    }
}

/// One more worker waits.
proof fn lemma_waits_longer(start: Conductor, mid: Conductor, after: Conductor, so_far: Seq<u32>)
    requires
        mid.waits_for(&start, so_far),
        after.pending_kills@.len() == mid.pending_kills@.len() + 1,
        after.pending_kills@.drop_last() == mid.pending_kills@,
    ensures
        after.waits_for(&start, so_far.push(after.pending_kills@.last().worker.id)),
{
    let n = start.pending_kills@.len();
    let b = mid.pending_kills@;
    let a = after.pending_kills@;
    assert forall|k: int| 0 <= k < b.len() implies #[trigger] a[k] == b[k] by {
        assert(a.drop_last()[k] == a[k]);
    }
    assert(a.take(n as int) =~= b.take(n as int));
}

/// A worker can go if it is in its pool, or is the reserve.
pub proof fn lemma_can_retire(c: Conductor, at: Place)
    ensures
        c.can_retire(at.0, at.1) <==> (at.0.len() == 0 && c.reserve_is(at.1)) || exists|j: int|
            0 <= j < c.pool(at.0).len() && (#[trigger] c.pool(at.0)[j]).id == at.1,
        c.can_retire(at.0, at.1) ==> c.retiree(at.0, at.1).id == at.1,
{
    selection::lemma_first_where(c.pool(at.0), |w: Worker| w.id == at.1);
}

// ---------------------------------------------------------------------
// Workers that have idled too long
// ---------------------------------------------------------------------

/// Those of `idle` that are marked.
pub open spec fn marked(idle: Seq<Idle>, marks: Seq<bool>) -> Seq<Place>
    recommends
        idle.len() == marks.len(),
    decreases idle.len(),
{
    if idle.len() == 0 {
        Seq::empty()
    } else {
        let rest = marked(idle.drop_last(), marks.drop_last());
        if marks.last() {
            rest.push(place(idle.last()))
        } else {
            rest
        }
    }
}

/// What is left to do about workers that have idled too long.
pub struct Culled {
    /// Workers that are to be asked to exit.
    pub exits: Vec<u32>,
    /// The keys of the pools that are gone.
    pub emptied: Vec<String>,
}

impl Conductor {
    /// This is `other` after the workers of `list` were put on their way out,
    /// which are `exits` as far as they were there, and the pools without
    /// workers taken away, whose keys are `emptied`.
    pub open spec fn has_culled(
        &self,
        other: &Conductor,
        list: Seq<Place>,
        now: i64,
        exits: Seq<u32>,
        emptied: Seq<Seq<char>>,
    ) -> bool {
        exists|mid: Conductor|
            {
                &&& #[trigger] mid.has_retired_all(other, list, now)
                &&& mid.waits_for(other, exits)
                &&& *self == (Conductor { pools: self.pools, ..mid })
                &&& self.pools@ == mid.pools@.filter(|p: pools::PoolView| p.workers.len() > 0)
                &&& emptied == health::keys_of(
                    mid.pools@.filter(|p: pools::PoolView| p.workers.len() == 0),
                )
            }
    }

    /// Puts the workers that have idled too long on their way out: those of
    /// `idle` that are marked in `over`. Pools without workers go.
    pub fn enforce_max_ttl(&mut self, idle: &[Idle], over: &[bool], now: i64) -> (r: Culled)
        requires
            old(self).wf(),
            idle@.len() == over@.len(),
            health::lists_idle(*old(self), idle@, now),
        ensures
            final(self).wf(),
            final(self).has_culled(
                old(self),
                marked(idle@, over@),
                now,
                r.exits@,
                text::views(r.emptied@),
            ),
    {
        let mut list: Vec<Idle> = Vec::new();
        let mut i: usize = 0;
        assert(places(list@) =~= marked(idle@.take(0), over@.take(0)));
        while i < idle.len()
            invariant
                i <= idle@.len(),
                idle@.len() == over@.len(),
                places(list@) == marked(idle@.take(i as int), over@.take(i as int)),
            decreases idle@.len() - i,
        {
            let ghost before = list@;
            proof {
                assert(idle@.take(i + 1).drop_last() =~= idle@.take(i as int));
                assert(over@.take(i + 1).drop_last() =~= over@.take(i as int));
            }
            if over[i] {
                list.push(Idle { key: owned(idle[i].key.as_str()), id: idle[i].id });
                assert(places(list@) =~= places(before).push(place(idle@[i as int])));
            }
            i = i + 1;
        }
        proof {
            assert(idle@.take(i as int) =~= idle@);
            assert(over@.take(i as int) =~= over@);
        }
        let exits = self.retire_all(list.as_slice(), now);
        let ghost mid = *self;
        assert(mid.has_retired_all(old(self), marked(idle@, over@), now));
        let emptied = self.drop_empty_pools();
        Culled { exits, emptied }
    }
}

// ---------------------------------------------------------------------
// Workers that go when memory is short
// ---------------------------------------------------------------------

/// What is estimated of an idle worker.
#[derive(Clone, Copy, Debug, PartialEq, Eq, Structural)]
pub struct Estimate {
    /// It has idled too long, and goes anyhow.
    pub over: bool,
    /// How dear it is: how much it is used, for the memory that it takes.
    pub rank: i64,
}

/// A worker that could go, and how dear it is.
pub type Candidate = (Place, i64);

impl Conductor {
    /// The idle worker `id` could go: it is past the least time that workers
    /// are kept, and does not go anyhow.
    pub open spec fn could_go(&self, id: u32, over: bool, now: i64) -> bool {
        self.knows(id) && !over && now - self.worker(id).last_active >= self.config.min_ttl
    }

    /// Those of `idle` that could go.
    pub open spec fn could_go_among(
        &self,
        idle: Seq<Idle>,
        estimates: Seq<Estimate>,
        now: i64,
    ) -> Seq<Candidate>
        recommends
            idle.len() == estimates.len(),
        decreases idle.len(),
    {
        if idle.len() == 0 {
            Seq::empty()
        } else {
            let rest = self.could_go_among(idle.drop_last(), estimates.drop_last(), now);
            if self.could_go(idle.last().id, estimates.last().over, now) {
                rest.push((place(idle.last()), estimates.last().rank))
            } else {
                rest
            }
        }
    }

    /// All that could go: the reserve, which is the cheapest, and those of
    /// `idle`.
    pub open spec fn candidates(
        &self,
        idle: Seq<Idle>,
        estimates: Seq<Estimate>,
        now: i64,
    ) -> Seq<Candidate> {
        match self.reserve {
            Some(w) => seq![((Seq::<char>::empty(), w.id), i64::MIN)] + self.could_go_among(
                idle,
                estimates,
                now,
            ),
            None => self.could_go_among(idle, estimates, now),
        }
    }
}

pub open spec fn ranks_of(s: Seq<Candidate>) -> Seq<i64> {
    Seq::new(s.len(), |k: int| s[k].1)
}

/// The places of the chosen candidates.
pub open spec fn places_at(s: Seq<Candidate>, chosen: Seq<usize>) -> Seq<Place> {
    Seq::new(chosen.len(), |k: int| s[chosen[k] as int].0)
}

impl Conductor {
    /// This is `other` after the cheapest of the candidates `s` were put on
    /// their way out.
    pub open spec fn has_evicted(&self, other: &Conductor, s: Seq<Candidate>, now: i64) -> bool {
        exists|chosen: Seq<usize>|
            #[trigger] health::are_cheapest(ranks_of(s), chosen) && self.has_retired_all(
                other,
                places_at(s, chosen),
                now,
            )
    }

    /// This conductor with another monitor.
    pub open spec fn with_monitor(&self, pressure: PressureMonitor) -> Conductor {
        Conductor { pressure, ..*self }
    }

    /// Looks at the memory and makes room where it is short: the cheapest
    /// workers that could go are put on their way out. `psi_reached` and `mem`
    /// are what the look shows. Returns the workers that are to be asked to
    /// exit.
    pub fn run_eviction_episode(
        &mut self,
        psi_reached: Option<bool>,
        mem: Option<MemReading>,
        idle: &[Idle],
        estimates: &[Estimate],
        now: i64,
    ) -> (r: Vec<u32>)
        requires
            old(self).wf(),
            idle@.len() == estimates@.len(),
            health::lists_idle(*old(self), idle@, now),
        ensures
            final(self).wf(),
            final(self).pressure.has_polled(&old(self).pressure, psi_reached, mem),
            final(self).waits_for(old(self), r@),
            if old(self).pressure.alarmed_by(psi_reached, mem) {
                final(self).has_evicted(
                    &old(self).with_monitor(final(self).pressure),
                    old(self).candidates(idle@, estimates@, now),
                    now,
                )
            } else {
                *final(self) == old(self).with_monitor(final(self).pressure) && r@.len() == 0
            },
    {
        let ghost first = *self;
        if !self.pressure.poll(psi_reached, mem) {
            assert(self.pending_kills@.take(self.pending_kills@.len() as int)
                =~= self.pending_kills@);
            return Vec::new();
        }
        let ghost start = *self;
        proof {
            lemma_same_candidates(first, start, idle@, estimates@, now);
        }
        let mut list: Vec<Idle> = Vec::new();
        let mut ranks: Vec<i64> = Vec::new();
        if let Some(w) = &self.reserve {
            list.push(Idle { key: String::new(), id: w.id });
            ranks.push(i64::MIN);
        }
        let ghost head = start.candidates(idle@.take(0), estimates@.take(0), now);
        proof {
            assert(start.could_go_among(idle@.take(0), estimates@.take(0), now).len() == 0);
            assert(places(list@) =~= places_at(head, Seq::new(head.len(), |k: int| k as usize)));
            assert(ranks@ =~= ranks_of(head));
        }
        let mut i: usize = 0;
        while i < idle.len()
            invariant
                i <= idle@.len(),
                idle@.len() == estimates@.len(),
                *self == start,
                start.wf(),
                list@.len() == ranks@.len(),
                lists(
                    list@,
                    ranks@,
                    start.candidates(idle@.take(i as int), estimates@.take(i as int), now),
                ),
            decreases idle@.len() - i,
        {
            proof {
                assert(idle@.take(i + 1).drop_last() =~= idle@.take(i as int));
                assert(estimates@.take(i + 1).drop_last() =~= estimates@.take(i as int));
                lemma_candidates(start, idle@.take(i + 1), estimates@.take(i + 1), now);
            }
            let id: u32 = idle[i].id;
            let past: bool = match self.get_worker(id) {
                Some(w) => now as i128 - w.last_active as i128 >= self.config.min_ttl as i128,
                None => false,
            };
            if past && !estimates[i].over {
                list.push(Idle { key: owned(idle[i].key.as_str()), id });
                ranks.push(estimates[i].rank);
            }
            i = i + 1;
        }
        proof {
            assert(idle@.take(i as int) =~= idle@);
            assert(estimates@.take(i as int) =~= estimates@);
        }
        let ghost s = start.candidates(idle@, estimates@, now);
        let chosen = choose_evictions(ranks.as_slice());
        let mut going: Vec<Idle> = Vec::new();
        let mut k: usize = 0;
        while k < chosen.len()
            invariant
                k <= chosen@.len(),
                lists(list@, ranks@, s),
                forall|l: int| 0 <= l < chosen@.len() ==> (#[trigger] chosen@[l]) < list@.len(),
                going@.len() == k,
                forall|l: int|
                    0 <= l < k ==> place(#[trigger] going@[l]) == s[chosen@[l] as int].0,
            decreases chosen@.len() - k,
        {
            let e = &list[chosen[k]];
            going.push(Idle { key: owned(e.key.as_str()), id: e.id });
            k = k + 1;
        }
        proof {
            assert(ranks@ =~= ranks_of(s));
            assert(places(going@) =~= places_at(s, chosen@));
            assert(health::are_cheapest(ranks_of(s), chosen@));
        }
        let exits = self.retire_all(going.as_slice(), now);
        proof {
            lemma_monitor_stays(start, *self, places_at(s, chosen@), now);
        }
        exits
    }
}

/// Who could go does not depend on the monitor.
proof fn lemma_same_candidates(
    a: Conductor,
    b: Conductor,
    idle: Seq<Idle>,
    estimates: Seq<Estimate>,
    now: i64,
)
    requires
        b == a.with_monitor(b.pressure),
    ensures
        a.could_go_among(idle, estimates, now) == b.could_go_among(idle, estimates, now),
        a.candidates(idle, estimates, now) == b.candidates(idle, estimates, now),
    decreases idle.len(),
{
    if idle.len() > 0 {
        lemma_same_candidates(a, b, idle.drop_last(), estimates.drop_last(), now);
    }
}

/// No worker that goes changes the monitor.
proof fn lemma_monitor_stays(before: Conductor, after: Conductor, list: Seq<Place>, now: i64)
    requires
        after.has_retired_all(&before, list, now),
    ensures
        after.pressure == before.pressure,
    decreases list.len(),
{
    if list.len() > 0 {
        let mid = choose|mid: Conductor|
            mid.has_retired_all(&before, list.drop_last(), now)
                && #[trigger] after.has_retired_if_there(&mid, list.last(), now);
        lemma_monitor_stays(before, mid, list.drop_last(), now);
    }
}

/// `list` and `ranks` are the candidates `s`.
spec fn lists(list: Seq<Idle>, ranks: Seq<i64>, s: Seq<Candidate>) -> bool {
    &&& list.len() == s.len()
    &&& ranks.len() == s.len()
    &&& forall|k: int|
        0 <= k < s.len() ==> (#[trigger] s[k]) == (place(list[k]), ranks[k])
}

/// One more idle worker is one more candidate, if it could go.
proof fn lemma_candidates(c: Conductor, idle: Seq<Idle>, estimates: Seq<Estimate>, now: i64)
    requires
        idle.len() > 0,
        idle.len() == estimates.len(),
    ensures
        c.candidates(idle, estimates, now) == {
            let rest = c.candidates(idle.drop_last(), estimates.drop_last(), now);
            if c.could_go(idle.last().id, estimates.last().over, now) {
                rest.push((place(idle.last()), estimates.last().rank))
            } else {
                rest
            }
        },
{
    let rest = c.candidates(idle.drop_last(), estimates.drop_last(), now);
    if c.could_go(idle.last().id, estimates.last().over, now) {
        assert(c.candidates(idle, estimates, now) =~= rest.push(
            (place(idle.last()), estimates.last().rank),
        ));
    }
}

// ---------------------------------------------------------------------
// How workers are
// ---------------------------------------------------------------------

/// What follows from a ping.
pub enum Pinged {
    /// The worker does not answer, and is to be given up.
    Silent,
    /// It counts its clients otherwise than the conductor, and is to be told
    /// which these are.
    Differs(Vec<u32>),
    /// All is well.
    Well,
}

/// What follows when a worker was told which its clients are.
pub enum Synced {
    /// There is no such worker.
    Unknown,
    /// It does not answer, and was given up.
    Lost(Killed),
    /// It has answered, and is to be asked for its clients.
    Counted,
}

impl Conductor {
    /// What follows from a ping to the worker `id`, which reports so many
    /// clients, or `None` where it does not answer.
    pub fn ping_worker(&self, id: u32, reported: Option<u16>) -> (r: Pinged)
        requires
            self.wf(),
        ensures
            match r {
                Pinged::Silent => !self.knows(id) || reported is None,
                Pinged::Differs(pids) => {
                    &&& self.knows(id)
                    &&& reported matches Some(n) && n != self.worker(id).active_clients
                    &&& pids@ == self.active_clients.listing(id)
                    &&& pids@.to_set() == clients::clients_of(self.active_clients@, id)
                },
                Pinged::Well => {
                    &&& self.knows(id)
                    &&& reported matches Some(n) && n == self.worker(id).active_clients
                },
            },
    {
        if self.get_worker(id).is_none() {
            return Pinged::Silent;
        }
        match reported {
            None => Pinged::Silent,
            Some(n) => {
                if self.counts_differ(id, n) {
                    let pids = self.active_clients.of_worker(id);
                    assert(pids@.to_set() =~= clients::clients_of(self.active_clients@, id));
                    Pinged::Differs(pids)
                } else {
                    Pinged::Well
                }
            },
        }
    }

    /// Takes the worker's answer when it was told which its clients are: how
    /// many it has, or `None` where it does not answer. A worker that nobody
    /// knows changes nothing.
    pub fn sync_worker_clients(&mut self, id: u32, remaining: Option<u16>) -> (r: Synced)
        requires
            old(self).wf(),
        ensures
            final(self).wf(),
            match r {
                Synced::Unknown => !old(self).knows(id) && *final(self) == *old(self),
                Synced::Lost(killed) => {
                    &&& old(self).knows(id)
                    &&& remaining is None
                    &&& !final(self).knows(id)
                    &&& final(self).has_killed(old(self), id, killed)
                },
                Synced::Counted => {
                    &&& old(self).knows(id)
                    &&& remaining is Some
                    &&& final(self).has_active(old(self), id, remaining->0 as u32)
                },
            },
    {
        if self.get_worker(id).is_none() {
            return Synced::Unknown;
        }
        match remaining {
            None => Synced::Lost(self.kill_unresponsive_worker(id)),
            Some(n) => {
                self.set_active_clients(id, n as u32);
                Synced::Counted
            },
        }
    }
}

// ---------------------------------------------------------------------
// Clients that a worker does not know of
// ---------------------------------------------------------------------

impl Conductor {
    /// This is `other` after the clients `pids` were taken off one after the
    /// other, with `r` left to do.
    pub open spec fn has_done_all(
        &self,
        other: &Conductor,
        pids: Seq<u32>,
        now: i64,
        r: Seq<Option<Done>>,
    ) -> bool
        decreases pids.len(),
    {
        &&& r.len() == pids.len()
        &&& if pids.len() == 0 {
            *self == *other
        } else {
            exists|mid: Conductor|
                mid.has_done_all(other, pids.drop_last(), now, r.drop_last())
                    && #[trigger] self.has_done(&mid, pids.last(), now, r.last())
        }
    }

    /// Takes off the clients that the worker `id` should have and does not
    /// report, in no particular order: their numbers come back, and what is
    /// left to do about each. One that went with its worker needs nothing. A
    /// worker that nobody knows loses none.
    pub fn reconcile_client_map(&mut self, id: u32, actual: &[u32], now: i64) -> (r: (
        Vec<u32>,
        Vec<Option<Done>>,
    ))
        requires
            old(self).wf(),
        ensures
            final(self).wf(),
            r.0@.no_duplicates(),
            forall|pid: u32|
                r.0@.contains(pid) <==> old(self).knows(id) && clients::clients_of(
                    old(self).active_clients@,
                    id,
                ).contains(pid) && !actual@.contains(pid),
            final(self).has_done_all(old(self), r.0@, now, r.1@),
    {
        let ghost start = *self;
        if self.get_worker(id).is_none() {
            return (Vec::new(), Vec::new());
        }
        let stale = self.stale_clients(id, actual);
        let mut out: Vec<Option<Done>> = Vec::new();
        let mut i: usize = 0;
        assert(stale@.take(0).len() == 0);
        while i < stale.len()
            invariant
                i <= stale@.len(),
                self.wf(),
                self.has_done_all(&start, stale@.take(i as int), now, out@),
            decreases stale@.len() - i,
        {
            let ghost mid = *self;
            let ghost so_far = out@;
            let done = self.client_done(stale[i], now);
            out.push(done);
            proof {
                assert(stale@.take(i + 1).drop_last() =~= stale@.take(i as int));
                assert(out@.drop_last() =~= so_far);
                assert(stale@.take(i + 1).last() == stale@[i as int]);
                assert(mid.has_done_all(&start, stale@.take(i + 1).drop_last(), now, so_far));
                assert(self.has_done(&mid, stale@.take(i + 1).last(), now, out@.last()));
            }
            i = i + 1;
        }
        assert(stale@.take(i as int) =~= stale@);
        (stale, out)
    }
}

// ---------------------------------------------------------------------
// Laws
// ---------------------------------------------------------------------

/// No two workers have the same number.
pub open spec fn apart(c: Conductor) -> bool {
    pools::distinct(c.pools@) && (c.reserve matches Some(r) ==> !pools::has_worker(
        c.pools@,
        r.id,
    ))
}

/// The pools after a worker of one was taken out.
proof fn lemma_removed(s: Seq<pools::PoolView>, p: int, i: int)
    requires
        pools::distinct(s),
        pools::in_range(s, p, i),
    ensures
        pools::distinct(pools::removed(s, p, i)),
        forall|id: u32|
            pools::has_worker(pools::removed(s, p, i), id) <==> pools::has_worker(s, id) && id
                != s[p].workers[i].id,
        forall|key: Seq<char>| pools::place_of(pools::removed(s, p, i), key) == pools::place_of(s, key),
{
    let t = pools::removed(s, p, i);
    let gone = s[p].workers[i].id;
    assert forall|q: int, j: int| pools::in_range(t, q, j) implies {
        let k = if q == p && j >= i {
            j + 1
        } else {
            j
        };
        pools::in_range(s, q, k) && (#[trigger] t[q].workers[j]) == s[q].workers[k]
    } by {}
    assert forall|id: u32| pools::has_worker(t, id) == (pools::has_worker(s, id) && id != gone) by {
        if pools::has_worker(t, id) {
            let (q, j) = choose|q: int, j: int|
                pools::in_range(t, q, j) && #[trigger] t[q].workers[j].id == id;
            let k = if q == p && j >= i {
                j + 1
            } else {
                j
            };
            assert(pools::in_range(s, q, k) && s[q].workers[k].id == id);
        }
        if pools::has_worker(s, id) && id != gone {
            let (q, k) = choose|q: int, k: int|
                pools::in_range(s, q, k) && #[trigger] s[q].workers[k].id == id;
            let j = if q == p && k >= i {
                k - 1
            } else {
                k
            };
            assert(pools::in_range(t, q, j) && t[q].workers[j].id == id);
        }
    }
    assert(pools::distinct(t)) by {
        assert forall|a: int, b: int| 0 <= a < b < t.len() implies (#[trigger] t[a]).key != (
        #[trigger] t[b]).key by {
            assert(s[a].key != s[b].key);
        }
        assert forall|a: int, b: int, q: int, j: int|
            pools::in_range(t, a, b) && pools::in_range(t, q, j) && #[trigger] t[a].workers[b].id
                == #[trigger] t[q].workers[j].id implies a == q && b == j by {
            let k = if a == p && b >= i {
                b + 1
            } else {
                b
            };
            let l = if q == p && j >= i {
                j + 1
            } else {
                j
            };
            assert(s[a].workers[k].id == s[q].workers[l].id);
        }
    }
    assert forall|key: Seq<char>| pools::place_of(t, key) == pools::place_of(s, key) by {
        pools::lemma_place_of(s, key);
        let n = pools::place_of(s, key);
        assert forall|q: int| 0 <= q < n implies (#[trigger] t[q]).key != key by {
            assert(s[q].key != key);
        }
        pools::lemma_place_is(t, key, n);
    }
}

/// A worker on its way out is not known any more, and the others are where
/// they were.
pub proof fn lemma_retired(before: Conductor, after: Conductor, at: Place, now: i64)
    requires
        apart(before),
        before.can_retire(at.0, at.1),
        after.has_retired(&before, at.0, at.1, now),
    ensures
        apart(after),
        forall|id: u32| after.knows(id) <==> before.knows(id) && id != at.1,
        forall|key: Seq<char>, id: u32|
            before.can_retire(key, id) && id != at.1 ==> after.can_retire(key, id),
{
    let (key, id) = at;
    let s = before.pools@;
    let t = after.pools@;
    if key.len() == 0 && before.reserve_is(id) {
        assert forall|k: Seq<char>, i: u32|
            before.can_retire(k, i) && i != id implies after.can_retire(k, i) by {
            assert(after.pool(k) == before.pool(k));
        }
    } else {
        let ws = before.pool(key);
        let p = pools::place_of(s, key);
        let i = lifecycle::number_place(ws, id);
        selection::lemma_first_where(ws, |w: Worker| w.id == id);
        pools::lemma_place_of(s, key);
        assert(pools::in_range(s, p, i) && s[p].workers[i].id == id);
        lemma_removed(s, p, i);
        assert(pools::has_worker(s, id));
        assert forall|k: Seq<char>, other: u32|
            before.can_retire(k, other) && other != id implies after.can_retire(k, other) by {
            lemma_can_retire(before, (k, other));
            lemma_can_retire(after, (k, other));
            if !(k.len() == 0 && before.reserve_is(other)) {
                let j = choose|j: int|
                    0 <= j < before.pool(k).len() && (#[trigger] before.pool(k)[j]).id == other;
                pools::lemma_place_of(s, k);
                assert(pools::place_of(t, k) == pools::place_of(s, k));
                let m = if pools::place_of(s, k) == p && j > i {
                    j - 1
                } else {
                    j
                };
                assert(after.pool(k)[m].id == other);
            }
        }
    }
}

pub proof fn lemma_retired_all(before: Conductor, after: Conductor, list: Seq<Place>, now: i64)
    requires
        apart(before),
        after.has_retired_all(&before, list, now),
    ensures
        apart(after),
        forall|id: u32| after.knows(id) ==> before.knows(id),
        forall|id: u32|
            before.knows(id) && (forall|k: int| 0 <= k < list.len() ==> (#[trigger] list[k]).1 != id)
                ==> after.knows(id),
        forall|k: int|
            0 <= k < list.len() && before.can_retire((#[trigger] list[k]).0, list[k].1)
                ==> !after.knows(list[k].1),
        forall|key: Seq<char>, id: u32|
            before.can_retire(key, id) && after.knows(id) ==> after.can_retire(key, id),
    decreases list.len(),
{
    if list.len() > 0 {
        let front = list.drop_last();
        let at = list.last();
        let mid = choose|mid: Conductor|
            mid.has_retired_all(&before, front, now) && #[trigger] after.has_retired_if_there(
                &mid,
                at,
                now,
            );
        lemma_retired_all(before, mid, front, now);
        if mid.can_retire(at.0, at.1) {
            lemma_retired(mid, after, at, now);
        }
        assert forall|id: u32|
            before.knows(id) && (forall|k: int|
                0 <= k < list.len() ==> (#[trigger] list[k]).1 != id) implies after.knows(id) by {
            assert forall|k: int| 0 <= k < front.len() implies (#[trigger] front[k]).1 != id by {
                assert(list[k] == front[k]);
            }
            assert(list[list.len() - 1].1 != id);
        }
        assert forall|k: int|
            0 <= k < list.len() && before.can_retire(
                (#[trigger] list[k]).0,
                list[k].1,
            ) implies !after.knows(list[k].1) by {
            if k < front.len() {
                assert(front[k] == list[k]);
            } else {
                assert(list[k] == at);
            }
        }
    }
}

/// Workers that were put on their way out from where they are, are not known
/// any more, and no other worker is forgotten.
pub proof fn law_retired_are_gone(before: Conductor, after: Conductor, list: Seq<Place>, now: i64)
    requires
        before.wf(),
        after.has_retired_all(&before, list, now),
    ensures
        forall|k: int|
            0 <= k < list.len() && before.can_retire((#[trigger] list[k]).0, list[k].1)
                ==> !after.knows(list[k].1),
        forall|id: u32| after.knows(id) ==> before.knows(id),
        forall|id: u32|
            before.knows(id) && (forall|k: int| 0 <= k < list.len() ==> (#[trigger] list[k]).1 != id)
                ==> after.knows(id),
{
    lemma_retired_all(before, after, list, now);
}

/// A worker that may go can be put on its way out.
pub proof fn law_idle_can_be_retired(c: Conductor, e: Idle, now: i64)
    requires
        c.wf(),
        c.is_idle(e, now),
    ensures
        c.can_retire(e.key@, e.id),
{
    let (p, i) = choose|p: int, i: int|
        #[trigger] c.may_go_at(p, i, now) && c.pools@[p].key == e.key@
            && c.pools@[p].workers[i].id == e.id;
    lifecycle::lemma_pool_at(c, p, i);
}

/// Which workers go when memory is short, and in which order, follows from
/// how dear they are.
pub proof fn law_cheapest_are_unique(ranks: Seq<i64>, a: Seq<usize>, b: Seq<usize>)
    requires
        health::are_cheapest(ranks, a),
        health::are_cheapest(ranks, b),
    ensures
        a == b,
{
    assert forall|k: int| 0 <= k < a.len() implies a[k] == b[k] by {
        lemma_same_choice(ranks, a, b, k);
    }
    assert(a =~= b);
}

proof fn lemma_same_choice(ranks: Seq<i64>, a: Seq<usize>, b: Seq<usize>, k: int)
    requires
        health::are_cheapest(ranks, a),
        health::are_cheapest(ranks, b),
        0 <= k < a.len(),
    ensures
        a[k] == b[k],
    decreases k,
{
    assert forall|j: int| 0 <= j < k implies a[j] == b[j] by {
        lemma_same_choice(ranks, a, b, j);
    }
    if a[k] != b[k] {
        lemma_no_later(ranks, a, b, k);
        lemma_no_later(ranks, b, a, k);
    }
}

/// Where two choices part, neither comes before the other.
proof fn lemma_no_later(ranks: Seq<i64>, a: Seq<usize>, b: Seq<usize>, k: int)
    requires
        health::are_cheapest(ranks, a),
        health::are_cheapest(ranks, b),
        0 <= k < a.len(),
        a[k] != b[k],
        forall|j: int| 0 <= j < k ==> a[j] == b[j],
    ensures
        health::goes_before(ranks, b[k] as int, a[k] as int),
{
    if b.contains(a[k]) {
        let m = b.index_of(a[k]);
        if m < k {
            assert(a[m] == b[m]);
            assert(health::goes_before(ranks, a[m] as int, a[k] as int));
        }
        assert(health::goes_before(ranks, b[k] as int, b[m] as int));
    }
}

/// The reserve goes before any other worker.
pub proof fn law_reserve_goes_first(
    c: Conductor,
    idle: Seq<Idle>,
    estimates: Seq<Estimate>,
    now: i64,
    chosen: Seq<usize>,
)
    requires
        c.reserve is Some,
        health::are_cheapest(ranks_of(c.candidates(idle, estimates, now)), chosen),
    ensures
        chosen.len() > 0,
        places_at(c.candidates(idle, estimates, now), chosen)[0] == (
            Seq::<char>::empty(),
            c.reserve->0.id,
        ),
{
    let s = c.candidates(idle, estimates, now);
    let ranks = ranks_of(s);
    assert(s[0] == ((Seq::<char>::empty(), c.reserve->0.id), i64::MIN));
    assert(ranks[0] == i64::MIN);
    if chosen[0] != 0 {
        if chosen.contains(0usize) {
            let m = chosen.index_of(0usize);
            assert(health::goes_before(ranks, chosen[0] as int, chosen[m] as int));
        }
        assert(health::goes_before(ranks, chosen[0] as int, 0));
    }
}

/// A client that is done is gone, and the others are as they were.
pub proof fn lemma_done(before: Conductor, after: Conductor, pid: u32, now: i64, r: Option<Done>)
    requires
        after.has_done(&before, pid, now, r),
    ensures
        !after.active_clients@.contains_key(pid),
        forall|other: u32|
            #[trigger]
            after.active_clients@.contains_key(other) ==> before.active_clients@.contains_key(other)
                && after.active_clients@[other] == before.active_clients@[other],
{
    if r is Some {
        let mid = choose|mid: Conductor|
            {
                &&& #[trigger] mid.is_left_by(&before, pid, now)
                &&& if r->0.retired {
                    exists|key: Seq<char>|
                        {
                            &&& #[trigger] mid.pool(key).contains(
                                lifecycle::left_by_client(
                                    before.worker(before.active_clients@[pid].worker_id),
                                    now,
                                ),
                            )
                            &&& after.has_retired(
                                &mid,
                                key,
                                before.active_clients@[pid].worker_id,
                                now,
                            )
                        }
                } else {
                    after == mid
                }
            };
        assert(mid.active_clients@ == before.active_clients@.remove_keys(set![pid]));
        assert forall|other: u32| #[trigger]
            after.active_clients@.contains_key(
                other,
            ) implies mid.active_clients@.contains_key(other) && after.active_clients@[other]
            == mid.active_clients@[other] by {}
        assert forall|other: u32| #[trigger]
            mid.active_clients@.contains_key(other) implies before.active_clients@.contains_key(
            other,
        ) && mid.active_clients@[other] == before.active_clients@[other] by {}
    }
}

/// A worker that has answered is not asked again about its clients: it counts
/// them as the conductor does.
pub proof fn law_synced_workers_agree(before: Conductor, after: Conductor, id: u32, n: u16)
    requires
        before.wf(),
        before.knows(id),
        after.wf(),
        after.has_active(&before, id, n as u32),
    ensures
        after.knows(id),
        after.worker(id).active_clients == n,
{
    handover::lemma_still_known(
        before,
        after,
        Worker { active_clients: n as u32, ..before.worker(id) },
    );
}

/// A client that its worker does not know of is taken off for good, and no
/// client comes in its place.
pub proof fn law_reconciled_are_gone(
    before: Conductor,
    after: Conductor,
    pids: Seq<u32>,
    now: i64,
    r: Seq<Option<Done>>,
)
    requires
        after.has_done_all(&before, pids, now, r),
    ensures
        forall|k: int|
            0 <= k < pids.len() ==> !after.active_clients@.contains_key(#[trigger] pids[k]),
        forall|pid: u32|
            after.active_clients@.contains_key(pid) ==> before.active_clients@.contains_key(pid)
                && after.active_clients@[pid] == before.active_clients@[pid],
    decreases pids.len(),
{
    if pids.len() > 0 {
        let front = pids.drop_last();
        let mid = choose|mid: Conductor|
            mid.has_done_all(&before, front, now, r.drop_last()) && #[trigger] after.has_done(
                &mid,
                pids.last(),
                now,
                r.last(),
            );
        law_reconciled_are_gone(before, mid, front, now, r.drop_last());
        lemma_done(mid, after, pids.last(), now, r.last());
        assert forall|k: int| 0 <= k < pids.len() implies !after.active_clients@.contains_key(
            #[trigger] pids[k],
        ) by {
            if k < front.len() {
                assert(front[k] == pids[k]);
            } else {
                assert(pids[k] == pids.last());
            }
        }
    }
}

/// A worker that does not go stays where it is.
proof fn lemma_stays(
    before: Conductor,
    after: Conductor,
    list: Seq<Place>,
    now: i64,
    key: Seq<char>,
    w: Worker,
)
    requires
        apart(before),
        after.has_retired_all(&before, list, now),
        before.pool(key).contains(w),
        forall|k: int| 0 <= k < list.len() ==> (#[trigger] list[k]).1 != w.id,
    ensures
        after.pool(key).contains(w),
    decreases list.len(),
{
    if list.len() > 0 {
        let front = list.drop_last();
        let at = list.last();
        let mid = choose|mid: Conductor|
            mid.has_retired_all(&before, front, now) && #[trigger] after.has_retired_if_there(
                &mid,
                at,
                now,
            );
        assert forall|k: int| 0 <= k < front.len() implies (#[trigger] front[k]).1 != w.id by {
            assert(front[k] == list[k]);
        }
        assert(list[list.len() - 1].1 != w.id);
        lemma_stays(before, mid, front, now, key, w);
        lemma_retired_all(before, mid, front, now);
        if mid.can_retire(at.0, at.1) && !(at.0.len() == 0 && mid.reserve_is(at.1)) {
            let s = mid.pools@;
            let p = pools::place_of(s, at.0);
            let i = lifecycle::number_place(mid.pool(at.0), at.1);
            selection::lemma_first_where(mid.pool(at.0), |x: Worker| x.id == at.1);
            pools::lemma_place_of(s, at.0);
            pools::lemma_place_of(s, key);
            lemma_removed(s, p, i);
            let j = mid.pool(key).index_of(w);
            let m = if pools::place_of(s, key) == p && j > i {
                j - 1
            } else {
                j
            };
            assert(pools::place_of(after.pools@, key) == pools::place_of(s, key));
            assert(after.pool(key)[m] == w);
        }
    }
}

/// Where all of `list` are there, all of them go.
pub proof fn lemma_all_go(before: Conductor, after: Conductor, list: Seq<Place>, now: i64)
    requires
        apart(before),
        after.has_retired_all(&before, list, now),
        forall|k: int| 0 <= k < list.len() ==> before.can_retire((#[trigger] list[k]).0, list[k].1),
        forall|k: int, l: int|
            0 <= k < l < list.len() ==> (#[trigger] list[k]).1 != (#[trigger] list[l]).1,
    ensures
        after.pending_kills@.len() == before.pending_kills@.len() + list.len(),
        forall|k: int|
            0 <= k < list.len() ==> (#[trigger] list[k]).1
                == after.pending_kills@[before.pending_kills@.len() + k].worker.id,
    decreases list.len(),
{
    if list.len() > 0 {
        let front = list.drop_last();
        let at = list.last();
        let mid = choose|mid: Conductor|
            mid.has_retired_all(&before, front, now) && #[trigger] after.has_retired_if_there(
                &mid,
                at,
                now,
            );
        assert forall|k: int| 0 <= k < front.len() implies before.can_retire(
            (#[trigger] front[k]).0,
            front[k].1,
        ) && front[k].1 != at.1 by {
            assert(front[k] == list[k]);
            assert(list[list.len() - 1] == at);
        }
        assert forall|k: int, l: int| 0 <= k < l < front.len() implies (#[trigger] front[k]).1 != (
        #[trigger] front[l]).1 by {
            assert(front[k] == list[k] && front[l] == list[l]);
        }
        lemma_all_go(before, mid, front, now);
        lemma_retired_all(before, mid, front, now);
        assert(before.can_retire(at.0, at.1)) by {
            assert(list[list.len() - 1] == at);
        }
        assert(before.knows(at.1)) by {
            lemma_known_if_there(before, at);
        }
        assert(mid.can_retire(at.0, at.1));
        lemma_can_retire(mid, at);
        let n = before.pending_kills@.len();
        assert forall|k: int| 0 <= k < list.len() implies (#[trigger] list[k]).1
            == after.pending_kills@[n + k].worker.id by {
            if k < front.len() {
                assert(front[k] == list[k]);
                assert(after.pending_kills@.drop_last()[n + k] == after.pending_kills@[n + k]);
            } else {
                assert(list[k] == at);
            }
        }
    }
}

proof fn lemma_known_if_there(c: Conductor, at: Place)
    requires
        c.can_retire(at.0, at.1),
    ensures
        c.knows(at.1),
{
    lemma_can_retire(c, at);
    if !(at.0.len() == 0 && c.reserve_is(at.1)) {
        let j = choose|j: int| 0 <= j < c.pool(at.0).len() && (#[trigger] c.pool(at.0)[j]).id == at.1;
        pools::lemma_place_of(c.pools@, at.0);
        let p = pools::place_of(c.pools@, at.0);
        assert(pools::in_range(c.pools@, p, j) && c.pools@[p].workers[j].id == at.1);
    }
}

/// The worker at `at` is one of the list.
pub open spec fn is_among(idle: Seq<Idle>, at: Place) -> bool {
    exists|k: int| 0 <= k < idle.len() && #[trigger] place(idle[k]) == at
}

proof fn lemma_longer_list(idle: Seq<Idle>, at: Place)
    requires
        idle.len() > 0,
        is_among(idle.drop_last(), at) || at == place(idle.last()),
    ensures
        is_among(idle, at),
{
    if is_among(idle.drop_last(), at) {
        let k = choose|k: int|
            0 <= k < idle.drop_last().len() && #[trigger] place(idle.drop_last()[k]) == at;
        assert(place(idle[k]) == at);
    } else {
        assert(place(idle[idle.len() - 1]) == at);
    }
}

/// What is marked are workers of the list.
pub proof fn lemma_marked(idle: Seq<Idle>, marks: Seq<bool>)
    requires
        idle.len() == marks.len(),
    ensures
        forall|m: int|
            0 <= m < marked(idle, marks).len() ==> is_among(
                idle,
                #[trigger] marked(idle, marks)[m],
            ),
    decreases idle.len(),
{
    if idle.len() > 0 {
        lemma_marked(idle.drop_last(), marks.drop_last());
        let all = marked(idle, marks);
        let rest = marked(idle.drop_last(), marks.drop_last());
        assert forall|m: int| 0 <= m < all.len() implies is_among(idle, #[trigger] all[m]) by {
            if m < rest.len() {
                assert(is_among(idle.drop_last(), rest[m]));
            }
            lemma_longer_list(idle, all[m]);
        }
    }
}

/// A worker that may not go is no idle one.
proof fn lemma_not_idle(c: Conductor, e: Idle, now: i64, key: Seq<char>, w: Worker)
    requires
        c.wf(),
        c.is_idle(e, now),
        c.pool(key).contains(w),
        !w.may_go(c.limit(), now),
    ensures
        e.id != w.id,
{
    let (p, i) = choose|p: int, i: int|
        #[trigger] c.may_go_at(p, i, now) && c.pools@[p].key == e.key@
            && c.pools@[p].workers[i].id == e.id;
    pools::lemma_place_of(c.pools@, key);
    let q = pools::place_of(c.pools@, key);
    let j = c.pool(key).index_of(w);
    assert(pools::in_range(c.pools@, q, j) && c.pools@[q].workers[j] == w);
    if e.id == w.id {
        assert(c.pools@[p].workers[i].id == c.pools@[q].workers[j].id);
    }
}

/// Of the workers that idle, only those that have idled too long go, and all
/// of them: one that has a client, or a session that is kept, stays in its
/// pool as it is, and so does the reserve.
pub proof fn law_only_idle_are_culled(
    before: Conductor,
    after: Conductor,
    idle: Seq<Idle>,
    over: Seq<bool>,
    now: i64,
    exits: Seq<u32>,
    emptied: Seq<Seq<char>>,
)
    requires
        before.wf(),
        after.wf(),
        idle.len() == over.len(),
        health::lists_idle(before, idle, now),
        after.has_culled(&before, marked(idle, over), now, exits, emptied),
    ensures
        after.reserve == before.reserve,
        forall|key: Seq<char>, w: Worker|
            #[trigger] before.pool(key).contains(w) && !w.may_go(before.limit(), now)
                ==> after.pool(key).contains(w),
        forall|m: int|
            0 <= m < marked(idle, over).len() ==> !after.knows((#[trigger] marked(idle, over)[m]).1),
{
    let list = marked(idle, over);
    let full = |p: pools::PoolView| p.workers.len() > 0;
    let mid = choose|mid: Conductor|
        {
            &&& #[trigger] mid.has_retired_all(&before, list, now)
            &&& mid.waits_for(&before, exits)
            &&& after == (Conductor { pools: after.pools, ..mid })
            &&& after.pools@ == mid.pools@.filter(|p: pools::PoolView| p.workers.len() > 0)
            &&& emptied == health::keys_of(
                mid.pools@.filter(|p: pools::PoolView| p.workers.len() == 0),
            )
        };
    lemma_marked(idle, over);
    lemma_retired_all(before, mid, list, now);
    assert(after.pools@ == mid.pools@.filter(full));
    assert forall|m: int| 0 <= m < list.len() implies before.can_retire(
        (#[trigger] list[m]).0,
        list[m].1,
    ) && !before.reserve_is(list[m].1) by {
        let k = choose|k: int| 0 <= k < idle.len() && #[trigger] place(idle[k]) == list[m];
        law_idle_can_be_retired(before, idle[k], now);
        lemma_idle_is_pooled(before, idle[k], now);
    }
    lemma_reserve_stays(before, mid, list, now);
    assert forall|key: Seq<char>, w: Worker| #[trigger]
        before.pool(key).contains(w) && !w.may_go(
            before.limit(),
            now,
        ) implies after.pool(key).contains(w) by {
        assert forall|m: int| 0 <= m < list.len() implies (#[trigger] list[m]).1 != w.id by {
            let k = choose|k: int| 0 <= k < idle.len() && #[trigger] place(idle[k]) == list[m];
            lemma_not_idle(before, idle[k], now, key, w);
        }
        lemma_stays(before, mid, list, now, key, w);
        lemma_full_pool_stays(mid.pools@, after.pools@, key);
    }
    assert forall|m: int| 0 <= m < list.len() implies !after.knows((#[trigger] list[m]).1) by {
        let id = list[m].1;
        assert(!mid.knows(id));
        if pools::has_worker(after.pools@, id) {
            let (p, i) = choose|p: int, i: int|
                pools::in_range(after.pools@, p, i) && #[trigger] after.pools@[p].workers[i].id
                    == id;
            assert(mid.pools@.filter(full).contains(after.pools@[p]));
            mid.pools@.lemma_filter_contains_rev(full, after.pools@[p]);
            let q = mid.pools@.index_of(after.pools@[p]);
            assert(pools::in_range(mid.pools@, q, i) && mid.pools@[q].workers[i].id == id);
        }
    }
}

pub proof fn lemma_idle_is_pooled(c: Conductor, e: Idle, now: i64)
    requires
        c.wf(),
        c.is_idle(e, now),
    ensures
        !c.reserve_is(e.id),
{
    let (p, i) = choose|p: int, i: int|
        #[trigger] c.may_go_at(p, i, now) && c.pools@[p].key == e.key@
            && c.pools@[p].workers[i].id == e.id;
    lifecycle::lemma_pool_at(c, p, i);
}

/// The reserve goes only by its number.
proof fn lemma_reserve_stays(before: Conductor, after: Conductor, list: Seq<Place>, now: i64)
    requires
        after.has_retired_all(&before, list, now),
        forall|m: int| 0 <= m < list.len() ==> !before.reserve_is((#[trigger] list[m]).1),
    ensures
        after.reserve == before.reserve,
    decreases list.len(),
{
    if list.len() > 0 {
        let front = list.drop_last();
        let mid = choose|mid: Conductor|
            mid.has_retired_all(&before, front, now) && #[trigger] after.has_retired_if_there(
                &mid,
                list.last(),
                now,
            );
        assert forall|m: int| 0 <= m < front.len() implies !before.reserve_is(
            (#[trigger] front[m]).1,
        ) by {
            assert(front[m] == list[m]);
        }
        assert(list[list.len() - 1] == list.last());
        lemma_reserve_stays(before, mid, front, now);
    }
}

/// A pool with workers is kept.
proof fn lemma_full_pool_stays(s: Seq<pools::PoolView>, t: Seq<pools::PoolView>, key: Seq<char>)
    requires
        pools::distinct(t),
        t == s.filter(|p: pools::PoolView| p.workers.len() > 0),
        pools::workers_of(s, key).len() > 0,
    ensures
        pools::workers_of(t, key) == pools::workers_of(s, key),
{
    let full = |p: pools::PoolView| p.workers.len() > 0;
    pools::lemma_place_of(s, key);
    let p = pools::place_of(s, key);
    s.lemma_filter_contains(full, p);
    assert(t.contains(s[p]));
    let q = t.index_of(s[p]);
    assert forall|j: int| 0 <= j < q implies (#[trigger] t[j]).key != key by {
        assert(t[j].key != t[q].key);
    }
    pools::lemma_place_is(t, key, q);
}

/// Those that could go are workers of the list, none of them twice.
proof fn lemma_could_go_among(c: Conductor, idle: Seq<Idle>, estimates: Seq<Estimate>, now: i64)
    requires
        idle.len() == estimates.len(),
        forall|k: int, l: int|
            0 <= k < l < idle.len() ==> (#[trigger] idle[k]).id != (#[trigger] idle[l]).id,
    ensures
        forall|m: int|
            0 <= m < c.could_go_among(idle, estimates, now).len() ==> is_among(
                idle,
                (#[trigger] c.could_go_among(idle, estimates, now)[m]).0,
            ),
        forall|m: int, n: int|
            0 <= m < n < c.could_go_among(idle, estimates, now).len() ==> (
            #[trigger] c.could_go_among(idle, estimates, now)[m]).0.1 != (
            #[trigger] c.could_go_among(idle, estimates, now)[n]).0.1,
    decreases idle.len(),
{
    if idle.len() > 0 {
        let front = idle.drop_last();
        let all = c.could_go_among(idle, estimates, now);
        let rest = c.could_go_among(front, estimates.drop_last(), now);
        assert forall|k: int, l: int| 0 <= k < l < front.len() implies (#[trigger] front[k]).id != (
        #[trigger] front[l]).id by {
            assert(front[k] == idle[k] && front[l] == idle[l]);
        }
        lemma_could_go_among(c, front, estimates.drop_last(), now);
        assert forall|m: int| 0 <= m < all.len() implies is_among(idle, (#[trigger] all[m]).0) by {
            if m < rest.len() {
                assert(rest[m] == all[m]);
            }
            lemma_longer_list(idle, all[m].0);
        }
        assert forall|m: int, n: int| 0 <= m < n < all.len() implies (#[trigger] all[m]).0.1 != (
        #[trigger] all[n]).0.1 by {
            assert(rest[m] == all[m]);
            if n < rest.len() {
                assert(rest[n] == all[n]);
            } else {
                let k = choose|k: int|
                    0 <= k < front.len() && #[trigger] place(front[k]) == rest[m].0;
                assert(idle[k].id != idle[idle.len() - 1].id);
            }
        }
    }
}

/// When memory is short, the cheapest of those that could go do go, as many as
/// may go at once, in that order. A worker that has a client, or a session
/// that is kept, stays in its pool as it is, and so does one that was not
/// chosen.
pub proof fn law_only_idle_are_evicted(
    before: Conductor,
    after: Conductor,
    pressure: PressureMonitor,
    idle: Seq<Idle>,
    estimates: Seq<Estimate>,
    now: i64,
    exits: Seq<u32>,
)
    requires
        before.wf(),
        idle.len() == estimates.len(),
        health::lists_idle(before, idle, now),
        after.waits_for(&before, exits),
        after.has_evicted(
            &before.with_monitor(pressure),
            before.candidates(idle, estimates, now),
            now,
        ),
    ensures
        exits.len() == if before.candidates(idle, estimates, now).len()
            < health::MAX_EVICT_PER_EPISODE {
            before.candidates(idle, estimates, now).len() as int
        } else {
            health::MAX_EVICT_PER_EPISODE as int
        },
        exists|chosen: Seq<usize>| #[trigger]
            health::are_cheapest(ranks_of(before.candidates(idle, estimates, now)), chosen)
                && exits == numbers(places_at(before.candidates(idle, estimates, now), chosen)),
        forall|k: int| 0 <= k < exits.len() ==> !after.knows(#[trigger] exits[k]),
        forall|key: Seq<char>, w: Worker|
            #[trigger] before.pool(key).contains(w) && (!w.may_go(before.limit(), now)
                || !exits.contains(w.id)) ==> after.pool(key).contains(w),
{
    let b = before.with_monitor(pressure);
    let s = before.candidates(idle, estimates, now);
    let chosen = choose|chosen: Seq<usize>| #[trigger]
        health::are_cheapest(ranks_of(s), chosen) && after.has_retired_all(
            &b,
            places_at(s, chosen),
            now,
        );
    let list = places_at(s, chosen);
    let among = before.could_go_among(idle, estimates, now);
    let head: int = if before.reserve is Some {
        1
    } else {
        0
    };
    lemma_could_go_among(before, idle, estimates, now);
    assert forall|m: int| head <= m < s.len() implies #[trigger] s[m] == among[m - head] by {}
    assert forall|m: int| head <= m < s.len() implies is_among(idle, (#[trigger] s[m]).0) by {
        assert(s[m] == among[m - head]);
    }
    assert forall|m: int| 0 <= m < s.len() implies b.can_retire(
        (#[trigger] s[m]).0.0,
        s[m].0.1,
    ) by {
        if m >= head {
            let k = choose|k: int| 0 <= k < idle.len() && #[trigger] place(idle[k]) == s[m].0;
            law_idle_can_be_retired(before, idle[k], now);
            assert(before.can_retire(s[m].0.0, s[m].0.1));
            assert(b.pool(s[m].0.0) == before.pool(s[m].0.0));
        }
    }
    assert forall|m: int, n: int| 0 <= m < n < s.len() implies (#[trigger] s[m]).0.1 != (
    #[trigger] s[n]).0.1 by {
        assert(s[n] == among[n - head]);
        if m >= head {
            assert(s[m] == among[m - head]);
        } else {
            let k = choose|k: int| 0 <= k < idle.len() && #[trigger] place(idle[k]) == s[n].0;
            lemma_idle_is_pooled(before, idle[k], now);
        }
    }
    assert forall|k: int, l: int| 0 <= k < l < list.len() implies (#[trigger] list[k]).1 != (
    #[trigger] list[l]).1 by {
        let (x, y) = (chosen[k] as int, chosen[l] as int);
        assert(health::goes_before(ranks_of(s), chosen[k] as int, chosen[l] as int));
        if x < y {
            assert(s[x].0.1 != s[y].0.1);
        } else {
            assert(s[y].0.1 != s[x].0.1);
        }
    }
    assert forall|k: int| 0 <= k < list.len() implies b.can_retire(
        (#[trigger] list[k]).0,
        list[k].1,
    ) by {
        assert(s[chosen[k] as int].0 == list[k]);
    }
    lemma_all_go(b, after, list, now);
    lemma_retired_all(b, after, list, now);
    assert(exits =~= numbers(list));
    assert forall|key: Seq<char>, w: Worker| #[trigger]
        before.pool(key).contains(w) && (!w.may_go(before.limit(), now) || !exits.contains(
            w.id,
        )) implies after.pool(key).contains(w) by {
        assert forall|m: int| 0 <= m < list.len() implies (#[trigger] list[m]).1 != w.id by {
            assert(exits[m] == list[m].1);
            if !w.may_go(before.limit(), now) {
                let x = chosen[m] as int;
                assert(s[x].0 == list[m]);
                if x >= head {
                    let k = choose|k: int|
                        0 <= k < idle.len() && #[trigger] place(idle[k]) == s[x].0;
                    lemma_not_idle(before, idle[k], now, key, w);
                } else {
                    pools::lemma_place_of(before.pools@, key);
                    let q = pools::place_of(before.pools@, key);
                    let j = before.pool(key).index_of(w);
                    assert(pools::in_range(before.pools@, q, j));
                    assert(before.pools@[q].workers[j].id == w.id);
                }
            }
        }
        assert(b.pool(key) == before.pool(key));
        lemma_stays(b, after, list, now, key, w);
    }
}

/// The numbers of workers.
pub open spec fn numbers(list: Seq<Place>) -> Seq<u32> {
    Seq::new(list.len(), |k: int| list[k].1)
}

} // verus!
