//! Which workers go, and how.

use crate::conductor::Conductor;
use crate::health;
use crate::health::Idle;
use crate::lifecycle;
use crate::pools;
use crate::pressure::PressureMonitor;
use crate::rounds;
use crate::rounds::{Candidate, Estimate, Timetable};
use crate::worker::Worker;
use vstd::prelude::*;

verus! {

// ---------------------------------------------------------------------
// Idle workers
// ---------------------------------------------------------------------

/// The worker has no client, and no session but one that its last client left
/// long ago; a clock that was set back counts as that.
pub open spec fn idles(w: Worker, label_ttl: u64, now: i64) -> bool {
    &&& w.active_clients == 0
    &&& w.session_label is None || now - w.last_active >= label_ttl || (now < w.last_active && now
        - w.last_active + 0x1_0000_0000_0000_0000 >= label_ttl)
}

proof fn lemma_idles(c: Conductor, w: Worker, now: i64)
    ensures
        w.may_go(c.limit(), now) == idles(w, c.config.label_ttl, now),
{
}

/// The worker of its pool that `e` stands for.
proof fn lemma_idle_worker(c: Conductor, e: Idle, now: i64) -> (w: Worker)
    requires
        c.wf(),
        c.is_idle(e, now),
    ensures
        c.pool(e.key@).contains(w),
        w.id == e.id,
        c.knows(e.id),
        c.worker(e.id) == w,
        idles(w, c.config.label_ttl, now),
{
    let (p, i) = choose|p: int, i: int|
        #[trigger] c.may_go_at(p, i, now) && c.pools@[p].key == e.key@
            && c.pools@[p].workers[i].id == e.id;
    lifecycle::lemma_pool_at(c, p, i);
    let w = c.pools@[p].workers[i];
    lemma_idles(c, w, now);
    assert(pools::has_worker(c.pools@, w.id));
    w
}

/// A worker of the pool with `key` is called `id` and idles.
pub open spec fn is_pooled_idle(c: Conductor, key: Seq<char>, id: u32, now: i64) -> bool {
    exists|w: Worker| #[trigger]
        c.pool(key).contains(w) && w.id == id && idles(w, c.config.label_ttl, now)
}

/// The workers that are listed as idle have no client and no session that is
/// kept, and all such workers are listed with their pools.
pub proof fn law_all_idle_workers_are_listed(c: Conductor, list: Seq<Idle>, now: i64)
    requires
        c.wf(),
        health::lists_idle(c, list, now),
        forall|p: int, i: int| #[trigger] c.may_go_at(p, i, now) ==> c.is_listed(list, p, i),
    ensures
        forall|k: int|
            0 <= k < list.len() ==> is_pooled_idle(
                c,
                (#[trigger] list[k]).key@,
                list[k].id,
                now,
            ),
        forall|p: int, i: int|
            pools::in_range(c.pools@, p, i) && idles(
                #[trigger] c.pools@[p].workers[i],
                c.config.label_ttl,
                now,
            ) ==> exists|k: int|
                0 <= k < list.len() && (#[trigger] list[k]).key@ == c.pools@[p].key && list[k].id
                    == c.pools@[p].workers[i].id,
{
    assert forall|k: int| 0 <= k < list.len() implies is_pooled_idle(
        c,
        (#[trigger] list[k]).key@,
        list[k].id,
        now,
    ) by {
        let w = lemma_idle_worker(c, list[k], now);
        assert(c.pool(list[k].key@).contains(w));
    }
    assert forall|p: int, i: int|
        pools::in_range(c.pools@, p, i) && idles(
            #[trigger] c.pools@[p].workers[i],
            c.config.label_ttl,
            now,
        ) implies exists|k: int|
        0 <= k < list.len() && (#[trigger] list[k]).key@ == c.pools@[p].key && list[k].id
            == c.pools@[p].workers[i].id by {
        lemma_idles(c, c.pools@[p].workers[i], now);
        assert(c.may_go_at(p, i, now));
        assert(c.is_listed(list, p, i));
    }
}

// ---------------------------------------------------------------------
// Eviction
// ---------------------------------------------------------------------

/// The worker of `e` may be evicted: it was last used no less than the
/// protected time ago, and does not go anyhow.
pub open spec fn evictable(c: Conductor, e: Idle, over: bool, now: i64) -> bool {
    !over && exists|w: Worker|
        #[trigger] c.pool(e.key@).contains(w) && w.id == e.id && now - w.last_active
            >= c.config.min_ttl
}

proof fn lemma_evictable(c: Conductor, e: Idle, over: bool, now: i64)
    requires
        c.wf(),
        c.is_idle(e, now),
    ensures
        c.could_go(e.id, over, now) == evictable(c, e, over, now),
{
    let w = lemma_idle_worker(c, e, now);
    if evictable(c, e, over, now) {
        let v = choose|v: Worker|
            #[trigger] c.pool(e.key@).contains(v) && v.id == e.id && now - v.last_active
                >= c.config.min_ttl;
        pools::lemma_place_of(c.pools@, e.key@);
        let p = pools::place_of(c.pools@, e.key@);
        let i = c.pool(e.key@).index_of(v);
        let j = c.pool(e.key@).index_of(w);
        assert(pools::in_range(c.pools@, p, i) && pools::in_range(c.pools@, p, j));
        assert(c.pools@[p].workers[i].id == c.pools@[p].workers[j].id);
    }
}

/// The candidate is worker `k` of the list.
pub open spec fn stands_for(s: Candidate, idle: Seq<Idle>, estimates: Seq<Estimate>, k: int) -> bool {
    0 <= k < idle.len() && s.0 == rounds::place(idle[k]) && s.1 == estimates[k].rank
}

/// Those that could go are those of the list that could go.
proof fn lemma_among(c: Conductor, idle: Seq<Idle>, estimates: Seq<Estimate>, now: i64)
    requires
        idle.len() == estimates.len(),
    ensures
        c.could_go_among(idle, estimates, now).len() <= idle.len(),
        forall|m: int|
            0 <= m < c.could_go_among(idle, estimates, now).len() ==> has_origin(
                c,
                idle,
                estimates,
                now,
                #[trigger] c.could_go_among(idle, estimates, now)[m],
            ),
        forall|k: int|
            0 <= k < idle.len() && #[trigger] c.could_go(idle[k].id, estimates[k].over, now)
                ==> c.could_go_among(idle, estimates, now).contains(
                (rounds::place(idle[k]), estimates[k].rank),
            ),
    decreases idle.len(),
{
    if idle.len() > 0 {
        let (i, e) = (idle.drop_last(), estimates.drop_last());
        lemma_among(c, i, e, now);
        let all = c.could_go_among(idle, estimates, now);
        let rest = c.could_go_among(i, e, now);
        let n = idle.len() - 1;
        assert forall|m: int| 0 <= m < all.len() implies has_origin(
            c,
            idle,
            estimates,
            now,
            #[trigger] all[m],
        ) by {
            if m < rest.len() {
                assert(rest[m] == all[m]);
                assert(has_origin(c, i, e, now, rest[m]));
                let k = choose|k: int| #[trigger]
                    stands_for(rest[m], i, e, k) && c.could_go(i[k].id, e[k].over, now);
                assert(stands_for(all[m], idle, estimates, k));
                assert(idle[k] == i[k] && estimates[k] == e[k]);
            } else {
                assert(stands_for(all[m], idle, estimates, n));
            }
        }
        assert forall|k: int|
            0 <= k < idle.len() && #[trigger] c.could_go(
                idle[k].id,
                estimates[k].over,
                now,
            ) implies all.contains((rounds::place(idle[k]), estimates[k].rank)) by {
            if k < n {
                assert(i[k] == idle[k] && e[k] == estimates[k]);
                assert(c.could_go(i[k].id, e[k].over, now));
                let m = rest.index_of((rounds::place(i[k]), e[k].rank));
                assert(all[m] == rest[m]);
            } else {
                assert(all[rest.len() as int] == (rounds::place(idle[k]), estimates[k].rank));
            }
        }
    }
}

spec fn has_origin(
    c: Conductor,
    idle: Seq<Idle>,
    estimates: Seq<Estimate>,
    now: i64,
    s: Candidate,
) -> bool {
    exists|k: int| #[trigger]
        stands_for(s, idle, estimates, k) && c.could_go(idle[k].id, estimates[k].over, now)
}

/// What was evicted, as the library states it.
pub open spec fn evicted(
    before: Conductor,
    after: Conductor,
    pressure: PressureMonitor,
    idle: Seq<Idle>,
    estimates: Seq<Estimate>,
    now: i64,
    exits: Seq<u32>,
) -> bool {
    &&& before.wf()
    &&& idle.len() == estimates.len()
    &&& idle.len() < usize::MAX
    &&& health::lists_idle(before, idle, now)
    &&& after.waits_for(&before, exits)
    &&& after.has_evicted(
        &before.with_monitor(pressure),
        before.candidates(idle, estimates, now),
        now,
    )
}

spec fn head_of(c: Conductor) -> int {
    if c.reserve is Some {
        1
    } else {
        0
    }
}

proof fn lemma_chosen(
    before: Conductor,
    after: Conductor,
    pressure: PressureMonitor,
    idle: Seq<Idle>,
    estimates: Seq<Estimate>,
    now: i64,
    exits: Seq<u32>,
) -> (chosen: Seq<usize>)
    requires
        evicted(before, after, pressure, idle, estimates, now, exits),
    ensures
        ({
            let s = before.candidates(idle, estimates, now);
            let among = before.could_go_among(idle, estimates, now);
            let head = head_of(before);
            &&& health::are_cheapest(rounds::ranks_of(s), chosen)
            &&& exits.len() == chosen.len()
            &&& forall|k: int| 0 <= k < exits.len() ==> (#[trigger] exits[k]) == s[chosen[k] as int].0.1
            &&& s.len() == among.len() + head
            &&& s.len() <= usize::MAX
            &&& forall|m: int| head <= m < s.len() ==> #[trigger] s[m] == among[m - head]
            &&& head == 1 ==> s[0].0.1 == before.reserve->0.id && chosen.len() > 0 && exits[0]
                == before.reserve->0.id
        }),
{
    let s = before.candidates(idle, estimates, now);
    rounds::law_only_idle_are_evicted(before, after, pressure, idle, estimates, now, exits);
    let chosen = choose|chosen: Seq<usize>| #[trigger]
        health::are_cheapest(rounds::ranks_of(s), chosen) && exits == rounds::numbers(
            rounds::places_at(s, chosen),
        );
    lemma_among(before, idle, estimates, now);
    if before.reserve is Some {
        rounds::law_reserve_goes_first(before, idle, estimates, now, chosen);
    }
    chosen
}

/// When memory is short at most four workers go, the reserve before all
/// others.
pub proof fn law_few_are_evicted_and_the_reserve_first(
    before: Conductor,
    after: Conductor,
    pressure: PressureMonitor,
    idle: Seq<Idle>,
    estimates: Seq<Estimate>,
    now: i64,
    exits: Seq<u32>,
)
    requires
        evicted(before, after, pressure, idle, estimates, now, exits),
    ensures
        exits.len() <= 4,
        before.reserve matches Some(w) ==> exits.len() > 0 && exits[0] == w.id,
{
    let chosen = lemma_chosen(before, after, pressure, idle, estimates, now, exits);
}

/// A worker of a pool that goes when memory is short has no client, no session
/// that is kept, and was last used no less than the protected time ago.
pub proof fn law_evicted_workers_were_left_long_ago(
    before: Conductor,
    after: Conductor,
    pressure: PressureMonitor,
    idle: Seq<Idle>,
    estimates: Seq<Estimate>,
    now: i64,
    exits: Seq<u32>,
    k: int,
)
    requires
        evicted(before, after, pressure, idle, estimates, now, exits),
        0 <= k < exits.len(),
        !(before.reserve is Some && before.reserve->0.id == exits[k]),
    ensures
        exists|key: Seq<char>, w: Worker|
            {
                &&& #[trigger] before.pool(key).contains(w)
                &&& w.id == exits[k]
                &&& w.active_clients == 0
                &&& now - w.last_active >= before.config.min_ttl
                &&& idles(w, before.config.label_ttl, now)
            },
        exists|l: int|
            0 <= l < idle.len() && (#[trigger] idle[l]).id == exits[k] && !estimates[l].over,
{
    let s = before.candidates(idle, estimates, now);
    let among = before.could_go_among(idle, estimates, now);
    let head = head_of(before);
    let chosen = lemma_chosen(before, after, pressure, idle, estimates, now, exits);
    lemma_among(before, idle, estimates, now);
    let x = chosen[k] as int;
    assert(exits[k] == s[x].0.1);
    assert(chosen[k] < rounds::ranks_of(s).len());
    assert(x >= head);
    assert(s[x] == among[x - head]);
    assert(has_origin(before, idle, estimates, now, among[x - head]));
    let l = choose|l: int| #[trigger]
        stands_for(s[x], idle, estimates, l) && before.could_go(
            idle[l].id,
            estimates[l].over,
            now,
        );
    let w = lemma_idle_worker(before, idle[l], now);
    assert(before.pool(idle[l].key@).contains(w));
    assert(idle[l].id == exits[k]);
}

/// A worker that may be evicted stays only where four go, and none of those
/// that go is dearer than it.
pub proof fn law_only_dearer_workers_stay(
    before: Conductor,
    after: Conductor,
    pressure: PressureMonitor,
    idle: Seq<Idle>,
    estimates: Seq<Estimate>,
    now: i64,
    exits: Seq<u32>,
    stays: int,
    goes: int,
)
    requires
        evicted(before, after, pressure, idle, estimates, now, exits),
        0 <= stays < idle.len(),
        evictable(before, idle[stays], estimates[stays].over, now),
        !exits.contains(idle[stays].id),
    ensures
        exits.len() == 4,
        0 <= goes < idle.len() && exits.contains(idle[goes].id) ==> estimates[goes].rank
            <= estimates[stays].rank,
{
    let s = before.candidates(idle, estimates, now);
    let among = before.could_go_among(idle, estimates, now);
    let ranks = rounds::ranks_of(s);
    let head = head_of(before);
    let chosen = lemma_chosen(before, after, pressure, idle, estimates, now, exits);
    lemma_among(before, idle, estimates, now);
    lemma_evictable(before, idle[stays], estimates[stays].over, now);
    let c = (rounds::place(idle[stays]), estimates[stays].rank);
    assert(before.could_go(idle[stays].id, estimates[stays].over, now));
    assert(among.contains(c));
    let y = among.index_of(c) + head;
    assert(s[y] == among[y - head]);
    assert(ranks[y] == estimates[stays].rank);
    assert forall|k: int| 0 <= k < chosen.len() implies chosen[k] != y by {
        if chosen[k] == y {
            assert(exits[k] == s[chosen[k] as int].0.1);
            assert(exits.contains(exits[k]));
        }
    }
    lemma_short_choice(ranks, chosen, y);
    if 0 <= goes < idle.len() && exits.contains(idle[goes].id) {
        let k = exits.index_of(idle[goes].id);
        let x = chosen[k] as int;
        assert(exits[k] == s[x].0.1);
        assert(chosen[k] < ranks.len());
        let u = y as usize;
        assert(!chosen.contains(u));
        assert(health::goes_before(ranks, chosen[k] as int, u as int));
        rounds::lemma_idle_is_pooled(before, idle[goes], now);
        assert(x >= head);
        assert(s[x] == among[x - head]);
        assert(has_origin(before, idle, estimates, now, among[x - head]));
        let o = choose|o: int| #[trigger]
            stands_for(s[x], idle, estimates, o) && before.could_go(
                idle[o].id,
                estimates[o].over,
                now,
            );
        assert(idle[o].id == idle[goes].id);
        if o < goes {
            assert(idle[o].id != idle[goes].id);
        } else if goes < o {
            assert(idle[goes].id != idle[o].id);
        }
        assert(ranks[x] == s[x].1);
    }
}

/// Where something was not chosen, as many as may go at once were.
proof fn lemma_short_choice(ranks: Seq<i64>, chosen: Seq<usize>, y: int)
    requires
        health::are_cheapest(ranks, chosen),
        0 <= y < ranks.len(),
        forall|k: int| 0 <= k < chosen.len() ==> chosen[k] != y,
    ensures
        chosen.len() == 4,
{
    if chosen.len() == ranks.len() {
        lemma_all_below(chosen, ranks, y);
    }
}

/// Distinct indices below a bound, as many as the bound, leave none out.
proof fn lemma_all_below(chosen: Seq<usize>, ranks: Seq<i64>, y: int)
    requires
        health::are_cheapest(ranks, chosen),
        chosen.len() == ranks.len(),
        0 <= y < ranks.len(),
    ensures
        exists|k: int| 0 <= k < chosen.len() && chosen[k] == y,
{
    if !(exists|k: int| 0 <= k < chosen.len() && chosen[k] == y) {
        lemma_fewer_below(chosen, ranks, y);
    }
}

proof fn lemma_fewer_below(chosen: Seq<usize>, ranks: Seq<i64>, y: int)
    requires
        health::are_cheapest(ranks, chosen),
        0 <= y < ranks.len(),
        forall|k: int| 0 <= k < chosen.len() ==> chosen[k] != y,
    ensures
        chosen.len() < ranks.len(),
{
    let ints = chosen.map_values(|u: usize| u as int);
    assert(ints.no_duplicates()) by {
        assert forall|i: int, j: int| 0 <= i < ints.len() && 0 <= j < ints.len() && i != j implies ints[i]
            != ints[j] by {
            if i < j {
                assert(health::goes_before(ranks, chosen[i] as int, chosen[j] as int));
            } else {
                assert(health::goes_before(ranks, chosen[j] as int, chosen[i] as int));
            }
        }
    }
    ints.unique_seq_to_set();
    let n = ranks.len() as int;
    let range = vstd::set_lib::set_int_range(0, n).remove(y);
    vstd::set_lib::lemma_int_range(0, n);
    assert(ints.to_set().subset_of(range)) by {
        assert forall|x: int| ints.to_set().contains(x) implies range.contains(x) by {
            let k = ints.index_of(x);
            assert(ints[k] == chosen[k]);
            assert(chosen[k] < ranks.len());
        }
    }
    vstd::set_lib::lemma_len_subset(ints.to_set(), range);
}

// ---------------------------------------------------------------------
// Workers that have idled too long
// ---------------------------------------------------------------------

proof fn lemma_marked_places(idle: Seq<Idle>, over: Seq<bool>, l: int)
    requires
        idle.len() == over.len(),
        0 <= l < idle.len(),
        over[l],
    ensures
        rounds::marked(idle, over).contains(rounds::place(idle[l])),
    decreases idle.len(),
{
    let rest = rounds::marked(idle.drop_last(), over.drop_last());
    let all = rounds::marked(idle, over);
    if l < idle.len() - 1 {
        lemma_marked_places(idle.drop_last(), over.drop_last(), l);
        let m = rest.index_of(rounds::place(idle[l]));
        assert(all[m] == rounds::place(idle[l]));
    } else {
        assert(all[all.len() - 1] == rounds::place(idle[l]));
    }
}

/// The place at `m` of those that are marked is that of an idle worker which
/// has idled too long.
pub open spec fn is_marked(idle: Seq<Idle>, over: Seq<bool>, id: u32) -> bool {
    exists|l: int| 0 <= l < idle.len() && over[l] && (#[trigger] idle[l]).id == id
}

proof fn lemma_only_marked(idle: Seq<Idle>, over: Seq<bool>)
    requires
        idle.len() == over.len(),
        forall|k: int, l: int|
            0 <= k < l < idle.len() ==> (#[trigger] idle[k]).id != (#[trigger] idle[l]).id,
    ensures
        forall|m: int|
            0 <= m < rounds::marked(idle, over).len() ==> is_marked(
                idle,
                over,
                (#[trigger] rounds::marked(idle, over)[m]).1,
            ),
        forall|m: int, n: int|
            0 <= m < n < rounds::marked(idle, over).len() ==> (#[trigger] rounds::marked(
                idle,
                over,
            )[m]).1 != (#[trigger] rounds::marked(idle, over)[n]).1,
    decreases idle.len(),
{
    if idle.len() > 0 {
        let front = idle.drop_last();
        let marks = over.drop_last();
        let last = idle.len() - 1;
        assert(forall|k: int| 0 <= k < front.len() ==> front[k] == #[trigger] idle[k]);
        lemma_only_marked(front, marks);
        let rest = rounds::marked(front, marks);
        let all = rounds::marked(idle, over);
        assert forall|m: int| 0 <= m < rest.len() implies is_marked(
            idle,
            over,
            (#[trigger] rest[m]).1,
        ) && rest[m].1 != idle[last].id by {
            assert(is_marked(front, marks, rest[m].1));
            let l = choose|l: int|
                0 <= l < front.len() && marks[l] && (#[trigger] front[l]).id == rest[m].1;
            assert(idle[l].id == rest[m].1 && over[l]);
        }
        assert forall|m: int| 0 <= m < all.len() implies is_marked(
            idle,
            over,
            (#[trigger] all[m]).1,
        ) by {
            if m < rest.len() {
                assert(all[m] == rest[m]);
            } else {
                assert(all[m] == rounds::place(idle[last]));
                assert(idle[last].id == all[m].1);
            }
        }
        assert forall|m: int, n: int| 0 <= m < n < all.len() implies (#[trigger] all[m]).1 != (
        #[trigger] all[n]).1 by {
            assert(all[m] == rest[m]);
            if n < rest.len() {
                assert(all[n] == rest[n]);
            } else {
                assert(all[n] == rounds::place(idle[last]));
            }
        }
    }
}

/// Of the idle workers exactly those that have idled too long are asked to
/// exit. No pool without workers is left, and those that are told to be gone
/// are.
pub proof fn law_who_idled_too_long_goes(
    before: Conductor,
    after: Conductor,
    idle: Seq<Idle>,
    over: Seq<bool>,
    now: i64,
    exits: Seq<u32>,
    emptied: Seq<Seq<char>>,
    p: int,
)
    requires
        before.wf(),
        idle.len() == over.len(),
        health::lists_idle(before, idle, now),
        after.has_culled(&before, rounds::marked(idle, over), now, exits, emptied),
    ensures
        forall|id: u32| #[trigger] exits.contains(id) <==> is_marked(idle, over, id),
        0 <= p < after.pools@.len() ==> after.pools@[p].workers.len() > 0,
        0 <= p < emptied.len() ==> !pools::has_pool(after.pools@, emptied[p]),
{
    let list = rounds::marked(idle, over);
    let mid = choose|mid: Conductor|
        {
            &&& #[trigger] mid.has_retired_all(&before, list, now)
            &&& mid.waits_for(&before, exits)
            &&& after == (Conductor { pools: after.pools, ..mid })
            &&& after.pools@ == mid.pools@.filter(|p: pools::PoolView| p.workers.len() > 0)
            &&& emptied == health::keys_of(
                mid.pools@.filter(|p: pools::PoolView| p.workers.len() == 0),
            )
        };
    lemma_only_marked(idle, over);
    rounds::lemma_marked(idle, over);
    assert forall|m: int| 0 <= m < list.len() implies before.can_retire(
        (#[trigger] list[m]).0,
        list[m].1,
    ) by {
        assert(rounds::is_among(idle, list[m]));
        let k = choose|k: int| 0 <= k < idle.len() && #[trigger] rounds::place(idle[k]) == list[m];
        rounds::law_idle_can_be_retired(before, idle[k], now);
    }
    rounds::lemma_all_go(before, mid, list, now);
    let n = before.pending_kills@.len() as int;
    assert forall|id: u32| #[trigger] exits.contains(id) == is_marked(idle, over, id) by {
        if exits.contains(id) {
            let k = exits.index_of(id);
            assert(exits[k] == mid.pending_kills@[n + k].worker.id);
            assert(list[k].1 == id);
        }
        if is_marked(idle, over, id) {
            let l = choose|l: int| 0 <= l < idle.len() && over[l] && (#[trigger] idle[l]).id == id;
            lemma_marked_places(idle, over, l);
            let m = list.index_of(rounds::place(idle[l]));
            assert(list[m].1 == id);
            assert(exits[m] == mid.pending_kills@[n + m].worker.id);
        }
    }
    if 0 <= p < after.pools@.len() {
        let full = |q: pools::PoolView| q.workers.len() > 0;
        mid.pools@.lemma_filter_pred(full, p);
    }
    if 0 <= p < emptied.len() {
        rounds::lemma_retired_all(before, mid, list, now);
        lemma_gone(mid.pools@, p);
    }
}

proof fn lemma_gone(s: Seq<pools::PoolView>, k: int)
    requires
        pools::distinct(s),
        0 <= k < s.filter(|p: pools::PoolView| p.workers.len() == 0).len(),
    ensures
        !pools::has_pool(
            s.filter(|p: pools::PoolView| p.workers.len() > 0),
            s.filter(|p: pools::PoolView| p.workers.len() == 0)[k].key,
        ),
{
    let full = |p: pools::PoolView| p.workers.len() > 0;
    let empty = |p: pools::PoolView| p.workers.len() == 0;
    let a = s.filter(full);
    let b = s.filter(empty);
    let key = b[k].key;
    s.lemma_filter_pred(empty, k);
    s.lemma_filter_contains_rev(empty, b[k]);
    pools::lemma_place_of(a, key);
    if pools::has_pool(a, key) {
        let m = pools::place_of(a, key);
        s.lemma_filter_pred(full, m);
        s.lemma_filter_contains_rev(full, a[m]);
        let i = s.index_of(a[m]);
        let j = s.index_of(b[k]);
        assert(s[i].key == s[j].key);
        assert(i == j);
    }
}

/// Memory is looked at every five seconds, or as often as workers are where
/// that is oftener.
pub proof fn law_how_often_memory_is_looked_at(t: Timetable)
    ensures
        t.interval <= 5 ==> t.period() == t.interval,
        t.interval > 5 ==> t.period() == 5,
{
}

} // verus!
