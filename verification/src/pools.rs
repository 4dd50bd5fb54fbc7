//! The workers that wait for clients, in pools of workers that can stand in
//! for each other.

use crate::text::{owned, same};
use crate::worker::Worker;
use vstd::prelude::*;

verus! {

struct Pool {
    key: String,
    workers: Vec<Worker>,
}

/// The pools. No two have the same key.
pub struct Pools {
    pools: Vec<Pool>,
}

// ---------------------------------------------------------------------
// Model
// ---------------------------------------------------------------------

/// A pool: its key and its workers, in the order in which they came.
pub struct PoolView {
    pub key: Seq<char>,
    pub workers: Seq<Worker>,
}

/// The place of the pool with `key`, or the number of pools.
pub open spec fn place_of(s: Seq<PoolView>, key: Seq<char>) -> int
    decreases s.len(),
{
    if s.len() == 0 || s[0].key == key {
        0
    } else {
        1 + place_of(s.drop_first(), key)
    }
}

/// There is a pool with `key`.
pub open spec fn has_pool(s: Seq<PoolView>, key: Seq<char>) -> bool {
    place_of(s, key) < s.len()
}

/// The workers of the pool with `key`; none where there is no such pool.
pub open spec fn workers_of(s: Seq<PoolView>, key: Seq<char>) -> Seq<Worker> {
    if has_pool(s, key) {
        s[place_of(s, key)].workers
    } else {
        Seq::empty()
    }
}

/// Worker `i` of pool `p` is there.
pub open spec fn in_range(s: Seq<PoolView>, p: int, i: int) -> bool {
    0 <= p < s.len() && 0 <= i < s[p].workers.len()
}

/// Some worker is called `id`.
pub open spec fn has_worker(s: Seq<PoolView>, id: u32) -> bool {
    exists|p: int, i: int| in_range(s, p, i) && #[trigger] s[p].workers[i].id == id
}

/// No two pools have the same key, and no two workers the same number.
pub open spec fn distinct(s: Seq<PoolView>) -> bool {
    &&& forall|p: int, q: int|
        0 <= p < q < s.len() ==> (#[trigger] s[p]).key != (#[trigger] s[q]).key
    &&& forall|p: int, i: int, q: int, j: int|
        in_range(s, p, i) && in_range(s, q, j) && #[trigger] s[p].workers[i].id
            == #[trigger] s[q].workers[j].id ==> p == q && i == j
}

/// Every worker is sound.
pub open spec fn all_wf(s: Seq<PoolView>) -> bool {
    forall|p: int, i: int| in_range(s, p, i) ==> (#[trigger] s[p].workers[i]).wf()
}

/// The pools with `w` in place of worker `i` of pool `p`.
pub open spec fn replaced(s: Seq<PoolView>, p: int, i: int, w: Worker) -> Seq<PoolView> {
    s.update(p, PoolView { workers: s[p].workers.update(i, w), ..s[p] })
}

/// The pools with `w` as one more worker of the pool with `key`, which is new
/// where it was not there.
pub open spec fn added(s: Seq<PoolView>, key: Seq<char>, w: Worker) -> Seq<PoolView> {
    if has_pool(s, key) {
        let p = place_of(s, key);
        s.update(p, PoolView { workers: s[p].workers.push(w), ..s[p] })
    } else {
        s.push(PoolView { key, workers: seq![w] })
    }
}

/// The pools without worker `i` of pool `p`; those behind it move up.
pub open spec fn removed(s: Seq<PoolView>, p: int, i: int) -> Seq<PoolView> {
    s.update(p, PoolView { workers: s[p].workers.remove(i), ..s[p] })
}

/// The pools without worker `i` of pool `p`, whose place the last one takes.
pub open spec fn swap_removed(s: Seq<PoolView>, p: int, i: int) -> Seq<PoolView> {
    let ws = s[p].workers;
    s.update(p, PoolView { workers: ws.update(i, ws.last()).drop_last(), ..s[p] })
}

/// The worker called `id`.
pub open spec fn worker_in(s: Seq<PoolView>, id: u32) -> Worker {
    let (p, i) = choose|p: int, i: int|
        in_range(s, p, i) && #[trigger] s[p].workers[i].id == id;
    s[p].workers[i]
}

/// The pools with `w` in place of the worker of the same number.
pub open spec fn with_worker(s: Seq<PoolView>, w: Worker) -> Seq<PoolView> {
    Seq::new(
        s.len(),
        |p: int|
            PoolView {
                key: s[p].key,
                workers: Seq::new(
                    s[p].workers.len(),
                    |i: int|
                        if s[p].workers[i].id == w.id {
                            w
                        } else {
                            s[p].workers[i]
                        },
                ),
            },
    )
}

/// A number belongs to one worker only.
pub proof fn lemma_worker_in(s: Seq<PoolView>, p: int, i: int)
    requires
        distinct(s),
        in_range(s, p, i),
    ensures
        has_worker(s, s[p].workers[i].id),
        worker_in(s, s[p].workers[i].id) == s[p].workers[i],
{
    let id = s[p].workers[i].id;
    let (q, j) = choose|q: int, j: int|
        in_range(s, q, j) && #[trigger] s[q].workers[j].id == id;
    assert(s[q].workers[j].id == s[p].workers[i].id);
}

pub proof fn lemma_with_worker(s: Seq<PoolView>, p: int, i: int, w: Worker)
    requires
        distinct(s),
        in_range(s, p, i),
        w.id == s[p].workers[i].id,
    ensures
        replaced(s, p, i, w) == with_worker(s, w),
{
    let a = replaced(s, p, i, w);
    let b = with_worker(s, w);
    assert forall|q: int| 0 <= q < s.len() implies a[q] == b[q] by {
        assert forall|j: int| 0 <= j < s[q].workers.len() implies a[q].workers[j]
            == b[q].workers[j] by {
            assert(in_range(s, q, j));
            if s[q].workers[j].id == w.id {
                assert(s[q].workers[j].id == s[p].workers[i].id);
            }
        }
        assert(a[q].workers =~= b[q].workers);
    }
    assert(a =~= b);
}

pub proof fn lemma_place_of(s: Seq<PoolView>, key: Seq<char>)
    ensures
        0 <= place_of(s, key) <= s.len(),
        has_pool(s, key) ==> s[place_of(s, key)].key == key,
        forall|q: int| 0 <= q < place_of(s, key) ==> (#[trigger] s[q]).key != key,
    decreases s.len(),
{
    if s.len() > 0 && s[0].key != key {
        let rest = s.drop_first();
        lemma_place_of(rest, key);
        assert forall|q: int| 0 <= q < place_of(s, key) implies (#[trigger] s[q]).key != key by {
            if q > 0 {
                assert(rest[q - 1] == s[q]);
            }
        }
    }
}

pub proof fn lemma_place_is(s: Seq<PoolView>, key: Seq<char>, p: int)
    requires
        0 <= p <= s.len(),
        p < s.len() ==> s[p].key == key,
        forall|q: int| 0 <= q < p ==> (#[trigger] s[q]).key != key,
    ensures
        place_of(s, key) == p,
{
    lemma_place_of(s, key);
    let n = place_of(s, key);
    if n < p {
        assert(s[n].key == key);
    }
    if p < n {
        assert(s[p].key == key);
    }
}

/// All workers, pool by pool.
pub open spec fn flat(s: Seq<PoolView>) -> Seq<Worker>
    decreases s.len(),
{
    if s.len() == 0 {
        Seq::empty()
    } else {
        flat(s.drop_last()) + s.last().workers
    }
}

/// The numbers of `ws`.
pub open spec fn ids(ws: Seq<Worker>) -> Seq<u32> {
    ws.map_values(|w: Worker| w.id)
}

/// A worker of the first `n` pools is called `id`.
spec fn among(s: Seq<PoolView>, n: int, id: u32) -> bool {
    exists|p: int, i: int| p < n && in_range(s, p, i) && #[trigger] s[p].workers[i].id == id
}

/// No number occurs twice among the workers of the first `n` pools.
proof fn lemma_flat_ids(s: Seq<PoolView>, n: int)
    requires
        distinct(s),
        0 <= n <= s.len(),
    ensures
        ids(flat(s.take(n))).no_duplicates(),
        forall|k: int|
            0 <= k < flat(s.take(n)).len() ==> among(s, n, (#[trigger] flat(s.take(n))[k]).id),
    decreases n,
{
    if n > 0 {
        lemma_flat_ids(s, n - 1);
        let a = flat(s.take(n - 1));
        let b = s[n - 1].workers;
        assert(s.take(n).drop_last() =~= s.take(n - 1));
        assert(flat(s.take(n)) == a + b);
        assert forall|k: int| 0 <= k < (a + b).len() implies among(
            s,
            n,
            (#[trigger] (a + b)[k]).id,
        ) by {
            if k < a.len() {
                assert(a[k] == (a + b)[k]);
                assert(among(s, n - 1, a[k].id));
            } else {
                assert(in_range(s, n - 1, k - a.len()));
                assert((a + b)[k].id == s[n - 1].workers[k - a.len()].id);
            }
        }
        let all = ids(a + b);
        assert forall|j: int, k: int| 0 <= j < k < all.len() implies all[j] != all[k] by {
            if k < a.len() {
                assert(ids(a)[j] == all[j] && ids(a)[k] == all[k]);
            } else {
                assert(in_range(s, n - 1, k - a.len()));
                assert(all[k] == s[n - 1].workers[k - a.len()].id);
                if j < a.len() {
                    assert(all[j] == a[j].id);
                    assert(among(s, n - 1, a[j].id));
                    let (p, i) = choose|p: int, i: int|
                        p < n - 1 && in_range(s, p, i) && a[j].id
                            == #[trigger] s[p].workers[i].id;
                    assert(s[p].workers[i].id != s[n - 1].workers[k - a.len()].id);
                } else {
                    assert(in_range(s, n - 1, j - a.len()));
                    assert(all[j] == s[n - 1].workers[j - a.len()].id);
                }
            }
        }
        assert(all.no_duplicates());
    }
}

/// A worker of the first `n` pools is among them.
proof fn lemma_flat_has(s: Seq<PoolView>, n: int, p: int, i: int)
    requires
        0 <= p < n <= s.len(),
        in_range(s, p, i),
    ensures
        ids(flat(s.take(n))).contains(s[p].workers[i].id),
    decreases n,
{
    assert(s.take(n).drop_last() =~= s.take(n - 1));
    let a = flat(s.take(n - 1));
    let all = ids(flat(s.take(n)));
    if p < n - 1 {
        lemma_flat_has(s, n - 1, p, i);
        let k = ids(a).index_of(s[p].workers[i].id);
        assert(all[k] == ids(a)[k]);
    } else {
        assert(all[a.len() + i] == s[p].workers[i].id);
    }
}

/// The numbers of all workers, each once.
pub proof fn lemma_flat(s: Seq<PoolView>)
    requires
        distinct(s),
    ensures
        ids(flat(s)).no_duplicates(),
        forall|id: u32| #[trigger] ids(flat(s)).contains(id) <==> has_worker(s, id),
{
    let n = s.len() as int;
    assert(s.take(n) =~= s);
    lemma_flat_ids(s, n);
    assert forall|id: u32| #[trigger] ids(flat(s)).contains(id) == has_worker(s, id) by {
        if ids(flat(s)).contains(id) {
            let k = ids(flat(s)).index_of(id);
            assert(among(s, n, flat(s)[k].id));
        }
        if has_worker(s, id) {
            let (p, i) = choose|p: int, i: int|
                in_range(s, p, i) && #[trigger] s[p].workers[i].id == id;
            lemma_flat_has(s, n, p, i);
        }
    }
}

/// There are no more workers than numbers for them.
pub proof fn law_workers_are_countable(s: Seq<PoolView>)
    requires
        distinct(s),
    ensures
        flat(s).len() <= 0x1_0000_0000,
{
    assert(s.take(s.len() as int) =~= s);
    lemma_flat_ids(s, s.len() as int);
    let all = ids(flat(s));
    let ints = all.map_values(|id: u32| id as int);
    assert(ints.no_duplicates()) by {
        assert forall|j: int, k: int| 0 <= j < ints.len() && 0 <= k < ints.len() && j
            != k implies ints[j] != ints[k] by {
            assert(ints[j] == all[j] && ints[k] == all[k]);
        }
    }
    ints.unique_seq_to_set();
    let range = vstd::set_lib::set_int_range(0, 0x1_0000_0000);
    vstd::set_lib::lemma_int_range(0, 0x1_0000_0000);
    assert(ints.to_set().subset_of(range)) by {
        assert forall|x: int| ints.to_set().contains(x) implies range.contains(x) by {
            let k = ints.index_of(x);
            assert(ints[k] == all[k]);
        }
    }
    vstd::set_lib::lemma_len_subset(ints.to_set(), range);
}

proof fn lemma_flat_grows(s: Seq<PoolView>, n: int)
    requires
        0 <= n <= s.len(),
    ensures
        flat(s.take(n)).len() <= flat(s).len(),
    decreases s.len(),
{
    if n < s.len() {
        assert(s.drop_last().take(n) =~= s.take(n));
        lemma_flat_grows(s.drop_last(), n);
    } else {
        assert(s.take(n) =~= s);
    }
}

// ---------------------------------------------------------------------
// Operations
// ---------------------------------------------------------------------

spec fn pool_view(p: Pool) -> PoolView {
    PoolView { key: p.key@, workers: p.workers@ }
}

impl Pools {
    pub closed spec fn view(&self) -> Seq<PoolView> {
        Seq::new(self.pools@.len(), |i: int| pool_view(self.pools@[i]))
    }

    pub open spec fn wf(&self) -> bool {
        &&& distinct(self@)
        &&& all_wf(self@)
    }

    pub fn new() -> (r: Self)
        ensures
            r.wf(),
            r@ == Seq::<PoolView>::empty(),
    {
        let r = Pools { pools: Vec::new() };
        assert(r@ =~= Seq::<PoolView>::empty());
        r
    }

    pub fn len(&self) -> (r: usize)
        ensures
            r == self@.len(),
    {
        self.pools.len()
    }

    /// The number of workers in all pools.
    pub fn count(&self) -> (r: u64)
        requires
            distinct(self@),
        ensures
            r == flat(self@).len(),
    {
        proof {
            law_workers_are_countable(self@);
        }
        let mut n: u64 = 0;
        let mut p: usize = 0;
        assert(self@.take(0) =~= Seq::empty());
        while p < self.pools.len()
            invariant
                p <= self@.len(),
                self@.len() == self.pools@.len(),
                flat(self@).len() <= 0x1_0000_0000,
                n == flat(self@.take(p as int)).len(),
            decreases self.pools@.len() - p,
        {
            proof {
                assert(self@[p as int] == pool_view(self.pools@[p as int]));
                assert(self@.take(p + 1).drop_last() =~= self@.take(p as int));
                lemma_flat_grows(self@, p + 1);
            }
            n = n + self.pools[p].workers.len() as u64;
            p = p + 1;
        }
        assert(self@.take(p as int) =~= self@);
        n
    }

    /// The key of pool `p`.
    pub fn key(&self, p: usize) -> (r: &str)
        requires
            p < self@.len(),
        ensures
            r@ == self@[p as int].key,
    {
        self.pools[p].key.as_str()
    }

    /// The workers of pool `p`.
    pub fn workers(&self, p: usize) -> (r: &[Worker])
        requires
            p < self@.len(),
        ensures
            r@ == self@[p as int].workers,
    {
        self.pools[p].workers.as_slice()
    }

    /// The place of the pool with `key`.
    pub fn position(&self, key: &str) -> (r: Option<usize>)
        ensures
            match r {
                Some(p) => p < self@.len() && p == place_of(self@, key@),
                None => !has_pool(self@, key@) && place_of(self@, key@) == self@.len(),
            },
    {
        let mut p: usize = 0;
        while p < self.pools.len()
            invariant
                p <= self@.len(),
                self@.len() == self.pools@.len(),
                forall|q: int| 0 <= q < p ==> (#[trigger] self@[q]).key != key@,
            decreases self.pools@.len() - p,
        {
            assert(self@[p as int] == pool_view(self.pools@[p as int]));
            if same(self.pools[p].key.as_str(), key) {
                proof {
                    lemma_place_is(self@, key@, p as int);
                }
                return Some(p);
            }
            p = p + 1;
        }
        proof {
            lemma_place_is(self@, key@, self@.len() as int);
        }
        None
    }

    /// The place of the worker called `id`.
    pub fn find(&self, id: u32) -> (r: Option<(usize, usize)>)
        ensures
            match r {
                Some((p, i)) => in_range(self@, p as int, i as int)
                    && self@[p as int].workers[i as int].id == id,
                None => !has_worker(self@, id),
            },
    {
        let mut p: usize = 0;
        while p < self.pools.len()
            invariant
                p <= self@.len(),
                self@.len() == self.pools@.len(),
                forall|q: int, j: int|
                    0 <= q < p && in_range(self@, q, j) ==> #[trigger] self@[q].workers[j].id
                        != id,
            decreases self.pools@.len() - p,
        {
            assert(self@[p as int] == pool_view(self.pools@[p as int]));
            let mut i: usize = 0;
            while i < self.pools[p].workers.len()
                invariant
                    p < self@.len(),
                    self@.len() == self.pools@.len(),
                    self@[p as int] == pool_view(self.pools@[p as int]),
                    i <= self.pools@[p as int].workers@.len(),
                    forall|q: int, j: int|
                        0 <= q < p && in_range(self@, q, j) ==> #[trigger] self@[q].workers[j].id
                            != id,
                    forall|j: int| 0 <= j < i ==> #[trigger] self@[p as int].workers[j].id != id,
                decreases self.pools@[p as int].workers@.len() - i,
            {
                if self.pools[p].workers[i].id == id {
                    return Some((p, i));
                }
                i = i + 1;
            }
            p = p + 1;
        }
        None
    }

    /// Worker `i` of pool `p`.
    pub fn get(&self, p: usize, i: usize) -> (r: &Worker)
        requires
            in_range(self@, p as int, i as int),
        ensures
            *r == self@[p as int].workers[i as int],
    {
        &self.pools[p].workers[i]
    }

    /// Worker `i` of pool `p`, to be changed; it keeps its number.
    pub fn worker_mut(&mut self, p: usize, i: usize) -> (r: &mut Worker)
        requires
            old(self).wf(),
            in_range(old(self)@, p as int, i as int),
        ensures
            *r == old(self)@[p as int].workers[i as int],
            final(self)@ == replaced(old(self)@, p as int, i as int, *final(r)),
            (final(r).id == old(self)@[p as int].workers[i as int].id && final(r).wf())
                ==> final(self).wf(),
    {
        let ghost before = self@;
        let r = &mut self.pools[p].workers[i];
        proof {
            let w = *final(r);
            if w.id == before[p as int].workers[i as int].id && w.wf() {
                lemma_replaced(before, p as int, i as int, w);
            }
            assert(after_borrow(self)@ =~= replaced(before, p as int, i as int, w));
        }
        r
    }

    /// Adds a worker with a number of its own to the pool with `key`.
    pub fn add_worker(&mut self, key: &str, w: Worker)
        requires
            old(self).wf(),
            !has_worker(old(self)@, w.id),
            w.wf(),
        ensures
            final(self).wf(),
            final(self)@ == added(old(self)@, key@, w),
    {
        let ghost before = self@;
        match self.position(key) {
            Some(p) => {
                self.pools[p].workers.push(w);
                assert(self@ =~= added(before, key@, w));
            },
            None => {
                let mut workers: Vec<Worker> = Vec::new();
                workers.push(w);
                assert(workers@ =~= seq![w]);
                self.pools.push(Pool { key: owned(key), workers });
                assert(self@ =~= added(before, key@, w));
            },
        }
        proof {
            lemma_added(before, key@, w);
        }
    }

    /// Takes worker `i` out of pool `p`; those behind it move up.
    pub fn remove_worker(&mut self, p: usize, i: usize) -> (r: Worker)
        requires
            old(self).wf(),
            in_range(old(self)@, p as int, i as int),
        ensures
            final(self).wf(),
            r == old(self)@[p as int].workers[i as int],
            final(self)@ == removed(old(self)@, p as int, i as int),
            !has_worker(final(self)@, r.id),
    {
        let ghost before = self@;
        let w = self.pools[p].workers.remove(i);
        assert(self@ =~= removed(before, p as int, i as int));
        proof {
            lemma_removed(before, p as int, i as int);
        }
        w
    }

    /// Takes worker `i` out of pool `p`; the last one takes its place.
    pub fn swap_remove_worker(&mut self, p: usize, i: usize) -> (r: Worker)
        requires
            old(self).wf(),
            in_range(old(self)@, p as int, i as int),
        ensures
            final(self).wf(),
            r == old(self)@[p as int].workers[i as int],
            final(self)@ == swap_removed(old(self)@, p as int, i as int),
            !has_worker(final(self)@, r.id),
    {
        let ghost before = self@;
        let w = self.pools[p].workers.swap_remove(i);
        assert(self@ =~= swap_removed(before, p as int, i as int));
        proof {
            lemma_swap_removed(before, p as int, i as int);
        }
        w
    }

    /// Takes pool `p` away; those behind it move up.
    pub fn remove_pool(&mut self, p: usize) -> (r: Vec<Worker>)
        requires
            old(self).wf(),
            p < old(self)@.len(),
        ensures
            final(self).wf(),
            r@ == old(self)@[p as int].workers,
            final(self)@ == old(self)@.remove(p as int),
    {
        let ghost before = self@;
        let pool = self.pools.remove(p);
        assert(self@ =~= before.remove(p as int));
        proof {
            lemma_pool_removed(before, p as int);
        }
        pool.workers
    }
}

// ---------------------------------------------------------------------
// What the operations keep
// ---------------------------------------------------------------------

proof fn lemma_replaced(s: Seq<PoolView>, p: int, i: int, w: Worker)
    requires
        distinct(s),
        all_wf(s),
        in_range(s, p, i),
        w.id == s[p].workers[i].id,
        w.wf(),
    ensures
        distinct(replaced(s, p, i, w)),
        all_wf(replaced(s, p, i, w)),
{
    let t = replaced(s, p, i, w);
    assert forall|q: int, j: int| in_range(t, q, j) implies in_range(s, q, j)
        && #[trigger] t[q].workers[j].id == s[q].workers[j].id by {}
    assert forall|q: int, r: int| 0 <= q < r < t.len() implies (#[trigger] t[q]).key != (
    #[trigger] t[r]).key by {
        assert(t[q].key == s[q].key);
        assert(t[r].key == s[r].key);
    }
    assert forall|q: int, j: int, r: int, k: int|
        in_range(t, q, j) && in_range(t, r, k) && #[trigger] t[q].workers[j].id
            == #[trigger] t[r].workers[k].id implies q == r && j == k by {
        assert(s[q].workers[j].id == s[r].workers[k].id);
    }
    assert forall|q: int, j: int| in_range(t, q, j) implies (#[trigger] t[q].workers[j]).wf() by {
        if !(q == p && j == i) {
            assert(t[q].workers[j] == s[q].workers[j]);
        }
    }
}

proof fn lemma_added(s: Seq<PoolView>, key: Seq<char>, w: Worker)
    requires
        distinct(s),
        all_wf(s),
        !has_worker(s, w.id),
        w.wf(),
    ensures
        distinct(added(s, key, w)),
        all_wf(added(s, key, w)),
{
    lemma_place_of(s, key);
    let t = added(s, key, w);
    let p = place_of(s, key);
    let n = if has_pool(s, key) {
        s[p].workers.len() as int
    } else {
        0
    };
    assert forall|q: int, j: int| in_range(t, q, j) && !(q == p && j == n) implies in_range(s, q, j)
        && #[trigger] t[q].workers[j] == s[q].workers[j] by {}
    assert(t[p].workers[n] == w);
    assert forall|q: int, r: int| 0 <= q < r < t.len() implies (#[trigger] t[q]).key != (
    #[trigger] t[r]).key by {
        assert(t[q].key == s[q].key);
        if r < s.len() {
            assert(t[r].key == s[r].key);
        }
    }
    assert forall|q: int, j: int, r: int, k: int|
        in_range(t, q, j) && in_range(t, r, k) && #[trigger] t[q].workers[j].id
            == #[trigger] t[r].workers[k].id implies q == r && j == k by {
        if q == p && j == n {
            if !(r == p && k == n) {
                assert(s[r].workers[k].id == w.id);
            }
        } else if r == p && k == n {
            assert(s[q].workers[j].id == w.id);
        } else {
            assert(s[q].workers[j].id == s[r].workers[k].id);
        }
    }
    assert forall|q: int, j: int| in_range(t, q, j) implies (#[trigger] t[q].workers[j]).wf() by {
        if !(q == p && j == n) {
            assert(t[q].workers[j] == s[q].workers[j]);
        }
    }
}

proof fn lemma_removed(s: Seq<PoolView>, p: int, i: int)
    requires
        distinct(s),
        all_wf(s),
        in_range(s, p, i),
    ensures
        distinct(removed(s, p, i)),
        all_wf(removed(s, p, i)),
        !has_worker(removed(s, p, i), s[p].workers[i].id),
{
    let t = removed(s, p, i);
    let id = s[p].workers[i].id;
    assert forall|q: int, j: int| in_range(t, q, j) implies #[trigger] t[q].workers[j]
        == s[q].workers[if q == p && j >= i {
        j + 1
    } else {
        j
    }] by {}
    lemma_from(
        s,
        t,
        |q: int, j: int|
            if q == p && j >= i {
                j + 1
            } else {
                j
            },
    );
    if has_worker(t, id) {
        let (q, j) = choose|q: int, j: int| in_range(t, q, j) && #[trigger] t[q].workers[j].id == id;
        let k = if q == p && j >= i {
            j + 1
        } else {
            j
        };
        assert(s[q].workers[k].id == s[p].workers[i].id);
    }
}

proof fn lemma_swap_removed(s: Seq<PoolView>, p: int, i: int)
    requires
        distinct(s),
        all_wf(s),
        in_range(s, p, i),
    ensures
        distinct(swap_removed(s, p, i)),
        all_wf(swap_removed(s, p, i)),
        !has_worker(swap_removed(s, p, i), s[p].workers[i].id),
{
    let t = swap_removed(s, p, i);
    let id = s[p].workers[i].id;
    let last = s[p].workers.len() - 1;
    assert forall|q: int, j: int| in_range(t, q, j) implies #[trigger] t[q].workers[j]
        == s[q].workers[if q == p && j == i {
        last
    } else {
        j
    }] by {}
    lemma_from(
        s,
        t,
        |q: int, j: int|
            if q == p && j == i {
                last
            } else {
                j
            },
    );
    if has_worker(t, id) {
        let (q, j) = choose|q: int, j: int| in_range(t, q, j) && #[trigger] t[q].workers[j].id == id;
        let k = if q == p && j == i {
            last
        } else {
            j
        };
        assert(s[q].workers[k].id == s[p].workers[i].id);
    }
}

/// Pools whose workers all stood in other pools, each in a place of its own,
/// are as sound as those.
proof fn lemma_from(s: Seq<PoolView>, t: Seq<PoolView>, at: spec_fn(int, int) -> int)
    requires
        distinct(s),
        all_wf(s),
        t.len() == s.len(),
        forall|q: int| 0 <= q < t.len() ==> (#[trigger] t[q]).key == s[q].key,
        forall|q: int, j: int|
            in_range(t, q, j) ==> in_range(s, q, at(q, j)) && #[trigger] t[q].workers[j]
                == s[q].workers[at(q, j)],
        forall|q: int, j: int, k: int|
            in_range(t, q, j) && in_range(t, q, k) && at(q, j) == at(q, k) ==> j == k,
    ensures
        distinct(t),
        all_wf(t),
{
    assert forall|q: int, r: int| 0 <= q < r < t.len() implies (#[trigger] t[q]).key != (
    #[trigger] t[r]).key by {
        assert(s[q].key != s[r].key);
    }
    assert forall|q: int, j: int, r: int, k: int|
        in_range(t, q, j) && in_range(t, r, k) && #[trigger] t[q].workers[j].id
            == #[trigger] t[r].workers[k].id implies q == r && j == k by {
        assert(s[q].workers[at(q, j)].id == s[r].workers[at(r, k)].id);
    }
}

proof fn lemma_pool_removed(s: Seq<PoolView>, p: int)
    requires
        distinct(s),
        all_wf(s),
        0 <= p < s.len(),
    ensures
        distinct(s.remove(p)),
        all_wf(s.remove(p)),
{
    let t = s.remove(p);
    assert forall|q: int, j: int| in_range(t, q, j) implies #[trigger] t[q].workers[j]
        == s[if q >= p {
        q + 1
    } else {
        q
    }].workers[j] by {}
    assert forall|q: int, r: int| 0 <= q < r < t.len() implies (#[trigger] t[q]).key != (
    #[trigger] t[r]).key by {
        let (a, b) = (
            if q >= p {
                q + 1
            } else {
                q
            },
            if r >= p {
                r + 1
            } else {
                r
            },
        );
        assert(s[a].key != s[b].key);
    }
    assert forall|q: int, j: int, r: int, k: int|
        in_range(t, q, j) && in_range(t, r, k) && #[trigger] t[q].workers[j].id
            == #[trigger] t[r].workers[k].id implies q == r && j == k by {
        let (a, b) = (
            if q >= p {
                q + 1
            } else {
                q
            },
            if r >= p {
                r + 1
            } else {
                r
            },
        );
        assert(s[a].workers[j].id == s[b].workers[k].id);
    }
    assert forall|q: int, j: int| in_range(t, q, j) implies (#[trigger] t[q].workers[j]).wf() by {
        let a = if q >= p {
            q + 1
        } else {
            q
        };
        assert(s[a].workers[j].wf());
    }
}

} // verus!
