//! The clients that are being served.

use vstd::prelude::*;

verus! {

/// What is known of a client that is being served.
#[derive(Clone, Copy, Debug, PartialEq, Eq, Structural)]
pub struct ActiveClientInfo {
    pub worker_id: u32,
    pub client_num: u32,
    /// In microseconds.
    pub start_time_us: i64,
    /// The ports of its streams, or `PORT_POOL_NONE`.
    pub port_set: u16,
}

/// Clients by the number of their process.
pub struct ActiveClients {
    list: Vec<(u32, ActiveClientInfo)>,
}

// ---------------------------------------------------------------------
// Model
// ---------------------------------------------------------------------

spec fn listed(list: Seq<(u32, ActiveClientInfo)>, pid: u32) -> bool {
    exists|i: int| 0 <= i < list.len() && (#[trigger] list[i]).0 == pid
}

spec fn entry(list: Seq<(u32, ActiveClientInfo)>, pid: u32) -> ActiveClientInfo {
    list[choose|i: int| 0 <= i < list.len() && (#[trigger] list[i]).0 == pid].1
}

spec fn once(list: Seq<(u32, ActiveClientInfo)>) -> bool {
    forall|i: int, j: int|
        0 <= i < j < list.len() ==> (#[trigger] list[i]).0 != (#[trigger] list[j]).0
}

/// The clients of the worker `id` in `list`, in its order.
spec fn listing_in(list: Seq<(u32, ActiveClientInfo)>, id: u32) -> Seq<u32>
    decreases list.len(),
{
    if list.len() == 0 {
        Seq::empty()
    } else if list.last().1.worker_id == id {
        listing_in(list.drop_last(), id).push(list.last().0)
    } else {
        listing_in(list.drop_last(), id)
    }
}

proof fn lemma_entry(list: Seq<(u32, ActiveClientInfo)>, i: int)
    requires
        once(list),
        0 <= i < list.len(),
    ensures
        listed(list, list[i].0),
        entry(list, list[i].0) == list[i].1,
{
    let j = choose|j: int| 0 <= j < list.len() && (#[trigger] list[j]).0 == list[i].0;
    assert(list[j].0 == list[i].0);
}

/// The clients of the worker `id`.
pub open spec fn clients_of(m: Map<u32, ActiveClientInfo>, id: u32) -> Set<u32> {
    Set::new(|pid: u32| m.contains_key(pid) && m[pid].worker_id == id)
}

/// No two clients have the same ports.
pub open spec fn ports_exclusive(m: Map<u32, ActiveClientInfo>) -> bool {
    forall|a: u32, b: u32|
        m.contains_key(a) && m.contains_key(b) && a != b && (#[trigger] m[a]).port_set
            != crate::protocol::PORT_POOL_NONE ==> m[a].port_set != (#[trigger] m[b]).port_set
}

/// No client has the ports `set`.
pub open spec fn nobody_has(m: Map<u32, ActiveClientInfo>, set: u16) -> bool {
    forall|pid: u32| m.contains_key(pid) ==> (#[trigger] m[pid]).port_set != set
}

/// A client that gets ports that nobody has shares them with nobody.
pub proof fn law_ports_stay_exclusive(
    m: Map<u32, ActiveClientInfo>,
    pid: u32,
    info: ActiveClientInfo,
)
    requires
        ports_exclusive(m),
        info.port_set == crate::protocol::PORT_POOL_NONE || nobody_has(m, info.port_set),
    ensures
        ports_exclusive(m.insert(pid, info)),
        ports_exclusive(m.remove(pid)),
{
    let after = m.insert(pid, info);
    assert forall|a: u32, b: u32|
        after.contains_key(a) && after.contains_key(b) && a != b && (#[trigger] after[a]).port_set
            != crate::protocol::PORT_POOL_NONE implies after[a].port_set != (
    #[trigger] after[b]).port_set by {
        if a != pid && b != pid {
            assert(m.contains_key(a) && m.contains_key(b));
            assert(after[a] == m[a] && after[b] == m[b]);
        } else if a == pid {
            assert(m.contains_key(b));
            assert(after[b] == m[b]);
        } else {
            assert(m.contains_key(a));
            assert(after[a] == m[a]);
        }
    }
    let less = m.remove(pid);
    assert forall|a: u32, b: u32|
        less.contains_key(a) && less.contains_key(b) && a != b && (#[trigger] less[a]).port_set
            != crate::protocol::PORT_POOL_NONE implies less[a].port_set != (
    #[trigger] less[b]).port_set by {
        assert(m.contains_key(a) && m.contains_key(b));
        assert(less[a] == m[a] && less[b] == m[b]);
    }
}

// ---------------------------------------------------------------------
// Operations
// ---------------------------------------------------------------------

impl ActiveClients {
    pub closed spec fn view(&self) -> Map<u32, ActiveClientInfo> {
        Map::new(|pid: u32| listed(self.list@, pid), |pid: u32| entry(self.list@, pid))
    }

    /// The clients of the worker `id`, in the order in which they are listed.
    pub closed spec fn listing(&self, id: u32) -> Seq<u32> {
        listing_in(self.list@, id)
    }

    /// Every client is listed once.
    pub closed spec fn wf(&self) -> bool {
        once(self.list@)
    }

    pub closed spec fn count(&self) -> nat {
        self.list@.len()
    }

    /// The count is that of the clients.
    pub proof fn law_count_is_of_clients(&self)
        requires
            self.wf(),
        ensures
            self@.dom().finite(),
            self.count() == self@.dom().len(),
    {
        let pids = self.list@.map_values(|e: (u32, ActiveClientInfo)| e.0);
        assert(pids.no_duplicates()) by {
            assert forall|i: int, j: int| 0 <= i < pids.len() && 0 <= j < pids.len() && i
                != j implies pids[i] != pids[j] by {
                if i < j {
                    assert(self.list@[i].0 != self.list@[j].0);
                } else {
                    assert(self.list@[j].0 != self.list@[i].0);
                }
            }
        }
        pids.unique_seq_to_set();
        assert forall|pid: u32| pids.to_set().contains(pid) == self@.dom().contains(pid) by {
            if pids.to_set().contains(pid) {
                let i = pids.index_of(pid);
                assert(self.list@[i].0 == pid);
            }
            if listed(self.list@, pid) {
                let i = choose|i: int| 0 <= i < self.list@.len() && (#[trigger] self.list@[i]).0 == pid;
                assert(pids[i] == pid);
            }
        }
        assert(pids.to_set() =~= self@.dom());
    }

    pub fn new() -> (r: Self)
        ensures
            r.wf(),
            r@ == Map::<u32, ActiveClientInfo>::empty(),
            r.count() == 0,
    {
        let r = ActiveClients { list: Vec::new() };
        assert(r@ =~= Map::<u32, ActiveClientInfo>::empty());
        r
    }

    /// The number of clients.
    pub fn len(&self) -> (r: usize)
        ensures
            r == self.count(),
    {
        self.list.len()
    }

    fn position(&self, pid: u32) -> (r: Option<usize>)
        ensures
            match r {
                Some(i) => i < self.list@.len() && self.list@[i as int].0 == pid,
                None => !listed(self.list@, pid),
            },
    {
        let mut i: usize = 0;
        while i < self.list.len()
            invariant
                i <= self.list@.len(),
                forall|j: int| 0 <= j < i ==> (#[trigger] self.list@[j]).0 != pid,
            decreases self.list@.len() - i,
        {
            if self.list[i].0 == pid {
                return Some(i);
            }
            i = i + 1;
        }
        None
    }

    pub fn get(&self, pid: u32) -> (r: Option<ActiveClientInfo>)
        requires
            self.wf(),
        ensures
            match r {
                Some(info) => self@.contains_key(pid) && self@[pid] == info,
                None => !self@.contains_key(pid),
            },
    {
        match self.position(pid) {
            Some(i) => {
                proof {
                    lemma_entry(self.list@, i as int);
                }
                Some(self.list[i].1)
            },
            None => None,
        }
    }

    /// Enters a client, in place of what was known of it before.
    pub fn insert(&mut self, pid: u32, info: ActiveClientInfo)
        requires
            old(self).wf(),
        ensures
            final(self).wf(),
            final(self)@ == old(self)@.insert(pid, info),
            final(self).count() == if old(self)@.contains_key(pid) {
                old(self).count()
            } else {
                old(self).count() + 1
            },
    {
        let ghost before = self.list@;
        match self.position(pid) {
            Some(i) => {
                self.list.set(i, (pid, info));
                proof {
                    let l = self.list@;
                    assert(before[i as int].0 == pid);
                    assert forall|j: int, k: int| 0 <= j < k < l.len() implies (
                    #[trigger] l[j]).0 != (#[trigger] l[k]).0 by {
                        assert(l[j].0 == before[j].0);
                        assert(l[k].0 == before[k].0);
                    }
                    lemma_same(before, l, pid, info, i as int);
                    assert(self@ =~= old(self)@.insert(pid, info));
                }
            },
            None => {
                self.list.push((pid, info));
                proof {
                    let l = self.list@;
                    let n = before.len() as int;
                    assert(l[n].0 == pid);
                    assert forall|j: int, k: int| 0 <= j < k < l.len() implies (
                    #[trigger] l[j]).0 != (#[trigger] l[k]).0 by {
                        assert(l[j] == before[j]);
                        if k < n {
                            assert(l[k] == before[k]);
                        }
                    }
                    lemma_same(before, l, pid, info, n);
                    assert(self@ =~= old(self)@.insert(pid, info));
                }
            },
        }
    }

    /// Takes a client off.
    pub fn remove(&mut self, pid: u32) -> (r: Option<ActiveClientInfo>)
        requires
            old(self).wf(),
        ensures
            final(self).wf(),
            final(self)@ == old(self)@.remove(pid),
            match r {
                Some(info) => old(self)@.contains_key(pid) && old(self)@[pid] == info,
                None => !old(self)@.contains_key(pid),
            },
            final(self).count() == if old(self)@.contains_key(pid) {
                old(self).count() - 1
            } else {
                old(self).count() as int
            },
    {
        let ghost before = self.list@;
        match self.position(pid) {
            Some(i) => {
                proof {
                    lemma_entry(before, i as int);
                }
                let (p, info) = self.list.remove(i);
                proof {
                    let l = self.list@;
                    assert forall|j: int| 0 <= j < l.len() implies (#[trigger] l[j]) == before[if j
                        < i {
                        j
                    } else {
                        j + 1
                    }] by {}
                    assert forall|j: int, k: int| 0 <= j < k < l.len() implies (
                    #[trigger] l[j]).0 != (#[trigger] l[k]).0 by {
                        let (a, b) = (
                            if j < i {
                                j
                            } else {
                                j + 1
                            },
                            if k < i {
                                k
                            } else {
                                k + 1
                            },
                        );
                        assert(before[a].0 != before[b].0);
                    }
                    assert forall|q: u32| q != pid implies listed(l, q) == listed(before, q) && (
                    listed(l, q) ==> entry(l, q) == entry(before, q)) by {
                        if listed(before, q) {
                            let j = choose|j: int|
                                0 <= j < before.len() && (#[trigger] before[j]).0 == q;
                            let k = if j < i {
                                j
                            } else {
                                j - 1
                            };
                            assert(l[k] == before[j]);
                            lemma_entry(l, k);
                            lemma_entry(before, j);
                        }
                        if listed(l, q) {
                            let k = choose|k: int| 0 <= k < l.len() && (#[trigger] l[k]).0 == q;
                            assert(before[if k < i {
                                k
                            } else {
                                k + 1
                            }].0 == q);
                        }
                    }
                    assert(!listed(l, pid)) by {
                        if listed(l, pid) {
                            let k = choose|k: int| 0 <= k < l.len() && (#[trigger] l[k]).0 == pid;
                            let b = if k < i {
                                k
                            } else {
                                k + 1
                            };
                            assert(before[b].0 == before[i as int].0);
                        }
                    }
                    assert(self@ =~= old(self)@.remove(pid));
                }
                Some(info)
            },
            None => {
                assert(self@ =~= old(self)@.remove(pid));
                None
            },
        }
    }

    /// The clients of the worker `id`.
    pub fn of_worker(&self, id: u32) -> (r: Vec<u32>)
        requires
            self.wf(),
        ensures
            r@ == self.listing(id),
            r@.no_duplicates(),
            forall|pid: u32| r@.contains(pid) <==> clients_of(self@, id).contains(pid),
    {
        let mut out: Vec<u32> = Vec::new();
        let ghost mut at: Seq<int> = Seq::empty();
        let mut i: usize = 0;
        assert(self.list@.take(0) =~= Seq::empty());
        while i < self.list.len()
            invariant
                self.wf(),
                i <= self.list@.len(),
                out@ == listing_in(self.list@.take(i as int), id),
                at.len() == out@.len(),
                forall|k: int|
                    0 <= k < at.len() ==> 0 <= #[trigger] at[k] < i && self.list@[at[k]].0
                        == out@[k] && self.list@[at[k]].1.worker_id == id,
                forall|k: int, l: int| 0 <= k < l < at.len() ==> at[k] < at[l],
                forall|j: int|
                    0 <= j < i && (#[trigger] self.list@[j]).1.worker_id == id ==> out@.contains(
                        self.list@[j].0,
                    ),
            decreases self.list@.len() - i,
        {
            let ghost before = out@;
            assert(self.list@.take(i + 1).drop_last() =~= self.list@.take(i as int));
            if self.list[i].1.worker_id == id {
                out.push(self.list[i].0);
                proof {
                    at = at.push(i as int);
                    assert(out@[before.len() as int] == self.list@[i as int].0);
                    assert forall|j: int|
                        0 <= j < i + 1 && (#[trigger] self.list@[j]).1.worker_id
                            == id implies out@.contains(self.list@[j].0) by {
                        if j < i {
                            let k = before.index_of(self.list@[j].0);
                            assert(out@[k] == self.list@[j].0);
                        }
                    }
                }
            }
            i = i + 1;
        }
        proof {
            let l = self.list@;
            assert(l.take(i as int) =~= l);
            assert forall|j: int, k: int|
                0 <= j < out@.len() && 0 <= k < out@.len() && j != k implies out@[j] != out@[k] by {
                if j < k {
                    assert(l[at[j]].0 != l[at[k]].0);
                } else {
                    assert(l[at[k]].0 != l[at[j]].0);
                }
            }
            assert forall|pid: u32| out@.contains(pid) == clients_of(self@, id).contains(pid) by {
                if out@.contains(pid) {
                    let k = out@.index_of(pid);
                    lemma_entry(l, at[k]);
                }
                if clients_of(self@, id).contains(pid) {
                    let j = choose|j: int| 0 <= j < l.len() && (#[trigger] l[j]).0 == pid;
                    lemma_entry(l, j);
                }
            }
        }
        out
    }
}

/// A list with `info` for `pid` at place `i`, and all else as before.
proof fn lemma_same(
    before: Seq<(u32, ActiveClientInfo)>,
    l: Seq<(u32, ActiveClientInfo)>,
    pid: u32,
    info: ActiveClientInfo,
    i: int,
)
    requires
        once(before),
        once(l),
        0 <= i < l.len(),
        l[i] == (pid, info),
        before.len() <= l.len() <= before.len() + 1,
        l.len() == before.len() ==> before[i].0 == pid,
        l.len() == before.len() + 1 ==> i == before.len() && !listed(before, pid),
        forall|j: int| 0 <= j < before.len() && j != i ==> #[trigger] l[j] == before[j],
    ensures
        listed(l, pid),
        entry(l, pid) == info,
        forall|q: u32|
            q != pid ==> #[trigger] listed(l, q) == listed(before, q) && (listed(l, q) ==> entry(
                l,
                q,
            ) == entry(before, q)),
{
    lemma_entry(l, i);
    assert forall|q: u32| q != pid implies #[trigger] listed(l, q) == listed(before, q) && (listed(
        l,
        q,
    ) ==> entry(l, q) == entry(before, q)) by {
        if listed(before, q) {
            let j = choose|j: int| 0 <= j < before.len() && (#[trigger] before[j]).0 == q;
            assert(l[j] == before[j]);
            lemma_entry(l, j);
            lemma_entry(before, j);
        }
        if listed(l, q) {
            let j = choose|j: int| 0 <= j < l.len() && (#[trigger] l[j]).0 == q;
            assert(j != i);
            assert(l[j] == before[j]);
        }
    }
}

} // verus!
