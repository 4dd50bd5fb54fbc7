//! Which worker of a pool a client gets.

use crate::request::SandboxMode;
use crate::text;
use crate::text::same;
use crate::worker::Worker;
use vstd::prelude::*;

verus! {

/// What counts as free: how many clients may share a worker, none meaning any
/// number, and after how many seconds without a client a session is given up.
#[derive(Clone, Copy, Debug)]
pub struct Limits {
    pub max_clients: u32,
    pub label_ttl: u64,
}

// ---------------------------------------------------------------------
// Model
// ---------------------------------------------------------------------

/// `now - then` is a number of seconds that sixty-four bits hold.
pub open spec fn fits(now: i64, then: i64) -> bool {
    i64::MIN <= now - then <= i64::MAX
}

/// The seconds since `then`; a clock that was set back counts as having been
/// away for ages.
pub open spec fn age(now: i64, then: i64) -> int {
    if now >= then {
        now - then
    } else {
        now - then + 0x1_0000_0000_0000_0000
    }
}

impl Worker {
    /// The worker's session is given up: it had no client for long enough.
    pub open spec fn label_expired(&self, limits: Limits, now: i64) -> bool {
        &&& self.session_label is Some
        &&& self.active_clients == 0
        &&& age(now, self.last_active) >= limits.label_ttl
    }

    /// The worker can take a client.
    pub open spec fn available(&self, limits: Limits, interactive: bool, now: i64) -> bool {
        &&& limits.max_clients == 0 || self.active_clients < limits.max_clients
        &&& self.session_label is Some ==> self.label_expired(limits, now)
        &&& self.interactive == interactive
    }

    /// The worker can go: it has no client and no session that is kept.
    pub open spec fn may_go(&self, limits: Limits, now: i64) -> bool {
        &&& self.active_clients == 0
        &&& self.session_label is Some ==> self.label_expired(limits, now)
    }

    /// The age of the worker's session can be counted, where it matters.
    pub open spec fn label_age_fits(&self, now: i64) -> bool {
        self.session_label is Some && self.active_clients == 0 ==> fits(now, self.last_active)
    }

    /// The worker serves the session `label`.
    pub open spec fn serves(&self, label: Seq<char>) -> bool {
        text::opt_view(self.session_label) == Some(label)
    }
}

pub open spec fn ages_fit(ws: Seq<Worker>, now: i64) -> bool {
    forall|i: int| 0 <= i < ws.len() ==> (#[trigger] ws[i]).label_age_fits(now)
}

/// The first of `ws` for which `f` holds, or their number.
pub open spec fn first_where(ws: Seq<Worker>, f: spec_fn(Worker) -> bool) -> int
    decreases ws.len(),
{
    if ws.len() == 0 || f(ws[0]) {
        0
    } else {
        1 + first_where(ws.drop_first(), f)
    }
}

/// Worker `i` comes before worker `j`: it was used more recently, or stands
/// before it.
pub open spec fn beats(ws: Seq<Worker>, i: int, j: int) -> bool {
    ws[i].last_active > ws[j].last_active || (ws[i].last_active == ws[j].last_active && i < j)
}

/// Worker `i` comes first among those for which `f` holds.
pub open spec fn is_best(ws: Seq<Worker>, f: spec_fn(Worker) -> bool, i: int) -> bool {
    &&& 0 <= i < ws.len()
    &&& f(ws[i])
    &&& forall|j: int| 0 <= j < ws.len() && f(#[trigger] ws[j]) && j != i ==> beats(ws, i, j)
}

/// Worker `i` comes second, behind worker `b`.
pub open spec fn is_second(ws: Seq<Worker>, f: spec_fn(Worker) -> bool, b: int, i: int) -> bool {
    &&& is_best(ws, f, b)
    &&& 0 <= i < ws.len()
    &&& i != b
    &&& f(ws[i])
    &&& forall|j: int|
        0 <= j < ws.len() && f(#[trigger] ws[j]) && j != i && j != b ==> beats(ws, i, j)
}

/// Worker `i` is the one to reuse: the second most recent, which leaves the
/// most recent to the client that will come back to it, or the only one.
pub open spec fn is_pick(ws: Seq<Worker>, f: spec_fn(Worker) -> bool, i: int) -> bool {
    (exists|b: int| #[trigger] is_second(ws, f, b, i)) || (is_best(ws, f, i) && forall|j: int|
        0 <= j < ws.len() && f(#[trigger] ws[j]) ==> j == i)
}

/// The worker that a client gets, where it gets one of `ws`: that of its
/// session, else one that served a client of the same parent, else the one to
/// reuse. A client that is confined for its own sake shares a worker only
/// through a session.
pub open spec fn is_selected(
    ws: Seq<Worker>,
    label: Option<Seq<char>>,
    interactive: bool,
    ppid: u32,
    mode: SandboxMode,
    limits: Limits,
    now: i64,
    r: Option<int>,
) -> bool {
    let serving = first_where(ws, |w: Worker| label is Some && w.serves(label->0));
    let free = |w: Worker| w.available(limits, interactive, now);
    let related = first_where(
        ws,
        |w: Worker| w.available(limits, interactive, now) && w.recent_ppids@.contains(ppid),
    );
    if serving < ws.len() {
        r == Some(serving)
    } else if mode == SandboxMode::Remote {
        r is None
    } else if related < ws.len() {
        r == Some(related)
    } else {
        match r {
            Some(i) => is_pick(ws, free, i),
            None => forall|i: int| 0 <= i < ws.len() ==> !free(#[trigger] ws[i]),
        }
    }
}

pub proof fn lemma_first_where_is(ws: Seq<Worker>, f: spec_fn(Worker) -> bool, i: int)
    requires
        0 <= i <= ws.len(),
        i < ws.len() ==> f(ws[i]),
        forall|j: int| 0 <= j < i ==> !f(#[trigger] ws[j]),
    ensures
        first_where(ws, f) == i,
    decreases ws.len(),
{
    if ws.len() > 0 && !f(ws[0]) {
        let rest = ws.drop_first();
        assert forall|j: int| 0 <= j < i - 1 implies !f(#[trigger] rest[j]) by {
            assert(rest[j] == ws[j + 1]);
        }
        lemma_first_where_is(rest, f, i - 1);
    }
}

pub proof fn lemma_first_where(ws: Seq<Worker>, f: spec_fn(Worker) -> bool)
    ensures
        0 <= first_where(ws, f) <= ws.len(),
        first_where(ws, f) < ws.len() ==> f(ws[first_where(ws, f)]),
        forall|j: int| 0 <= j < first_where(ws, f) ==> !f(#[trigger] ws[j]),
    decreases ws.len(),
{
    if ws.len() > 0 && !f(ws[0]) {
        let rest = ws.drop_first();
        lemma_first_where(rest, f);
        let n = first_where(rest, f);
        assert forall|j: int| 0 <= j < n + 1 implies !f(#[trigger] ws[j]) by {
            if j > 0 {
                assert(rest[j - 1] == ws[j]);
            }
        }
    }
}

// ---------------------------------------------------------------------
// Laws
// ---------------------------------------------------------------------

/// There is at most one worker to reuse.
pub proof fn law_pick_is_unique(ws: Seq<Worker>, f: spec_fn(Worker) -> bool, i: int, j: int)
    requires
        is_pick(ws, f, i),
        is_pick(ws, f, j),
    ensures
        i == j,
{
    if i != j {
        if exists|b: int| #[trigger] is_second(ws, f, b, i) {
            let b = choose|b: int| #[trigger] is_second(ws, f, b, i);
            if exists|c: int| #[trigger] is_second(ws, f, c, j) {
                let c = choose|c: int| #[trigger] is_second(ws, f, c, j);
                assert(f(ws[b]) && f(ws[c]) && f(ws[i]) && f(ws[j]));
                assert(b == c);
            } else {
                assert(f(ws[i]));
            }
        } else {
            assert(f(ws[j]));
        }
    }
}

/// A client without a session never gets a worker that serves one, unless
/// that session was given up; nor a worker that has all the clients it may
/// have, nor one that is interactive where the client is not.
pub proof fn law_selected_is_free(
    ws: Seq<Worker>,
    interactive: bool,
    ppid: u32,
    mode: SandboxMode,
    limits: Limits,
    now: i64,
    i: int,
)
    requires
        is_selected(ws, None, interactive, ppid, mode, limits, now, Some(i)),
    ensures
        0 <= i < ws.len(),
        ws[i].available(limits, interactive, now),
{
    let none = |w: Worker| None::<Seq<char>> is Some && w.serves(None::<Seq<char>>->0);
    lemma_first_where(ws, none);
    lemma_first_where(
        ws,
        |w: Worker| w.available(limits, interactive, now) && w.recent_ppids@.contains(ppid),
    );
}

/// A client that names a session gets the worker that serves it, whatever
/// else is free.
pub proof fn law_session_comes_first(
    ws: Seq<Worker>,
    label: Seq<char>,
    interactive: bool,
    ppid: u32,
    mode: SandboxMode,
    limits: Limits,
    now: i64,
    k: int,
    r: Option<int>,
)
    requires
        0 <= k < ws.len(),
        ws[k].serves(label),
        is_selected(ws, Some(label), interactive, ppid, mode, limits, now, r),
    ensures
        r matches Some(i) && 0 <= i <= k && ws[i].serves(label),
{
    lemma_first_where(ws, |w: Worker| Some(label) is Some && w.serves(Some(label)->0));
}

// ---------------------------------------------------------------------
// Operations
// ---------------------------------------------------------------------

/// The seconds since `then`, as an unsigned number.
fn seconds_since(now: i64, then: i64) -> (r: u64)
    requires
        fits(now, then),
    ensures
        r == age(now, then),
{
    let d: i64 = now - then;
    if d >= 0 {
        d as u64
    } else {
        assert((d as u64) == d + 0x1_0000_0000_0000_0000) by (bit_vector)
            requires
                d < 0,
        ;
        d as u64
    }
}

impl Worker {
    pub fn is_label_expired(&self, limits: Limits, now: i64) -> (r: bool)
        requires
            self.label_age_fits(now),
        ensures
            r == self.label_expired(limits, now),
    {
        if self.session_label.is_none() || self.active_clients > 0 {
            return false;
        }
        seconds_since(now, self.last_active) >= limits.label_ttl
    }

    pub fn is_available(&self, limits: Limits, interactive: bool, now: i64) -> (r: bool)
        requires
            self.label_age_fits(now),
        ensures
            r == self.available(limits, interactive, now),
    {
        if limits.max_clients != 0 && self.active_clients >= limits.max_clients {
            return false;
        }
        if self.session_label.is_some() && !self.is_label_expired(limits, now) {
            return false;
        }
        self.interactive == interactive
    }

    /// Whether the worker has no client and no session that is kept.
    pub fn cullable(&self, limits: Limits, now: i64) -> (r: bool)
        requires
            self.label_age_fits(now),
        ensures
            r == self.may_go(limits, now),
    {
        self.active_clients == 0 && (self.session_label.is_none() || self.is_label_expired(
            limits,
            now,
        ))
    }

    pub fn is_serving(&self, label: &str) -> (r: bool)
        ensures
            r == self.serves(label@),
    {
        match &self.session_label {
            Some(l) => same(l.as_str(), label),
            None => false,
        }
    }
}

/// The worker to reuse.
pub fn try_existing_workers(ws: &[Worker], limits: Limits, interactive: bool, now: i64) -> (r:
    Option<usize>)
    requires
        ages_fit(ws@, now),
    ensures
        match r {
            Some(i) => i < ws@.len() && is_pick(
                ws@,
                |w: Worker| w.available(limits, interactive, now),
                i as int,
            ),
            None => forall|i: int|
                0 <= i < ws@.len() ==> !(#[trigger] ws@[i]).available(limits, interactive, now),
        },
{
    let ghost f = |w: Worker| w.available(limits, interactive, now);
    let mut best: Option<usize> = None;
    let mut second: Option<usize> = None;
    let mut n: usize = 0;
    while n < ws.len()
        invariant
            n <= ws@.len(),
            ages_fit(ws@, now),
            f == (|w: Worker| w.available(limits, interactive, now)),
            best is None ==> second is None,
            best is None ==> forall|j: int| 0 <= j < n ==> !f(#[trigger] ws@[j]),
            best matches Some(b) ==> b < n && f(ws@[b as int]) && forall|j: int|
                0 <= j < n && f(#[trigger] ws@[j]) && j != b ==> beats(ws@, b as int, j),
            (best is Some && second is None) ==> forall|j: int|
                0 <= j < n && f(#[trigger] ws@[j]) ==> j == best->0,
            second matches Some(s) ==> s < n && s != best->0 && f(ws@[s as int]) && forall|j: int|
                0 <= j < n && f(#[trigger] ws@[j]) && j != s && j != best->0 ==> beats(
                    ws@,
                    s as int,
                    j,
                ),
        decreases ws@.len() - n,
    {
        if ws[n].is_available(limits, interactive, now) {
            let beats_best: bool = match best {
                Some(b) => ws[n].last_active > ws[b].last_active,
                None => true,
            };
            if beats_best {
                second = best;
                best = Some(n);
            } else {
                let beats_second: bool = match second {
                    Some(s) => ws[n].last_active > ws[s].last_active,
                    None => true,
                };
                if beats_second {
                    second = Some(n);
                }
            }
        }
        n = n + 1;
    }
    match second {
        Some(s) => {
            assert(is_second(ws@, f, best->0 as int, s as int));
            Some(s)
        },
        None => best,
    }
}

/// The worker that a client gets, where it gets one of `ws`.
pub fn select_existing_worker(
    ws: &[Worker],
    label: Option<&str>,
    interactive: bool,
    ppid: u32,
    mode: SandboxMode,
    limits: Limits,
    now: i64,
) -> (r: Option<usize>)
    requires
        ages_fit(ws@, now),
    ensures
        is_selected(
            ws@,
            text::opt_str(label),
            interactive,
            ppid,
            mode,
            limits,
            now,
            match r {
                Some(i) => Some(i as int),
                None => None,
            },
        ),
        r matches Some(i) ==> i < ws@.len(),
{
    let ghost wanted = text::opt_str(label);
    let ghost serving = |w: Worker| wanted is Some && w.serves(wanted->0);
    let ghost related = |w: Worker|
        w.available(limits, interactive, now) && w.recent_ppids@.contains(ppid);
    let mut i: usize = 0;
    if let Some(l) = label {
        while i < ws.len()
            invariant
                i <= ws@.len(),
                wanted == Some(l@),
                wanted == text::opt_str(label),
                serving == (|w: Worker| wanted is Some && w.serves(wanted->0)),
                forall|j: int| 0 <= j < i ==> !serving(#[trigger] ws@[j]),
            decreases ws@.len() - i,
        {
            if ws[i].is_serving(l) {
                proof {
                    lemma_first_where_is(ws@, serving, i as int);
                }
                return Some(i);
            }
            i = i + 1;
        }
    }
    proof {
        lemma_first_where_is(ws@, serving, ws@.len() as int);
    }
    if mode == SandboxMode::Remote {
        return None;
    }
    let mut k: usize = 0;
    while k < ws.len()
        invariant
            k <= ws@.len(),
            ages_fit(ws@, now),
            mode != SandboxMode::Remote,
            wanted == text::opt_str(label),
            serving == (|w: Worker| wanted is Some && w.serves(wanted->0)),
            first_where(ws@, serving) == ws@.len(),
            related == (|w: Worker|
                w.available(limits, interactive, now) && w.recent_ppids@.contains(ppid)),
            forall|j: int| 0 <= j < k ==> !related(#[trigger] ws@[j]),
        decreases ws@.len() - k,
    {
        if ws[k].is_available(limits, interactive, now) && ws[k].knows_ppid(ppid) {
            proof {
                lemma_first_where_is(ws@, related, k as int);
            }
            return Some(k);
        }
        k = k + 1;
    }
    proof {
        lemma_first_where_is(ws@, related, ws@.len() as int);
    }
    try_existing_workers(ws, limits, interactive, now)
}

} // verus!
