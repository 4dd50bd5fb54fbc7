//! What the conductor knows of a worker.

use crate::args::{Switch, Threads};
use crate::env_cache::EnvVar;
use crate::text;
use crate::text::owned;
use vstd::prelude::*;

verus! {

// ---------------------------------------------------------------------
// Clients
// ---------------------------------------------------------------------

/// A client, as it is handed to a worker.
pub struct ClientInfo<'a> {
    pub tty: bool,
    pub force: bool,
    pub pid: u32,
    pub ppid: u32,
    pub cwd: &'a str,
    pub env: &'a [EnvVar],
    pub switches: &'a [Switch],
    pub program_file: Option<&'a str>,
    pub program_args: &'a [String],
    pub port_set: u16,
}

/// Where the four streams of a client are.
pub struct SocketPaths {
    pub stdin: String,
    pub stdout: String,
    pub stderr: String,
    pub signals: String,
}

// ---------------------------------------------------------------------
// Workers
// ---------------------------------------------------------------------

/// How many parents of clients are remembered at most.
pub const MAX_RECENT_PPIDS: usize = 32;

/// How far a worker is on its way out.
#[derive(Clone, Copy, Debug, PartialEq, Eq, Structural)]
pub enum RetireStage {
    Running,
    Soft,
    Term,
}

pub struct Worker {
    pub id: u32,
    pub project: Option<String>,
    pub julia_channel: Option<String>,
    pub threads: Threads,
    pub session_label: Option<String>,
    pub created_at: i64,
    pub last_active: i64,
    pub last_pinged: i64,
    pub ping_pending: bool,
    pub active_clients: u32,
    pub sandboxed: bool,
    pub interactive: bool,
    pub recent_ppids: [u32; 32],
    pub recent_ppids_next: usize,
    pub mem_bytes: u64,
    pub cpu_last_ticks: u64,
    /// In microseconds; zero before the first sample.
    pub cpu_last_sample_at: i64,
    pub retire_stage: RetireStage,
    pub retire_since: i64,
}

/// How many parents are remembered where `max_history` clients share a
/// worker; no limit on those means the most.
pub open spec fn history_len(max_history: u32) -> int {
    if max_history == 0 || max_history > MAX_RECENT_PPIDS {
        MAX_RECENT_PPIDS as int
    } else {
        max_history as int
    }
}

impl Worker {
    /// The next parent has a place, and a session has a name.
    pub open spec fn wf(&self) -> bool {
        &&& self.recent_ppids_next < MAX_RECENT_PPIDS
        &&& self.session_label matches Some(l) ==> l@.len() > 0
    }

    /// A worker that has just started.
    pub fn new(
        id: u32,
        julia_channel: Option<&str>,
        threads: Threads,
        sandboxed: bool,
        interactive: bool,
        now: i64,
    ) -> (r: Worker)
        ensures
            r.wf(),
            r.id == id,
            r.project is None,
            text::opt_view(r.julia_channel) == text::opt_str(julia_channel),
            r.threads == threads,
            r.session_label is None,
            r.created_at == now,
            r.last_active == now,
            r.last_pinged == now,
            !r.ping_pending,
            r.active_clients == 0,
            r.sandboxed == sandboxed,
            r.interactive == interactive,
            r.recent_ppids@ == Seq::new(32, |i: int| 0u32),
            r.recent_ppids_next == 0,
            r.mem_bytes == 0,
            r.cpu_last_ticks == 0,
            r.cpu_last_sample_at == 0,
            r.retire_stage == RetireStage::Running,
            r.retire_since == 0,
    {
        let recent_ppids: [u32; 32] = [0; 32];
        assert(recent_ppids@ =~= Seq::new(32, |i: int| 0u32));
        Worker {
            id,
            project: None,
            julia_channel: match julia_channel {
                Some(c) => Some(owned(c)),
                None => None,
            },
            threads,
            session_label: None,
            created_at: now,
            last_active: now,
            last_pinged: now,
            ping_pending: false,
            active_clients: 0,
            sandboxed,
            interactive,
            recent_ppids,
            recent_ppids_next: 0,
            mem_bytes: 0,
            cpu_last_ticks: 0,
            cpu_last_sample_at: 0,
            retire_stage: RetireStage::Running,
            retire_since: 0,
        }
    }

    /// This is `other` but for the parents that it remembers.
    pub open spec fn same_but_ppids(&self, other: &Worker) -> bool {
        *self == (Worker {
            recent_ppids: self.recent_ppids,
            recent_ppids_next: self.recent_ppids_next,
            ..*other
        })
    }

    /// Remembers the parent of a client, in place of the one remembered
    /// longest.
    pub fn record_ppid(&mut self, ppid: u32, max_history: u32)
        requires
            old(self).wf(),
        ensures
            final(self).wf(),
            final(self).same_but_ppids(old(self)),
            final(self).recent_ppids@ == old(self).recent_ppids@.update(
                old(self).recent_ppids_next as int,
                ppid,
            ),
            final(self).recent_ppids_next == (old(self).recent_ppids_next + 1) % history_len(
                max_history,
            ),
    {
        let cap: usize = if max_history == 0 || max_history > 32 {
            MAX_RECENT_PPIDS
        } else {
            max_history as usize
        };
        self.recent_ppids[self.recent_ppids_next] = ppid;
        self.recent_ppids_next = (self.recent_ppids_next + 1) % cap;
    }

    /// Whether a client of the same parent was here recently.
    pub fn knows_ppid(&self, ppid: u32) -> (r: bool)
        ensures
            r == self.recent_ppids@.contains(ppid),
    {
        let mut i: usize = 0;
        while i < 32
            invariant
                i <= 32,
                forall|j: int| 0 <= j < i ==> self.recent_ppids@[j] != ppid,
            decreases 32 - i,
        {
            if self.recent_ppids[i] == ppid {
                assert(self.recent_ppids@[i as int] == ppid);
                return true;
            }
            i = i + 1;
        }
        assert(self.recent_ppids@.len() == 32);
        false
    }

    /// The worker is due for a ping: none is under way, no client is
    /// attached, and the last one is long enough ago.
    pub open spec fn ping_due(&self, now: i64, interval: u64) -> bool {
        &&& !self.ping_pending
        &&& self.active_clients == 0
        &&& now - self.last_pinged >= interval as i64
    }

    pub fn should_ping(&self, now: i64, interval: u64) -> (r: bool)
        requires
            !self.ping_pending && self.active_clients == 0 ==> i64::MIN <= now - self.last_pinged
                <= i64::MAX,
        ensures
            r == self.ping_due(now, interval),
    {
        !self.ping_pending && self.active_clients == 0 && now - self.last_pinged >= interval as i64
    }

    /// Takes a count of processor ticks; with an earlier one it gives the
    /// ticks and the microseconds in between, at least one of the latter.
    pub fn sample_cpu(&mut self, ticks: u64, now_us: i64) -> (r: Option<(u64, i64)>)
        requires
            i64::MIN <= now_us - old(self).cpu_last_sample_at <= i64::MAX,
        ensures
            *final(self) == (Worker {
                cpu_last_ticks: ticks,
                cpu_last_sample_at: now_us,
                ..*old(self)
            }),
            match r {
                Some((dt, us)) => {
                    &&& old(self).cpu_last_sample_at > 0
                    &&& dt == if ticks >= old(self).cpu_last_ticks {
                        ticks - old(self).cpu_last_ticks
                    } else {
                        0
                    }
                    &&& us == if now_us - old(self).cpu_last_sample_at >= 1 {
                        now_us - old(self).cpu_last_sample_at
                    } else {
                        1
                    }
                },
                None => old(self).cpu_last_sample_at <= 0,
            },
    {
        let mut delta: Option<(u64, i64)> = None;
        if self.cpu_last_sample_at > 0 {
            let us: i64 = now_us - self.cpu_last_sample_at;
            let us: i64 = if us < 1 {
                1
            } else {
                us
            };
            let dt: u64 = if ticks >= self.cpu_last_ticks {
                ticks - self.cpu_last_ticks
            } else {
                0
            };
            delta = Some((dt, us));
        }
        self.cpu_last_ticks = ticks;
        self.cpu_last_sample_at = now_us;
        delta
    }
}

// ---------------------------------------------------------------------
// Laws
// ---------------------------------------------------------------------

/// The parents `ps`, recorded one after the other with a history of `cap`,
/// have left the ring `ring` with `next` as its next place.
pub open spec fn ring_holds(ring: Seq<u32>, next: int, ps: Seq<u32>, cap: int) -> bool {
    &&& next == ps.len() as int % cap
    &&& forall|i: int|
        0 <= i < ps.len() && i >= ps.len() - cap ==> ring[i % cap] == #[trigger] ps[i]
}

/// A fresh ring holds no parents, and recording one keeps the ring in step:
/// the last parents, as many as the history has places, are remembered.
pub proof fn law_ring_remembers_recent(ring: Seq<u32>, next: int, ps: Seq<u32>, p: u32, cap: int)
    requires
        0 < cap <= ring.len(),
        ring_holds(ring, next, ps, cap),
    ensures
        ring_holds(ring, 0, Seq::empty(), cap),
        ring_holds(ring.update(next, p), (next + 1) % cap, ps.push(p), cap),
        ring.update(next, p).contains(p),
{
    let n = ps.len() as int;
    vstd::arithmetic::div_mod::lemma_small_mod(0, cap as nat);
    let after = ring.update(next, p);
    let all = ps.push(p);
    assert(0 <= n % cap < cap) by (nonlinear_arith)
        requires
            cap > 0,
    ;
    assert((n % cap + 1) % cap == (n + 1) % cap) by {
        vstd::arithmetic::div_mod::lemma_add_mod_noop(n, 1, cap);
        vstd::arithmetic::div_mod::lemma_mod_twice(n, cap);
        vstd::arithmetic::div_mod::lemma_add_mod_noop(n % cap, 1, cap);
    }
    assert forall|i: int| 0 <= i < all.len() && i >= all.len() - cap implies after[i % cap]
        == #[trigger] all[i] by {
        assert(0 <= i % cap < cap) by (nonlinear_arith)
            requires
                cap > 0,
        ;
        if i < n {
            assert(all[i] == ps[i]);
            assert(i % cap != n % cap) by (nonlinear_arith)
                requires
                    cap > 0,
                    i < n,
                    i >= n + 1 - cap,
            ;
        }
    }
    assert(after[next] == p);
}

// ---------------------------------------------------------------------
// The clock
// ---------------------------------------------------------------------

/// A reading of the clock: the seconds since the epoch and the nanoseconds
/// beyond them, or nothing where the clock stands before it.
pub type Reading = Option<(u64, u32)>;

/// `std::time::SystemTime::now`, as the time since the epoch. Of the reading
/// itself nothing is promised; the nanoseconds make no whole second.
#[verifier::external_body]
fn clock() -> (r: Reading)
    ensures
        r matches Some((secs, nanos)) ==> nanos < 1_000_000_000,
{
    match std::time::SystemTime::now().duration_since(std::time::UNIX_EPOCH) {
        Ok(d) => Some((d.as_secs(), d.subsec_nanos())),
        Err(_) => None,
    }
}

/// The time of a reading in seconds; the epoch where there is none.
pub open spec fn seconds_of(reading: Reading) -> i64 {
    match reading {
        Some((secs, nanos)) => secs as i64,
        None => 0,
    }
}

/// The time of a reading in microseconds; the epoch where there is none.
pub open spec fn micros_of(reading: Reading) -> i64 {
    match reading {
        Some((secs, nanos)) => ((secs * 1_000_000 + nanos / 1000) as u128) as i64,
        None => 0,
    }
}

pub fn seconds_from(reading: Reading) -> (r: i64)
    ensures
        r == seconds_of(reading),
{
    match reading {
        Some((secs, nanos)) => secs as i64,
        None => 0,
    }
}

pub fn micros_from(reading: Reading) -> (r: i64)
    ensures
        r == micros_of(reading),
{
    match reading {
        Some((secs, nanos)) => {
            let us: u128 = secs as u128 * 1_000_000 + (nanos / 1000) as u128;
            us as i64
        },
        None => 0,
    }
}

/// The time in seconds.
pub fn unix_time() -> (r: i64)
    ensures
        exists|reading: Reading| r == seconds_of(reading),
{
    seconds_from(clock())
}

/// The time in microseconds.
pub fn unix_time_us() -> (r: i64)
    ensures
        exists|reading: Reading|
            (reading matches Some((secs, nanos)) ==> nanos < 1_000_000_000) && r == micros_of(
                reading,
            ),
{
    micros_from(clock())
}

} // verus!
