//! Giving a client to a worker: one that is there, or a new one.

use crate::args::Threads;
use crate::clients;
use crate::clients::ActiveClientInfo;
use crate::conductor;
use crate::conductor::Conductor;
use crate::env_cache;
use crate::env_cache::EnvVar;
use crate::pools;
use crate::protocol::PORT_POOL_NONE;
use crate::request;
use crate::request::{ClientRequest, SandboxMode};
use crate::selection;
use crate::selection::select_existing_worker;
use crate::text;
use crate::text::{owned, same};
use crate::worker;
use crate::worker::{ClientInfo, Worker};
use vstd::prelude::*;

verus! {

// ---------------------------------------------------------------------
// A worker that is there
// ---------------------------------------------------------------------

/// A worker that a client gets, and the session that it gives up for that.
pub struct Chosen {
    pub id: u32,
    pub dropped: Option<String>,
}

/// The session that a worker gives up for a client with `--session` as given:
/// its own, where the client does not name it.
pub open spec fn given_up(own: Option<Seq<char>>, session: Option<Seq<char>>) -> Option<
    Seq<char>,
> {
    if own is Some && own != session {
        own
    } else {
        None
    }
}

impl Conductor {
    /// The workers of the pool with `key`.
    pub open spec fn pool(&self, key: Seq<char>) -> Seq<Worker> {
        pools::workers_of(self.pools@, key)
    }

    /// This is `other` after `r` was chosen for the client of `q` from the
    /// pool with `key`. A worker whose session was given up still holds it; it
    /// drops it for another client.
    pub open spec fn has_selected(
        &self,
        other: &Conductor,
        key: Seq<char>,
        q: &ClientRequest,
        mode: SandboxMode,
        now: i64,
        r: Option<Chosen>,
    ) -> bool {
        &&& selection::is_selected(
            other.pool(key),
            q.label(),
            q.has("-i"@),
            q.ppid,
            mode,
            other.limit(),
            now,
            match r {
                Some(c) => Some(
                    selection::first_where(other.pool(key), |w: Worker| w.id == c.id),
                ),
                None => None,
            },
        )
        &&& match r {
            Some(c) => {
                let w = other.worker(c.id);
                &&& other.knows(c.id)
                &&& other.pool(key).contains(w)
                &&& w.id == c.id
                &&& text::opt_view(c.dropped) == given_up(
                    text::opt_view(w.session_label),
                    q.value("--session"@),
                )
                &&& if c.dropped is Some {
                    self.has_instead(other, Worker { session_label: None, ..w })
                } else {
                    *self == *other
                }
            },
            None => *self == *other,
        }
    }

    /// Chooses a worker of the pool with `key` for a client. A worker whose
    /// session was given up still holds it; it drops it for another client.
    pub fn select_worker(&mut self, key: &str, q: &ClientRequest, mode: SandboxMode, now: i64) -> (r:
        Option<Chosen>)
        requires
            old(self).wf(),
            selection::ages_fit(old(self).pool(key@), now),
        ensures
            final(self).wf(),
            final(self).has_selected(old(self), key@, q, mode, now, r),
    {
        let limits = self.limits();
        let p: usize = match self.pools.position(key) {
            Some(p) => p,
            None => {
                proof {
                    let none = Seq::<Worker>::empty();
                    let l = q.label();
                    selection::lemma_first_where(
                        none,
                        |w: Worker| l is Some && w.serves(l->0),
                    );
                    selection::lemma_first_where(
                        none,
                        |w: Worker|
                            w.available(self.limit(), q.has("-i"@), now)
                                && w.recent_ppids@.contains(q.ppid),
                    );
                }
                return None;
            },
        };
        let ws = self.pools.workers(p);
        let interactive = q.parsed.has_switch("-i");
        match select_existing_worker(
            ws,
            q.session_label(),
            interactive,
            q.ppid,
            mode,
            limits,
            now,
        ) {
            None => None,
            Some(i) => {
                let id: u32 = ws[i].id;
                let ghost w = ws@[i as int];
                let ghost before = *self;
                proof {
                    pools::lemma_worker_in(self.pools@, p as int, i as int);
                    let same_id = |v: Worker| v.id == id;
                    assert forall|j: int| 0 <= j < i implies !same_id(#[trigger] ws@[j]) by {
                        assert(pools::in_range(self.pools@, p as int, j));
                        assert(self.pools@[p as int].workers[j].id
                            != self.pools@[p as int].workers[i as int].id);
                    }
                    selection::lemma_first_where_is(ws@, same_id, i as int);
                    assert(ws@.contains(w));
                    assert(!self.reserve_is(id));
                }
                let dropped: Option<String> = match &ws[i].session_label {
                    Some(own) => {
                        let kept: bool = match q.parsed.get_switch("--session") {
                            Some(s) => same(s, own.as_str()),
                            None => false,
                        };
                        if kept {
                            None
                        } else {
                            Some(owned(own.as_str()))
                        }
                    },
                    None => None,
                };
                if dropped.is_some() {
                    if let Some(w) = self.get_worker_mut(id) {
                        w.session_label = None;
                    }
                }
                Some(Chosen { id, dropped })
            },
        }
    }
}

// ---------------------------------------------------------------------
// A new worker
// ---------------------------------------------------------------------

/// How a pool gets a new worker.
#[derive(Clone, Copy, Debug, PartialEq, Eq, Structural)]
pub enum SpawnPlan {
    /// The reserve has moved into the pool.
    Reserve(u32),
    /// A worker with this number is to be started.
    Plain(u32),
    /// A confined worker with this number is to be started.
    Sandboxed(u32),
}

impl Conductor {
    /// The reserve can stand in: it is not interactive, and has the channel
    /// and the thread counts that are asked for.
    pub open spec fn reserve_fits(
        &self,
        channel: Option<Seq<char>>,
        interactive: bool,
        threads: Seq<u16>,
    ) -> bool {
        &&& !interactive
        &&& self.reserve matches Some(r) && text::opt_view(r.julia_channel) == channel
            && r.threads@ == threads
    }

    fn can_use_reserve(&self, channel: Option<&str>, interactive: bool, threads: Threads) -> (r:
        bool)
        ensures
            r == self.reserve_fits(text::opt_str(channel), interactive, threads@),
    {
        match &self.reserve {
            Some(r) => {
                let same_channel: bool = match (&r.julia_channel, channel) {
                    (Some(a), Some(b)) => same(a.as_str(), b),
                    (None, None) => true,
                    _ => false,
                };
                let same_threads: bool = r.threads[0] == threads[0] && r.threads[1] == threads[1];
                proof {
                    if same_threads {
                        assert(r.threads@ =~= threads@);
                    }
                }
                !interactive && same_channel && same_threads
            },
            None => false,
        }
    }

    /// This is `other` after `r` was decided for the pool with `key`.
    pub open spec fn has_planned(
        &self,
        other: &Conductor,
        key: Seq<char>,
        channel: Option<Seq<char>>,
        interactive: bool,
        threads: Seq<u16>,
        mode: SandboxMode,
        r: SpawnPlan,
    ) -> bool {
        match r {
            SpawnPlan::Reserve(id) => {
                &&& mode == SandboxMode::Off
                &&& other.reserve_fits(channel, interactive, threads)
                &&& id == other.reserve->0.id
                &&& *self == (Conductor { pools: self.pools, reserve: None, ..*other })
                &&& self.pools@ == pools::added(other.pools@, key, other.reserve->0)
            },
            SpawnPlan::Plain(id) => {
                &&& mode == SandboxMode::Off
                &&& !other.reserve_fits(channel, interactive, threads)
                &&& id == other.next_worker_id
                &&& *self == (Conductor { next_worker_id: (id + 1) as u32, ..*other })
                &&& !self.knows(id)
            },
            SpawnPlan::Sandboxed(id) => {
                &&& mode != SandboxMode::Off
                &&& id == other.next_worker_id
                &&& *self == (Conductor { next_worker_id: (id + 1) as u32, ..*other })
                &&& !self.knows(id)
            },
        }
    }

    /// Decides how the pool with `key` gets a worker. The reserve stands in
    /// where it can; otherwise a number is given out for a worker to start.
    pub fn plan_spawn(
        &mut self,
        key: &str,
        channel: Option<&str>,
        interactive: bool,
        threads: Threads,
        mode: SandboxMode,
    ) -> (r: SpawnPlan)
        requires
            old(self).wf(),
            old(self).next_worker_id < u32::MAX || (mode == SandboxMode::Off && old(
                self).reserve_fits(text::opt_str(channel), interactive, threads@)),
        ensures
            final(self).wf(),
            final(self).has_planned(
                old(self),
                key@,
                text::opt_str(channel),
                interactive,
                threads@,
                mode,
                r,
            ),
    {
        if mode == SandboxMode::Off && self.can_use_reserve(channel, interactive, threads) {
            let ghost before = *self;
            if let Some(w) = self.reserve.take() {
                let id: u32 = w.id;
                self.pools.add_worker(key, w);
                proof {
                    lemma_added_numbers(before.pools@, key@, w);
                    assert forall|p: int, i: int|
                        pools::in_range(
                            self.pools@,
                            p,
                            i,
                        ) implies #[trigger] self.pools@[p].workers[i].id
                        < self.next_worker_id by {
                        assert(pools::has_worker(self.pools@, self.pools@[p].workers[i].id));
                        lemma_number_below(before, self.pools@[p].workers[i].id);
                    }
                }
                return SpawnPlan::Reserve(id);
            }
        }
        let id: u32 = self.next_worker_id;
        proof {
            if self.knows(id) {
                lemma_number_below(*self, id);
            }
        }
        self.next_worker_id = id + 1;
        if mode == SandboxMode::Off {
            SpawnPlan::Plain(id)
        } else {
            SpawnPlan::Sandboxed(id)
        }
    }

    /// Whether one more worker can be numbered.
    pub fn can_number_worker(&self) -> (r: bool)
        ensures
            r == (self.next_worker_id < u32::MAX),
    {
        self.next_worker_id < u32::MAX
    }

    /// Whether `id` is a number that was given out and belongs to no worker.
    pub fn is_unused_number(&self, id: u32) -> (r: bool)
        requires
            self.wf(),
        ensures
            r == (id < self.next_worker_id && !self.knows(id)),
    {
        id < self.next_worker_id && self.get_worker(id).is_none()
    }

    /// This is `other` with `w` as one more worker of the pool with `key`.
    pub open spec fn has_added(&self, other: &Conductor, key: Seq<char>, w: Worker) -> bool {
        &&& *self == (Conductor { pools: self.pools, ..*other })
        &&& self.pools@ == pools::added(other.pools@, key, w)
    }

    /// Puts a worker that was started into the pool with `key`.
    pub fn add_worker_to_pool(&mut self, key: &str, w: Worker)
        requires
            old(self).wf(),
            w.wf(),
            w.id < old(self).next_worker_id,
            !old(self).knows(w.id),
        ensures
            final(self).wf(),
            final(self).has_added(old(self), key@, w),
    {
        let ghost before = *self;
        self.pools.add_worker(key, w);
        proof {
            lemma_added_numbers(before.pools@, key@, w);
            assert forall|p: int, i: int|
                pools::in_range(self.pools@, p, i) implies #[trigger] self.pools@[p].workers[i].id
                < self.next_worker_id by {
                assert(pools::has_worker(self.pools@, self.pools@[p].workers[i].id));
                if self.pools@[p].workers[i].id != w.id {
                    lemma_number_below(before, self.pools@[p].workers[i].id);
                }
            }
        }
    }

    /// Gives out a number for a new reserve.
    pub fn number_reserve(&mut self) -> (r: u32)
        requires
            old(self).wf(),
            old(self).next_worker_id < u32::MAX,
        ensures
            final(self).wf(),
            r == old(self).next_worker_id,
            *final(self) == (Conductor { next_worker_id: (r + 1) as u32, ..*old(self) }),
            !final(self).knows(r),
    {
        let id: u32 = self.next_worker_id;
        proof {
            if self.knows(id) {
                lemma_number_below(*self, id);
            }
        }
        self.next_worker_id = id + 1;
        id
    }

    /// Keeps a worker that was started as the reserve.
    pub fn set_reserve(&mut self, w: Worker)
        requires
            old(self).wf(),
            w.wf(),
            w.id < old(self).next_worker_id,
            !old(self).knows(w.id),
            w.session_label is None,
        ensures
            final(self).wf(),
            *final(self) == (Conductor { reserve: Some(w), ..*old(self) }),
    {
        self.reserve = Some(w);
    }

    /// What a worker confined in `mode` can read and write besides the rest:
    /// its own project, and the client's where it is confined by its own wish.
    pub fn sandbox_binds(&self, mode: SandboxMode, project: &str) -> (r: (Vec<String>, Vec<String>))
        ensures
            text::views(r.0@) == seq![self.config.worker_project@],
            text::views(r.1@) == if mode == SandboxMode::Local {
                seq![project@]
            } else {
                Seq::<Seq<char>>::empty()
            },
    {
        let mut ro: Vec<String> = Vec::new();
        ro.push(owned(self.config.worker_project.as_str()));
        let mut rw: Vec<String> = Vec::new();
        if mode == SandboxMode::Local {
            rw.push(owned(project));
        }
        assert(text::views(ro@) =~= seq![self.config.worker_project@]);
        assert(text::views(rw@) =~= if mode == SandboxMode::Local {
            seq![project@]
        } else {
            Seq::<Seq<char>>::empty()
        });
        (ro, rw)
    }
}

/// The numbers in pools that got one more worker.
pub proof fn lemma_added_numbers(s: Seq<pools::PoolView>, key: Seq<char>, w: Worker)
    ensures
        forall|id: u32|
            pools::has_worker(pools::added(s, key, w), id) <==> id == w.id || pools::has_worker(
                s,
                id,
            ),
{
    pools::lemma_place_of(s, key);
    let t = pools::added(s, key, w);
    let p = pools::place_of(s, key);
    let n = if pools::has_pool(s, key) {
        s[p].workers.len() as int
    } else {
        0
    };
    assert(pools::in_range(t, p, n) && t[p].workers[n] == w);
    assert forall|id: u32| pools::has_worker(t, id) == (id == w.id || pools::has_worker(s, id)) by {
        if pools::has_worker(s, id) {
            let (q, j) = choose|q: int, j: int|
                pools::in_range(s, q, j) && #[trigger] s[q].workers[j].id == id;
            assert(pools::in_range(t, q, j) && t[q].workers[j].id == id);
        }
        if id == w.id {
            assert(t[p].workers[n].id == id);
        }
        if pools::has_worker(t, id) {
            let (q, j) = choose|q: int, j: int|
                pools::in_range(t, q, j) && #[trigger] t[q].workers[j].id == id;
            if !(q == p && j == n) {
                assert(pools::in_range(s, q, j) && s[q].workers[j].id == id);
            }
        }
    }
}

/// A number that a worker has was given out.
pub proof fn lemma_number_below(c: Conductor, id: u32)
    requires
        c.wf(),
        c.knows(id),
    ensures
        id < c.next_worker_id,
{
    if !c.reserve_is(id) {
        let (p, i) = choose|p: int, i: int|
            pools::in_range(c.pools@, p, i) && #[trigger] c.pools@[p].workers[i].id == id;
        assert(c.pools@[p].workers[i].id < c.next_worker_id);
    }
}

// ---------------------------------------------------------------------
// The client and its worker
// ---------------------------------------------------------------------

/// The worker `w` after it was chosen for a client: it takes the session that
/// the client names, where it has none, and remembers the client's parent.
pub open spec fn chosen_for(
    w: Worker,
    after: Worker,
    label: Option<Seq<char>>,
    ppid: u32,
    max_history: u32,
    now: i64,
) -> bool {
    &&& after == (Worker {
        session_label: after.session_label,
        last_pinged: now,
        recent_ppids: after.recent_ppids,
        recent_ppids_next: after.recent_ppids_next,
        ..w
    })
    &&& if label is Some && w.session_label is None {
        text::opt_view(after.session_label) == label
    } else {
        after.session_label == w.session_label
    }
    &&& after.recent_ppids@ == w.recent_ppids@.update(w.recent_ppids_next as int, ppid)
    &&& after.recent_ppids_next == (w.recent_ppids_next + 1) % worker::history_len(max_history)
}

impl Conductor {
    /// This is `other` after it was noted that the worker `id` gets a client.
    pub open spec fn has_noted(
        &self,
        other: &Conductor,
        id: u32,
        label: Option<Seq<char>>,
        ppid: u32,
        now: i64,
        r: Option<bool>,
    ) -> bool {
        match r {
            Some(was_idle) => {
                &&& other.knows(id)
                &&& was_idle == (other.worker(id).active_clients == 0)
                &&& exists|after: Worker|
                    chosen_for(
                        other.worker(id),
                        after,
                        label,
                        ppid,
                        other.config.worker_maxclients,
                        now,
                    ) && #[trigger] self.has_instead(other, after)
            },
            None => !other.knows(id) && *self == *other,
        }
    }

    /// Notes that the worker `id` gets a client. `label` is the session that
    /// the worker takes, where it is to take one; the reserve takes none. Returns whether the worker
    /// had no client, or nothing where there is no such worker.
    pub fn note_chosen(&mut self, id: u32, label: Option<&str>, ppid: u32, now: i64) -> (r: Option<
        bool,
    >)
        requires
            old(self).wf(),
            label matches Some(l) ==> l@.len() > 0 && !old(self).reserve_is(id),
        ensures
            final(self).wf(),
            final(self).has_noted(old(self), id, text::opt_str(label), ppid, now, r),
    {
        let max: u32 = self.config.worker_maxclients;
        match self.get_worker_mut(id) {
            Some(w) => {
                if let Some(l) = label {
                    if w.session_label.is_none() {
                        w.session_label = Some(owned(l));
                    }
                }
                w.last_pinged = now;
                w.record_ppid(ppid, max);
                Some(w.active_clients == 0)
            },
            None => None,
        }
    }

    /// Takes the number of clients that the worker `id` reports.
    pub fn set_active_clients(&mut self, id: u32, active: u32)
        requires
            old(self).wf(),
        ensures
            final(self).wf(),
            if old(self).knows(id) {
                final(self).has_instead(
                    old(self),
                    Worker { active_clients: active, ..old(self).worker(id) },
                )
            } else {
                *final(self) == *old(self)
            },
    {
        if let Some(w) = self.get_worker_mut(id) {
            w.active_clients = active;
        }
    }

    /// Notes that the worker `id` works in `project`.
    pub fn set_project(&mut self, id: u32, project: String)
        requires
            old(self).wf(),
        ensures
            final(self).wf(),
            if old(self).knows(id) {
                final(self).has_instead(
                    old(self),
                    Worker { project: Some(project), ..old(self).worker(id) },
                )
            } else {
                *final(self) == *old(self)
            },
    {
        if let Some(w) = self.get_worker_mut(id) {
            w.project = Some(project);
        }
    }

    /// Notes when the worker `id` answered a ping.
    pub fn set_last_pinged(&mut self, id: u32, now: i64)
        requires
            old(self).wf(),
        ensures
            final(self).wf(),
            if old(self).knows(id) {
                final(self).has_instead(
                    old(self),
                    Worker { last_pinged: now, ..old(self).worker(id) },
                )
            } else {
                *final(self) == *old(self)
            },
    {
        if let Some(w) = self.get_worker_mut(id) {
            w.last_pinged = now;
        }
    }

    /// Enters a client that the worker `worker_id` has taken. Returns whether
    /// the worker has just become busy: further clients make it no busier.
    pub fn register_client(
        &mut self,
        pid: u32,
        client_num: u32,
        worker_id: u32,
        port_set: u16,
        now_us: i64,
        was_idle: bool,
    ) -> (r: bool)
        requires
            old(self).wf(),
        ensures
            final(self).wf(),
            *final(self) == (Conductor {
                active_clients: final(self).active_clients,
                ..*old(self)
            }),
            final(self).active_clients@ == old(self).active_clients@.insert(
                pid,
                ActiveClientInfo { worker_id, client_num, start_time_us: now_us, port_set },
            ),
            r == (was_idle && old(self).knows(worker_id) && old(self).worker(
                worker_id,
            ).active_clients > 0),
            (old(self).ports_sound() && (port_set == PORT_POOL_NONE || (clients::nobody_has(
                old(self).active_clients@,
                port_set,
            ) && (port_set < conductor::free_sets(old(self).port_pool).len()
                ==> !conductor::free_sets(old(self).port_pool)[port_set as int]))))
                ==> final(self).ports_sound(),
    {
        let info = ActiveClientInfo { worker_id, client_num, start_time_us: now_us, port_set };
        proof {
            if clients::ports_exclusive(self.active_clients@) && (port_set == PORT_POOL_NONE
                || clients::nobody_has(self.active_clients@, port_set)) {
                clients::law_ports_stay_exclusive(self.active_clients@, pid, info);
            }
        }
        self.active_clients.insert(pid, info);
        was_idle && match self.get_worker(worker_id) {
            Some(w) => w.active_clients > 0,
            None => false,
        }
    }
}

/// The client of a request, as its worker learns of it. A client from outside
/// that is confined has a directory of its own, and `confined` for its
/// environment, which does not tell who it is.
pub fn client_info<'a>(
    q: &'a ClientRequest,
    mode: SandboxMode,
    confined: &'a [EnvVar],
    port_set: u16,
) -> (r: ClientInfo<'a>)
    requires
        mode == SandboxMode::Remote ==> env_cache::var_views(confined@) == request::sandbox_env(
            env_cache::var_views(q.env@),
        ),
    ensures
        r.tty == (q.flags % 2 == 1),
        r.force == q.label() is Some,
        r.pid == q.pid,
        r.ppid == q.ppid,
        r.cwd@ == if mode == SandboxMode::Remote {
            "/home/sandbox"@
        } else {
            q.cwd@
        },
        r.env@ == if mode == SandboxMode::Remote {
            confined@
        } else {
            q.env@
        },
        env_cache::var_views(r.env@) == if mode == SandboxMode::Remote {
            request::sandbox_env(env_cache::var_views(q.env@))
        } else {
            env_cache::var_views(q.env@)
        },
        r.switches@ == q.parsed.switches@,
        text::opt_str(r.program_file) == text::opt_view(q.parsed.program_file),
        r.program_args@ == q.parsed.program_args@,
        r.port_set == port_set,
{
    ClientInfo {
        tty: crate::protocol::client::Flags(q.flags).is_tty(),
        force: q.session_label().is_some(),
        pid: q.pid,
        ppid: q.ppid,
        cwd: if mode == SandboxMode::Remote {
            "/home/sandbox"
        } else {
            q.cwd.as_str()
        },
        env: if mode == SandboxMode::Remote {
            confined
        } else {
            q.env.as_slice()
        },
        switches: q.parsed.switches.as_slice(),
        program_file: match &q.parsed.program_file {
            Some(p) => Some(p.as_str()),
            None => None,
        },
        program_args: q.parsed.program_args.as_slice(),
        port_set,
    }
}

/// The client of a request from outside that joins a session: it starts in
/// the home directory of the host.
pub fn joining_client_info<'a>(q: &'a ClientRequest, host_home: &'a str, port_set: u16) -> (r:
    ClientInfo<'a>)
    ensures
        r.tty == (q.flags % 2 == 1),
        r.force == q.label() is Some,
        r.pid == q.pid,
        r.ppid == q.ppid,
        r.cwd@ == if host_home@.len() > 0 {
            host_home@
        } else {
            "/"@
        },
        r.env@ == q.env@,
        r.switches@ == q.parsed.switches@,
        text::opt_str(r.program_file) == text::opt_view(q.parsed.program_file),
        r.program_args@ == q.parsed.program_args@,
        r.port_set == port_set,
{
    ClientInfo {
        tty: crate::protocol::client::Flags(q.flags).is_tty(),
        force: q.session_label().is_some(),
        pid: q.pid,
        ppid: q.ppid,
        cwd: if host_home.unicode_len() > 0 {
            host_home
        } else {
            "/"
        },
        env: q.env.as_slice(),
        switches: q.parsed.switches.as_slice(),
        program_file: match &q.parsed.program_file {
            Some(p) => Some(p.as_str()),
            None => None,
        },
        program_args: q.parsed.program_args.as_slice(),
        port_set,
    }
}

} // verus!
