//! A client on its way to a worker, between the steps that the system takes
//! for it: starting a worker, and asking it.

use crate::assignment;
use crate::assignment::{Chosen, SpawnPlan};
use crate::client_run;
use crate::client_run::decode_sockets;
use crate::clients;
use crate::clients::ActiveClientInfo;
use crate::conductor;
use crate::conductor::Conductor;
use crate::pools;
use crate::protocol::worker::MessageType;
use crate::protocol::{TransportMode, PORT_POOL_NONE};
use crate::request::{ClientRequest, SandboxMode};
use crate::selection;
use crate::streams;
use crate::streams::encode_socket_paths;
use crate::text;
use crate::wire;
use crate::worker::Worker;
use vstd::prelude::*;

verus! {

// ---------------------------------------------------------------------
// The first step
// ---------------------------------------------------------------------

/// What comes next for a client. The number is that of the ports taken for it.
pub enum Start {
    /// It is sent away: all ports are taken.
    NoPorts,
    /// A worker that is there takes it, and drops the session that it held.
    Existing(u16, Chosen),
    /// A worker has to be started for it.
    NeedsWorker(u16),
}

impl Conductor {
    /// This is `other` after the first step for the client of `q`: ports were
    /// taken for it, and then a worker chosen.
    pub open spec fn has_begun(
        &self,
        other: &Conductor,
        key: Seq<char>,
        q: &ClientRequest,
        mode: SandboxMode,
        now: i64,
        r: Start,
    ) -> bool {
        match r {
            Start::NoPorts => self.has_allocated(other, None),
            Start::Existing(set, chosen) => exists|mid: Conductor|
                mid.has_allocated(other, Some(set)) && #[trigger] self.has_selected(
                    &mid,
                    key,
                    q,
                    mode,
                    now,
                    Some(chosen),
                ),
            Start::NeedsWorker(set) => exists|mid: Conductor|
                mid.has_allocated(other, Some(set)) && #[trigger] self.has_selected(
                    &mid,
                    key,
                    q,
                    mode,
                    now,
                    None,
                ),
        }
    }

    /// Takes ports for a client and looks for a worker in the pool with `key`.
    pub fn begin_assignment(
        &mut self,
        key: &str,
        q: &ClientRequest,
        mode: SandboxMode,
        now: i64,
    ) -> (r: Start)
        requires
            old(self).wf(),
            selection::ages_fit(old(self).pool(key@), now),
        ensures
            final(self).wf(),
            final(self).has_begun(old(self), key@, q, mode, now, r),
            old(self).ports_sound() ==> final(self).ports_sound() && (match r {
                Start::NoPorts => true,
                Start::Existing(set, chosen) => final(self).keeps_for_one(set),
                Start::NeedsWorker(set) => final(self).keeps_for_one(set),
            }),
    {
        let port_set: u16 = match self.allocate_port_set() {
            Some(set) => set,
            None => {
                return Start::NoPorts;
            },
        };
        let ghost mid = *self;
        assert(mid.has_allocated(old(self), Some(port_set)));
        match self.select_worker(key, q, mode, now) {
            Some(chosen) => {
                assert(self.has_selected(&mid, key@, q, mode, now, Some(chosen)));
                Start::Existing(port_set, chosen)
            },
            None => {
                assert(self.has_selected(&mid, key@, q, mode, now, None));
                Start::NeedsWorker(port_set)
            },
        }
    }

    /// The ports `set` are taken, and no client has them yet.
    pub open spec fn keeps_for_one(&self, set: u16) -> bool {
        set != PORT_POOL_NONE ==> {
            &&& clients::nobody_has(self.active_clients@, set)
            &&& set < conductor::free_sets(self.port_pool).len() ==> !conductor::free_sets(
                self.port_pool,
            )[set as int]
        }
    }
}

// ---------------------------------------------------------------------
// What the worker answers
// ---------------------------------------------------------------------

/// What a worker's answer to a client is, by the kind of message.
#[derive(Clone, Copy, Debug, PartialEq, Eq, Structural)]
pub enum AnswerKind {
    /// The client's streams follow.
    Streams,
    /// An error follows.
    Error,
    /// It makes no sense.
    Unexpected,
}

pub fn answer_kind(kind: MessageType) -> (r: AnswerKind)
    ensures
        r == match kind {
            MessageType::Sockets => AnswerKind::Streams,
            MessageType::Error => AnswerKind::Error,
            _ => AnswerKind::Unexpected,
        },
{
    match kind {
        MessageType::Sockets => AnswerKind::Streams,
        MessageType::Error => AnswerKind::Error,
        _ => AnswerKind::Unexpected,
    }
}

/// Whether an error of `len` bytes is read: one that is neither empty nor out
/// of proportion.
pub fn reads_error(len: u16) -> (r: bool)
    ensures
        r == (0 < len < 4096),
{
    len > 0 && len < 4096
}

/// What became of a client that was handed to a worker.
pub enum Finish {
    /// The answer ends before all that it announces.
    Short,
    /// The worker has no room for it.
    Busy,
    /// The worker has taken it. The client is sent these bytes; the flag says
    /// whether the worker has just become busy.
    Taken(Vec<u8>, bool),
}

impl Conductor {
    /// The number of clients of the worker `id` is `active`, and nothing else
    /// is different from `other`.
    pub open spec fn has_active(&self, other: &Conductor, id: u32, active: u32) -> bool {
        if other.knows(id) {
            self.has_instead(other, Worker { active_clients: active, ..other.worker(id) })
        } else {
            *self == *other
        }
    }

    /// This is `other` after the worker `id` answered `payload` to the client
    /// of the process `pid`.
    pub open spec fn has_finished(
        &self,
        other: &Conductor,
        id: u32,
        pid: u32,
        info: ActiveClientInfo,
        was_idle: bool,
        payload: Seq<u8>,
        r: Finish,
    ) -> bool {
        match r {
            Finish::Short => !client_run::whole_reply(payload) && *self == *other,
            Finish::Busy => {
                &&& client_run::whole_reply(payload)
                &&& client_run::first_path_len(payload) == 0
                &&& self.has_active(other, id, client_run::reply_active(payload) as u32)
            },
            Finish::Taken(bytes, busy) => {
                let active = client_run::reply_active(payload) as u32;
                &&& client_run::whole_reply(payload)
                &&& client_run::first_path_len(payload) > 0
                &&& exists|mid: Conductor|
                    #[trigger] mid.has_active(other, id, active) && *self == (Conductor {
                        active_clients: self.active_clients,
                        ..mid
                    })
                &&& self.active_clients@ == other.active_clients@.insert(pid, info)
                &&& bytes@ == streams::paths_bytes(
                    Seq::new(
                        4,
                        |i: int|
                            streams::offered(
                                other.config.transport,
                                client_run::reply_paths(payload)[i],
                            ),
                    ),
                )
                &&& busy == (was_idle && other.knows(id) && active > 0)
            },
        }
    }

    /// Takes a worker's answer to a client: the client is entered, and told
    /// where its streams are.
    pub fn finish_assignment(
        &mut self,
        id: u32,
        pid: u32,
        client_num: u32,
        port_set: u16,
        was_idle: bool,
        payload: &[u8],
        now_us: i64,
    ) -> (r: Finish)
        requires
            old(self).wf(),
        ensures
            final(self).wf(),
            final(self).has_finished(
                old(self),
                id,
                pid,
                (ActiveClientInfo { worker_id: id, client_num, start_time_us: now_us, port_set }),
                was_idle,
                payload@,
                r,
            ),
            old(self).ports_sound() && old(self).keeps_for_one(port_set)
                ==> final(self).ports_sound(),
    {
        let reply = match decode_sockets(payload) {
            Some(reply) => reply,
            None => {
                return Finish::Short;
            },
        };
        self.set_active_clients(id, reply.active);
        let ghost mid = *self;
        assert(mid.has_active(old(self), id, reply.active));
        match reply.paths {
            None => Finish::Busy,
            Some(paths) => {
                let transport: TransportMode = self.config.transport;
                let busy = self.register_client(
                    pid,
                    client_num,
                    id,
                    port_set,
                    now_us,
                    was_idle,
                );
                let bytes = encode_socket_paths(transport, &paths);
                proof {
                    if old(self).knows(id) {
                        lemma_still_known(
                            *old(self),
                            mid,
                            Worker { active_clients: reply.active, ..old(self).worker(id) },
                        );
                    }
                    assert(bytes@ == streams::paths_bytes(
                        Seq::new(
                            4,
                            |i: int|
                                streams::offered(
                                    transport,
                                    client_run::reply_paths(payload@)[i],
                                ),
                        ),
                    )) by {
                        assert(Seq::new(
                            4,
                            |i: int|
                                streams::offered(transport, client_run::path_texts(paths)[i]),
                        ) =~= Seq::new(
                            4,
                            |i: int|
                                streams::offered(
                                    transport,
                                    client_run::reply_paths(payload@)[i],
                                ),
                        ));
                    }
                }
                Finish::Taken(bytes, busy)
            },
        }
    }
}

/// A worker that was changed is still known, as it was changed.
pub proof fn lemma_still_known(before: Conductor, after: Conductor, w: Worker)
    requires
        before.wf(),
        after.wf(),
        before.knows(w.id),
        after.has_instead(&before, w),
    ensures
        after.knows(w.id),
        after.worker(w.id) == w,
{
    if !before.reserve_is(w.id) {
        let (p, i) = choose|p: int, i: int|
            pools::in_range(before.pools@, p, i)
                && #[trigger] before.pools@[p].workers[i].id == w.id;
        assert(pools::in_range(after.pools@, p, i));
        assert(after.pools@[p].workers[i] == w);
        pools::lemma_worker_in(after.pools@, p, i);
    }
}

/// A client that its worker has taken is entered with that worker, and no
/// other client has changed.
pub proof fn law_taken_client_is_entered(
    before: Conductor,
    after: Conductor,
    id: u32,
    pid: u32,
    info: ActiveClientInfo,
    was_idle: bool,
    payload: Seq<u8>,
    r: Finish,
)
    requires
        after.has_finished(&before, id, pid, info, was_idle, payload, r),
    ensures
        r is Taken ==> after.active_clients@.contains_key(pid) && after.active_clients@[pid]
            == info,
        forall|other: u32|
            other != pid ==> (after.active_clients@.contains_key(other)
                <==> before.active_clients@.contains_key(other)),
        !(r is Taken) ==> after.active_clients@ == before.active_clients@,
{
}

/// A worker of a pool is known as it is there.
proof fn lemma_pooled(c: Conductor, key: Seq<char>, w: Worker)
    requires
        c.wf(),
        c.pool(key).contains(w),
    ensures
        !c.reserve_is(w.id),
        c.knows(w.id),
        c.worker(w.id) == w,
{
    pools::lemma_place_of(c.pools@, key);
    let p = pools::place_of(c.pools@, key);
    let i = c.pool(key).index_of(w);
    assert(pools::in_range(c.pools@, p, i));
    assert(c.pools@[p].workers[i].id == w.id);
    pools::lemma_worker_in(c.pools@, p, i);
}

/// A worker of a pool that was changed is in that pool still, as it was
/// changed.
proof fn lemma_still_pooled(
    s: Seq<pools::PoolView>,
    key: Seq<char>,
    was: Worker,
    w: Worker,
)
    requires
        pools::workers_of(s, key).contains(was),
        was.id == w.id,
    ensures
        pools::workers_of(pools::with_worker(s, w), key).contains(w),
{
    let t = pools::with_worker(s, w);
    pools::lemma_place_of(s, key);
    let p = pools::place_of(s, key);
    let i = pools::workers_of(s, key).index_of(was);
    assert forall|q: int| 0 <= q < p implies (#[trigger] t[q]).key != key by {
        assert(s[q].key != key);
    }
    pools::lemma_place_is(t, key, p);
    assert(t[p].workers[i] == w);
}

/// The ports that were taken stay sound when a client gets them.
proof fn lemma_ports(before: Conductor, after: Conductor, set: u16, pid: u32, info: ActiveClientInfo)
    requires
        before.ports_sound(),
        set != PORT_POOL_NONE ==> before.port_pool is Some,
        info.port_set == set,
        set != PORT_POOL_NONE ==> set < conductor::free_sets(before.port_pool).len()
            && conductor::free_sets(before.port_pool)[set as int],
        conductor::free_sets(after.port_pool) == if set != PORT_POOL_NONE {
            conductor::free_sets(before.port_pool).update(set as int, false)
        } else {
            conductor::free_sets(before.port_pool)
        },
        after.active_clients@ == before.active_clients@.insert(pid, info),
    ensures
        after.ports_sound(),
{
    let m = before.active_clients@;
    if set != PORT_POOL_NONE {
        assert(clients::nobody_has(m, set));
    }
    clients::law_ports_stay_exclusive(m, pid, info);
    assert forall|other: u32| after.active_clients@.contains_key(other) implies ({
        let s = (#[trigger] after.active_clients@[other]).port_set;
        s != PORT_POOL_NONE && s < conductor::free_sets(after.port_pool).len()
            ==> !conductor::free_sets(after.port_pool)[s as int]
    }) by {
        if other != pid {
            assert(m.contains_key(other));
            assert(after.active_clients@[other] == m[other]);
        }
    }
}

/// A client that is handed to the worker `w` of the pool with `key`.
proof fn lemma_handed_over(
    ready: Conductor,
    noted: Conductor,
    done: Conductor,
    key: Seq<char>,
    w: Worker,
    q: &ClientRequest,
    now: i64,
    was_idle: bool,
    info: ActiveClientInfo,
    payload: Seq<u8>,
    bytes: Vec<u8>,
    busy: bool,
)
    requires
        ready.wf(),
        noted.wf(),
        done.wf(),
        ready.pool(key).contains(w),
        noted.has_noted(&ready, w.id, q.label(), q.ppid, now, Some(was_idle)),
        done.has_finished(
            &noted,
            w.id,
            q.pid,
            info,
            was_idle,
            payload,
            Finish::Taken(bytes, busy),
        ),
    ensures
        done.active_clients@ == ready.active_clients@.insert(q.pid, info),
        done.port_pool == ready.port_pool,
        done.knows(w.id),
        done.pool(key).contains(done.worker(w.id)),
        done.worker(w.id).active_clients == client_run::reply_active(payload),
        text::opt_view(done.worker(w.id).session_label) == if q.label() is Some
            && w.session_label is None {
            q.label()
        } else {
            text::opt_view(w.session_label)
        },
        busy == (w.active_clients == 0 && client_run::reply_active(payload) > 0),
{
    lemma_pooled(ready, key, w);
    let after = choose|after: Worker|
        assignment::chosen_for(
            ready.worker(w.id),
            after,
            q.label(),
            q.ppid,
            ready.config.worker_maxclients,
            now,
        ) && #[trigger] noted.has_instead(&ready, after);
    lemma_still_pooled(ready.pools@, key, w, after);
    lemma_pooled(noted, key, after);
    let active = client_run::reply_active(payload) as u32;
    wire::lemma_pow256();
    wire::law_of_le_round_trip(payload.subrange(0, 4));
    let told = choose|told: Conductor|
        #[trigger] told.has_active(&noted, w.id, active) && done == (Conductor {
            active_clients: done.active_clients,
            ..told
        });
    let last = Worker { active_clients: active, ..after };
    lemma_still_pooled(noted.pools@, key, after, last);
    lemma_pooled(done, key, last);
}

/// The client of `q` is entered as `info`, with ports of its own, and no other
/// client has changed since `start`. Its worker is in the pool with `key`, has
/// the client's session or none where the client names none, and counts its
/// clients as it answers in `payload`.
pub open spec fn is_served(
    start: Conductor,
    done: Conductor,
    key: Seq<char>,
    q: &ClientRequest,
    info: ActiveClientInfo,
    payload: Seq<u8>,
) -> bool {
    let id = info.worker_id;
    let set = info.port_set;
    &&& done.active_clients@ == start.active_clients@.insert(q.pid, info)
    &&& done.knows(id)
    &&& done.pool(key).contains(done.worker(id))
    &&& done.worker(id).active_clients == client_run::reply_active(payload)
    &&& text::opt_view(done.worker(id).session_label) == q.label()
    &&& conductor::same_pool(done.port_pool, start.port_pool)
    &&& start.port_pool is None ==> set == PORT_POOL_NONE
    &&& start.port_pool is Some ==> {
        &&& set < conductor::free_sets(start.port_pool).len()
        &&& conductor::free_sets(start.port_pool)[set as int]
        &&& conductor::free_sets(done.port_pool) == conductor::free_sets(start.port_pool).update(
            set as int,
            false,
        )
    }
    &&& start.ports_sound() ==> done.ports_sound()
}

/// A client that gets a worker which was there is served by it.
pub proof fn law_client_comes_to_its_worker(
    start: Conductor,
    begun: Conductor,
    noted: Conductor,
    done: Conductor,
    key: Seq<char>,
    q: &ClientRequest,
    mode: SandboxMode,
    now: i64,
    chosen: Chosen,
    was_idle: bool,
    info: ActiveClientInfo,
    payload: Seq<u8>,
    bytes: Vec<u8>,
    busy: bool,
)
    requires
        start.wf(),
        begun.wf(),
        noted.wf(),
        done.wf(),
        begun.has_begun(&start, key, q, mode, now, Start::Existing(info.port_set, chosen)),
        noted.has_noted(&begun, chosen.id, q.label(), q.ppid, now, Some(was_idle)),
        info.worker_id == chosen.id,
        done.has_finished(
            &noted,
            chosen.id,
            q.pid,
            info,
            was_idle,
            payload,
            Finish::Taken(bytes, busy),
        ),
    ensures
        is_served(start, done, key, q, info, payload),
        start.pool(key).contains(start.worker(chosen.id)),
        busy == (start.worker(chosen.id).active_clients == 0 && client_run::reply_active(payload)
            > 0),
{
    let id = chosen.id;
    let mid = choose|mid: Conductor|
        mid.has_allocated(&start, Some(info.port_set)) && #[trigger] begun.has_selected(
            &mid,
            key,
            q,
            mode,
            now,
            Some(chosen),
        );
    let w = mid.worker(id);
    assert(mid.pool(key) == start.pool(key));
    lemma_pooled(start, key, w);
    lemma_pool_is_sound(start, key, w);
    let taken = if chosen.dropped is Some {
        Worker { session_label: None, ..w }
    } else {
        w
    };
    if chosen.dropped is Some {
        lemma_still_pooled(mid.pools@, key, w, taken);
    }
    lemma_handed_over(
        begun,
        noted,
        done,
        key,
        taken,
        q,
        now,
        was_idle,
        info,
        payload,
        bytes,
        busy,
    );
    if start.ports_sound() {
        lemma_ports(start, done, info.port_set, q.pid, info);
    }
}

/// A worker of a pool is sound.
proof fn lemma_pool_is_sound(c: Conductor, key: Seq<char>, w: Worker)
    requires
        c.wf(),
        c.pool(key).contains(w),
    ensures
        w.wf(),
{
    pools::lemma_place_of(c.pools@, key);
    let p = pools::place_of(c.pools@, key);
    let i = c.pool(key).index_of(w);
    assert(pools::in_range(c.pools@, p, i));
    assert(c.pools@[p].workers[i].wf());
}

/// A worker that was added is in its pool.
proof fn lemma_added_is_pooled(s: Seq<pools::PoolView>, key: Seq<char>, w: Worker)
    ensures
        pools::workers_of(pools::added(s, key, w), key).contains(w),
{
    let t = pools::added(s, key, w);
    pools::lemma_place_of(s, key);
    let p = pools::place_of(s, key);
    assert forall|q: int| 0 <= q < p implies (#[trigger] t[q]).key != key by {
        assert(s[q].key != key);
    }
    pools::lemma_place_is(t, key, p);
    assert(t[p].workers.last() == w);
}

/// The number of the worker that is to come.
pub open spec fn planned_id(plan: SpawnPlan) -> u32 {
    match plan {
        SpawnPlan::Reserve(id) => id,
        SpawnPlan::Plain(id) => id,
        SpawnPlan::Sandboxed(id) => id,
    }
}

/// A client for which a worker has to come is served by that worker, which was
/// in no pool before: the reserve, or `fresh`, which was started for it. The
/// worker may have been told its project, and a new reserve started.
pub proof fn law_client_comes_to_a_new_worker(
    start: Conductor,
    begun: Conductor,
    planned: Conductor,
    staffed: Conductor,
    told: Conductor,
    ready: Conductor,
    noted: Conductor,
    done: Conductor,
    key: Seq<char>,
    q: &ClientRequest,
    channel: Option<Seq<char>>,
    interactive: bool,
    threads: Seq<u16>,
    mode: SandboxMode,
    now: i64,
    plan: SpawnPlan,
    fresh: Worker,
    project: Option<String>,
    was_idle: bool,
    info: ActiveClientInfo,
    payload: Seq<u8>,
    bytes: Vec<u8>,
    busy: bool,
)
    requires
        start.wf(),
        begun.wf(),
        planned.wf(),
        staffed.wf(),
        told.wf(),
        ready.wf(),
        noted.wf(),
        done.wf(),
        begun.has_begun(&start, key, q, mode, now, Start::NeedsWorker(info.port_set)),
        planned.has_planned(&begun, key, channel, interactive, threads, mode, plan),
        info.worker_id == planned_id(plan),
        if plan is Reserve {
            staffed == planned
        } else {
            fresh.id == planned_id(plan) && fresh.session_label is None && staffed.has_added(
                &planned,
                key,
                fresh,
            )
        },
        match project {
            Some(p) => told.has_instead(
                &staffed,
                Worker { project: Some(p), ..staffed.worker(info.worker_id) },
            ),
            None => told == staffed,
        },
        ready == (Conductor {
            reserve: ready.reserve,
            next_worker_id: ready.next_worker_id,
            ..told
        }),
        noted.has_noted(&ready, info.worker_id, q.label(), q.ppid, now, Some(was_idle)),
        done.has_finished(
            &noted,
            info.worker_id,
            q.pid,
            info,
            was_idle,
            payload,
            Finish::Taken(bytes, busy),
        ),
    ensures
        is_served(start, done, key, q, info, payload),
        !pools::has_worker(start.pools@, info.worker_id),
{
    let id = info.worker_id;
    let mid = choose|mid: Conductor|
        mid.has_allocated(&start, Some(info.port_set)) && #[trigger] begun.has_selected(
            &mid,
            key,
            q,
            mode,
            now,
            None,
        );
    let w = if plan is Reserve {
        begun.reserve->0
    } else {
        fresh
    };
    lemma_added_is_pooled(begun.pools@, key, w);
    assert(staffed.pool(key).contains(w));
    lemma_pooled(staffed, key, w);
    let named = match project {
        Some(p) => Worker { project: Some(p), ..w },
        None => w,
    };
    if project is Some {
        lemma_still_pooled(staffed.pools@, key, w, named);
    }
    assert(ready.pool(key) == told.pool(key));
    lemma_handed_over(
        ready,
        noted,
        done,
        key,
        named,
        q,
        now,
        was_idle,
        info,
        payload,
        bytes,
        busy,
    );
    if start.ports_sound() {
        lemma_ports(start, done, info.port_set, q.pid, info);
    }
}

} // verus!
