//! The status of the conductor, written out for programs.

use crate::clients::ActiveClients;
use crate::conductor::Conductor;
use crate::numeric;
use crate::numeric::{decimal_string, signed_string};
use crate::pools;
use crate::pools::PoolView;
use crate::pressure;
use crate::pressure::Source;
use crate::render;
use crate::render::{find_gauge, Gauge};
use crate::status;
use crate::status::{json_opt_str, json_str};
use crate::text;
use crate::text::{opt_as_str, owned};
use crate::worker::Worker;
use vstd::prelude::*;

verus! {

/// `items` with commas between them.
pub open spec fn comma_joined(items: Seq<Seq<char>>) -> Seq<char>
    decreases items.len(),
{
    if items.len() == 0 {
        Seq::empty()
    } else if items.len() == 1 {
        items[0]
    } else {
        comma_joined(items.drop_last()) + ","@ + items.last()
    }
}

pub open spec fn bool_text(b: bool) -> Seq<char> {
    if b {
        "true"@
    } else {
        "false"@
    }
}

pub open spec fn client_json(c: (u32, int)) -> Seq<char> {
    "{\"pid\":"@ + numeric::decimal(c.0 as nat) + ",\"attached_seconds\":"@ + numeric::signed(c.1)
        + "}"@
}

pub open spec fn clients_json(clients: Seq<(u32, int)>) -> Seq<Seq<char>> {
    clients.map_values(|c: (u32, int)| client_json(c))
}

pub open spec fn threads_json(threads: Seq<u16>) -> Seq<char> {
    "["@ + numeric::decimal(threads[0] as nat) + ","@ + numeric::decimal(threads[1] as nat) + "]"@
}

/// What is written of the worker `w` of the pool with `key`.
pub open spec fn worker_json(
    a: ActiveClients,
    key: Seq<char>,
    w: Worker,
    g: Gauge,
    now: int,
) -> Seq<char> {
    "{\"id\":"@ + numeric::decimal(w.id as nat) + ",\"pool_key\":"@ + status::json_text(key)
        + ",\"session_label\":"@ + status::json_opt_text(text::opt_view(w.session_label))
        + ",\"julia_channel\":"@ + status::json_opt_text(text::opt_view(w.julia_channel))
        + ",\"threads\":"@ + threads_json(w.threads@) + ",\"interactive\":"@ + bool_text(
        w.interactive,
    ) + ",\"sandboxed\":"@ + bool_text(w.sandboxed) + ",\"created_at\":"@ + numeric::signed(
        w.created_at as int,
    ) + ",\"last_active\":"@ + numeric::signed(w.last_active as int) + ",\"active_clients\":"@
        + numeric::decimal(w.active_clients as nat) + ",\"mem_bytes\":"@ + numeric::decimal(
        w.mem_bytes as nat,
    ) + ",\"cpu_pct\":"@ + g.cpu_fine@ + ",\"clients\":["@ + comma_joined(
        clients_json(render::attachments(a, w.id, now)),
    ) + "]}"@
}

/// What is written of the first `n` workers of `pool`.
pub open spec fn pool_json(
    a: ActiveClients,
    pool: PoolView,
    n: nat,
    gauges: Seq<Gauge>,
    now: int,
) -> Seq<Seq<char>> {
    Seq::new(
        n,
        |i: int|
            worker_json(
                a,
                pool.key,
                pool.workers[i],
                render::gauge_of(gauges, pool.workers[i].id),
                now,
            ),
    )
}

/// What is written of the workers of the first `n` pools.
pub open spec fn pools_json(
    a: ActiveClients,
    s: Seq<PoolView>,
    n: nat,
    gauges: Seq<Gauge>,
    now: int,
) -> Seq<Seq<char>>
    decreases n,
{
    if n == 0 {
        Seq::empty()
    } else {
        pools_json(a, s, (n - 1) as nat, gauges, now) + pool_json(
            a,
            s[n - 1],
            s[n - 1].workers.len(),
            gauges,
            now,
        )
    }
}

pub open spec fn reserve_json(r: Option<Worker>) -> Seq<char> {
    match r {
        Some(w) => "{\"id\":"@ + numeric::decimal(w.id as nat) + ",\"julia_channel\":"@
            + status::json_opt_text(text::opt_view(w.julia_channel)) + ",\"threads\":"@
            + threads_json(w.threads@) + ",\"mem_bytes\":"@ + numeric::decimal(w.mem_bytes as nat)
            + "}"@,
        None => "null"@,
    }
}

/// The status for programs.
pub open spec fn status_json(c: Conductor, gauges: Seq<Gauge>, now: int) -> Seq<char> {
    "{\"workers\":["@ + comma_joined(
        pools_json(c.active_clients, c.pools@, c.pools@.len(), gauges, now),
    ) + "],\"reserve\":"@ + reserve_json(c.reserve) + ",\"totals\":{\"clients\":"@
        + numeric::decimal(c.active_clients.count()) + "},\"min_ttl\":"@ + numeric::decimal(
        c.config.min_ttl as nat,
    ) + ",\"max_ttl\":"@ + numeric::decimal(c.config.max_ttl as nat) + ",\"label_ttl\":"@
        + numeric::decimal(c.config.label_ttl as nat) + ",\"worker_args\":"@ + status::json_text(
        c.config.worker_args@,
    ) + ",\"pressure\":{\"source\":"@ + status::json_text(
        pressure::name_of(c.pressure.looks_at()),
    ) + ",\"active\":"@ + bool_text(c.pressure.looks_at() != Source::Nowhere) + "}}"@
}

fn bool_str(b: bool) -> (r: &'static str)
    ensures
        r@ == bool_text(b),
{
    if b {
        "true"
    } else {
        "false"
    }
}

fn threads_str(threads: [u16; 2]) -> (r: String)
    ensures
        r@ == threads_json(threads@),
{
    let a = decimal_string(threads[0] as u64);
    let b = decimal_string(threads[1] as u64);
    let mut out = owned("[");
    out.append(a.as_str());
    out.append(",");
    out.append(b.as_str());
    out.append("]");
    out
}

/// `items` with one more behind them.
proof fn lemma_comma_push(items: Seq<Seq<char>>, x: Seq<char>)
    ensures
        comma_joined(items.push(x)) == if items.len() == 0 {
            x
        } else {
            comma_joined(items) + ","@ + x
        },
{
    assert(items.push(x).drop_last() =~= items);
}

fn clients_str(list: &[(u32, i64)]) -> (r: String)
    ensures
        r@ == comma_joined(clients_json(list@.map_values(|c: (u32, i64)| (c.0, c.1 as int)))),
{
    let ghost clients = list@.map_values(|c: (u32, i64)| (c.0, c.1 as int));
    let ghost all = clients_json(clients);
    let mut out = String::new();
    let mut i: usize = 0;
    assert(all.take(0) =~= Seq::empty());
    while i < list.len()
        invariant
            i <= list@.len(),
            all.len() == list@.len(),
            all == clients_json(clients),
            clients == list@.map_values(|c: (u32, i64)| (c.0, c.1 as int)),
            out@ == comma_joined(all.take(i as int)),
        decreases list@.len() - i,
    {
        let pid = decimal_string(list[i].0 as u64);
        let secs = signed_string(list[i].1);
        let mut item = owned("{\"pid\":");
        item.append(pid.as_str());
        item.append(",\"attached_seconds\":");
        item.append(secs.as_str());
        item.append("}");
        proof {
            assert(clients[i as int] == (list@[i as int].0, list@[i as int].1 as int));
            assert(item@ == all[i as int]);
            assert(all.take(i + 1) =~= all.take(i as int).push(item@));
            lemma_comma_push(all.take(i as int), item@);
        }
        if i > 0 {
            out.append(",");
        }
        let ghost before = out@;
        out.append(item.as_str());
        proof {
            if i == 0 {
                assert(before =~= Seq::empty());
                assert(out@ =~= item@);
            }
        }
        i = i + 1;
    }
    assert(all.take(i as int) =~= all);
    out
}

fn worker_str(c: &Conductor, key: &str, w: &Worker, g: &Gauge, now: i64) -> (r: String)
    requires
        c.wf(),
        render::stays_fit(c.active_clients, w.id, now as int),
    ensures
        r@ == worker_json(c.active_clients, key@, *w, *g, now as int),
{
    let list = c.attached(w.id, now);
    let id = decimal_string(w.id as u64);
    let pool_key = json_str(key);
    let label = json_opt_str(opt_as_str(&w.session_label));
    let channel = json_opt_str(opt_as_str(&w.julia_channel));
    let threads = threads_str(w.threads);
    let created = signed_string(w.created_at);
    let last = signed_string(w.last_active);
    let active = decimal_string(w.active_clients as u64);
    let mem = decimal_string(w.mem_bytes);
    let clients = clients_str(list.as_slice());
    let mut out = owned("{\"id\":");
    out.append(id.as_str());
    out.append(",\"pool_key\":");
    out.append(pool_key.as_str());
    out.append(",\"session_label\":");
    out.append(label.as_str());
    out.append(",\"julia_channel\":");
    out.append(channel.as_str());
    out.append(",\"threads\":");
    out.append(threads.as_str());
    out.append(",\"interactive\":");
    out.append(bool_str(w.interactive));
    out.append(",\"sandboxed\":");
    out.append(bool_str(w.sandboxed));
    out.append(",\"created_at\":");
    out.append(created.as_str());
    out.append(",\"last_active\":");
    out.append(last.as_str());
    out.append(",\"active_clients\":");
    out.append(active.as_str());
    out.append(",\"mem_bytes\":");
    out.append(mem.as_str());
    out.append(",\"cpu_pct\":");
    out.append(g.cpu_fine.as_str());
    out.append(",\"clients\":[");
    out.append(clients.as_str());
    out.append("]}");
    out
}

/// The worker at each place of the pools can be written out.
pub open spec fn writable(c: Conductor, gauges: Seq<Gauge>, now: i64) -> bool {
    forall|p: int, i: int|
        pools::in_range(c.pools@, p, i) ==> render::measured(
            gauges,
            (#[trigger] c.pools@[p].workers[i]).id,
        ) && render::stays_fit(c.active_clients, c.pools@[p].workers[i].id, now as int)
}

impl Conductor {
    /// A worker that can be shown can be written out.
    pub proof fn law_shown_is_writable(&self, gauges: Seq<Gauge>, now: i64)
        requires
            self.showable(now),
            self.every_worker(|w: Worker| render::measured(gauges, w.id)),
        ensures
            writable(*self, gauges, now),
    {
        let f = |w: Worker| render::shows(self.active_clients, w, now);
        let g = |w: Worker| render::measured(gauges, w.id);
        assert forall|p: int, i: int| pools::in_range(self.pools@, p, i) implies render::measured(
            gauges,
            (#[trigger] self.pools@[p].workers[i]).id,
        ) && render::stays_fit(self.active_clients, self.pools@[p].workers[i].id, now as int) by {
            assert(f(self.pools@[p].workers[i]));
            assert(g(self.pools@[p].workers[i]));
        }
    }
}

fn workers_str(c: &Conductor, gauges: &[Gauge], now: i64) -> (r: String)
    requires
        c.wf(),
        writable(*c, gauges@, now),
    ensures
        r@ == comma_joined(
            pools_json(c.active_clients, c.pools@, c.pools@.len(), gauges@, now as int),
        ),
{
    let mut out = String::new();
    let mut first: bool = true;
    let mut p: usize = 0;
    let ghost (a, s, g, t) = (c.active_clients, c.pools@, gauges@, now as int);
    assert(comma_joined(Seq::empty()) =~= Seq::<char>::empty());
    while p < c.pools.len()
        invariant
            p <= s.len(),
            c.wf(),
            writable(*c, gauges@, now),
            a == c.active_clients,
            s == c.pools@,
            g == gauges@,
            t == now as int,
            first == (pools_json(a, s, p as nat, g, t).len() == 0),
            out@ == comma_joined(pools_json(a, s, p as nat, g, t)),
        decreases s.len() - p,
    {
        let ws = c.pools.workers(p);
        let key = c.pools.key(p);
        let ghost done = pools_json(a, s, p as nat, g, t);
        let mut i: usize = 0;
        assert(done + pool_json(a, s[p as int], 0, g, t) =~= done);
        while i < ws.len()
            invariant
                p < s.len(),
                i <= ws@.len(),
                c.wf(),
                writable(*c, gauges@, now),
                a == c.active_clients,
                s == c.pools@,
                g == gauges@,
                t == now as int,
                ws@ == s[p as int].workers,
                key@ == s[p as int].key,
                first == ((done + pool_json(a, s[p as int], i as nat, g, t)).len() == 0),
                out@ == comma_joined(done + pool_json(a, s[p as int], i as nat, g, t)),
            decreases ws@.len() - i,
        {
            assert(pools::in_range(s, p as int, i as int));
            assert(s[p as int].workers[i as int] == ws@[i as int]);
            let gauge = find_gauge(gauges, ws[i].id);
            let item = worker_str(c, key, &ws[i], gauge, now);
            proof {
                let so_far = done + pool_json(a, s[p as int], i as nat, g, t);
                assert(done + pool_json(a, s[p as int], (i + 1) as nat, g, t) =~= so_far.push(item@));
                lemma_comma_push(so_far, item@);
            }
            if !first {
                out.append(",");
            }
            let ghost before = out@;
            out.append(item.as_str());
            proof {
                if first {
                    assert(before =~= Seq::empty());
                    assert(out@ =~= item@);
                }
            }
            first = false;
            i = i + 1;
        }
        p = p + 1;
    }
    out
}

fn reserve_str(r: &Option<Worker>) -> (s: String)
    ensures
        s@ == reserve_json(*r),
{
    match r {
        Some(w) => {
            let id = decimal_string(w.id as u64);
            let channel = json_opt_str(opt_as_str(&w.julia_channel));
            let threads = threads_str(w.threads);
            let mem = decimal_string(w.mem_bytes);
            let mut out = owned("{\"id\":");
            out.append(id.as_str());
            out.append(",\"julia_channel\":");
            out.append(channel.as_str());
            out.append(",\"threads\":");
            out.append(threads.as_str());
            out.append(",\"mem_bytes\":");
            out.append(mem.as_str());
            out.append("}");
            out
        },
        None => owned("null"),
    }
}

/// The status for programs.
pub fn render_json(c: &Conductor, gauges: &[Gauge], now: i64) -> (r: String)
    requires
        c.wf(),
        writable(*c, gauges@, now),
    ensures
        r@ == status_json(*c, gauges@, now as int),
{
    let workers = workers_str(c, gauges, now);
    let reserve = reserve_str(&c.reserve);
    let clients = decimal_string(c.active_clients.len() as u64);
    let min_ttl = decimal_string(c.config.min_ttl);
    let max_ttl = decimal_string(c.config.max_ttl);
    let label_ttl = decimal_string(c.config.label_ttl);
    let worker_args = json_str(c.config.worker_args.as_str());
    let source = json_str(c.pressure.source_name());
    let mut out = owned("{\"workers\":[");
    out.append(workers.as_str());
    out.append("],\"reserve\":");
    out.append(reserve.as_str());
    out.append(",\"totals\":{\"clients\":");
    out.append(clients.as_str());
    out.append("},\"min_ttl\":");
    out.append(min_ttl.as_str());
    out.append(",\"max_ttl\":");
    out.append(max_ttl.as_str());
    out.append(",\"label_ttl\":");
    out.append(label_ttl.as_str());
    out.append(",\"worker_args\":");
    out.append(worker_args.as_str());
    out.append(",\"pressure\":{\"source\":");
    out.append(source.as_str());
    out.append(",\"active\":");
    out.append(bool_str(c.pressure.active()));
    out.append("}}");
    out
}

} // verus!
