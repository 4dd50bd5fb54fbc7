//! The status of the conductor, drawn for people.

use crate::args;
use crate::args::render_threads;
use crate::clients;
use crate::clients::ActiveClients;
use crate::conductor::Conductor;
use crate::numeric;
use crate::numeric::decimal_string;
use crate::pools;
use crate::pools::PoolView;
use crate::pressure;
use crate::pressure::Source;
use crate::selection;
use crate::selection::Limits;
use crate::status;
use crate::status::{describe_key, format_duration, push_left, push_right};
use crate::text;
use crate::text::{opt_as_str, owned, to_chars};
use crate::worker::Worker;
use vstd::prelude::*;

verus! {

/// What was measured of a worker, as it is shown.
pub struct Gauge {
    pub worker_id: u32,
    /// Its memory, with a unit.
    pub mem: String,
    /// Its share of a processor, in percent, with one decimal.
    pub cpu: String,
    /// The same with two decimals.
    pub cpu_fine: String,
    /// How much of the time it has clients, in percent.
    pub activity: String,
    /// How many seconds more it may stay without a client.
    pub remaining: i64,
}

// ---------------------------------------------------------------------
// Model
// ---------------------------------------------------------------------

/// The first gauge of the worker `id`.
pub open spec fn gauge_of(gauges: Seq<Gauge>, id: u32) -> Gauge
    decreases gauges.len(),
{
    if gauges.len() <= 1 || gauges[0].worker_id == id {
        gauges[0]
    } else {
        gauge_of(gauges.drop_first(), id)
    }
}

/// The worker `id` was measured.
pub open spec fn measured(gauges: Seq<Gauge>, id: u32) -> bool {
    exists|i: int| 0 <= i < gauges.len() && (#[trigger] gauges[i]).worker_id == id
}

/// `n` divided by `d`, without its fraction.
pub open spec fn quotient(n: int, d: int) -> int {
    if n >= 0 {
        n / d
    } else {
        -((-n) / d)
    }
}

/// How many full seconds a client that came at `start` microseconds has been
/// there at `now` seconds.
pub open spec fn attached_secs(now: int, start: int) -> int {
    quotient(now * 1_000_000 - start, 1_000_000)
}

pub open spec fn fits_i64(n: int) -> bool {
    i64::MIN <= n <= i64::MAX
}

/// The clients of the worker `id`, each with the seconds that it has been there.
pub open spec fn attachments(a: ActiveClients, id: u32, now: int) -> Seq<(u32, int)> {
    a.listing(id).map_values(|pid: u32| (pid, attached_secs(now, a@[pid].start_time_us as int)))
}

/// The time that each client of the worker `id` has been there can be counted.
pub open spec fn stays_fit(a: ActiveClients, id: u32, now: int) -> bool {
    &&& fits_i64(now * 1_000_000)
    &&& forall|pid: u32| #[trigger]
        clients::clients_of(a@, id).contains(pid) ==> fits_i64(
            now * 1_000_000 - a@[pid].start_time_us,
        )
}

/// All that is shown of the times of `w` can be counted.
pub open spec fn shows(a: ActiveClients, w: Worker, now: i64) -> bool {
    &&& stays_fit(a, w.id, now as int)
    &&& selection::fits(now, w.created_at)
    &&& w.active_clients == 0 ==> selection::fits(now, w.last_active)
}

/// What the dot before a worker says: asked and not heard of yet, at work, or
/// idle.
pub open spec fn dot_text(w: Worker) -> Seq<char> {
    if w.ping_pending {
        "\u{1b}[33m\u{25cf}\u{1b}[0m"@
    } else if w.active_clients > 0 {
        "\u{1b}[32m\u{25cf}\u{1b}[0m"@
    } else {
        "\u{1b}[2m\u{25cc}\u{1b}[0m"@
    }
}

/// `s` between `before` and `after`, where it is there.
pub open spec fn where_given(
    before: Seq<char>,
    s: Option<Seq<char>>,
    after: Seq<char>,
) -> Seq<char> {
    match s {
        Some(t) => before + t + after,
        None => Seq::empty(),
    }
}

pub open spec fn where_true(b: bool, s: Seq<char>) -> Seq<char> {
    if b {
        s
    } else {
        Seq::empty()
    }
}

/// What a worker is called.
pub open spec fn identity_text(w: Worker) -> Seq<char> {
    dot_text(w) + " #"@ + numeric::decimal(w.id as nat) + where_given(
        " ["@,
        text::opt_view(w.session_label),
        "]"@,
    ) + where_given(" "@, text::opt_view(w.julia_channel), ""@) + where_true(
        w.interactive,
        " (interactive)"@,
    ) + where_given(" (threads="@, args::threads_text(w.threads@), ")"@) + where_true(
        w.sandboxed,
        " (remote)"@,
    )
}

/// What is said of the end of a worker: when it will go, or how long it has
/// been idle.
pub open spec fn outlook_text(
    w: Worker,
    g: Gauge,
    pressed: bool,
    limits: Limits,
    now: i64,
) -> Seq<char> {
    if pressed && w.may_go(limits, now) {
        "  \u{1b}[2mactivity "@ + g.activity@ + "% \u{b7} culls in "@ + status::duration_text(
            g.remaining as int,
        ) + "\u{1b}[0m"@
    } else if w.active_clients == 0 {
        "  \u{1b}[2midle "@ + status::duration_text(now - w.last_active) + "\u{1b}[0m"@
    } else {
        Seq::empty()
    }
}

/// The lines for the first `n` of `clients`.
pub open spec fn client_lines(clients: Seq<(u32, int)>, n: nat) -> Seq<char>
    decreases n,
{
    if n == 0 {
        Seq::empty()
    } else {
        let (pid, secs) = clients[n - 1];
        client_lines(clients, (n - 1) as nat) + "\u{2502}  "@ + (if n == clients.len() {
            "\u{2570}\u{2500}"@
        } else {
            "\u{251c}\u{2500}"@
        }) + " pid "@ + numeric::decimal(pid as nat) + " attached "@ + status::duration_text(secs)
            + "\n"@
    }
}

impl Conductor {
    /// The lines for the worker `w`.
    pub open spec fn worker_lines(
        &self,
        w: Worker,
        gauges: Seq<Gauge>,
        now: i64,
        prefix: Seq<char>,
    ) -> Seq<char> {
        let g = gauge_of(gauges, w.id);
        let clients = attachments(self.active_clients, w.id, now as int);
        prefix + status::left(identity_text(w), 34) + " up "@ + status::left(
            status::duration_text(now - w.created_at),
            7,
        ) + " "@ + status::right(g.mem@, 8) + "  "@ + status::right(g.cpu@, 5) + "%"@
            + outlook_text(w, g, self.pressure.looks_at() != Source::Nowhere, self.limit(), now) + "\n"@ + client_lines(
            clients,
            clients.len(),
        )
    }

    /// The lines for the first `n` of `ws`.
    pub open spec fn workers_lines(
        &self,
        ws: Seq<Worker>,
        n: nat,
        gauges: Seq<Gauge>,
        now: i64,
    ) -> Seq<char>
        decreases n,
    {
        if n == 0 {
            Seq::empty()
        } else {
            self.workers_lines(ws, (n - 1) as nat, gauges, now) + self.worker_lines(
                ws[n - 1],
                gauges,
                now,
                if n == ws.len() {
                    "\u{2570}\u{2500} "@
                } else {
                    "\u{251c}\u{2500} "@
                },
            )
        }
    }

    /// The lines for a pool; none for one without workers.
    pub open spec fn pool_lines(
        &self,
        pool: PoolView,
        gauges: Seq<Gauge>,
        now: i64,
        home: Option<Seq<char>>,
    ) -> Seq<char> {
        if pool.workers.len() == 0 {
            Seq::empty()
        } else {
            "\u{1b}[32m"@ + status::key_heading(pool.key, home) + where_given(
                " ["@,
                status::key_channel(pool.key),
                "]"@,
            ) + "\u{1b}[0m\n"@ + self.workers_lines(
                pool.workers,
                pool.workers.len(),
                gauges,
                now,
            ) + "\n"@
        }
    }

    /// The lines for the pools at the first `n` places of `order`.
    pub open spec fn pools_lines(
        &self,
        order: Seq<int>,
        n: nat,
        gauges: Seq<Gauge>,
        now: i64,
        home: Option<Seq<char>>,
    ) -> Seq<char>
        decreases n,
    {
        if n == 0 {
            Seq::empty()
        } else {
            self.pools_lines(order, (n - 1) as nat, gauges, now, home) + self.pool_lines(
                self.pools@[order[n - 1]],
                gauges,
                now,
                home,
            )
        }
    }
}

// ---------------------------------------------------------------------
// Workers
// ---------------------------------------------------------------------

pub fn health_dot(w: &Worker) -> (r: &'static str)
    ensures
        r@ == dot_text(*w),
{
    if w.ping_pending {
        "\u{1b}[33m\u{25cf}\u{1b}[0m"
    } else if w.active_clients > 0 {
        "\u{1b}[32m\u{25cf}\u{1b}[0m"
    } else {
        "\u{1b}[2m\u{25cc}\u{1b}[0m"
    }
}

fn push_given(out: &mut String, before: &str, s: Option<&str>, after: &str)
    ensures
        final(out)@ == old(out)@ + where_given(before@, text::opt_str(s), after@),
{
    if let Some(t) = s {
        out.append(before);
        out.append(t);
        out.append(after);
    }
    assert(out@ =~= old(out)@ + where_given(before@, text::opt_str(s), after@));
}

fn push_true(out: &mut String, b: bool, s: &str)
    ensures
        final(out)@ == old(out)@ + where_true(b, s@),
{
    if b {
        out.append(s);
    }
    assert(out@ =~= old(out)@ + where_true(b, s@));
}

fn identity(w: &Worker) -> (r: String)
    ensures
        r@ == identity_text(*w),
{
    let mut out = owned(health_dot(w));
    let id = decimal_string(w.id as u64);
    let threads = render_threads(w.threads);
    out.append(" #");
    out.append(id.as_str());
    push_given(&mut out, " [", opt_as_str(&w.session_label), "]");
    push_given(&mut out, " ", opt_as_str(&w.julia_channel), "");
    push_true(&mut out, w.interactive, " (interactive)");
    push_given(&mut out, " (threads=", opt_as_str(&threads), ")");
    push_true(&mut out, w.sandboxed, " (remote)");
    out
}

/// `n` divided by `d`, without its fraction.
fn whole(n: i64, d: i64) -> (r: i64)
    requires
        d > 1,
    ensures
        r == quotient(n as int, d as int),
{
    if n >= 0 {
        n / d
    } else {
        let size: u64 = (-(n + 1)) as u64 + 1;
        let q: u64 = size / (d as u64);
        assert(q <= size / 2) by (nonlinear_arith)
            requires
                q == size / (d as u64),
                d > 1,
        ;
        -(q as i64)
    }
}

pub fn find_gauge(gauges: &[Gauge], id: u32) -> (r: &Gauge)
    requires
        measured(gauges@, id),
    ensures
        *r == gauge_of(gauges@, id),
        r.worker_id == id,
{
    let mut i: usize = 0;
    assert(gauges@.skip(0) =~= gauges@);
    while i < gauges.len()
        invariant
            i <= gauges@.len(),
            measured(gauges@, id),
            forall|j: int| 0 <= j < i ==> (#[trigger] gauges@[j]).worker_id != id,
            gauge_of(gauges@, id) == gauge_of(gauges@.skip(i as int), id),
        decreases gauges@.len() - i,
    {
        if gauges[i].worker_id == id {
            return &gauges[i];
        }
        assert(gauges@.skip(i as int).drop_first() =~= gauges@.skip(i + 1));
        proof {
            let j = choose|j: int| 0 <= j < gauges@.len() && (#[trigger] gauges@[j]).worker_id == id;
            assert(gauges@[j].worker_id == id);
            assert(gauges@[i as int].worker_id != id);
            assert(j > i);
        }
        i = i + 1;
    }
    assert(false);
    &gauges[0]
}

impl Conductor {
    /// The clients of a worker, each with the seconds that it has been there.
    pub fn clients_for(&self, worker_id: u32, now_us: i64) -> (r: Vec<(u32, i64)>)
        requires
            self.wf(),
            forall|pid: u32| #[trigger]
                clients::clients_of(self.active_clients@, worker_id).contains(pid) ==> fits_i64(
                    now_us - self.active_clients@[pid].start_time_us,
                ),
        ensures
            r@.len() == self.active_clients.listing(worker_id).len(),
            forall|i: int|
                0 <= i < r@.len() ==> (#[trigger] r@[i]).0 == self.active_clients.listing(
                    worker_id,
                )[i] && r@[i].1 == quotient(
                    now_us - self.active_clients@[r@[i].0].start_time_us,
                    1_000_000,
                ),
    {
        let pids = self.active_clients.of_worker(worker_id);
        let mut out: Vec<(u32, i64)> = Vec::new();
        let mut i: usize = 0;
        while i < pids.len()
            invariant
                i <= pids@.len(),
                i == out@.len(),
                self.wf(),
                pids@ == self.active_clients.listing(worker_id),
                forall|pid: u32|
                    pids@.contains(pid) <==> clients::clients_of(
                        self.active_clients@,
                        worker_id,
                    ).contains(pid),
                forall|pid: u32| #[trigger]
                    clients::clients_of(self.active_clients@, worker_id).contains(pid) ==> fits_i64(
                        now_us - self.active_clients@[pid].start_time_us,
                    ),
                forall|j: int|
                    0 <= j < i ==> (#[trigger] out@[j]).0 == pids@[j] && out@[j].1 == quotient(
                        now_us - self.active_clients@[out@[j].0].start_time_us,
                        1_000_000,
                    ),
            decreases pids@.len() - i,
        {
            let pid: u32 = pids[i];
            assert(pids@.contains(pid));
            assert(clients::clients_of(self.active_clients@, worker_id).contains(pid));
            if let Some(info) = self.active_clients.get(pid) {
                out.push((pid, whole(now_us - info.start_time_us, 1_000_000)));
            }
            i = i + 1;
        }
        out
    }

    /// The clients of a worker, each with the seconds that it has been there
    /// at `now`.
    pub fn attached(&self, worker_id: u32, now: i64) -> (r: Vec<(u32, i64)>)
        requires
            self.wf(),
            stays_fit(self.active_clients, worker_id, now as int),
        ensures
            r@.map_values(|c: (u32, i64)| (c.0, c.1 as int)) == attachments(
                self.active_clients,
                worker_id,
                now as int,
            ),
    {
        let r = self.clients_for(worker_id, now * 1_000_000);
        assert(r@.map_values(|c: (u32, i64)| (c.0, c.1 as int)) =~= attachments(
            self.active_clients,
            worker_id,
            now as int,
        ));
        r
    }

    fn push_outlook(&self, out: &mut String, w: &Worker, g: &Gauge, now: i64)
        requires
            w.active_clients == 0 ==> selection::fits(now, w.last_active),
        ensures
            final(out)@ == old(out)@ + outlook_text(
                *w,
                *g,
                self.pressure.looks_at() != Source::Nowhere,
                self.limit(),
                now,
            ),
    {
        if self.pressure.active() && w.cullable(self.limits(), now) {
            let left = format_duration(g.remaining);
            out.append("  \u{1b}[2mactivity ");
            out.append(g.activity.as_str());
            out.append("% \u{b7} culls in ");
            out.append(left.as_str());
            out.append("\u{1b}[0m");
        } else if w.active_clients == 0 {
            let idle = format_duration(now - w.last_active);
            out.append("  \u{1b}[2midle ");
            out.append(idle.as_str());
            out.append("\u{1b}[0m");
        }
        assert(out@ =~= old(out)@ + outlook_text(
            *w,
            *g,
            self.pressure.looks_at() != Source::Nowhere,
            self.limit(),
            now,
        ));
    }

    fn push_client_lines(&self, out: &mut String, worker_id: u32, now: i64)
        requires
            self.wf(),
            stays_fit(self.active_clients, worker_id, now as int),
        ensures
            final(out)@ == old(out)@ + ({
                let clients = attachments(self.active_clients, worker_id, now as int);
                client_lines(clients, clients.len())
            }),
    {
        let list = self.attached(worker_id, now);
        let ghost clients = attachments(self.active_clients, worker_id, now as int);
        let ghost start = out@;
        let mut i: usize = 0;
        assert(start + client_lines(clients, 0) =~= start);
        while i < list.len()
            invariant
                i <= list@.len(),
                list@.map_values(|c: (u32, i64)| (c.0, c.1 as int)) == clients,
                out@ == start + client_lines(clients, i as nat),
            decreases list@.len() - i,
        {
            let (pid, secs): (u32, i64) = list[i];
            assert(list@.map_values(|c: (u32, i64)| (c.0, c.1 as int))[i as int] == (
                pid,
                secs as int,
            ));
            let branch: &str = if i + 1 == list.len() {
                "\u{2570}\u{2500}"
            } else {
                "\u{251c}\u{2500}"
            };
            let p = decimal_string(pid as u64);
            let d = format_duration(secs);
            let ghost before = out@;
            out.append("\u{2502}  ");
            out.append(branch);
            out.append(" pid ");
            out.append(p.as_str());
            out.append(" attached ");
            out.append(d.as_str());
            out.append("\n");
            assert(out@ =~= start + client_lines(clients, (i + 1) as nat));
            i = i + 1;
        }
    }

    pub fn render_worker_line(
        &self,
        out: &mut String,
        w: &Worker,
        gauges: &[Gauge],
        now: i64,
        prefix: &str,
    )
        requires
            self.wf(),
            measured(gauges@, w.id),
            shows(self.active_clients, *w, now),
        ensures
            final(out)@ == old(out)@ + self.worker_lines(*w, gauges@, now, prefix@),
    {
        let g = find_gauge(gauges, w.id);
        let name = identity(w);
        let uptime = format_duration(now - w.created_at);
        let mut line = owned(prefix);
        push_left(&mut line, name.as_str(), 34);
        line.append(" up ");
        push_left(&mut line, uptime.as_str(), 7);
        line.append(" ");
        push_right(&mut line, g.mem.as_str(), 8);
        line.append("  ");
        push_right(&mut line, g.cpu.as_str(), 5);
        line.append("%");
        self.push_outlook(&mut line, w, g, now);
        line.append("\n");
        self.push_client_lines(&mut line, w.id, now);
        out.append(line.as_str());
    }
}

// ---------------------------------------------------------------------
// The order of the pools
// ---------------------------------------------------------------------

/// `a` comes before `b`: character by character, which is also the order of
/// their bytes.
pub open spec fn lex_less(a: Seq<char>, b: Seq<char>) -> bool
    decreases a.len(),
{
    if b.len() == 0 {
        false
    } else if a.len() == 0 {
        true
    } else if a[0] != b[0] {
        b[0] > a[0]
    } else {
        lex_less(a.drop_first(), b.drop_first())
    }
}

/// `order` lists all pools, by their keys.
pub open spec fn by_key(s: Seq<PoolView>, order: Seq<int>) -> bool {
    &&& order.len() == s.len()
    &&& forall|i: int| 0 <= i < order.len() ==> 0 <= #[trigger] order[i] < s.len()
    &&& forall|i: int, j: int|
        0 <= i < j < order.len() ==> lex_less(s[#[trigger] order[i]].key, s[#[trigger] order[j]].key)
}

proof fn lemma_lex_trans(a: Seq<char>, b: Seq<char>, c: Seq<char>)
    requires
        lex_less(a, b),
        lex_less(b, c),
    ensures
        lex_less(a, c),
    decreases a.len(),
{
    if a.len() > 0 && a[0] == b[0] && b[0] == c[0] {
        lemma_lex_trans(a.drop_first(), b.drop_first(), c.drop_first());
    }
}

proof fn lemma_lex_total(a: Seq<char>, b: Seq<char>)
    requires
        a != b,
    ensures
        lex_less(a, b) || lex_less(b, a),
    decreases a.len(),
{
    if a.len() > 0 && b.len() > 0 {
        if a[0] == b[0] {
            assert(a.drop_first() != b.drop_first()) by {
                if a.drop_first() == b.drop_first() {
                    assert(a =~= seq![a[0]] + a.drop_first());
                    assert(b =~= seq![b[0]] + b.drop_first());
                }
            }
            lemma_lex_total(a.drop_first(), b.drop_first());
        }
    } else if a.len() == 0 && b.len() == 0 {
        assert(a =~= b);
    }
}

proof fn lemma_lex_irreflexive(a: Seq<char>)
    ensures
        !lex_less(a, a),
    decreases a.len(),
{
    if a.len() > 0 {
        lemma_lex_irreflexive(a.drop_first());
    }
}

/// There is one order of the pools.
pub proof fn law_order_is_unique(s: Seq<PoolView>, a: Seq<int>, b: Seq<int>)
    requires
        by_key(s, a),
        by_key(s, b),
    ensures
        a == b,
{
    lemma_order_prefix(s, a, b, a.len() as int);
    assert(a =~= b);
}

pub proof fn lemma_by_key_once(s: Seq<PoolView>, a: Seq<int>)
    requires
        by_key(s, a),
    ensures
        a.no_duplicates(),
        forall|x: int| 0 <= x < s.len() ==> a.contains(x),
{
    assert forall|i: int, j: int| 0 <= i < a.len() && 0 <= j < a.len() && i != j implies a[i]
        != a[j] by {
        lemma_lex_irreflexive(s[a[i]].key);
    }
    a.unique_seq_to_set();
    let range = vstd::set_lib::set_int_range(0, s.len() as int);
    vstd::set_lib::lemma_int_range(0, s.len() as int);
    assert(a.to_set().subset_of(range)) by {
        assert forall|x: int| a.to_set().contains(x) implies range.contains(x) by {
            let k = a.index_of(x);
            assert(0 <= a[k] < s.len());
        }
    }
    vstd::set_lib::lemma_subset_equality(a.to_set(), range);
    assert forall|x: int| 0 <= x < s.len() implies a.contains(x) by {
        assert(range.contains(x));
        assert(a.to_set().contains(x));
    }
}

proof fn lemma_order_prefix(s: Seq<PoolView>, a: Seq<int>, b: Seq<int>, n: int)
    requires
        by_key(s, a),
        by_key(s, b),
        0 <= n <= a.len(),
    ensures
        forall|i: int| 0 <= i < n ==> a[i] == b[i],
    decreases n,
{
    if n > 0 {
        lemma_order_prefix(s, a, b, n - 1);
        let k = n - 1;
        lemma_by_key_once(s, a);
        lemma_by_key_once(s, b);
        if a[k] != b[k] {
            assert(a.contains(b[k]) && b.contains(a[k]));
            let i = a.index_of(b[k]);
            let j = b.index_of(a[k]);
            assert(i > k) by {
                if i < k {
                    assert(a[i] == b[i]);
                }
            }
            assert(j > k) by {
                if j < k {
                    assert(a[j] == b[j]);
                }
            }
            assert(lex_less(s[a[k]].key, s[a[i]].key));
            assert(lex_less(s[b[k]].key, s[b[j]].key));
            lemma_lex_trans(s[a[k]].key, s[b[k]].key, s[a[k]].key);
            lemma_lex_irreflexive(s[a[k]].key);
        }
    }
}

fn key_less(a: &str, b: &str) -> (r: bool)
    ensures
        r == lex_less(a@, b@),
{
    let x = to_chars(a);
    let y = to_chars(b);
    let mut i: usize = 0;
    assert(a@.skip(0) =~= a@);
    assert(b@.skip(0) =~= b@);
    while i < x.len() && i < y.len() && x[i] == y[i]
        invariant
            x@ == a@,
            y@ == b@,
            i <= x@.len(),
            i <= y@.len(),
            lex_less(a@, b@) == lex_less(a@.skip(i as int), b@.skip(i as int)),
        decreases x@.len() - i,
    {
        assert(a@.skip(i as int).drop_first() =~= a@.skip(i + 1));
        assert(b@.skip(i as int).drop_first() =~= b@.skip(i + 1));
        i = i + 1;
    }
    if i >= y.len() {
        return false;
    }
    if i >= x.len() {
        return true;
    }
    assert(a@.skip(i as int)[0] == a@[i as int]);
    assert(b@.skip(i as int)[0] == b@[i as int]);
    x[i] < y[i]
}

/// The numbers of `v`.
pub open spec fn places(v: Seq<usize>) -> Seq<int> {
    v.map_values(|i: usize| i as int)
}

/// `order` lists the first `n` pools, by their keys.
spec fn partly_by_key(s: Seq<PoolView>, order: Seq<usize>, n: int) -> bool {
    &&& order.len() == n
    &&& forall|i: int| 0 <= i < order.len() ==> #[trigger] order[i] < n
    &&& forall|i: int, j: int|
        0 <= i < j < order.len() ==> lex_less(
            s[#[trigger] order[i] as int].key,
            s[#[trigger] order[j] as int].key,
        )
}

impl Conductor {
    /// The places of the pools, by their keys.
    fn key_order(&self) -> (r: Vec<usize>)
        requires
            pools::distinct(self.pools@),
        ensures
            by_key(self.pools@, places(r@)),
    {
        let ghost s = self.pools@;
        let mut order: Vec<usize> = Vec::new();
        let mut p: usize = 0;
        while p < self.pools.len()
            invariant
                s == self.pools@,
                pools::distinct(s),
                p <= s.len(),
                partly_by_key(s, order@, p as int),
            decreases s.len() - p,
        {
            let mut i: usize = 0;
            while i < order.len() && key_less(self.pools.key(order[i]), self.pools.key(p))
                invariant
                    s == self.pools@,
                    p < s.len(),
                    partly_by_key(s, order@, p as int),
                    i <= order@.len(),
                    forall|j: int|
                        0 <= j < i ==> lex_less(s[#[trigger] order@[j] as int].key, s[p as int].key),
                decreases order@.len() - i,
            {
                i = i + 1;
            }
            let ghost before = order@;
            order.insert(i, p);
            proof {
                assert forall|j: int| i <= j < before.len() implies lex_less(
                    s[p as int].key,
                    s[#[trigger] before[j] as int].key,
                ) by {
                    assert(before[i as int] < p);
                    lemma_lex_total(s[p as int].key, s[before[i as int] as int].key);
                    if j > i {
                        lemma_lex_trans(
                            s[p as int].key,
                            s[before[i as int] as int].key,
                            s[before[j] as int].key,
                        );
                    }
                }
                let o = order@;
                assert forall|j: int, k: int| 0 <= j < k < o.len() implies lex_less(
                    s[#[trigger] o[j] as int].key,
                    s[#[trigger] o[k] as int].key,
                ) by {
                    let a = if j < i {
                        j
                    } else {
                        j - 1
                    };
                    let b = if k < i {
                        k
                    } else {
                        k - 1
                    };
                    if j != i {
                        assert(o[j] == before[a]);
                    }
                    if k != i {
                        assert(o[k] == before[b]);
                    }
                }
                assert forall|j: int| 0 <= j < o.len() implies #[trigger] o[j] < p + 1 by {
                    if j < i {
                        assert(o[j] == before[j]);
                    } else if j > i {
                        assert(o[j] == before[j - 1]);
                    }
                }
            }
            p = p + 1;
        }
        assert(by_key(s, places(order@))) by {
            let o = places(order@);
            assert forall|i: int| 0 <= i < o.len() implies 0 <= #[trigger] o[i] < s.len() by {
                assert(o[i] == order@[i]);
            }
            assert forall|i: int, j: int| 0 <= i < j < o.len() implies lex_less(
                s[#[trigger] o[i]].key,
                s[#[trigger] o[j]].key,
            ) by {
                assert(o[i] == order@[i] && o[j] == order@[j]);
            }
        }
        order
    }
}

// ---------------------------------------------------------------------
// The whole
// ---------------------------------------------------------------------

impl Conductor {
    /// All that is shown of the workers can be counted.
    pub open spec fn showable(&self, now: i64) -> bool {
        self.every_worker(|w: Worker| shows(self.active_clients, w, now))
    }

    /// The pools in one text.
    pub open spec fn in_order(
        &self,
        gauges: Seq<Gauge>,
        now: i64,
        home: Option<Seq<char>>,
    ) -> Seq<char> {
        let order = choose|order: Seq<int>| by_key(self.pools@, order);
        self.pools_lines(order, order.len(), gauges, now, home)
    }

    /// What is shown of the whole: how much there is, the pools in the order
    /// of their keys, and the reserve.
    pub open spec fn status_text(
        &self,
        gauges: Seq<Gauge>,
        total: Seq<char>,
        now: i64,
        home: Option<Seq<char>>,
    ) -> Seq<char> {
        "Julia Daemon Conductor \u{2014} "@ + numeric::decimal(pools::flat(self.pools@).len())
            + " worker(s), "@ + (if self.reserve is Some {
            "1"@
        } else {
            "0"@
        }) + " reserve, "@ + numeric::decimal(self.active_clients.count()) + " client(s), "@ + total
            + " total\n"@ + (if self.pressure.looks_at() != Source::Nowhere {
            "\u{1b}[33mpressure source: "@ + pressure::name_of(self.pressure.looks_at())
                + "\u{1b}[0m\n"@
        } else {
            Seq::empty()
        }) + "\n"@ + self.in_order(gauges, now, home) + (match self.reserve {
            Some(r) => "\u{1b}[32mreserve\u{1b}[0m\n"@ + self.worker_lines(
                r,
                gauges,
                now,
                "\u{2570}\u{2500} "@,
            ) + "\n"@,
            None => Seq::empty(),
        }) + "worker_args: "@ + self.config.worker_args@ + "\n"@
    }

    fn push_workers(&self, out: &mut String, ws: &[Worker], gauges: &[Gauge], now: i64)
        requires
            self.wf(),
            forall|i: int|
                0 <= i < ws@.len() ==> measured(gauges@, (#[trigger] ws@[i]).id) && shows(
                    self.active_clients,
                    ws@[i],
                    now,
                ),
        ensures
            final(out)@ == old(out)@ + self.workers_lines(ws@, ws@.len(), gauges@, now),
    {
        let ghost start = out@;
        let mut i: usize = 0;
        assert(start + self.workers_lines(ws@, 0, gauges@, now) =~= start);
        while i < ws.len()
            invariant
                i <= ws@.len(),
                self.wf(),
                forall|i: int|
                    0 <= i < ws@.len() ==> measured(gauges@, (#[trigger] ws@[i]).id) && shows(
                        self.active_clients,
                        ws@[i],
                        now,
                    ),
                out@ == start + self.workers_lines(ws@, i as nat, gauges@, now),
            decreases ws@.len() - i,
        {
            let branch: &str = if i + 1 == ws.len() {
                "\u{2570}\u{2500} "
            } else {
                "\u{251c}\u{2500} "
            };
            self.render_worker_line(out, &ws[i], gauges, now, branch);
            assert(out@ =~= start + self.workers_lines(ws@, (i + 1) as nat, gauges@, now));
            i = i + 1;
        }
    }

    fn push_pool(&self, out: &mut String, p: usize, gauges: &[Gauge], now: i64, home: Option<&str>)
        requires
            self.wf(),
            p < self.pools@.len(),
            self.showable(now),
            self.every_worker(|w: Worker| measured(gauges@, w.id)),
        ensures
            final(out)@ == old(out)@ + self.pool_lines(
                self.pools@[p as int],
                gauges@,
                now,
                text::opt_str(home),
            ),
    {
        let ws = self.pools.workers(p);
        if ws.len() > 0 {
            let info = describe_key(self.pools.key(p), home);
            let mut text = owned("\u{1b}[32m");
            text.append(info.heading.as_str());
            push_given(&mut text, " [", opt_as_str(&info.channel), "]");
            text.append("\u{1b}[0m\n");
            assert forall|i: int| 0 <= i < ws@.len() implies measured(
                gauges@,
                (#[trigger] ws@[i]).id,
            ) && shows(self.active_clients, ws@[i], now) by {
                assert(pools::in_range(self.pools@, p as int, i));
                assert(self.pools@[p as int].workers[i] == ws@[i]);
            }
            self.push_workers(&mut text, ws, gauges, now);
            text.append("\n");
            out.append(text.as_str());
        }
        assert(out@ =~= old(out)@ + self.pool_lines(
            self.pools@[p as int],
            gauges@,
            now,
            text::opt_str(home),
        ));
    }

    fn push_pools(&self, out: &mut String, gauges: &[Gauge], now: i64, home: Option<&str>)
        requires
            self.wf(),
            self.showable(now),
            self.every_worker(|w: Worker| measured(gauges@, w.id)),
        ensures
            final(out)@ == old(out)@ + self.in_order(gauges@, now, text::opt_str(home)),
    {
        let order = self.key_order();
        let ghost o = places(order@);
        proof {
            let chosen = choose|order: Seq<int>| by_key(self.pools@, order);
            assert(by_key(self.pools@, o));
            law_order_is_unique(self.pools@, o, chosen);
        }
        let ghost start = out@;
        let mut i: usize = 0;
        assert(start + self.pools_lines(o, 0, gauges@, now, text::opt_str(home)) =~= start);
        while i < order.len()
            invariant
                i <= order@.len(),
                o == places(order@),
                by_key(self.pools@, o),
                self.wf(),
                self.showable(now),
                self.every_worker(|w: Worker| measured(gauges@, w.id)),
                out@ == start + self.pools_lines(
                    o,
                    i as nat,
                    gauges@,
                    now,
                    text::opt_str(home),
                ),
            decreases order@.len() - i,
        {
            assert(o[i as int] == order@[i as int]);
            self.push_pool(out, order[i], gauges, now, home);
            assert(out@ =~= start + self.pools_lines(
                o,
                (i + 1) as nat,
                gauges@,
                now,
                text::opt_str(home),
            ));
            i = i + 1;
        }
    }
}

/// The status for people. `total` is the memory of all workers, with a
/// unit; `home` the home directory.
pub fn render_text(
    c: &Conductor,
    gauges: &[Gauge],
    total: &str,
    now: i64,
    home: Option<&str>,
) -> (r: String)
    requires
        c.wf(),
        c.showable(now),
        c.every_worker(|w: Worker| measured(gauges@, w.id)),
    ensures
        r@ == c.status_text(gauges@, total@, now, text::opt_str(home)),
{
    let workers = decimal_string(c.pools.count());
    let clients = decimal_string(c.active_clients.len() as u64);
    let mut pressed = String::new();
    if c.pressure.active() {
        pressed.append("\u{1b}[33mpressure source: ");
        pressed.append(c.pressure.source_name());
        pressed.append("\u{1b}[0m\n");
        assert(pressed@ =~= "\u{1b}[33mpressure source: "@ + pressure::name_of(
            c.pressure.looks_at(),
        ) + "\u{1b}[0m\n"@);
    }
    let mut reserve = String::new();
    if let Some(r) = &c.reserve {
        let mut lines = owned("\u{1b}[32mreserve\u{1b}[0m\n");
        c.render_worker_line(&mut lines, r, gauges, now, "\u{2570}\u{2500} ");
        lines.append("\n");
        reserve = lines;
    }
    let mut out = owned("Julia Daemon Conductor \u{2014} ");
    out.append(workers.as_str());
    out.append(" worker(s), ");
    out.append(
        if c.reserve.is_some() {
            "1"
        } else {
            "0"
        },
    );
    out.append(" reserve, ");
    out.append(clients.as_str());
    out.append(" client(s), ");
    out.append(total);
    out.append(" total\n");
    out.append(pressed.as_str());
    out.append("\n");
    c.push_pools(&mut out, gauges, now, home);
    out.append(reserve.as_str());
    out.append("worker_args: ");
    out.append(c.config.worker_args.as_str());
    out.append("\n");
    out
}

// ---------------------------------------------------------------------
// Whether the times can be counted
// ---------------------------------------------------------------------

fn difference_fits(a: i128, b: i64) -> (r: bool)
    requires
        -0x1_0000_0000_0000_0000_0000_0000 <= a <= 0x1_0000_0000_0000_0000_0000_0000,
    ensures
        r == fits_i64(a - b),
{
    let d: i128 = a - b as i128;
    i64::MIN as i128 <= d && d <= i64::MAX as i128
}

impl Conductor {
    fn can_count_stays(&self, worker_id: u32, now: i64) -> (r: bool)
        requires
            self.wf(),
        ensures
            r == stays_fit(self.active_clients, worker_id, now as int),
    {
        let now_us: i128 = now as i128 * 1_000_000;
        if !difference_fits(now_us, 0) {
            return false;
        }
        let pids = self.active_clients.of_worker(worker_id);
        let mut i: usize = 0;
        while i < pids.len()
            invariant
                i <= pids@.len(),
                self.wf(),
                now_us == now * 1_000_000,
                fits_i64(now * 1_000_000),
                forall|pid: u32|
                    pids@.contains(pid) <==> clients::clients_of(
                        self.active_clients@,
                        worker_id,
                    ).contains(pid),
                forall|j: int|
                    0 <= j < i ==> fits_i64(
                        now * 1_000_000 - self.active_clients@[#[trigger] pids@[j]].start_time_us,
                    ),
            decreases pids@.len() - i,
        {
            let pid: u32 = pids[i];
            assert(pids@.contains(pid));
            assert(clients::clients_of(self.active_clients@, worker_id).contains(pid));
            if let Some(info) = self.active_clients.get(pid) {
                if !difference_fits(now_us, info.start_time_us) {
                    return false;
                }
            }
            i = i + 1;
        }
        assert forall|pid: u32| #[trigger]
            clients::clients_of(self.active_clients@, worker_id).contains(pid) implies fits_i64(
            now * 1_000_000 - self.active_clients@[pid].start_time_us,
        ) by {
            assert(pids@.contains(pid));
            let j = pids@.index_of(pid);
            assert(pids@[j] == pid);
        }
        true
    }

    fn can_show_worker(&self, w: &Worker, now: i64) -> (r: bool)
        requires
            self.wf(),
        ensures
            r == shows(self.active_clients, *w, now),
    {
        self.can_count_stays(w.id, now) && difference_fits(now as i128, w.created_at) && (
        w.active_clients != 0 || difference_fits(now as i128, w.last_active))
    }

    /// Whether all that is shown of the workers can be counted.
    pub fn can_show(&self, now: i64) -> (r: bool)
        requires
            self.wf(),
        ensures
            r == self.showable(now),
    {
        let ghost f = |w: Worker| shows(self.active_clients, w, now);
        if let Some(r) = &self.reserve {
            if !self.can_show_worker(r, now) {
                assert(!f(*r));
                return false;
            }
        }
        let mut p: usize = 0;
        while p < self.pools.len()
            invariant
                p <= self.pools@.len(),
                self.wf(),
                f == (|w: Worker| shows(self.active_clients, w, now)),
                self.reserve matches Some(r) ==> f(r),
                forall|q: int, j: int|
                    q < p && pools::in_range(self.pools@, q, j) ==> f(
                        #[trigger] self.pools@[q].workers[j],
                    ),
            decreases self.pools@.len() - p,
        {
            let ws = self.pools.workers(p);
            let mut i: usize = 0;
            while i < ws.len()
                invariant
                    p < self.pools@.len(),
                    i <= ws@.len(),
                    ws@ == self.pools@[p as int].workers,
                    self.wf(),
                    f == (|w: Worker| shows(self.active_clients, w, now)),
                    forall|j: int| 0 <= j < i ==> f(#[trigger] ws@[j]),
                decreases ws@.len() - i,
            {
                if !self.can_show_worker(&ws[i], now) {
                    assert(pools::in_range(self.pools@, p as int, i as int));
                    assert(!f(self.pools@[p as int].workers[i as int]));
                    return false;
                }
                i = i + 1;
            }
            p = p + 1;
        }
        true
    }
}

// ---------------------------------------------------------------------
// Memory
// ---------------------------------------------------------------------

pub open spec fn mem_sum(ws: Seq<Worker>) -> nat
    decreases ws.len(),
{
    if ws.len() == 0 {
        0
    } else {
        mem_sum(ws.drop_last()) + ws.last().mem_bytes as nat
    }
}

proof fn lemma_mem_sum(a: Seq<Worker>, b: Seq<Worker>)
    ensures
        mem_sum(a + b) == mem_sum(a) + mem_sum(b),
    decreases b.len(),
{
    if b.len() == 0 {
        assert(a + b =~= a);
    } else {
        lemma_mem_sum(a, b.drop_last());
        assert((a + b).drop_last() =~= a + b.drop_last());
    }
}

proof fn lemma_mem_grows(s: Seq<PoolView>, n: int)
    requires
        0 <= n <= s.len(),
    ensures
        mem_sum(pools::flat(s.take(n))) <= mem_sum(pools::flat(s)),
    decreases s.len(),
{
    if n < s.len() {
        assert(s.drop_last().take(n) =~= s.take(n));
        lemma_mem_grows(s.drop_last(), n);
        lemma_mem_sum(pools::flat(s.drop_last()), s.last().workers);
    } else {
        assert(s.take(n) =~= s);
    }
}

impl Conductor {
    /// The memory of all workers.
    pub open spec fn mem_total(&self) -> nat {
        mem_sum(pools::flat(self.pools@)) + (match self.reserve {
            Some(r) => r.mem_bytes as nat,
            None => 0,
        })
    }

    /// The memory of all workers, where sixty-four bits hold it.
    pub fn total_mem(&self) -> (r: Option<u64>)
        ensures
            match r {
                Some(n) => n == self.mem_total(),
                None => self.mem_total() > u64::MAX,
            },
    {
        let ghost s = self.pools@;
        let mut total: u64 = match &self.reserve {
            Some(r) => r.mem_bytes,
            None => 0,
        };
        let ghost kept = total as nat;
        let mut p: usize = 0;
        assert(s.take(0) =~= Seq::empty());
        while p < self.pools.len()
            invariant
                p <= s.len(),
                s == self.pools@,
                self.mem_total() == mem_sum(pools::flat(s)) + kept,
                total == mem_sum(pools::flat(s.take(p as int))) + kept,
            decreases s.len() - p,
        {
            let ws = self.pools.workers(p);
            let ghost before = mem_sum(pools::flat(s.take(p as int)));
            let mut i: usize = 0;
            proof {
                assert(ws@.take(0) =~= Seq::empty());
                assert(s.take(p + 1).drop_last() =~= s.take(p as int));
                lemma_mem_sum(pools::flat(s.take(p as int)), ws@);
                lemma_mem_grows(s, p + 1);
            }
            while i < ws.len()
                invariant
                    i <= ws@.len(),
                    self.mem_total() >= before + mem_sum(ws@) + kept,
                    total == before + mem_sum(ws@.take(i as int)) + kept,
                decreases ws@.len() - i,
            {
                let more: u64 = ws[i].mem_bytes;
                proof {
                    assert(ws@.take(i + 1).drop_last() =~= ws@.take(i as int));
                    assert(ws@.take(i + 1) + ws@.skip(i + 1) =~= ws@);
                    lemma_mem_sum(ws@.take(i + 1), ws@.skip(i + 1));
                }
                if more > u64::MAX - total {
                    return None;
                }
                total = total + more;
                i = i + 1;
            }
            assert(ws@.take(i as int) =~= ws@);
            p = p + 1;
        }
        assert(s.take(p as int) =~= s);
        Some(total)
    }
}

} // verus!
