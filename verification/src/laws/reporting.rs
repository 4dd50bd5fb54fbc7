//! What the reports on workers and clients tell.

use crate::args;
use crate::clients::ActiveClients;
use crate::conductor::Conductor;
use crate::numeric;
use crate::pools::PoolView;
use crate::render;
use crate::render::Gauge;
use crate::report;
use crate::status;
use crate::text;
use crate::worker::Worker;
use vstd::prelude::*;

verus! {

/// `x` stands in `s` from `i` on.
pub open spec fn is_at(s: Seq<char>, x: Seq<char>, i: int) -> bool {
    0 <= i && i + x.len() <= s.len() && s.subrange(i, i + x.len()) == x
}

/// `s` tells `x` somewhere.
pub open spec fn tells(s: Seq<char>, x: Seq<char>) -> bool {
    exists|i: int| #[trigger] is_at(s, x, i)
}

/// With the next two pieces a text tells what it told, and the two together.
proof fn lemma_tells_more(s: Seq<char>, name: Seq<char>, value: Seq<char>)
    ensures
        tells(s + name + value, name + value),
        forall|x: Seq<char>| #[trigger] tells(s, x) ==> tells(s + name + value, x),
{
    let all = s + name + value;
    let n = s.len() as int;
    assert(all.subrange(n, n + (name + value).len()) =~= name + value);
    assert(is_at(all, name + value, n));
    assert forall|x: Seq<char>| #[trigger] tells(s, x) implies tells(all, x) by {
        let i = choose|i: int| #[trigger] is_at(s, x, i);
        assert(all.subrange(i, i + x.len()) =~= s.subrange(i, i + x.len()));
        assert(is_at(all, x, i));
    }
}

proof fn lemma_tells_still(s: Seq<char>, t: Seq<char>)
    ensures
        forall|x: Seq<char>| #[trigger] tells(s, x) ==> tells(s + t, x),
{
    let none = Seq::<char>::empty();
    lemma_tells_more(s, t, none);
    assert(s + t + none =~= s + t);
}

/// The report on a worker tells each of its properties under its name.
pub proof fn law_workers_are_reported(
    a: ActiveClients,
    key: Seq<char>,
    w: Worker,
    g: Gauge,
    now: int,
)
    ensures
        ({
            let r = report::worker_json(a, key, w, g, now);
            &&& tells(r, "{\"id\":"@ + numeric::decimal(w.id as nat))
            &&& tells(r, ",\"pool_key\":"@ + status::json_text(key))
            &&& tells(
                r,
                ",\"session_label\":"@ + status::json_opt_text(text::opt_view(w.session_label)),
            )
            &&& tells(
                r,
                ",\"julia_channel\":"@ + status::json_opt_text(text::opt_view(w.julia_channel)),
            )
            &&& tells(r, ",\"threads\":"@ + report::threads_json(w.threads@))
            &&& tells(r, ",\"interactive\":"@ + report::bool_text(w.interactive))
            &&& tells(r, ",\"sandboxed\":"@ + report::bool_text(w.sandboxed))
            &&& tells(r, ",\"created_at\":"@ + numeric::signed(w.created_at as int))
            &&& tells(r, ",\"last_active\":"@ + numeric::signed(w.last_active as int))
            &&& tells(r, ",\"active_clients\":"@ + numeric::decimal(w.active_clients as nat))
            &&& tells(r, ",\"mem_bytes\":"@ + numeric::decimal(w.mem_bytes as nat))
            &&& tells(r, ",\"cpu_pct\":"@ + g.cpu_fine@)
            &&& tells(
                r,
                ",\"clients\":["@ + report::comma_joined(
                    report::clients_json(render::attachments(a, w.id, now)),
                ),
            )
        }),
{
    let none = Seq::<char>::empty();
    let s0 = none;
    lemma_tells_more(s0, "{\"id\":"@, numeric::decimal(w.id as nat));
    let s1 = "{\"id\":"@ + numeric::decimal(w.id as nat);
    assert(s0 + "{\"id\":"@ + numeric::decimal(w.id as nat) =~= s1);
    let v2 = status::json_text(key);
    lemma_tells_more(s1, ",\"pool_key\":"@, v2);
    let s2 = s1 + ",\"pool_key\":"@ + v2;
    let v3 = status::json_opt_text(text::opt_view(w.session_label));
    lemma_tells_more(s2, ",\"session_label\":"@, v3);
    let s3 = s2 + ",\"session_label\":"@ + v3;
    let v4 = status::json_opt_text(text::opt_view(w.julia_channel));
    lemma_tells_more(s3, ",\"julia_channel\":"@, v4);
    let s4 = s3 + ",\"julia_channel\":"@ + v4;
    let v5 = report::threads_json(w.threads@);
    lemma_tells_more(s4, ",\"threads\":"@, v5);
    let s5 = s4 + ",\"threads\":"@ + v5;
    let v6 = report::bool_text(w.interactive);
    lemma_tells_more(s5, ",\"interactive\":"@, v6);
    let s6 = s5 + ",\"interactive\":"@ + v6;
    let v7 = report::bool_text(w.sandboxed);
    lemma_tells_more(s6, ",\"sandboxed\":"@, v7);
    let s7 = s6 + ",\"sandboxed\":"@ + v7;
    let v8 = numeric::signed(w.created_at as int);
    lemma_tells_more(s7, ",\"created_at\":"@, v8);
    let s8 = s7 + ",\"created_at\":"@ + v8;
    let v9 = numeric::signed(w.last_active as int);
    lemma_tells_more(s8, ",\"last_active\":"@, v9);
    let s9 = s8 + ",\"last_active\":"@ + v9;
    let v10 = numeric::decimal(w.active_clients as nat);
    lemma_tells_more(s9, ",\"active_clients\":"@, v10);
    let s10 = s9 + ",\"active_clients\":"@ + v10;
    let v11 = numeric::decimal(w.mem_bytes as nat);
    lemma_tells_more(s10, ",\"mem_bytes\":"@, v11);
    let s11 = s10 + ",\"mem_bytes\":"@ + v11;
    let v12 = g.cpu_fine@;
    lemma_tells_more(s11, ",\"cpu_pct\":"@, v12);
    let s12 = s11 + ",\"cpu_pct\":"@ + v12;
    let v13 = report::comma_joined(report::clients_json(render::attachments(a, w.id, now)));
    lemma_tells_more(s12, ",\"clients\":["@, v13);
    let s13 = s12 + ",\"clients\":["@ + v13;
    lemma_tells_still(s13, "]}"@);
    assert(report::worker_json(a, key, w, g, now) == s13 + "]}"@);
}

/// The report on a client tells its process and for how long it is attached.
pub proof fn law_clients_are_reported(pid: u32, secs: int)
    ensures
        tells(report::client_json((pid, secs)), "{\"pid\":"@ + numeric::decimal(pid as nat)),
        tells(report::client_json((pid, secs)), ",\"attached_seconds\":"@ + numeric::signed(secs)),
{
    let none = Seq::<char>::empty();
    let s1 = "{\"pid\":"@ + numeric::decimal(pid as nat);
    lemma_tells_more(none, "{\"pid\":"@, numeric::decimal(pid as nat));
    assert(none + "{\"pid\":"@ + numeric::decimal(pid as nat) =~= s1);
    lemma_tells_more(s1, ",\"attached_seconds\":"@, numeric::signed(secs));
    let s2 = s1 + ",\"attached_seconds\":"@ + numeric::signed(secs);
    lemma_tells_still(s2, "}"@);
}

/// The report on the reserve tells of it, or that there is none.
pub proof fn law_the_reserve_is_reported(w: Worker)
    ensures
        report::reserve_json(None) == "null"@,
        ({
            let r = report::reserve_json(Some(w));
            &&& tells(r, "{\"id\":"@ + numeric::decimal(w.id as nat))
            &&& tells(
                r,
                ",\"julia_channel\":"@ + status::json_opt_text(text::opt_view(w.julia_channel)),
            )
            &&& tells(r, ",\"threads\":"@ + report::threads_json(w.threads@))
            &&& tells(r, ",\"mem_bytes\":"@ + numeric::decimal(w.mem_bytes as nat))
        }),
{
    let none = Seq::<char>::empty();
    let s1 = "{\"id\":"@ + numeric::decimal(w.id as nat);
    lemma_tells_more(none, "{\"id\":"@, numeric::decimal(w.id as nat));
    assert(none + "{\"id\":"@ + numeric::decimal(w.id as nat) =~= s1);
    let v2 = status::json_opt_text(text::opt_view(w.julia_channel));
    lemma_tells_more(s1, ",\"julia_channel\":"@, v2);
    let s2 = s1 + ",\"julia_channel\":"@ + v2;
    let v3 = report::threads_json(w.threads@);
    lemma_tells_more(s2, ",\"threads\":"@, v3);
    let s3 = s2 + ",\"threads\":"@ + v3;
    let v4 = numeric::decimal(w.mem_bytes as nat);
    lemma_tells_more(s3, ",\"mem_bytes\":"@, v4);
    let s4 = s3 + ",\"mem_bytes\":"@ + v4;
    lemma_tells_still(s4, "}"@);
}

/// The report tells of all workers, the reserve, the number of clients, the
/// times that workers may idle, and what is watched.
pub proof fn law_the_whole_is_reported(c: Conductor, gauges: Seq<Gauge>, now: int)
    ensures
        ({
            let r = report::status_json(c, gauges, now);
            &&& tells(
                r,
                "{\"workers\":["@ + report::comma_joined(
                    report::pools_json(c.active_clients, c.pools@, c.pools@.len(), gauges, now),
                ),
            )
            &&& tells(r, "],\"reserve\":"@ + report::reserve_json(c.reserve))
            &&& tells(
                r,
                ",\"totals\":{\"clients\":"@ + numeric::decimal(c.active_clients.count()),
            )
            &&& tells(r, "},\"min_ttl\":"@ + numeric::decimal(c.config.min_ttl as nat))
            &&& tells(r, ",\"max_ttl\":"@ + numeric::decimal(c.config.max_ttl as nat))
            &&& tells(r, ",\"label_ttl\":"@ + numeric::decimal(c.config.label_ttl as nat))
            &&& tells(r, ",\"worker_args\":"@ + status::json_text(c.config.worker_args@))
            &&& tells(
                r,
                ",\"pressure\":{\"source\":"@ + status::json_text(
                    crate::pressure::name_of(c.pressure.looks_at()),
                ),
            )
            &&& tells(
                r,
                ",\"active\":"@ + report::bool_text(
                    c.pressure.looks_at() != crate::pressure::Source::Nowhere,
                ),
            )
        }),
{
    let none = Seq::<char>::empty();
    let v1 = report::comma_joined(
        report::pools_json(c.active_clients, c.pools@, c.pools@.len(), gauges, now),
    );
    let s1 = "{\"workers\":["@ + v1;
    lemma_tells_more(none, "{\"workers\":["@, v1);
    assert(none + "{\"workers\":["@ + v1 =~= s1);
    let v2 = report::reserve_json(c.reserve);
    lemma_tells_more(s1, "],\"reserve\":"@, v2);
    let s2 = s1 + "],\"reserve\":"@ + v2;
    let v3 = numeric::decimal(c.active_clients.count());
    lemma_tells_more(s2, ",\"totals\":{\"clients\":"@, v3);
    let s3 = s2 + ",\"totals\":{\"clients\":"@ + v3;
    let v4 = numeric::decimal(c.config.min_ttl as nat);
    lemma_tells_more(s3, "},\"min_ttl\":"@, v4);
    let s4 = s3 + "},\"min_ttl\":"@ + v4;
    let v5 = numeric::decimal(c.config.max_ttl as nat);
    lemma_tells_more(s4, ",\"max_ttl\":"@, v5);
    let s5 = s4 + ",\"max_ttl\":"@ + v5;
    let v6 = numeric::decimal(c.config.label_ttl as nat);
    lemma_tells_more(s5, ",\"label_ttl\":"@, v6);
    let s6 = s5 + ",\"label_ttl\":"@ + v6;
    let v7 = status::json_text(c.config.worker_args@);
    lemma_tells_more(s6, ",\"worker_args\":"@, v7);
    let s7 = s6 + ",\"worker_args\":"@ + v7;
    let v8 = status::json_text(crate::pressure::name_of(c.pressure.looks_at()));
    lemma_tells_more(s7, ",\"pressure\":{\"source\":"@, v8);
    let s8 = s7 + ",\"pressure\":{\"source\":"@ + v8;
    let v9 = report::bool_text(c.pressure.looks_at() != crate::pressure::Source::Nowhere);
    lemma_tells_more(s8, ",\"active\":"@, v9);
    let s9 = s8 + ",\"active\":"@ + v9;
    lemma_tells_still(s9, "}}"@);
}

/// Every worker of every pool is reported, with its own measurements.
pub proof fn law_no_worker_is_left_out(
    a: ActiveClients,
    s: Seq<PoolView>,
    n: nat,
    gauges: Seq<Gauge>,
    now: int,
    p: int,
    i: int,
)
    requires
        0 <= p < n <= s.len(),
        0 <= i < s[p].workers.len(),
    ensures
        report::pools_json(a, s, n, gauges, now).contains(
            report::worker_json(
                a,
                s[p].key,
                s[p].workers[i],
                render::gauge_of(gauges, s[p].workers[i].id),
                now,
            ),
        ),
    decreases n,
{
    let x = report::worker_json(
        a,
        s[p].key,
        s[p].workers[i],
        render::gauge_of(gauges, s[p].workers[i].id),
        now,
    );
    let front = report::pools_json(a, s, (n - 1) as nat, gauges, now);
    let all = report::pools_json(a, s, n, gauges, now);
    if p < n - 1 {
        law_no_worker_is_left_out(a, s, (n - 1) as nat, gauges, now, p, i);
        let k = front.index_of(x);
        assert(all[k] == x);
    } else {
        assert(all[front.len() + i] == x);
    }
}

/// Reports follow each other with commas between them.
pub proof fn law_commas_between(items: Seq<Seq<char>>, x: Seq<char>)
    ensures
        report::comma_joined(Seq::empty()) == Seq::<char>::empty(),
        report::comma_joined(seq![x]) == x,
        items.len() > 0 ==> report::comma_joined(items.push(x)) == report::comma_joined(items)
            + ","@ + x,
        report::bool_text(true) == "true"@,
        report::bool_text(false) == "false"@,
{
    assert(items.push(x).drop_last() =~= items);
}

/// The measurements of a worker are the first that are of it.
pub proof fn law_measurements_are_of_the_worker(gauges: Seq<Gauge>, id: u32, i: int)
    requires
        0 <= i < gauges.len(),
        gauges[i].worker_id == id,
        forall|j: int| 0 <= j < i ==> (#[trigger] gauges[j]).worker_id != id,
    ensures
        render::gauge_of(gauges, id) == gauges[i],
    decreases i,
{
    if i > 0 {
        assert(gauges[0].worker_id != id);
        let rest = gauges.drop_first();
        assert forall|j: int| 0 <= j < i - 1 implies (#[trigger] rest[j]).worker_id != id by {
            assert(gauges[j + 1].worker_id != id);
        }
        assert(rest[i - 1] == gauges[i]);
        law_measurements_are_of_the_worker(rest, id, i - 1);
    }
}

/// A client is attached for the whole seconds since it came.
pub proof fn law_whole_seconds_count(now: int, start: int, secs: int, more: int)
    requires
        0 <= secs,
        0 <= more < 1_000_000,
        now * 1_000_000 == start + secs * 1_000_000 + more,
    ensures
        render::attached_secs(now, start) == secs,
{
    let n = secs * 1_000_000 + more;
    assert(n / 1_000_000 == secs);
}

// ---------------------------------------------------------------------
// The status for a terminal
// ---------------------------------------------------------------------

/// A worker is shown with its number, and with its session, channel, threads
/// and kind where it has them.
pub proof fn law_what_is_shown_of_a_worker(w: Worker)
    ensures
        ({
            let r = render::identity_text(w);
            &&& tells(r, " #"@ + numeric::decimal(w.id as nat))
            &&& w.session_label matches Some(l) ==> tells(r, " ["@ + l@ + "]"@)
            &&& w.julia_channel matches Some(l) ==> tells(r, " "@ + l@)
            &&& w.interactive ==> tells(r, " (interactive)"@)
            &&& args::threads_text(w.threads@) matches Some(t) ==> tells(
                r,
                " (threads="@ + t + ")"@,
            )
            &&& w.sandboxed ==> tells(r, " (remote)"@)
        }),
{
    let none = Seq::<char>::empty();
    reveal_strlit("");
    assert(""@ =~= none);
    let s1 = render::dot_text(w) + " #"@ + numeric::decimal(w.id as nat);
    lemma_tells_more(render::dot_text(w), " #"@, numeric::decimal(w.id as nat));
    let p2 = render::where_given(" ["@, text::opt_view(w.session_label), "]"@);
    lemma_tells_more(s1, p2, none);
    let s2 = s1 + p2;
    assert(s1 + p2 + none =~= s2 && p2 + none =~= p2);
    let p3 = render::where_given(" "@, text::opt_view(w.julia_channel), ""@);
    lemma_tells_more(s2, p3, none);
    let s3 = s2 + p3;
    assert(s2 + p3 + none =~= s3 && p3 + none =~= p3);
    if let Some(l) = w.julia_channel {
        assert(p3 =~= " "@ + l@);
    }
    let p4 = render::where_true(w.interactive, " (interactive)"@);
    lemma_tells_more(s3, p4, none);
    let s4 = s3 + p4;
    assert(s3 + p4 + none =~= s4 && p4 + none =~= p4);
    let p5 = render::where_given(" (threads="@, args::threads_text(w.threads@), ")"@);
    lemma_tells_more(s4, p5, none);
    let s5 = s4 + p5;
    assert(s4 + p5 + none =~= s5 && p5 + none =~= p5);
    let p6 = render::where_true(w.sandboxed, " (remote)"@);
    lemma_tells_more(s5, p6, none);
    let s6 = s5 + p6;
    assert(s5 + p6 + none =~= s6 && p6 + none =~= p6);
    assert(render::identity_text(w) == s6);
}

/// A worker without a client is shown with the time since its last one. Where
/// memory is watched, one that may go is shown with the time that it has left.
pub proof fn law_what_is_shown_of_idle_workers(
    w: Worker,
    g: Gauge,
    pressed: bool,
    limits: crate::selection::Limits,
    now: i64,
)
    ensures
        w.active_clients > 0 ==> render::outlook_text(w, g, pressed, limits, now) == Seq::<
            char,
        >::empty(),
        w.active_clients == 0 && !pressed ==> tells(
            render::outlook_text(w, g, pressed, limits, now),
            "idle "@ + status::duration_text(now - w.last_active),
        ),
        w.active_clients == 0 && pressed && w.session_label is None ==> tells(
            render::outlook_text(w, g, pressed, limits, now),
            "culls in "@ + status::duration_text(g.remaining as int),
        ),
{
    reveal_strlit("idle ");
    reveal_strlit("  \u{1b}[2midle ");
    reveal_strlit("culls in ");
    reveal_strlit("% \u{b7} culls in ");
    let idle = status::duration_text(now - w.last_active);
    let head = "  \u{1b}[2midle "@;
    let n = head.len() - "idle "@.len();
    assert(head.skip(n) =~= "idle "@);
    let a = head + idle + "\u{1b}[0m"@;
    assert(a.subrange(n, n + ("idle "@ + idle).len()) =~= "idle "@ + idle);
    assert(is_at(a, "idle "@ + idle, n));
    let left = status::duration_text(g.remaining as int);
    let front = "  \u{1b}[2mactivity "@ + g.activity@;
    let mid = "% \u{b7} culls in "@;
    let m = front.len() + mid.len() - "culls in "@.len();
    assert(mid.skip(mid.len() - "culls in "@.len()) =~= "culls in "@);
    let b = front + mid + left + "\u{1b}[0m"@;
    assert(b.subrange(m, m + ("culls in "@ + left).len()) =~= "culls in "@ + left);
    assert(is_at(b, "culls in "@ + left, m));
}

/// Pools are shown in the order of their keys.
pub proof fn law_keys_are_ordered_by_their_first_difference(
    common: Seq<char>,
    a: char,
    b: char,
    x: Seq<char>,
    y: Seq<char>,
)
    requires
        (a as u32) < (b as u32),
    ensures
        render::lex_less(common + seq![a] + x, common + seq![b] + y),
        !render::lex_less(common + seq![b] + y, common + seq![a] + x),
        render::lex_less(common, common + seq![a] + x),
        !render::lex_less(common + seq![a] + x, common),
    decreases common.len(),
{
    let s = common + seq![a] + x;
    let t = common + seq![b] + y;
    if common.len() > 0 {
        let rest = common.drop_first();
        law_keys_are_ordered_by_their_first_difference(rest, a, b, x, y);
        assert(s.drop_first() =~= rest + seq![a] + x);
        assert(t.drop_first() =~= rest + seq![b] + y);
        assert(s[0] == common[0] && t[0] == common[0]);
    } else {
        assert(s[0] == a && t[0] == b);
    }
}

/// A worker's line tells how long it is up, its memory and its share of a
/// processor.
pub proof fn law_what_a_workers_line_tells(
    c: Conductor,
    w: Worker,
    gauges: Seq<Gauge>,
    now: i64,
    prefix: Seq<char>,
)
    ensures
        ({
            let r = c.worker_lines(w, gauges, now, prefix);
            let g = render::gauge_of(gauges, w.id);
            &&& tells(r, prefix + status::left(render::identity_text(w), 34))
            &&& tells(r, " up "@ + status::left(status::duration_text(now - w.created_at), 7))
            &&& tells(r, " "@ + status::right(g.mem@, 8))
            &&& tells(r, "  "@ + status::right(g.cpu@, 5))
            &&& tells(
                r,
                "%"@ + render::outlook_text(
                    w,
                    g,
                    c.pressure.looks_at() != crate::pressure::Source::Nowhere,
                    c.limit(),
                    now,
                ),
            )
        }),
{
    let none = Seq::<char>::empty();
    let g = render::gauge_of(gauges, w.id);
    let clients = render::attachments(c.active_clients, w.id, now as int);
    let v1 = status::left(render::identity_text(w), 34);
    let s1 = prefix + v1;
    lemma_tells_more(none, prefix, v1);
    assert(none + prefix + v1 =~= s1);
    let v2 = status::left(status::duration_text(now - w.created_at), 7);
    lemma_tells_more(s1, " up "@, v2);
    let s2 = s1 + " up "@ + v2;
    let v3 = status::right(g.mem@, 8);
    lemma_tells_more(s2, " "@, v3);
    let s3 = s2 + " "@ + v3;
    let v4 = status::right(g.cpu@, 5);
    lemma_tells_more(s3, "  "@, v4);
    let s4 = s3 + "  "@ + v4;
    let v5 = render::outlook_text(
        w,
        g,
        c.pressure.looks_at() != crate::pressure::Source::Nowhere,
        c.limit(),
        now,
    );
    lemma_tells_more(s4, "%"@, v5);
    let s5 = s4 + "%"@ + v5;
    let v6 = render::client_lines(clients, clients.len());
    lemma_tells_more(s5, "\n"@, v6);
}

/// All memory is that of each worker together.
pub proof fn law_memory_is_added_up(ws: Seq<Worker>, w: Worker)
    ensures
        render::mem_sum(Seq::empty()) == 0,
        render::mem_sum(ws.push(w)) == render::mem_sum(ws) + w.mem_bytes,
{
    assert(ws.push(w).drop_last() =~= ws);
}

/// The first line counts workers, reserve and clients, and the last one tells
/// what workers are started with.
pub proof fn law_what_the_status_tells(
    c: Conductor,
    gauges: Seq<Gauge>,
    total: Seq<char>,
    now: i64,
    home: Option<Seq<char>>,
)
    ensures
        ({
            let r = c.status_text(gauges, total, now, home);
            &&& tells(
                r,
                "Julia Daemon Conductor \u{2014} "@ + numeric::decimal(
                    crate::pools::flat(c.pools@).len(),
                ),
            )
            &&& tells(
                r,
                " worker(s), "@ + (if c.reserve is Some {
                    "1"@
                } else {
                    "0"@
                }),
            )
            &&& tells(r, " reserve, "@ + numeric::decimal(c.active_clients.count()))
            &&& tells(r, " client(s), "@ + total)
            &&& tells(r, "worker_args: "@ + c.config.worker_args@)
        }),
{
    let none = Seq::<char>::empty();
    let n1 = "Julia Daemon Conductor \u{2014} "@;
    let v1 = numeric::decimal(crate::pools::flat(c.pools@).len());
    let s1 = n1 + v1;
    lemma_tells_more(none, n1, v1);
    assert(none + n1 + v1 =~= s1);
    let v2 = if c.reserve is Some {
        "1"@
    } else {
        "0"@
    };
    lemma_tells_more(s1, " worker(s), "@, v2);
    let s2 = s1 + " worker(s), "@ + v2;
    let v3 = numeric::decimal(c.active_clients.count());
    lemma_tells_more(s2, " reserve, "@, v3);
    let s3 = s2 + " reserve, "@ + v3;
    lemma_tells_more(s3, " client(s), "@, total);
    let s4 = s3 + " client(s), "@ + total;
    let v5 = if c.pressure.looks_at() != crate::pressure::Source::Nowhere {
        "\u{1b}[33mpressure source: "@ + crate::pressure::name_of(c.pressure.looks_at())
            + "\u{1b}[0m\n"@
    } else {
        none
    };
    lemma_tells_more(s4, " total\n"@, v5);
    let s5 = s4 + " total\n"@ + v5;
    let v6 = c.in_order(gauges, now, home);
    lemma_tells_more(s5, "\n"@, v6);
    let s6 = s5 + "\n"@ + v6;
    let v7 = match c.reserve {
        Some(r) => "\u{1b}[32mreserve\u{1b}[0m\n"@ + c.worker_lines(
            r,
            gauges,
            now,
            "\u{2570}\u{2500} "@,
        ) + "\n"@,
        None => none,
    };
    lemma_tells_still(s6, v7);
    let s7 = s6 + v7;
    lemma_tells_more(s7, "worker_args: "@, c.config.worker_args@);
    let s8 = s7 + "worker_args: "@ + c.config.worker_args@;
    lemma_tells_still(s8, "\n"@);
    assert(c.status_text(gauges, total, now, home) == s8 + "\n"@);
}

/// A worker that is being asked is marked in yellow, one with clients in
/// green, and an idle one faintly.
pub proof fn law_marks_of_workers(w: Worker)
    ensures
        w.ping_pending ==> render::dot_text(w) == "\u{1b}[33m\u{25cf}\u{1b}[0m"@,
        !w.ping_pending && w.active_clients > 0 ==> render::dot_text(w)
            == "\u{1b}[32m\u{25cf}\u{1b}[0m"@,
        !w.ping_pending && w.active_clients == 0 ==> render::dot_text(w)
            == "\u{1b}[2m\u{25cc}\u{1b}[0m"@,
{
}

/// Every client of a worker has its line.
pub proof fn law_every_client_has_its_line(clients: Seq<(u32, int)>, n: nat, k: int)
    requires
        0 <= k < n <= clients.len(),
    ensures
        tells(
            render::client_lines(clients, n),
            " pid "@ + numeric::decimal(clients[k].0 as nat) + " attached "@
                + status::duration_text(clients[k].1) + "\n"@,
        ),
    decreases n,
{
    let front = render::client_lines(clients, (n - 1) as nat);
    let (pid, secs) = clients[n - 1];
    let bar = "\u{2502}  "@;
    let branch = if n == clients.len() {
        "\u{2570}\u{2500}"@
    } else {
        "\u{251c}\u{2500}"@
    };
    let a = " pid "@;
    let b = numeric::decimal(pid as nat);
    let c = " attached "@;
    let d = status::duration_text(secs);
    let e = "\n"@;
    let line = a + b + c + d + e;
    let all = front + bar + branch + a + b + c + d + e;
    assert(all =~= front + (bar + branch) + line);
    lemma_tells_more(front, bar + branch, line);
    if k == n - 1 {
        let at = front.len() + bar.len() + branch.len() as int;
        assert(all.subrange(at, at + line.len()) =~= line);
        assert(is_at(all, line, at));
    } else {
        law_every_client_has_its_line(clients, (n - 1) as nat, k);
    }
}

/// Every worker of a pool has its line, the last one with a mark of its own.
pub proof fn law_every_worker_has_its_line(
    c: Conductor,
    ws: Seq<Worker>,
    n: nat,
    gauges: Seq<Gauge>,
    now: i64,
    k: int,
)
    requires
        0 <= k < n <= ws.len(),
    ensures
        tells(
            c.workers_lines(ws, n, gauges, now),
            c.worker_lines(
                ws[k],
                gauges,
                now,
                if k + 1 == ws.len() {
                    "\u{2570}\u{2500} "@
                } else {
                    "\u{251c}\u{2500} "@
                },
            ),
        ),
    decreases n,
{
    let none = Seq::<char>::empty();
    let front = c.workers_lines(ws, (n - 1) as nat, gauges, now);
    let line = c.worker_lines(
        ws[n - 1],
        gauges,
        now,
        if n == ws.len() {
            "\u{2570}\u{2500} "@
        } else {
            "\u{251c}\u{2500} "@
        },
    );
    lemma_tells_more(front, none, line);
    assert(front + none + line =~= front + line);
    assert(none + line =~= line);
    if k < n - 1 {
        law_every_worker_has_its_line(c, ws, (n - 1) as nat, gauges, now, k);
    }
}

/// A pool is shown under its heading, with all its workers; an empty one is
/// not shown.
pub proof fn law_how_a_pool_is_shown(
    c: Conductor,
    pool: PoolView,
    gauges: Seq<Gauge>,
    now: i64,
    home: Option<Seq<char>>,
)
    ensures
        pool.workers.len() == 0 ==> c.pool_lines(pool, gauges, now, home) == Seq::<char>::empty(),
        pool.workers.len() > 0 ==> {
            &&& tells(
                c.pool_lines(pool, gauges, now, home),
                "\u{1b}[32m"@ + status::key_heading(pool.key, home),
            )
            &&& tells(
                c.pool_lines(pool, gauges, now, home),
                c.workers_lines(pool.workers, pool.workers.len(), gauges, now),
            )
            &&& status::key_channel(pool.key) matches Some(ch) ==> tells(
                c.pool_lines(pool, gauges, now, home),
                " ["@ + ch + "]"@,
            )
        },
{
    let none = Seq::<char>::empty();
    let h = status::key_heading(pool.key, home);
    let s1 = "\u{1b}[32m"@ + h;
    lemma_tells_more(none, "\u{1b}[32m"@, h);
    assert(none + "\u{1b}[32m"@ + h =~= s1);
    let ch = render::where_given(" ["@, status::key_channel(pool.key), "]"@);
    lemma_tells_more(s1, ch, none);
    let s2 = s1 + ch;
    assert(s1 + ch + none =~= s2 && ch + none =~= ch);
    lemma_tells_still(s2, "\u{1b}[0m\n"@);
    let s3 = s2 + "\u{1b}[0m\n"@;
    let ws = c.workers_lines(pool.workers, pool.workers.len(), gauges, now);
    lemma_tells_more(s3, ws, none);
    let s4 = s3 + ws;
    assert(s3 + ws + none =~= s4 && ws + none =~= ws);
    lemma_tells_still(s4, "\n"@);
}

/// A frame is drawn over the one before: the cursor goes up by as many lines
/// as that had, and what is below is cleared first.
pub proof fn law_frames_are_drawn_over(n: nat, frame: Seq<char>)
    ensures
        status::redraw_text(0, frame) == "\u{1b}[?2026h"@ + "\u{1b}[0J"@ + frame
            + "\u{1b}[?2026l"@,
        n > 0 ==> status::redraw_text(n, frame) == "\u{1b}[?2026h"@ + "\u{1b}["@
            + numeric::decimal(n) + "F"@ + "\u{1b}[0J"@ + frame + "\u{1b}[?2026l"@,
{
    let a = "\u{1b}[?2026h"@;
    let none = Seq::<char>::empty();
    assert(a + none =~= a);
    let up = "\u{1b}["@ + numeric::decimal(n) + "F"@;
    assert(a + up =~= a + "\u{1b}["@ + numeric::decimal(n) + "F"@);
}

proof fn lemma_pools_shown(
    c: Conductor,
    order: Seq<int>,
    n: nat,
    gauges: Seq<Gauge>,
    now: i64,
    home: Option<Seq<char>>,
    k: int,
)
    requires
        0 <= k < n <= order.len(),
    ensures
        tells(
            c.pools_lines(order, n, gauges, now, home),
            c.pool_lines(c.pools@[order[k]], gauges, now, home),
        ),
    decreases n,
{
    let none = Seq::<char>::empty();
    let front = c.pools_lines(order, (n - 1) as nat, gauges, now, home);
    let last = c.pool_lines(c.pools@[order[n - 1]], gauges, now, home);
    lemma_tells_more(front, none, last);
    assert(front + none + last =~= front + last);
    assert(none + last =~= last);
    if k < n - 1 {
        lemma_pools_shown(c, order, (n - 1) as nat, gauges, now, home, k);
    }
}

/// Every pool is shown, where there is an order of them.
pub proof fn law_every_pool_is_shown(
    c: Conductor,
    order: Seq<int>,
    gauges: Seq<Gauge>,
    now: i64,
    home: Option<Seq<char>>,
    p: int,
)
    requires
        render::by_key(c.pools@, order),
        0 <= p < c.pools@.len(),
    ensures
        tells(c.in_order(gauges, now, home), c.pool_lines(c.pools@[p], gauges, now, home)),
{
    let s = c.pools@;
    let all = choose|all: Seq<int>| render::by_key(s, all);
    render::law_order_is_unique(s, order, all);
    lemma_place_in_order(s, order, p);
    let k = order.index_of(p);
    lemma_pools_shown(c, order, order.len(), gauges, now, home, k);
}

proof fn lemma_place_in_order(s: Seq<PoolView>, order: Seq<int>, p: int)
    requires
        render::by_key(s, order),
        0 <= p < s.len(),
    ensures
        0 <= order.index_of(p) < order.len(),
        order[order.index_of(p)] == p,
{
    render::lemma_by_key_once(s, order);
    assert(order.contains(p));
}

/// The clients of a worker are told in the order in which they are entered,
/// each with its own time.
pub proof fn law_clients_are_told_with_their_times(a: ActiveClients, id: u32, now: int, i: int)
    requires
        0 <= i < a.listing(id).len(),
    ensures
        render::attachments(a, id, now).len() == a.listing(id).len(),
        render::attachments(a, id, now)[i].0 == a.listing(id)[i],
        now * 1_000_000 >= a@[a.listing(id)[i]].start_time_us ==> {
            let since = now * 1_000_000 - a@[a.listing(id)[i]].start_time_us;
            let secs = render::attachments(a, id, now)[i].1;
            secs * 1_000_000 <= since < (secs + 1) * 1_000_000
        },
{
}

} // verus!
