//! Which worker a client comes to.

use crate::args;
use crate::args::Threads;
use crate::assignment::Chosen;
use crate::conductor::Conductor;
use crate::env_cache;
use crate::numeric;
use crate::pools;
use crate::request;
use crate::request::{ClientPlan, ClientRequest, SandboxMode};
use crate::selection;
use crate::text;
use crate::worker::Worker;
use vstd::prelude::*;

verus! {

// ---------------------------------------------------------------------
// What a request holds
// ---------------------------------------------------------------------

/// Some switch of the request is called `name`.
pub open spec fn asks(q: ClientRequest, name: Seq<char>) -> bool {
    exists|i: int| 0 <= i < q.parsed.switches@.len() && (#[trigger] q.parsed.switches@[i]).name@ == name
}

/// Switch `i` is the last one called `name`.
pub open spec fn asks_last(q: ClientRequest, name: Seq<char>, i: int) -> bool {
    &&& 0 <= i < q.parsed.switches@.len()
    &&& q.parsed.switches@[i].name@ == name
    &&& forall|j: int|
        i < j < q.parsed.switches@.len() ==> (#[trigger] q.parsed.switches@[j]).name@ != name
}

/// The text, or none.
pub open spec fn text_of(s: Option<String>) -> Seq<char> {
    match s {
        Some(t) => t@,
        None => Seq::empty(),
    }
}

pub open spec fn without_nul(s: Seq<char>) -> bool {
    !s.contains('\0')
}

/// The request can be told apart from others by its parts.
pub open spec fn plain_texts(q: ClientRequest) -> bool {
    &&& without_nul(text_of(q.project))
    &&& without_nul(text_of(q.parsed.julia_channel))
    &&& without_nul(q.cwd@)
    &&& text_of(q.project) != "__sandbox__"@
}

proof fn lemma_asks(q: ClientRequest, name: Seq<char>)
    ensures
        q.has(name) == asks(q, name),
{
    let s = q.switches();
    if asks(q, name) {
        let i = choose|i: int|
            0 <= i < q.parsed.switches@.len() && (#[trigger] q.parsed.switches@[i]).name@ == name;
        assert(s[i].0 == name);
    }
    if q.has(name) {
        let i = choose|i: int| 0 <= i < s.len() && (#[trigger] s[i]).0 == name;
        assert(q.parsed.switches@[i].name@ == name);
    }
}

proof fn lemma_asks_last(q: ClientRequest, name: Seq<char>, i: int)
    ensures
        asks_last(q, name, i) ==> q.value(name) == Some(q.parsed.switches@[i].value@),
        !asks(q, name) ==> q.value(name) is None,
{
    let s = q.switches();
    crate::laws::args::law_last_switch_counts(s, name, i);
    if asks_last(q, name, i) {
        assert(s[i].0 == name);
        assert forall|j: int| i < j < s.len() implies (#[trigger] s[j]).0 != name by {
            assert(q.parsed.switches@[j].name@ != name);
        }
    }
    if !asks(q, name) {
        assert forall|j: int| 0 <= j < s.len() implies (#[trigger] s[j]).0 != name by {
            assert(q.parsed.switches@[j].name@ == s[j].0);
        }
    }
}

proof fn lemma_no_nul(s: Seq<char>)
    requires
        without_nul(s),
    ensures
        request::no_nul(s),
{
    assert forall|i: int| 0 <= i < s.len() implies s[i] != '\0' by {
        assert(s.contains(s[i]));
    }
}

// ---------------------------------------------------------------------
// Pools
// ---------------------------------------------------------------------

proof fn lemma_parts(q: ClientRequest, mode: SandboxMode)
    requires
        plain_texts(q),
    ensures
        ({
            let parts = request::key_parts(
                mode,
                q.project_text(),
                q.cwd@,
                q.channel_text(),
                request::packed(q.threads()),
            );
            &&& text::split(q.key(mode), '\0') == parts
            &&& parts[parts.len() - 2] == text_of(q.parsed.julia_channel)
            &&& parts.last() == numeric::decimal(request::packed(q.threads()) as nat)
            &&& mode == SandboxMode::Off ==> parts.len() == 3 && parts[0] == text_of(q.project)
            &&& mode == SandboxMode::Remote ==> parts.len() == 3 && parts[0] == "__sandbox__"@
            &&& mode == SandboxMode::Local ==> parts.len() == 5 && parts[1] == request::rw_mount(
                q.cwd@,
                text_of(q.project),
            ) && parts[2] == request::trimmed(text_of(q.project))
        }),
{
    let parts = request::key_parts(
        mode,
        q.project_text(),
        q.cwd@,
        q.channel_text(),
        request::packed(q.threads()),
    );
    reveal_strlit("__sandbox__");
    reveal_strlit("__lsandbox__");
    lemma_no_nul(text_of(q.project));
    lemma_no_nul(text_of(q.parsed.julia_channel));
    lemma_no_nul(q.cwd@);
    request::lemma_decimal_no_nul(request::packed(q.threads()) as nat);
    request::lemma_trimmed_no_nul(q.project_text());
    request::lemma_trimmed_no_nul(q.cwd@);
    assert forall|i: int| 0 <= i < parts.len() implies request::no_nul(#[trigger] parts[i]) by {}
    request::law_keys_come_apart(parts);
}

/// Two clients are for the same pool only where they need the same workers:
/// confined alike, with the same channel and the same thread counts, and, where
/// they are not confined, for the same project. Those that are confined on this
/// machine have the same project, but for slashes at its end, and may write the
/// same directory.
pub proof fn law_a_pool_serves_one_need(
    q: ClientRequest,
    is_remote: bool,
    remote_confined: bool,
    linux: bool,
    found: Option<u32>,
    r: ClientPlan<String, Threads>,
    other_q: ClientRequest,
    other_is_remote: bool,
    other_remote_confined: bool,
    other_linux: bool,
    other_found: Option<u32>,
    other: ClientPlan<String, Threads>,
)
    requires
        request::plan_view(r) == q.plan(is_remote, remote_confined, linux, found),
        request::plan_view(other) == other_q.plan(
            other_is_remote,
            other_remote_confined,
            other_linux,
            other_found,
        ),
        plain_texts(q),
        plain_texts(other_q),
        r is Assign && other is Assign,
        r->Assign_0@ == other->Assign_0@,
    ensures
        r->Assign_1 == other->Assign_1,
        r->Assign_2@ == other->Assign_2@,
        text_of(q.parsed.julia_channel) == text_of(other_q.parsed.julia_channel),
        r->Assign_1 == SandboxMode::Off ==> text_of(q.project) == text_of(other_q.project),
        r->Assign_1 == SandboxMode::Local ==> request::trimmed(text_of(q.project))
            == request::trimmed(text_of(other_q.project)) && request::rw_mount(
            q.cwd@,
            text_of(q.project),
        ) == request::rw_mount(other_q.cwd@, text_of(other_q.project)),
{
    let (m, n) = (r->Assign_1, other->Assign_1);
    let (s, t) = (r->Assign_2@, other->Assign_2@);
    lemma_parts(q, m);
    lemma_parts(other_q, n);
    assert(s.len() == 2 && t.len() == 2);
    let (a, b) = (request::packed(q.threads()), request::packed(other_q.threads()));
    numeric::law_decimal_injective(a as nat, b as nat);
    assert(s[0] * 0x1_0000 + s[1] == a);
    assert(t[0] * 0x1_0000 + t[1] == b);
    assert(s =~= t);
}

/// Clients that need the same workers share a pool, wherever they are.
pub proof fn law_same_needs_share_a_pool(
    q: ClientRequest,
    is_remote: bool,
    remote_confined: bool,
    linux: bool,
    found: Option<u32>,
    r: ClientPlan<String, Threads>,
    other_q: ClientRequest,
    other_is_remote: bool,
    other_remote_confined: bool,
    other_linux: bool,
    other_found: Option<u32>,
    other: ClientPlan<String, Threads>,
)
    requires
        request::plan_view(r) == q.plan(is_remote, remote_confined, linux, found),
        request::plan_view(other) == other_q.plan(
            other_is_remote,
            other_remote_confined,
            other_linux,
            other_found,
        ),
        r is Assign && other is Assign,
        r->Assign_1 == other->Assign_1,
        r->Assign_2@ == other->Assign_2@,
        text_of(q.parsed.julia_channel) == text_of(other_q.parsed.julia_channel),
        r->Assign_1 != SandboxMode::Remote ==> text_of(q.project) == text_of(other_q.project),
        r->Assign_1 == SandboxMode::Local ==> q.cwd@ == other_q.cwd@,
    ensures
        r->Assign_0@ == other->Assign_0@,
{
}

/// A restart is for the pool from which the client would get its worker.
pub proof fn law_restart_is_for_the_clients_pool(
    q: ClientRequest,
    is_remote: bool,
    remote_confined: bool,
    linux: bool,
    found: Option<u32>,
    r: ClientPlan<String, Threads>,
    other_q: ClientRequest,
    other: ClientPlan<String, Threads>,
)
    requires
        request::plan_view(r) == q.plan(is_remote, remote_confined, linux, found),
        request::plan_view(other) == other_q.plan(is_remote, remote_confined, linux, found),
        r is Restart && other is Assign,
        text_of(q.project) == text_of(other_q.project),
        text_of(q.parsed.julia_channel) == text_of(other_q.parsed.julia_channel),
        q.cwd@ == other_q.cwd@,
        env_cache::var_views(q.env@) == env_cache::var_views(other_q.env@),
        asks(q, "--sandbox"@) == asks(other_q, "--sandbox"@),
        q.value("--threads"@) == other_q.value("--threads"@),
    ensures
        r->Restart_0@ == other->Assign_0@,
{
    lemma_asks(q, "--sandbox"@);
    lemma_asks(other_q, "--sandbox"@);
}

// ---------------------------------------------------------------------
// Threads
// ---------------------------------------------------------------------

/// A client's worker has the threads that its last `--threads` asks for.
pub proof fn law_the_switch_sets_the_threads(
    q: ClientRequest,
    is_remote: bool,
    remote_confined: bool,
    linux: bool,
    found: Option<u32>,
    r: ClientPlan<String, Threads>,
    i: int,
    n: u16,
    m: u16,
)
    requires
        request::plan_view(r) == q.plan(is_remote, remote_confined, linux, found),
        r is Assign,
        asks_last(q, "--threads"@, i),
        n > 0,
    ensures
        q.parsed.switches@[i].value@ == numeric::decimal(n as nat) ==> r->Assign_2@ == seq![n, 0u16],
        q.parsed.switches@[i].value@ == numeric::decimal(n as nat) + seq![','] + numeric::decimal(
            m as nat,
        ) ==> r->Assign_2@ == seq![n, m],
        q.parsed.switches@[i].value@ == "auto"@ ==> r->Assign_2@ == seq![0xffffu16, 0u16],
{
    lemma_asks_last(q, "--threads"@, i);
    crate::laws::args::law_thread_counts(n, m);
    assert(seq![n, 0u16][0] != 0 && seq![n, m][0] != 0 && seq![0xffffu16, 0u16][0] != 0);
    assert(seq![0u16, 0u16][0] == 0);
}

/// Without the switch, the environment decides, and without either the
/// choice is left open.
pub proof fn law_else_the_environment_sets_the_threads(
    q: ClientRequest,
    is_remote: bool,
    remote_confined: bool,
    linux: bool,
    found: Option<u32>,
    r: ClientPlan<String, Threads>,
    i: int,
    n: u16,
    m: u16,
)
    requires
        request::plan_view(r) == q.plan(is_remote, remote_confined, linux, found),
        r is Assign,
        !asks(q, "--threads"@),
    ensures
        0 <= i < q.env@.len() && q.env@[i].key@ == "JULIA_NUM_THREADS"@ && (forall|j: int|
            0 <= j < i ==> (#[trigger] q.env@[j]).key@ != "JULIA_NUM_THREADS"@) ==> {
            &&& q.env@[i].value@ == numeric::decimal(n as nat) ==> r->Assign_2@ == seq![n, 0u16]
            &&& q.env@[i].value@ == numeric::decimal(n as nat) + seq![','] + numeric::decimal(
                m as nat,
            ) ==> r->Assign_2@ == seq![n, m]
        },
        (forall|j: int|
            0 <= j < q.env@.len() ==> (#[trigger] q.env@[j]).key@ != "JULIA_NUM_THREADS"@)
            ==> r->Assign_2@ == seq![0u16, 0u16],
{
    lemma_asks_last(q, "--threads"@, 0);
    crate::laws::args::law_thread_counts(n, m);
    let vars = env_cache::var_views(q.env@);
    lemma_first_value(vars, "JULIA_NUM_THREADS"@, i);
    assert forall|j: int| 0 <= j < vars.len() implies (#[trigger] vars[j]).0 == q.env@[j].key@ by {}
    if forall|j: int|
        0 <= j < q.env@.len() ==> (#[trigger] q.env@[j]).key@ != "JULIA_NUM_THREADS"@ {
        assert forall|j: int| 0 <= j < vars.len() implies (#[trigger] vars[j]).0
            != "JULIA_NUM_THREADS"@ by {
            assert(q.env@[j].key@ != "JULIA_NUM_THREADS"@);
        }
    }
    if 0 <= i < q.env@.len() && q.env@[i].key@ == "JULIA_NUM_THREADS"@ && (forall|j: int|
        0 <= j < i ==> (#[trigger] q.env@[j]).key@ != "JULIA_NUM_THREADS"@) {
        assert forall|j: int| 0 <= j < i implies (#[trigger] vars[j]).0
            != "JULIA_NUM_THREADS"@ by {
            assert(q.env@[j].key@ != "JULIA_NUM_THREADS"@);
        }
        assert(vars[i].0 == "JULIA_NUM_THREADS"@);
    }
}

/// The first variable of a name counts.
pub proof fn lemma_first_value(vars: Seq<env_cache::VarText>, key: Seq<char>, i: int)
    ensures
        0 <= i < vars.len() && vars[i].0 == key && (forall|j: int|
            0 <= j < i ==> (#[trigger] vars[j]).0 != key) ==> env_cache::first_value(vars, key)
            == Some(vars[i].1),
        (forall|j: int| 0 <= j < vars.len() ==> (#[trigger] vars[j]).0 != key)
            ==> env_cache::first_value(vars, key) is None,
    decreases vars.len(),
{
    if vars.len() > 0 {
        let rest = vars.drop_first();
        lemma_first_value(rest, key, i - 1);
        assert forall|j: int| 0 <= j < rest.len() implies #[trigger] rest[j] == vars[j + 1] by {}
        if 0 < i < vars.len() && vars[i].0 == key && (forall|j: int|
            0 <= j < i ==> (#[trigger] vars[j]).0 != key) {
            assert(vars[0].0 != key);
            assert(rest[i - 1] == vars[i]);
            assert forall|j: int| 0 <= j < i - 1 implies (#[trigger] rest[j]).0 != key by {
                assert(vars[j + 1].0 != key);
            }
        }
        if forall|j: int| 0 <= j < vars.len() ==> (#[trigger] vars[j]).0 != key {
            assert(vars[0].0 != key);
            assert forall|j: int| 0 <= j < rest.len() implies (#[trigger] rest[j]).0 != key by {
                assert(vars[j + 1].0 != key);
            }
        }
    }
}

// ---------------------------------------------------------------------
// What becomes of a request
// ---------------------------------------------------------------------

/// A client from outside is confined where it is to be, or asks for it.
pub open spec fn confined_from_outside(
    q: ClientRequest,
    is_remote: bool,
    remote_confined: bool,
) -> bool {
    is_remote && (remote_confined || asks(q, "--sandbox"@))
}

/// What becomes of a request, by the switches that it has.
pub proof fn law_what_becomes_of_a_request(
    q: ClientRequest,
    is_remote: bool,
    remote_confined: bool,
    linux: bool,
    found: Option<u32>,
    r: ClientPlan<String, Threads>,
)
    requires
        request::plan_view(r) == q.plan(is_remote, remote_confined, linux, found),
    ensures
        ({
            let help = asks(q, "--help"@) || asks(q, "-h"@);
            let version = !help && (asks(q, "--version"@) || asks(q, "-v"@));
            let status = !help && !version && asks(q, "--status"@);
            let told = help || version || status;
            let outside = confined_from_outside(q, is_remote, remote_confined);
            let inside = !outside && asks(q, "--sandbox"@);
            let barred = !told && !linux && (outside || inside);
            let bypass = !told && !barred && found is Some;
            let lost = !told && !barred && !bypass && asks(q, "--sync"@) && q.label() is None;
            let restart = !told && !barred && !bypass && !lost && asks(q, "--restart"@);
            &&& r is Help <==> help
            &&& r is Version <==> version
            &&& r is Status <==> status
            &&& r is Refuse <==> barred || lost
            &&& barred && outside ==> r->Refuse_0@
                == "Sandboxed workers are only available on Linux. Remote TCP clients are rejected.\n"@
            &&& barred && inside ==> r->Refuse_0@ == "--sandbox requires Linux (user namespaces).\n"@
            &&& lost ==> r->Refuse_0@ == "--sync requires --session=<label>\n"@
            &&& r is Bypass <==> bypass
            &&& bypass ==> r->Bypass_0 == found->0
            &&& r is Restart <==> restart
            &&& r is Assign <==> !told && !barred && !bypass && !lost && !restart
            &&& r is Assign ==> r->Assign_1 == if outside {
                SandboxMode::Remote
            } else if inside {
                SandboxMode::Local
            } else {
                SandboxMode::Off
            }
        }),
{
    lemma_asks(q, "--help"@);
    lemma_asks(q, "-h"@);
    lemma_asks(q, "--version"@);
    lemma_asks(q, "-v"@);
    lemma_asks(q, "--status"@);
    lemma_asks(q, "--sandbox"@);
    lemma_asks(q, "--sync"@);
    lemma_asks(q, "--restart"@);
}

/// The session of a request is what its last `--session` names.
pub proof fn law_the_last_session_counts(q: ClientRequest, i: int)
    ensures
        asks_last(q, "--session"@, i) && q.parsed.switches@[i].value@.len() > 0 ==> q.label()
            == Some(q.parsed.switches@[i].value@),
        asks_last(q, "--session"@, i) && q.parsed.switches@[i].value@.len() == 0
            ==> q.label() is None,
        !asks(q, "--session"@) ==> q.label() is None,
{
    lemma_asks_last(q, "--session"@, i);
}

/// A client from outside that is confined comes to a worker that is not only
/// through a session: where that is allowed, it names one, and the worker
/// serves just that one.
pub proof fn law_only_sessions_are_joined_from_outside(
    c: Conductor,
    q: ClientRequest,
    is_remote: bool,
    linux: bool,
    found: Option<u32>,
    r: ClientPlan<String, Threads>,
)
    requires
        c.serves_session(
            q.joins(
                q.mode(is_remote, c.config.sandbox_remote_clients),
                c.config.sandbox_session_bypass,
            ),
            found,
        ),
        request::plan_view(r) == q.plan(
            is_remote,
            c.config.sandbox_remote_clients,
            linux,
            found,
        ),
        r is Bypass,
    ensures
        c.config.sandbox_session_bypass,
        confined_from_outside(q, is_remote, c.config.sandbox_remote_clients),
        q.label() is Some,
        exists|p: int, i: int|
            pools::in_range(c.pools@, p, i) && (#[trigger] c.pools@[p].workers[i]).id
                == r->Bypass_0 && text::opt_view(c.pools@[p].workers[i].session_label) == q.label(),
{
    lemma_asks(q, "--sandbox"@);
    let l = q.label()->0;
    let (p, i) = choose|p: int, i: int|
        pools::in_range(c.pools@, p, i) && (#[trigger] c.pools@[p].workers[i]).serves(l)
            && c.pools@[p].workers[i].id == found->0;
    assert(pools::in_range(c.pools@, p, i));
    assert(c.pools@[p].workers[i].id == r->Bypass_0);
}

/// The directory that a locally confined worker may write: the project, where
/// the client is in it or below it, and otherwise the client's own. A project
/// that is a name is no directory.
pub proof fn law_writable_directory(cwd: Seq<char>, project: Seq<char>, below: Seq<char>)
    requires
        cwd.len() > 0 && cwd.last() != '/',
        project.len() > 0 && project.last() != '/',
    ensures
        project[0] != '@' && (cwd == project || cwd == project + seq!['/'] + below)
            ==> request::rw_mount(cwd, project) == project,
        project[0] == '@' ==> request::rw_mount(cwd, project) == cwd,
        cwd != project && !(project + seq!['/']).is_prefix_of(cwd) ==> request::rw_mount(
            cwd,
            project,
        ) == cwd,
        request::rw_mount(cwd, Seq::empty()) == cwd,
{
    assert(request::trimmed(cwd) == cwd);
    assert(request::trimmed(project) == project);
    let e = project + seq!['/'];
    assert(e.is_prefix_of(e + below)) by {
        assert((e + below).take(e.len() as int) =~= e);
    }
}

/// A confined client's worker is told nothing of who the client is; all the
/// rest of its environment it gets as it is.
pub proof fn law_only_identity_is_hidden(vars: Seq<env_cache::VarText>)
    ensures
        ({
            let kept = vars.filter(
                |v: env_cache::VarText|
                    v.0 != "HOME"@ && v.0 != "USER"@ && v.0 != "LOGNAME"@,
            );
            request::sandbox_env(vars) == kept + seq![
                ("HOME"@, "/home/sandbox"@),
                ("USER"@, "sandbox"@),
                ("LOGNAME"@, "sandbox"@),
            ]
        }),
    decreases vars.len(),
{
    let f = |v: env_cache::VarText| v.0 != "HOME"@ && v.0 != "USER"@ && v.0 != "LOGNAME"@;
    lemma_anonymous_is_filter(vars);
    assert(request::anonymous(vars) == vars.filter(f));
}

proof fn lemma_anonymous_is_filter(vars: Seq<env_cache::VarText>)
    ensures
        request::anonymous(vars) == vars.filter(
            |v: env_cache::VarText| v.0 != "HOME"@ && v.0 != "USER"@ && v.0 != "LOGNAME"@,
        ),
    decreases vars.len(),
{
    reveal(Seq::filter);
    if vars.len() > 0 {
        lemma_anonymous_is_filter(vars.drop_last());
    }
}

// ---------------------------------------------------------------------
// Workers
// ---------------------------------------------------------------------

/// The worker has room for a client that asks for `interactive`, and serves no
/// session, or one whose last client left long ago; a clock that was set back
/// counts as that.
pub open spec fn has_room(w: Worker, max_clients: u32, label_ttl: u64, interactive: bool, now: i64) -> bool {
    &&& max_clients == 0 || w.active_clients < max_clients
    &&& w.interactive == interactive
    &&& w.session_label is None || (w.active_clients == 0 && (now - w.last_active >= label_ttl || now
        < w.last_active && now - w.last_active + 0x1_0000_0000_0000_0000 >= label_ttl))
}

/// The worker serves the session that the client names.
pub open spec fn serves_label(w: Worker, label: Option<Seq<char>>) -> bool {
    label is Some && text::opt_view(w.session_label) == label
}

/// The worker that a client gets serves the client's session, or has room for
/// it. A client gets none only where no worker of its pool does either; one
/// from outside that is confined shares a worker through a session alone. A
/// worker of the session comes first, then one that had a client of the same
/// parent.
pub proof fn law_the_worker_suits_the_client(
    before: Conductor,
    after: Conductor,
    key: Seq<char>,
    q: ClientRequest,
    mode: SandboxMode,
    now: i64,
    r: Option<Chosen>,
)
    requires
        before.wf(),
        after.has_selected(&before, key, &q, mode, now, r),
    ensures
        ({
            let ws = before.pool(key);
            let max = before.config.worker_maxclients;
            let ttl = before.config.label_ttl;
            let interactive = asks(q, "-i"@);
            match r {
                Some(c) => exists|i: int|
                    {
                        &&& 0 <= i < ws.len()
                        &&& (#[trigger] ws[i]).id == c.id
                        &&& serves_label(ws[i], q.label()) || (mode != SandboxMode::Remote
                            && has_room(ws[i], max, ttl, interactive, now))
                        &&& (exists|j: int| 0 <= j < ws.len() && serves_label(#[trigger] ws[j], q.label()))
                            ==> serves_label(ws[i], q.label())
                        &&& !serves_label(ws[i], q.label()) && (exists|j: int|
                            0 <= j < ws.len() && has_room(#[trigger] ws[j], max, ttl, interactive, now)
                                && ws[j].recent_ppids@.contains(q.ppid))
                            ==> ws[i].recent_ppids@.contains(q.ppid)
                    },
                None => forall|i: int|
                    0 <= i < ws.len() ==> !serves_label(#[trigger] ws[i], q.label()) && (mode
                        == SandboxMode::Remote || !has_room(ws[i], max, ttl, interactive, now)),
            }
        }),
{
    let ws = before.pool(key);
    let label = q.label();
    let limits = before.limit();
    let interactive = asks(q, "-i"@);
    lemma_asks(q, "-i"@);
    let serving = |w: Worker| label is Some && w.serves(label->0);
    let free = |w: Worker| w.available(limits, interactive, now);
    let related = |w: Worker|
        w.available(limits, interactive, now) && w.recent_ppids@.contains(q.ppid);
    selection::lemma_first_where(ws, serving);
    selection::lemma_first_where(ws, related);
    assert forall|w: Worker| #[trigger] serves_label(w, label) == serving(w) by {}
    assert forall|w: Worker| #[trigger]
        has_room(w, limits.max_clients, limits.label_ttl, interactive, now) == free(w) by {}
    if let Some(c) = r {
        let by_id = |w: Worker| w.id == c.id;
        selection::lemma_first_where(ws, by_id);
        let i = selection::first_where(ws, by_id);
        assert(0 <= i < ws.len() && ws[i].id == c.id) by {
            let w = before.worker(c.id);
            let k = ws.index_of(w);
            assert(by_id(ws[k]));
        }
        let a = selection::first_where(ws, serving);
        let b = selection::first_where(ws, related);
        if a < ws.len() {
            assert(i == a);
            assert(serving(ws[i]));
        } else {
            assert forall|j: int| 0 <= j < ws.len() implies !serves_label(
                #[trigger] ws[j],
                label,
            ) by {
                assert(!serving(ws[j]));
            }
            if b < ws.len() {
                assert(i == b);
                assert(related(ws[i]));
                assert(free(ws[i]));
            } else {
                assert forall|j: int| 0 <= j < ws.len() implies !(has_room(
                    #[trigger] ws[j],
                    limits.max_clients,
                    limits.label_ttl,
                    interactive,
                    now,
                ) && ws[j].recent_ppids@.contains(q.ppid)) by {
                    assert(!related(ws[j]));
                }
                assert(selection::is_pick(ws, free, i));
                assert(free(ws[i]));
            }
        }
    } else {
        assert forall|i: int| 0 <= i < ws.len() implies !serves_label(#[trigger] ws[i], label) && (
        mode == SandboxMode::Remote || !has_room(
            ws[i],
            limits.max_clients,
            limits.label_ttl,
            interactive,
            now,
        )) by {
            assert(!serving(ws[i]));
            if mode != SandboxMode::Remote {
                assert(!free(ws[i]));
            }
        }
    }
}

/// Of several workers with room the second most recent is reused, so that the
/// most recent stays for the client that comes back to it.
pub proof fn law_the_most_recent_worker_is_left(
    ws: Seq<Worker>,
    interactive: bool,
    ppid: u32,
    mode: SandboxMode,
    limits: selection::Limits,
    now: i64,
    i: int,
    j: int,
)
    requires
        selection::is_selected(ws, None, interactive, ppid, mode, limits, now, Some(i)),
        !ws[i].recent_ppids@.contains(ppid),
        0 <= j < ws.len(),
        j != i,
        has_room(ws[j], limits.max_clients, limits.label_ttl, interactive, now),
    ensures
        0 <= i < ws.len(),
        exists|b: int|
            {
                &&& 0 <= b < ws.len()
                &&& b != i
                &&& has_room(#[trigger] ws[b], limits.max_clients, limits.label_ttl, interactive, now)
                &&& ws[b].last_active >= ws[i].last_active
                &&& ws[b].last_active >= ws[j].last_active
                &&& j != b ==> ws[i].last_active >= ws[j].last_active
            },
{
    let free = |w: Worker| w.available(limits, interactive, now);
    let none = |w: Worker| None::<Seq<char>> is Some && w.serves(None::<Seq<char>>->0);
    let related = |w: Worker|
        w.available(limits, interactive, now) && w.recent_ppids@.contains(ppid);
    selection::lemma_first_where(ws, none);
    selection::lemma_first_where(ws, related);
    assert forall|w: Worker| #[trigger]
        has_room(w, limits.max_clients, limits.label_ttl, interactive, now) == free(w) by {}
    assert(free(ws[j]));
    assert(selection::is_pick(ws, free, i));
    let b = choose|b: int| #[trigger] selection::is_second(ws, free, b, i);
    assert(free(ws[b]) && free(ws[i]));
    assert(has_room(ws[b], limits.max_clients, limits.label_ttl, interactive, now));
}

/// A directory covers itself and what is below it, and no other; slashes at
/// the end of either make no difference.
pub proof fn law_what_a_directory_covers(d: Seq<char>, below: Seq<char>, p: Seq<char>)
    requires
        d.len() > 0 && d.last() != '/',
        below.len() > 0 && below.last() != '/',
        p.len() > 0 && p.last() != '/',
    ensures
        request::covers(d, d),
        request::covers(d, d + seq!['/'] + below),
        request::covers(d.push('/'), d + seq!['/'] + below),
        request::covers(d, p.push('/')) == request::covers(d, p),
        p != d && !(d + seq!['/']).is_prefix_of(p) ==> !request::covers(d, p),
        request::trimmed(d.push('/')) == d,
        request::trimmed(seq!['/']) == seq!['/'],
{
    reveal_with_fuel(text::trim_end_char, 2);
    assert(d.push('/').drop_last() =~= d);
    assert(p.push('/').drop_last() =~= p);
    let e = d + seq!['/'];
    let all = e + below;
    assert(all.last() == below.last());
    assert(all =~= d + seq!['/'] + below);
    assert(e.is_prefix_of(all)) by {
        assert(all.take(e.len() as int) =~= e);
    }
    let root = seq!['/'];
    assert(root.drop_last() =~= Seq::<char>::empty());
    assert(root.take(1) =~= root);
}

} // verus!
