//! What a client asks for, and which pool of workers it is for.

use crate::args;
use crate::args::{pack_threads, parse_threads, ParsedArgs, Threads, THREADS_NONE};
use crate::env_cache;
use crate::env_cache::{find_value, EnvVar};
use crate::numeric;
use crate::numeric::decimal_string;
use crate::text;
use crate::text::{
    owned, same, starts_with, starts_with_char, str_or_empty, take, trim_end_matches,
};
use vstd::prelude::*;

verus! {

/// A request, read.
pub struct ClientRequest {
    pub flags: u8,
    pub pid: u32,
    pub ppid: u32,
    pub cwd: String,
    pub env: Vec<EnvVar>,
    pub parsed: ParsedArgs,
    pub project: Option<String>,
}

/// Whether a worker is confined, and for whose sake.
#[derive(Clone, Copy, Debug, PartialEq, Eq, Structural)]
pub enum SandboxMode {
    Off,
    Remote,
    Local,
}

// ---------------------------------------------------------------------
// Model
// ---------------------------------------------------------------------

impl ClientRequest {
    pub open spec fn switches(&self) -> Seq<args::SwitchText> {
        args::switch_views(self.parsed.switches@)
    }

    /// The request has the switch `name`.
    pub open spec fn has(&self, name: Seq<char>) -> bool {
        args::named(self.switches(), name)
    }

    /// The value of the switch `name`.
    pub open spec fn value(&self, name: Seq<char>) -> Option<Seq<char>> {
        args::last_value(self.switches(), name)
    }

    /// The project, or no text.
    pub open spec fn project_text(&self) -> Seq<char> {
        text::or_empty(text::opt_view(self.project))
    }

    /// The channel, or no text.
    pub open spec fn channel_text(&self) -> Seq<char> {
        text::or_empty(text::opt_view(self.parsed.julia_channel))
    }

    /// The session that the request names.
    pub open spec fn label(&self) -> Option<Seq<char>> {
        match self.value("--session"@) {
            Some(l) => if l.len() > 0 {
                Some(l)
            } else {
                None
            },
            None => None,
        }
    }
}

pub open spec fn sandbox_of(is_remote: bool, remote_confined: bool, asked: bool) -> SandboxMode {
    if is_remote && (remote_confined || asked) {
        SandboxMode::Remote
    } else if asked {
        SandboxMode::Local
    } else {
        SandboxMode::Off
    }
}

/// `s` without the slashes that end it, but not without its only slash.
pub open spec fn trimmed(s: Seq<char>) -> Seq<char> {
    let t = text::trim_end_char(s, '/');
    if t.len() == 0 && s.len() > 0 {
        s.take(1)
    } else {
        t
    }
}

/// The path `p` is `d` or lies below it.
pub open spec fn covers(d: Seq<char>, p: Seq<char>) -> bool {
    trimmed(d) == trimmed(p) || (trimmed(d) + seq!['/']).is_prefix_of(trimmed(p))
}

/// The directory that a locally confined worker may write: its project, where
/// that is a directory around the client's own, and else the client's own.
pub open spec fn rw_mount(cwd: Seq<char>, project: Seq<char>) -> Seq<char> {
    let p = trimmed(project);
    if p.len() > 0 && p[0] != '@' && covers(p, trimmed(cwd)) {
        p
    } else {
        trimmed(cwd)
    }
}

/// Texts with a zero character between them.
pub open spec fn nul_joined(parts: Seq<Seq<char>>) -> Seq<char>
    decreases parts.len(),
{
    if parts.len() == 0 {
        Seq::empty()
    } else if parts.len() == 1 {
        parts[0]
    } else {
        nul_joined(parts.drop_last()) + seq!['\0'] + parts.last()
    }
}

/// The parts of the key of a pool: workers in one pool can stand in for each
/// other.
pub open spec fn key_parts(
    mode: SandboxMode,
    project: Seq<char>,
    cwd: Seq<char>,
    channel: Seq<char>,
    threads: u32,
) -> Seq<Seq<char>> {
    let t = numeric::decimal(threads as nat);
    match mode {
        SandboxMode::Off => seq![project, channel, t],
        SandboxMode::Remote => seq!["__sandbox__"@, channel, t],
        SandboxMode::Local => seq![
            "__lsandbox__"@,
            rw_mount(cwd, project),
            trimmed(project),
            channel,
            t,
        ],
    }
}

/// The key of a pool.
pub open spec fn pool_key(
    mode: SandboxMode,
    project: Seq<char>,
    cwd: Seq<char>,
    channel: Seq<char>,
    threads: u32,
) -> Seq<char> {
    nul_joined(key_parts(mode, project, cwd, channel, threads))
}

/// The thread counts that a request gives: by its switch, else by its
/// environment.
pub open spec fn requested_threads(
    switches: Seq<args::SwitchText>,
    env: Seq<env_cache::VarText>,
) -> Seq<u16> {
    let by_switch = args::threads_of(
        match args::last_value(switches, "--threads"@) {
            Some(v) => v,
            None => Seq::empty(),
        },
    );
    if by_switch != seq![0u16, 0u16] {
        by_switch
    } else {
        match env_cache::first_value(env, "JULIA_NUM_THREADS"@) {
            Some(v) => args::threads_of(v),
            None => seq![0u16, 0u16],
        }
    }
}

/// One number for a pair of counts.
pub open spec fn packed(t: Seq<u16>) -> u32 {
    (t[0] * 0x1_0000 + t[1]) as u32
}

/// Variables that tell who a client is.
pub open spec fn is_identity(key: Seq<char>) -> bool {
    key == "HOME"@ || key == "USER"@ || key == "LOGNAME"@
}

/// The variables among `vars` that do not.
pub open spec fn anonymous(vars: Seq<env_cache::VarText>) -> Seq<env_cache::VarText>
    decreases vars.len(),
{
    if vars.len() == 0 {
        Seq::empty()
    } else if is_identity(vars.last().0) {
        anonymous(vars.drop_last())
    } else {
        anonymous(vars.drop_last()).push(vars.last())
    }
}

/// The environment of a client whose worker is confined for its sake.
pub open spec fn sandbox_env(vars: Seq<env_cache::VarText>) -> Seq<env_cache::VarText> {
    anonymous(vars) + seq![
        ("HOME"@, "/home/sandbox"@),
        ("USER"@, "sandbox"@),
        ("LOGNAME"@, "sandbox"@),
    ]
}

// ---------------------------------------------------------------------
// Laws
// ---------------------------------------------------------------------

/// A text without a zero character.
pub open spec fn no_nul(s: Seq<char>) -> bool {
    forall|i: int| 0 <= i < s.len() ==> s[i] != '\0'
}

proof fn lemma_split_at_nul(a: Seq<char>, rest: Seq<char>)
    requires
        no_nul(a),
    ensures
        text::find(a + seq!['\0'] + rest, '\0') == a.len(),
{
    let s = a + seq!['\0'] + rest;
    assert forall|j: int| 0 <= j < a.len() implies s[j] != '\0' by {
        assert(s[j] == a[j]);
    }
    text::lemma_find_is(s, '\0', a.len() as int);
}

proof fn lemma_no_nul_end(a: Seq<char>)
    requires
        no_nul(a),
    ensures
        text::split(a, '\0') == seq![a],
{
    text::lemma_find_is(a, '\0', a.len() as int);
    assert(text::split(a, '\0') =~= seq![a]);
}

proof fn lemma_split_cons(a: Seq<char>, rest: Seq<char>)
    requires
        no_nul(a),
    ensures
        text::split(a + seq!['\0'] + rest, '\0') == seq![a] + text::split(rest, '\0'),
{
    let s = a + seq!['\0'] + rest;
    lemma_split_at_nul(a, rest);
    assert(s.take(a.len() as int) =~= a);
    assert(s.skip(a.len() as int + 1) =~= rest);
}

/// Joined texts that hold no zero character come apart again.
pub proof fn law_keys_come_apart(parts: Seq<Seq<char>>)
    requires
        parts.len() > 0,
        forall|i: int| 0 <= i < parts.len() ==> no_nul(#[trigger] parts[i]),
    ensures
        text::split(nul_joined(parts), '\0') == parts,
    decreases parts.len(),
{
    if parts.len() == 1 {
        assert(no_nul(parts[0]));
        lemma_no_nul_end(parts[0]);
        assert(seq![parts[0]] =~= parts);
    } else {
        let first = parts[0];
        let tail = parts.drop_first();
        assert(no_nul(first));
        assert forall|i: int| 0 <= i < tail.len() implies no_nul(#[trigger] tail[i]) by {
            assert(tail[i] == parts[i + 1]);
        }
        law_keys_come_apart(tail);
        lemma_join_cons(parts);
        lemma_split_cons(first, nul_joined(tail));
        assert(seq![first] + tail =~= parts);
    }
}

proof fn lemma_join_cons(parts: Seq<Seq<char>>)
    requires
        parts.len() > 1,
    ensures
        nul_joined(parts) == parts[0] + seq!['\0'] + nul_joined(parts.drop_first()),
    decreases parts.len(),
{
    let tail = parts.drop_first();
    if parts.len() == 2 {
        reveal_with_fuel(nul_joined, 2);
        assert(parts.drop_last() =~= seq![parts[0]]);
        assert(nul_joined(parts) =~= parts[0] + seq!['\0'] + nul_joined(tail));
    } else {
        let front = parts.drop_last();
        lemma_join_cons(front);
        assert(front.drop_first() =~= tail.drop_last());
        assert(nul_joined(parts) =~= parts[0] + seq!['\0'] + nul_joined(tail));
    }
}

pub proof fn lemma_decimal_no_nul(n: nat)
    ensures
        no_nul(numeric::decimal(n)),
{
    numeric::lemma_decimal(n);
    assert forall|i: int| 0 <= i < numeric::decimal(n).len() implies numeric::decimal(n)[i]
        != '\0' by {
        assert(numeric::is_digit(numeric::decimal(n)[i]));
    }
}

/// Clients share a pool of workers that are not confined only where project,
/// channel and thread counts are the same.
pub proof fn law_plain_keys_injective(
    project_a: Seq<char>,
    channel_a: Seq<char>,
    threads_a: u32,
    project_b: Seq<char>,
    channel_b: Seq<char>,
    threads_b: u32,
    cwd_a: Seq<char>,
    cwd_b: Seq<char>,
)
    requires
        no_nul(project_a),
        no_nul(channel_a),
        no_nul(project_b),
        no_nul(channel_b),
        pool_key(SandboxMode::Off, project_a, cwd_a, channel_a, threads_a) == pool_key(
            SandboxMode::Off,
            project_b,
            cwd_b,
            channel_b,
            threads_b,
        ),
    ensures
        project_a == project_b,
        channel_a == channel_b,
        threads_a == threads_b,
{
    let a = key_parts(SandboxMode::Off, project_a, cwd_a, channel_a, threads_a);
    let b = key_parts(SandboxMode::Off, project_b, cwd_b, channel_b, threads_b);
    lemma_decimal_no_nul(threads_a as nat);
    lemma_decimal_no_nul(threads_b as nat);
    law_keys_come_apart(a);
    law_keys_come_apart(b);
    assert(a[0] == project_a && a[1] == channel_a && a[2] == numeric::decimal(threads_a as nat));
    assert(b[0] == project_b && b[1] == channel_b && b[2] == numeric::decimal(threads_b as nat));
    numeric::law_decimal_injective(threads_a as nat, threads_b as nat);
}

/// A confined worker is in no pool with one that is not. A project that is
/// called like the pool of confined workers is the one that could share it.
pub proof fn law_confined_pools_are_apart(
    mode: SandboxMode,
    project: Seq<char>,
    cwd: Seq<char>,
    channel: Seq<char>,
    threads: u32,
    plain_project: Seq<char>,
    plain_cwd: Seq<char>,
    plain_channel: Seq<char>,
    plain_threads: u32,
)
    requires
        mode != SandboxMode::Off,
        no_nul(project),
        no_nul(cwd),
        no_nul(channel),
        no_nul(plain_project),
        no_nul(plain_channel),
        plain_project != "__sandbox__"@,
    ensures
        pool_key(mode, project, cwd, channel, threads) != pool_key(
            SandboxMode::Off,
            plain_project,
            plain_cwd,
            plain_channel,
            plain_threads,
        ),
{
    let a = key_parts(mode, project, cwd, channel, threads);
    let b = key_parts(SandboxMode::Off, plain_project, plain_cwd, plain_channel, plain_threads);
    reveal_strlit("__sandbox__");
    reveal_strlit("__lsandbox__");
    lemma_decimal_no_nul(threads as nat);
    lemma_decimal_no_nul(plain_threads as nat);
    lemma_trimmed_no_nul(project);
    lemma_trimmed_no_nul(cwd);
    assert forall|i: int| 0 <= i < a.len() implies no_nul(#[trigger] a[i]) by {}
    assert forall|i: int| 0 <= i < b.len() implies no_nul(#[trigger] b[i]) by {}
    law_keys_come_apart(a);
    law_keys_come_apart(b);
    assert(a.len() == b.len() ==> a[0] != b[0]);
}

pub proof fn lemma_trimmed_no_nul(s: Seq<char>)
    requires
        no_nul(s),
    ensures
        no_nul(trimmed(s)),
    decreases s.len(),
{
    lemma_trim_end_prefix(s, '/');
}

proof fn lemma_trim_end_prefix(s: Seq<char>, c: char)
    ensures
        text::trim_end_char(s, c).is_prefix_of(s),
    decreases s.len(),
{
    if s.len() > 0 && s.last() == c {
        lemma_trim_end_prefix(s.drop_last(), c);
    }
}

/// A client that is confined for its own sake tells its worker nothing of who
/// it is: the three variables about that have the values given here.
pub proof fn law_sandbox_env_is_anonymous(vars: Seq<env_cache::VarText>, i: int)
    requires
        0 <= i < sandbox_env(vars).len(),
        is_identity(sandbox_env(vars)[i].0),
    ensures
        i >= anonymous(vars).len(),
        sandbox_env(vars)[i].1 == "/home/sandbox"@ || sandbox_env(vars)[i].1 == "sandbox"@,
{
    lemma_anonymous(vars);
    if i < anonymous(vars).len() {
        assert(sandbox_env(vars)[i] == anonymous(vars)[i]);
    }
}

proof fn lemma_anonymous(vars: Seq<env_cache::VarText>)
    ensures
        forall|i: int|
            0 <= i < anonymous(vars).len() ==> !is_identity((#[trigger] anonymous(vars)[i]).0),
    decreases vars.len(),
{
    if vars.len() > 0 {
        lemma_anonymous(vars.drop_last());
        let front = anonymous(vars.drop_last());
        assert forall|i: int| 0 <= i < anonymous(vars).len() implies !is_identity(
            (#[trigger] anonymous(vars)[i]).0,
        ) by {
            if i < front.len() {
                assert(anonymous(vars)[i] == front[i]);
            }
        }
    }
}

// ---------------------------------------------------------------------
// Operations
// ---------------------------------------------------------------------

pub fn trim_trailing_slashes(s: &str) -> (r: &str)
    ensures
        r@ == trimmed(s@),
{
    let t = trim_end_matches(s, '/');
    if t.unicode_len() == 0 && s.unicode_len() > 0 {
        take(s, 1)
    } else {
        t
    }
}

/// Whether `path` is one of `dirs` or lies below one of them.
pub fn path_covered_by(path: &str, dirs: &[&str]) -> (r: bool)
    ensures
        r == exists|i: int| 0 <= i < dirs@.len() && covers((#[trigger] dirs@[i])@, path@),
{
    let p = trim_trailing_slashes(path);
    let mut i: usize = 0;
    while i < dirs.len()
        invariant
            i <= dirs@.len(),
            p@ == trimmed(path@),
            forall|j: int| 0 <= j < i ==> !covers((#[trigger] dirs@[j])@, path@),
        decreases dirs@.len() - i,
    {
        let d = trim_trailing_slashes(dirs[i]);
        if same(d, p) {
            assert(covers(dirs@[i as int]@, path@));
            return true;
        }
        let n: usize = d.unicode_len();
        if p.unicode_len() > n && starts_with(p, d) && p.get_char(n) == '/' {
            assert((d@ + seq!['/']).is_prefix_of(p@)) by {
                assert((d@ + seq!['/']) =~= p@.take(n + 1));
            }
            assert(covers(dirs@[i as int]@, path@));
            return true;
        }
        proof {
            if (d@ + seq!['/']).is_prefix_of(p@) {
                let e = d@ + seq!['/'];
                assert(e[n as int] == '/');
                assert(p@[n as int] == e[n as int]);
                assert(d@ =~= e.take(n as int));
                assert(p@.take(n as int) =~= e.take(n as int));
            }
        }
        i = i + 1;
    }
    false
}

fn push_part(out: &mut String, part: &str)
    ensures
        final(out)@ == old(out)@ + seq!['\0'] + part@,
{
    out.push('\0');
    out.append(part);
    assert(out@ =~= old(out)@ + seq!['\0'] + part@);
}

/// The key of a pool of workers that are not confined.
pub fn make_worker_key(project: &str, channel: Option<&str>, tkey: u32) -> (r: String)
    ensures
        r@ == nul_joined(
            seq![
                project@,
                text::or_empty(text::opt_str(channel)),
                numeric::decimal(tkey as nat),
            ],
        ),
{
    let t = decimal_string(tkey as u64);
    let mut out = owned(project);
    let ch = str_or_empty(channel);
    push_part(&mut out, ch);
    push_part(&mut out, t.as_str());
    proof {
        let parts = seq![project@, ch@, t@];
        assert(parts.drop_last() =~= seq![project@, ch@]);
        assert(parts.drop_last().drop_last() =~= seq![project@]);
        reveal_with_fuel(nul_joined, 4);
    }
    out
}

/// The key of the pool that a request is for.
pub fn worker_key(
    mode: SandboxMode,
    project: &str,
    cwd: &str,
    channel: Option<&str>,
    tkey: u32,
) -> (r: String)
    ensures
        r@ == pool_key(
            mode,
            project@,
            cwd@,
            text::or_empty(text::opt_str(channel)),
            tkey,
        ),
{
    let t = decimal_string(tkey as u64);
    let ch = str_or_empty(channel);
    assert(key_parts(SandboxMode::Off, project@, cwd@, ch@, tkey) =~= seq![project@, ch@, t@]);
    assert(key_parts(SandboxMode::Remote, project@, cwd@, ch@, tkey) =~= seq![
        "__sandbox__"@,
        ch@,
        t@,
    ]);
    match mode {
        SandboxMode::Off => make_worker_key(project, channel, tkey),
        SandboxMode::Remote => make_worker_key("__sandbox__", channel, tkey),
        SandboxMode::Local => {
            let here = trim_trailing_slashes(cwd);
            let proj = trim_trailing_slashes(project);
            let dirs = [proj];
            let local = proj.unicode_len() > 0 && !starts_with_char(proj, '@');
            let covered = path_covered_by(here, &dirs);
            assert(covered == covers(proj@, here@)) by {
                if covers(proj@, here@) {
                    assert(covers(dirs@[0]@, here@));
                }
            }
            let mount = if local && covered {
                proj
            } else {
                here
            };
            let mut out = owned("__lsandbox__");
            push_part(&mut out, mount);
            push_part(&mut out, proj);
            push_part(&mut out, ch);
            push_part(&mut out, t.as_str());
            proof {
                let parts = seq!["__lsandbox__"@, mount@, proj@, ch@, t@];
                let p4 = parts.drop_last();
                let p3 = p4.drop_last();
                let p2 = p3.drop_last();
                assert(p4 =~= seq!["__lsandbox__"@, mount@, proj@, ch@]);
                assert(p3 =~= seq!["__lsandbox__"@, mount@, proj@]);
                assert(p2 =~= seq!["__lsandbox__"@, mount@]);
                assert(p2.drop_last() =~= seq!["__lsandbox__"@]);
                reveal_with_fuel(nul_joined, 6);
                assert(out@ == nul_joined(parts));
            }
            out
        },
    }
}

/// The thread counts that a request gives.
pub fn resolve_threads(parsed: &ParsedArgs, env: &[EnvVar]) -> (r: Threads)
    ensures
        r@ == requested_threads(args::switch_views(parsed.switches@), env_cache::var_views(env@)),
{
    let spec = parsed.thread_switch();
    assert(spec@ != seq![0u16, 0u16] <==> spec[0] != 0 || spec[1] != 0) by {
        if spec[0] == 0 && spec[1] == 0 {
            assert(spec@ =~= seq![0u16, 0u16]);
        }
    }
    if spec[0] != 0 || spec[1] != 0 {
        return spec;
    }
    match find_value(env, "JULIA_NUM_THREADS") {
        Some(v) => parse_threads(v),
        None => {
            let none = THREADS_NONE;
            assert(none@ =~= seq![0u16, 0u16]);
            none
        },
    }
}

/// The environment of a client whose worker is confined for its sake.
pub fn build_sandbox_env(env: &[EnvVar]) -> (r: Vec<EnvVar>)
    ensures
        env_cache::var_views(r@) == sandbox_env(env_cache::var_views(env@)),
{
    let ghost all = env_cache::var_views(env@);
    let mut out: Vec<EnvVar> = Vec::new();
    let mut i: usize = 0;
    assert(all.take(0) =~= Seq::empty());
    assert(env_cache::var_views(out@) =~= anonymous(all.take(0)));
    while i < env.len()
        invariant
            i <= env@.len(),
            all == env_cache::var_views(env@),
            env_cache::var_views(out@) == anonymous(all.take(i as int)),
        decreases env@.len() - i,
    {
        assert(all.take(i + 1).drop_last() =~= all.take(i as int));
        let key = env[i].key.as_str();
        if !(same(key, "HOME") || same(key, "USER") || same(key, "LOGNAME")) {
            let ghost before = env_cache::var_views(out@);
            out.push(env[i].clone());
            assert(env_cache::var_views(out@) =~= before.push(all[i as int]));
        }
        i = i + 1;
    }
    assert(all.take(i as int) =~= all);
    out.push(EnvVar { key: owned("HOME"), value: owned("/home/sandbox") });
    out.push(EnvVar { key: owned("USER"), value: owned("sandbox") });
    out.push(EnvVar { key: owned("LOGNAME"), value: owned("sandbox") });
    assert(env_cache::var_views(out@) =~= sandbox_env(all));
    out
}

// ---------------------------------------------------------------------
// What becomes of a request
// ---------------------------------------------------------------------

/// What becomes of a request; `S` is a text and `T` a pair of counts.
pub enum ClientPlan<S, T> {
    /// Send the help text.
    Help,
    Version,
    Status,
    /// Send a message, and nothing else.
    Refuse(S),
    /// Give the client to this worker.
    Bypass(u32),
    /// Stop all workers of a pool.
    Restart(S),
    /// Give the client to a worker of a pool, with these thread counts.
    Assign(S, SandboxMode, T),
}

pub open spec fn refuse_remote() -> Seq<char> {
    "Sandboxed workers are only available on Linux. Remote TCP clients are rejected.\n"@
}

pub open spec fn refuse_local() -> Seq<char> {
    "--sandbox requires Linux (user namespaces).\n"@
}

pub open spec fn refuse_sync() -> Seq<char> {
    "--sync requires --session=<label>\n"@
}

impl ClientRequest {
    pub open spec fn mode(&self, is_remote: bool, remote_confined: bool) -> SandboxMode {
        sandbox_of(is_remote, remote_confined, self.has("--sandbox"@))
    }

    pub open spec fn threads(&self) -> Seq<u16> {
        requested_threads(self.switches(), env_cache::var_views(self.env@))
    }

    /// The key of the pool that this request is for.
    pub open spec fn key(&self, mode: SandboxMode) -> Seq<char> {
        pool_key(
            mode,
            self.project_text(),
            self.cwd@,
            self.channel_text(),
            packed(self.threads()),
        )
    }

    /// The session that a remote client may join although its worker is not
    /// confined.
    pub open spec fn joins(&self, mode: SandboxMode, bypass: bool) -> Option<Seq<char>> {
        if mode == SandboxMode::Remote && bypass {
            self.label()
        } else {
            None
        }
    }

    /// What becomes of this request. `found` is the worker of the session
    /// that it may join.
    pub open spec fn plan(
        &self,
        is_remote: bool,
        remote_confined: bool,
        linux: bool,
        found: Option<u32>,
    ) -> ClientPlan<Seq<char>, Seq<u16>> {
        let mode = self.mode(is_remote, remote_confined);
        if self.has("--help"@) || self.has("-h"@) {
            ClientPlan::Help
        } else if self.has("--version"@) || self.has("-v"@) {
            ClientPlan::Version
        } else if self.has("--status"@) {
            ClientPlan::Status
        } else if mode == SandboxMode::Remote && !linux {
            ClientPlan::Refuse(refuse_remote())
        } else if mode == SandboxMode::Local && !linux {
            ClientPlan::Refuse(refuse_local())
        } else if found is Some {
            ClientPlan::Bypass(found->0)
        } else if self.has("--sync"@) && self.label() is None {
            ClientPlan::Refuse(refuse_sync())
        } else if self.has("--restart"@) {
            ClientPlan::Restart(self.key(mode))
        } else {
            ClientPlan::Assign(self.key(mode), mode, self.threads())
        }
    }

    /// The session that this request names.
    pub fn session_label(&self) -> (r: Option<&str>)
        ensures
            text::opt_str(r) == self.label(),
    {
        match self.parsed.get_switch("--session") {
            Some(l) => if l.unicode_len() > 0 {
                Some(l)
            } else {
                None
            },
            None => None,
        }
    }

    pub fn sandbox_mode(&self, is_remote: bool, remote_confined: bool) -> (r: SandboxMode)
        ensures
            r == self.mode(is_remote, remote_confined),
    {
        let asked = self.parsed.has_switch("--sandbox");
        if is_remote && (remote_confined || asked) {
            SandboxMode::Remote
        } else if asked {
            SandboxMode::Local
        } else {
            SandboxMode::Off
        }
    }

    /// The session that this request may join from outside.
    pub fn joined_session(&self, mode: SandboxMode, bypass: bool) -> (r: Option<&str>)
        ensures
            text::opt_str(r) == self.joins(mode, bypass),
    {
        if mode == SandboxMode::Remote && bypass {
            self.session_label()
        } else {
            None
        }
    }

    fn opt_channel(&self) -> (r: Option<&str>)
        ensures
            text::opt_str(r) == text::opt_view(self.parsed.julia_channel),
    {
        match &self.parsed.julia_channel {
            Some(c) => Some(c.as_str()),
            None => None,
        }
    }

    fn opt_project(&self) -> (r: Option<&str>)
        ensures
            text::opt_str(r) == text::opt_view(self.project),
    {
        match &self.project {
            Some(p) => Some(p.as_str()),
            None => None,
        }
    }

    /// Decides what becomes of this request. `found` is the worker of the
    /// session that it may join, which is `None` where it may join none.
    pub fn decide(
        &self,
        is_remote: bool,
        remote_confined: bool,
        linux: bool,
        found: Option<u32>,
    ) -> (r: ClientPlan<String, Threads>)
        ensures
            plan_view(r) == self.plan(is_remote, remote_confined, linux, found),
    {
        if self.parsed.has_switch("--help") || self.parsed.has_switch("-h") {
            return ClientPlan::Help;
        }
        if self.parsed.has_switch("--version") || self.parsed.has_switch("-v") {
            return ClientPlan::Version;
        }
        if self.parsed.has_switch("--status") {
            return ClientPlan::Status;
        }
        let mode = self.sandbox_mode(is_remote, remote_confined);
        if mode == SandboxMode::Remote && !linux {
            return ClientPlan::Refuse(
                owned(
                    "Sandboxed workers are only available on Linux. Remote TCP clients are rejected.\n",
                ),
            );
        }
        if mode == SandboxMode::Local && !linux {
            return ClientPlan::Refuse(owned("--sandbox requires Linux (user namespaces).\n"));
        }
        if let Some(id) = found {
            return ClientPlan::Bypass(id);
        }
        let threads = resolve_threads(&self.parsed, self.env.as_slice());
        let tkey: u32 = pack_threads(threads);
        let key = worker_key(
            mode,
            str_or_empty(self.opt_project()),
            self.cwd.as_str(),
            self.opt_channel(),
            tkey,
        );
        if self.parsed.has_switch("--sync") && self.session_label().is_none() {
            return ClientPlan::Refuse(owned("--sync requires --session=<label>\n"));
        }
        if self.parsed.has_switch("--restart") {
            return ClientPlan::Restart(key);
        }
        ClientPlan::Assign(key, mode, threads)
    }
}

pub open spec fn plan_view(p: ClientPlan<String, Threads>) -> ClientPlan<Seq<char>, Seq<u16>> {
    match p {
        ClientPlan::Help => ClientPlan::Help,
        ClientPlan::Version => ClientPlan::Version,
        ClientPlan::Status => ClientPlan::Status,
        ClientPlan::Refuse(s) => ClientPlan::Refuse(s@),
        ClientPlan::Bypass(id) => ClientPlan::Bypass(id),
        ClientPlan::Restart(s) => ClientPlan::Restart(s@),
        ClientPlan::Assign(s, mode, t) => ClientPlan::Assign(s@, mode, t@),
    }
}

/// A client from outside never gets a worker that is not confined, where such
/// clients are to be confined, except through a session that it may join.
pub proof fn law_remote_clients_are_confined(q: ClientRequest, linux: bool)
    ensures
        match q.plan(true, true, linux, None) {
            ClientPlan::Assign(key, mode, t) => mode == SandboxMode::Remote && linux,
            ClientPlan::Bypass(id) => false,
            _ => true,
        },
{
}

/// What the conductor says when `n` workers were stopped.
pub fn restart_text(n: usize) -> (r: String)
    ensures
        r@ == "Reset: killed "@ + numeric::decimal(n as nat) + " worker(s) for project\n"@,
{
    let count = decimal_string(n as u64);
    text::join3("Reset: killed ", count.as_str(), " worker(s) for project\n")
}

/// What the conductor says of its version.
pub fn version_string(version: &str) -> (r: String)
    ensures
        r@ == "juliaclient "@ + version@ + "\n"@,
{
    text::join3("juliaclient ", version, "\n")
}

} // verus!
