//! How a worker is started, and what the system tells of it afterwards.

use crate::args;
use crate::args::{render_threads, Threads};
use crate::config::Config;
use crate::env_cache;
use crate::env_cache::{copy_vars, EnvVar};
use crate::numeric;
use crate::numeric::{decimal_string, parse_decimal};
use crate::protocol::Platform;
use crate::sandbox;
use crate::sandbox::{build_worker_argv, SandboxConfig};
use crate::text;
use crate::text::{contains_char, join3, owned, rfind_char, skip, split_char, split_words};
use vstd::prelude::*;

verus! {

// ---------------------------------------------------------------------
// Starting
// ---------------------------------------------------------------------

/// The directory of a worker's sockets: one of its own for a confined worker
/// where workers can be confined.
pub open spec fn worker_dir_text(
    runtime_dir: Seq<char>,
    id: u32,
    sandboxed: bool,
    platform: Platform,
) -> Seq<char> {
    if sandboxed && platform == Platform::Linux {
        sandbox_dir_text(runtime_dir, id)
    } else {
        runtime_dir
    }
}

pub open spec fn sandbox_dir_text(runtime_dir: Seq<char>, id: u32) -> Seq<char> {
    runtime_dir + "/sandbox-"@ + numeric::decimal(id as nat)
}

/// The directory of a confined worker.
pub fn sandbox_dir(runtime_dir: &str, id: u32) -> (r: String)
    ensures
        r@ == sandbox_dir_text(runtime_dir@, id),
{
    let n = decimal_string(id as u64);
    join3(runtime_dir, "/sandbox-", n.as_str())
}

pub fn worker_dir(runtime_dir: &str, id: u32, sandboxed: bool, platform: Platform) -> (r: String)
    ensures
        r@ == worker_dir_text(runtime_dir@, id, sandboxed, platform),
{
    if sandboxed && platform == Platform::Linux {
        sandbox_dir(runtime_dir, id)
    } else {
        owned(runtime_dir)
    }
}

/// Different confined workers have different directories.
pub proof fn law_sandbox_dirs_differ(runtime_dir: Seq<char>, a: u32, b: u32)
    requires
        sandbox_dir_text(runtime_dir, a) == sandbox_dir_text(runtime_dir, b),
    ensures
        a == b,
{
    let n = (runtime_dir + "/sandbox-"@).len() as int;
    assert(numeric::decimal(a as nat) =~= sandbox_dir_text(runtime_dir, a).skip(n));
    assert(numeric::decimal(b as nat) =~= sandbox_dir_text(runtime_dir, b).skip(n));
    numeric::law_decimal_injective(a as nat, b as nat);
}

/// The expression that a worker runs.
pub open spec fn worker_expr(setup_path: Seq<char>, id: u32, socket_path: Seq<char>) -> Seq<char> {
    "using DaemonWorker; DaemonWorker.runworker(\""@ + setup_path + "\", "@ + numeric::decimal(
        id as nat,
    ) + ", \""@ + socket_path + "\")"@
}

pub fn eval_expr(setup_path: &str, id: u32, socket_path: &str) -> (r: String)
    ensures
        r@ == worker_expr(setup_path@, id, socket_path@),
{
    let n = decimal_string(id as u64);
    let mut out = join3(
        "using DaemonWorker; DaemonWorker.runworker(\"",
        setup_path,
        "\", ",
    );
    out.append(n.as_str());
    out.append(", \"");
    out.append(socket_path);
    out.append("\")");
    out
}

/// The command line of a worker that is not confined.
pub fn plain_argv(
    cfg: &Config,
    julia_channel: Option<&str>,
    interactive: bool,
    threads: Threads,
    expr: &str,
) -> (r: Vec<String>)
    ensures
        text::views(r@) == sandbox::worker_argv(
            cfg.worker_executable@,
            text::opt_str(julia_channel),
            cfg.worker_project@,
            cfg.worker_args@,
            args::threads_text(threads@),
            interactive,
            expr@,
        ),
{
    let rendered = render_threads(threads);
    let threads_arg: Option<&str> = match &rendered {
        Some(t) => Some(t.as_str()),
        None => None,
    };
    build_worker_argv(
        cfg.worker_executable.as_str(),
        julia_channel,
        cfg.worker_project.as_str(),
        cfg.worker_args.as_str(),
        threads_arg,
        interactive,
        expr,
    )
}

fn copy_texts(v: &[String]) -> (r: Vec<String>)
    ensures
        text::views(r@) == text::views(v@),
{
    let mut out: Vec<String> = Vec::new();
    let mut i: usize = 0;
    while i < v.len()
        invariant
            i <= v@.len(),
            out@.len() == i,
            forall|j: int| 0 <= j < i ==> (#[trigger] out@[j])@ == v@[j]@,
        decreases v@.len() - i,
    {
        out.push(owned(v[i].as_str()));
        i = i + 1;
    }
    assert(text::views(out@) =~= text::views(v@));
    out
}

fn copy_opt(s: &Option<String>) -> (r: Option<String>)
    ensures
        text::opt_view(r) == text::opt_view(*s),
{
    match s {
        Some(t) => Some(owned(t.as_str())),
        None => None,
    }
}

/// A confined worker: it can read its own project and `extra_ro`, and write
/// `extra_rw`.
pub fn sandbox_config(
    cfg: &Config,
    id: u32,
    executable: &str,
    setup_path: &str,
    julia_channel: Option<&str>,
    threads: Threads,
    environ: &[EnvVar],
    extra_ro: &[String],
    extra_rw: &[String],
) -> (r: SandboxConfig)
    ensures
        r.julia_executable@ == executable@,
        text::opt_view(r.julia_channel) == text::opt_str(julia_channel),
        r.worker_project@ == cfg.worker_project@,
        r.worker_args@ == cfg.worker_args@,
        text::opt_view(r.threads_arg) == args::threads_text(threads@),
        r.eval_expr@ == worker_expr(setup_path@, id, cfg.socket_path@),
        env_cache::var_views(r.host_environ@) == env_cache::var_views(environ@),
        r.setup_socket_path@ == setup_path@,
        r.worker_id == id,
        r.host_home@ == cfg.host_home@,
        text::views(r.extra_ro_binds@) == seq![cfg.worker_project@] + text::views(extra_ro@),
        text::views(r.extra_rw_binds@) == text::views(extra_rw@),
        r.empty_environment == cfg.sandbox_empty_environment,
        text::opt_view(r.max_memory) == text::opt_view(cfg.sandbox_max_memory),
        r.max_cpu == cfg.sandbox_max_cpu,
{
    let mut ro = copy_texts(extra_ro);
    let ghost before = ro@;
    ro.insert(0, owned(cfg.worker_project.as_str()));
    assert(text::views(ro@) =~= seq![cfg.worker_project@] + text::views(before));
    SandboxConfig {
        julia_executable: owned(executable),
        julia_channel: match julia_channel {
            Some(c) => Some(owned(c)),
            None => None,
        },
        worker_project: owned(cfg.worker_project.as_str()),
        worker_args: owned(cfg.worker_args.as_str()),
        threads_arg: render_threads(threads),
        eval_expr: eval_expr(setup_path, id, cfg.socket_path.as_str()),
        host_environ: copy_vars(environ),
        setup_socket_path: owned(setup_path),
        worker_id: id,
        host_home: owned(cfg.host_home.as_str()),
        extra_ro_binds: ro,
        extra_rw_binds: copy_texts(extra_rw),
        empty_environment: cfg.sandbox_empty_environment,
        max_memory: copy_opt(&cfg.sandbox_max_memory),
        max_cpu: cfg.sandbox_max_cpu,
    }
}

/// The files that `name` may stand for, in the order in which they are tried:
/// a name with a slash stands for itself, any other for a file of that name
/// in a directory of the search path.
pub open spec fn candidates(name: Seq<char>, dirs: Seq<Seq<char>>) -> Seq<Seq<char>>
    decreases dirs.len(),
{
    if dirs.len() == 0 {
        Seq::empty()
    } else if dirs.last().len() == 0 {
        candidates(name, dirs.drop_last())
    } else {
        candidates(name, dirs.drop_last()).push(dirs.last() + "/"@ + name)
    }
}

/// Whether `name` stands for itself.
pub fn names_file(name: &str) -> (r: bool)
    ensures
        r == name@.contains('/'),
{
    contains_char(name, '/')
}

/// The files that `name` may stand for on the search path `path`.
pub fn path_candidates(name: &str, path: &str) -> (r: Vec<String>)
    ensures
        text::views(r@) == candidates(name@, text::split(path@, ':')),
{
    let dirs = split_char(path, ':');
    let ghost all = text::split(path@, ':');
    let mut out: Vec<String> = Vec::new();
    let mut i: usize = 0;
    assert(all.take(0) =~= Seq::empty());
    assert(text::views(out@) =~= Seq::empty());
    while i < dirs.len()
        invariant
            i <= dirs@.len(),
            all == text::views(dirs@),
            text::views(out@) == candidates(name@, all.take(i as int)),
        decreases dirs@.len() - i,
    {
        let dir = dirs[i].as_str();
        assert(all.take(i + 1).drop_last() =~= all.take(i as int));
        assert(all.take(i + 1).last() == dir@);
        if dir.unicode_len() > 0 {
            let one = join3(dir, "/", name);
            proof {
                text::lemma_views_push(out@, one);
            }
            out.push(one);
        }
        i = i + 1;
    }
    assert(all.take(i as int) =~= all);
    out
}

// ---------------------------------------------------------------------
// What the system tells
// ---------------------------------------------------------------------

/// The number at place `i` among the words of `s`.
pub open spec fn number_at(s: Seq<char>, i: int) -> Option<nat> {
    if i < text::words(s).len() {
        numeric::parse_unsigned(text::words(s)[i], u64::MAX as nat)
    } else {
        None
    }
}

fn parse_at(words: &[String], i: usize) -> (r: Option<u64>)
    ensures
        match r {
            Some(n) => i < words@.len() && numeric::parse_unsigned(
                words@[i as int]@,
                u64::MAX as nat,
            ) == Some(n as nat),
            None => i < words@.len() ==> numeric::parse_unsigned(
                words@[i as int]@,
                u64::MAX as nat,
            ) is None,
        },
{
    if i < words.len() {
        parse_decimal(words[i].as_str(), u64::MAX)
    } else {
        None
    }
}

/// The pages that a process has in memory, by its `statm`.
pub fn rss_pages(statm: &str) -> (r: Option<u64>)
    ensures
        match r {
            Some(n) => number_at(statm@, 1) == Some(n as nat),
            None => number_at(statm@, 1) is None,
        },
{
    let words = split_words(statm);
    assert(text::views(words@).len() == words@.len());
    parse_at(words.as_slice(), 1)
}

/// The bytes that a process has in memory.
pub fn rss_bytes(statm: &str, page_size: u64) -> (r: Option<u64>)
    requires
        number_at(statm@, 1) matches Some(n) ==> n * page_size <= u64::MAX,
    ensures
        match r {
            Some(b) => number_at(statm@, 1) matches Some(n) && b == n * page_size,
            None => number_at(statm@, 1) is None,
        },
{
    match rss_pages(statm) {
        Some(n) => Some(n * page_size),
        None => None,
    }
}

/// What stands behind the last closing bracket of a process's `stat`: the
/// name before it can hold brackets and blanks.
pub open spec fn after_name(stat: Seq<char>) -> Option<Seq<char>> {
    let i = text::rfind(stat, ')');
    if i >= 0 {
        Some(stat.skip(i + 1))
    } else {
        None
    }
}

/// The ticks that a process has spent in user mode and in the system.
pub open spec fn ticks_of(stat: Seq<char>) -> Option<(nat, nat)> {
    match after_name(stat) {
        Some(rest) => match (number_at(rest, 11), number_at(rest, 12)) {
            (Some(u), Some(s)) => Some((u, s)),
            _ => None,
        },
        None => None,
    }
}

/// The ticks in user mode and in the system, by a process's `stat`.
pub fn cpu_tick_pair(stat: &str) -> (r: Option<(u64, u64)>)
    ensures
        match r {
            Some((u, s)) => ticks_of(stat@) == Some((u as nat, s as nat)),
            None => ticks_of(stat@) is None,
        },
{
    match rfind_char(stat, ')') {
        Some(i) => {
            let words = split_words(skip(stat, i + 1));
            assert(text::views(words@).len() == words@.len());
            match parse_at(words.as_slice(), 11) {
                Some(u) => match parse_at(words.as_slice(), 12) {
                    Some(s) => Some((u, s)),
                    None => None,
                },
                None => None,
            }
        },
        None => None,
    }
}

/// The ticks that a process has spent in all.
pub fn cpu_ticks(stat: &str) -> (r: Option<u64>)
    requires
        ticks_of(stat@) matches Some((u, s)) ==> u + s <= u64::MAX,
    ensures
        match r {
            Some(n) => ticks_of(stat@) matches Some((u, s)) && n == u + s,
            None => ticks_of(stat@) is None,
        },
{
    match cpu_tick_pair(stat) {
        Some((u, s)) => Some(u + s),
        None => None,
    }
}

} // verus!
