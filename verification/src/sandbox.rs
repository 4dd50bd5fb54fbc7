//! What a worker gets to see when it is confined to namespaces of its own:
//! its command line, its environment and its file system.

use crate::client_env;
use crate::env_cache;
use crate::env_cache::EnvVar;
use crate::text;
use crate::text::{join2, join3, opt_as_str, owned, same, split_words, starts_with};
use vstd::prelude::*;

verus! {

/// Why a confined worker could not be started.
#[derive(Clone, Copy, Debug, PartialEq, Eq, Structural)]
pub enum SandboxError {
    ForkFailed,
    UnshareFailed,
    UidMapFailed,
    GidMapFailed,
    SetgroupsFailed,
    MountFailed,
    MkdirFailed,
    PivotRootFailed,
    ChdirFailed,
    ExecFailed,
    PathTooLong,
}

/// A worker to be confined.
pub struct SandboxConfig {
    pub julia_executable: String,
    pub julia_channel: Option<String>,
    pub worker_project: String,
    pub worker_args: String,
    pub threads_arg: Option<String>,
    pub eval_expr: String,
    pub host_environ: Vec<EnvVar>,
    pub setup_socket_path: String,
    pub worker_id: u32,
    pub host_home: String,
    pub extra_ro_binds: Vec<String>,
    pub extra_rw_binds: Vec<String>,
    pub empty_environment: bool,
    pub max_memory: Option<String>,
    pub max_cpu: Option<u32>,
}

// ---------------------------------------------------------------------
// The command line
// ---------------------------------------------------------------------

/// The bytes of `s` with a zero behind them.
pub open spec fn c_string(s: Seq<char>) -> Seq<u8> {
    vstd::utf8::encode_utf8(s).push(0)
}

pub open spec fn c_strings(v: Seq<Seq<char>>) -> Seq<Seq<u8>> {
    Seq::new(v.len(), |i: int| c_string(v[i]))
}

/// No text, or one.
pub open spec fn optional(s: Option<Seq<char>>, prefix: Seq<char>) -> Seq<Seq<char>> {
    match s {
        Some(t) => seq![prefix + t],
        None => Seq::empty(),
    }
}

/// The command line of a worker: the executable, the channel, the project,
/// further arguments, threads, `-i` and the expression to run.
pub open spec fn worker_argv(
    executable: Seq<char>,
    channel: Option<Seq<char>>,
    project: Seq<char>,
    args: Seq<char>,
    threads: Option<Seq<char>>,
    interactive: bool,
    expr: Seq<char>,
) -> Seq<Seq<char>> {
    seq![executable] + optional(channel, Seq::empty()) + (if project.len() > 0 {
        seq!["--project="@ + project]
    } else {
        Seq::empty()
    }) + text::words(args) + optional(threads, "--threads="@) + (if interactive {
        seq!["-i"@]
    } else {
        Seq::empty()
    }) + seq!["--eval"@, expr]
}

/// The command line of a worker.
pub fn build_worker_argv(
    executable: &str,
    channel: Option<&str>,
    project: &str,
    args: &str,
    threads: Option<&str>,
    interactive: bool,
    expr: &str,
) -> (r: Vec<String>)
    ensures
        text::views(r@) == worker_argv(
            executable@,
            text::opt_str(channel),
            project@,
            args@,
            text::opt_str(threads),
            interactive,
            expr@,
        ),
{
    let mut argv: Vec<String> = Vec::new();
    argv.push(owned(executable));
    assert(text::views(argv@) =~= seq![executable@]);
    let ghost a = text::views(argv@);
    if let Some(ch) = channel {
        argv.push(owned(ch));
        assert(Seq::<char>::empty() + ch@ =~= ch@);
    }
    assert(text::views(argv@) =~= a + optional(text::opt_str(channel), Seq::empty()));
    let ghost b = text::views(argv@);
    if project.unicode_len() > 0 {
        argv.push(join2("--project=", project));
    }
    assert(text::views(argv@) =~= b + if project@.len() > 0 {
        seq!["--project="@ + project@]
    } else {
        Seq::empty()
    });
    let ghost c = text::views(argv@);
    let words = split_words(args);
    let mut i: usize = 0;
    assert(c + text::words(args@).take(0) =~= c);
    while i < words.len()
        invariant
            i <= words@.len(),
            text::views(words@) == text::words(args@),
            text::views(argv@) == c + text::words(args@).take(i as int),
        decreases words@.len() - i,
    {
        let word = owned(words[i].as_str());
        proof {
            text::lemma_views_push(argv@, word);
            assert(text::words(args@)[i as int] == word@);
        }
        argv.push(word);
        assert(text::views(argv@) =~= c + text::words(args@).take(i + 1));
        i = i + 1;
    }
    assert(text::words(args@).take(i as int) =~= text::words(args@));
    let ghost d = text::views(argv@);
    if let Some(t) = threads {
        argv.push(join2("--threads=", t));
    }
    assert(text::views(argv@) =~= d + optional(text::opt_str(threads), "--threads="@));
    let ghost e = text::views(argv@);
    if interactive {
        argv.push(owned("-i"));
    }
    assert(text::views(argv@) =~= e + if interactive {
        seq!["-i"@]
    } else {
        Seq::empty()
    });
    let ghost f = text::views(argv@);
    argv.push(owned("--eval"));
    argv.push(owned(expr));
    assert(text::views(argv@) =~= f + seq!["--eval"@, expr@]);
    argv
}

fn to_c_string(s: &str) -> (r: Vec<u8>)
    ensures
        r@ == c_string(s@),
{
    let mut out = crate::wire::copy_all(s.as_bytes());
    out.push(0);
    out
}

fn to_c_strings(v: &[String]) -> (r: Vec<Vec<u8>>)
    ensures
        crate::wire::byte_views(r@) == c_strings(text::views(v@)),
{
    let mut out: Vec<Vec<u8>> = Vec::new();
    let mut i: usize = 0;
    while i < v.len()
        invariant
            i <= v@.len(),
            out@.len() == i,
            forall|j: int| 0 <= j < i ==> (#[trigger] out@[j])@ == c_string(v@[j]@),
        decreases v@.len() - i,
    {
        out.push(to_c_string(v[i].as_str()));
        i = i + 1;
    }
    assert(crate::wire::byte_views(out@) =~= c_strings(text::views(v@)));
    out
}

/// The command line of a confined worker, as the system takes it.
pub fn build_argv(cfg: &SandboxConfig) -> (r: Vec<Vec<u8>>)
    ensures
        crate::wire::byte_views(r@) == c_strings(
            worker_argv(
                cfg.julia_executable@,
                text::opt_view(cfg.julia_channel),
                cfg.worker_project@,
                cfg.worker_args@,
                text::opt_view(cfg.threads_arg),
                false,
                cfg.eval_expr@,
            ),
        ),
{
    let argv = build_worker_argv(
        cfg.julia_executable.as_str(),
        opt_as_str(&cfg.julia_channel),
        cfg.worker_project.as_str(),
        cfg.worker_args.as_str(),
        opt_as_str(&cfg.threads_arg),
        false,
        cfg.eval_expr.as_str(),
    );
    to_c_strings(argv.as_slice())
}

// ---------------------------------------------------------------------
// The environment
// ---------------------------------------------------------------------

/// Variables that a confined worker may have from the host.
pub open spec fn allowed(key: Seq<char>) -> bool {
    ||| "JULIA_"@.is_prefix_of(key)
    ||| key == "LANG"@
    ||| key == "LC_CTYPE"@
    ||| key == "LC_ALL"@
    ||| key == "TERM"@
    ||| key == "COLORTERM"@
    ||| key == "PATH"@
    ||| key == "XDG_DATA_HOME"@
    ||| key == "XDG_CONFIG_HOME"@
    ||| key == "XDG_CACHE_HOME"@
    ||| key == "XDG_STATE_HOME"@
    ||| key == "OPENBLAS_MAIN_FREE"@
    ||| key == "OPENBLAS_DEFAULT_NUM_THREADS"@
    ||| key == "CUDA_CACHE_PATH"@
}

/// Variables that a confined worker has values of its own for.
pub open spec fn managed(key: Seq<char>) -> bool {
    ||| key == "HOME"@
    ||| key == "USER"@
    ||| key == "LOGNAME"@
    ||| key == "PATH"@
    ||| key == "JULIA_DEPOT_PATH"@
    ||| key == "JULIA_DAEMON_REVISE"@
}

pub fn env_allowed(key: &str) -> (r: bool)
    ensures
        r == allowed(key@),
{
    starts_with(key, "JULIA_") || same(key, "LANG") || same(key, "LC_CTYPE") || same(key, "LC_ALL")
        || same(key, "TERM") || same(key, "COLORTERM") || same(key, "PATH") || same(
        key,
        "XDG_DATA_HOME",
    ) || same(key, "XDG_CONFIG_HOME") || same(key, "XDG_CACHE_HOME") || same(key, "XDG_STATE_HOME")
        || same(key, "OPENBLAS_MAIN_FREE") || same(key, "OPENBLAS_DEFAULT_NUM_THREADS") || same(
        key,
        "CUDA_CACHE_PATH",
    )
}

fn env_managed(key: &str) -> (r: bool)
    ensures
        r == managed(key@),
{
    same(key, "HOME") || same(key, "USER") || same(key, "LOGNAME") || same(key, "PATH") || same(
        key,
        "JULIA_DEPOT_PATH",
    ) || same(key, "JULIA_DAEMON_REVISE")
}

/// Some variable of `vars` from `i` on is called `key`.
pub open spec fn named_from(
    vars: Seq<env_cache::VarText>,
    key: Seq<char>,
    i: int,
) -> bool {
    exists|j: int| i <= j < vars.len() && (#[trigger] vars[j]).0 == key
}

/// Variable `i` of the host is passed on: it may be, it has no value of its
/// own here, and no later variable has the same name.
pub open spec fn passed_on(vars: Seq<env_cache::VarText>, i: int) -> bool {
    &&& allowed(vars[i].0)
    &&& !managed(vars[i].0)
    &&& !named_from(vars, vars[i].0, i + 1)
}

/// The variables among the first `n` of the host that are passed on.
pub open spec fn host_vars(vars: Seq<env_cache::VarText>, n: int) -> Seq<env_cache::VarText>
    decreases n,
{
    if n <= 0 {
        Seq::empty()
    } else if passed_on(vars, n - 1) {
        host_vars(vars, n - 1).push(vars[n - 1])
    } else {
        host_vars(vars, n - 1)
    }
}

/// The variables that a confined worker has values of its own for.
pub open spec fn own_vars(home: Seq<char>) -> Seq<env_cache::VarText> {
    seq![
        ("HOME"@, "/home/sandbox"@),
        ("USER"@, "sandbox"@),
        ("LOGNAME"@, "sandbox"@),
    ] + (if home.len() > 0 {
        seq![
            ("PATH"@, home + "/.julia/juliaup/bin:/usr/local/bin:/usr/bin:/bin"@),
            ("JULIA_DEPOT_PATH"@, home + "/.julia"@),
        ]
    } else {
        seq![("PATH"@, "/usr/local/bin:/usr/bin:/bin"@)]
    }) + seq![("JULIA_DAEMON_REVISE"@, "no"@)]
}

/// The environment of a confined worker.
pub open spec fn sandbox_vars(vars: Seq<env_cache::VarText>, home: Seq<char>) -> Seq<
    env_cache::VarText,
> {
    host_vars(vars, vars.len() as int) + own_vars(home)
}

pub open spec fn assignments(vars: Seq<env_cache::VarText>) -> Seq<Seq<char>> {
    Seq::new(vars.len(), |i: int| client_env::assignment(vars[i]))
}

/// Nothing of the host's environment but what is allowed reaches a confined
/// worker, and nothing under a name that it has a value of its own for.
pub proof fn law_host_variables_are_allowed(vars: Seq<env_cache::VarText>, n: int, i: int)
    requires
        0 <= n <= vars.len(),
        0 <= i < host_vars(vars, n).len(),
    ensures
        allowed(host_vars(vars, n)[i].0),
        !managed(host_vars(vars, n)[i].0),
    decreases n,
{
    if n > 0 && i < host_vars(vars, n - 1).len() {
        law_host_variables_are_allowed(vars, n - 1, i);
    }
}

/// A confined worker never learns the host's home directory, user or search
/// path from its variables of those names: they have the values given here.
pub proof fn law_identity_is_the_sandbox(
    vars: Seq<env_cache::VarText>,
    home: Seq<char>,
    i: int,
)
    requires
        0 <= i < sandbox_vars(vars, home).len(),
        managed(sandbox_vars(vars, home)[i].0),
    ensures
        own_vars(home).contains(sandbox_vars(vars, home)[i]),
{
    let host = host_vars(vars, vars.len() as int);
    if i < host.len() {
        law_host_variables_are_allowed(vars, vars.len() as int, i);
    } else {
        assert(sandbox_vars(vars, home)[i] == own_vars(home)[i - host.len()]);
    }
}

fn is_named_from(vars: &[EnvVar], key: &str, from: usize) -> (r: bool)
    requires
        from <= vars@.len(),
    ensures
        r == named_from(env_cache::var_views(vars@), key@, from as int),
{
    let ghost all = env_cache::var_views(vars@);
    let mut j: usize = from;
    while j < vars.len()
        invariant
            from <= j <= vars@.len(),
            all == env_cache::var_views(vars@),
            forall|k: int| from <= k < j ==> (#[trigger] all[k]).0 != key@,
        decreases vars@.len() - j,
    {
        if same(vars[j].key.as_str(), key) {
            assert(all[j as int].0 == key@);
            return true;
        }
        j = j + 1;
    }
    false
}

fn push_var(out: &mut Vec<String>, key: &str, value: &str)
    ensures
        text::views(final(out)@) == text::views(old(out)@).push(
            client_env::assignment((key@, value@)),
        ),
{
    let one = join3(key, "=", value);
    proof {
        text::lemma_views_push(out@, one);
    }
    out.push(one);
}

/// The environment of a confined worker, as the system takes it.
pub fn build_envp(cfg: &SandboxConfig) -> (r: Vec<Vec<u8>>)
    ensures
        crate::wire::byte_views(r@) == c_strings(
            assignments(
                sandbox_vars(env_cache::var_views(cfg.host_environ@), cfg.host_home@),
            ),
        ),
{
    let ghost all = env_cache::var_views(cfg.host_environ@);
    let vars = cfg.host_environ.as_slice();
    let mut out: Vec<String> = Vec::new();
    let mut i: usize = 0;
    assert(text::views(out@) =~= assignments(host_vars(all, 0)));
    while i < vars.len()
        invariant
            i <= vars@.len(),
            vars@ == cfg.host_environ@,
            all == env_cache::var_views(vars@),
            text::views(out@) == assignments(host_vars(all, i as int)),
        decreases vars@.len() - i,
    {
        let key = vars[i].key.as_str();
        let ghost before = host_vars(all, i as int);
        if !env_managed(key) && env_allowed(key) && !is_named_from(vars, key, i + 1) {
            push_var(&mut out, key, vars[i].value.as_str());
            assert(text::views(out@) =~= assignments(before.push(all[i as int])));
        }
        i = i + 1;
    }
    let ghost host = host_vars(all, all.len() as int);
    let home = cfg.host_home.as_str();
    push_var(&mut out, "HOME", "/home/sandbox");
    push_var(&mut out, "USER", "sandbox");
    push_var(&mut out, "LOGNAME", "sandbox");
    if home.unicode_len() > 0 {
        let path = join2(home, "/.julia/juliaup/bin:/usr/local/bin:/usr/bin:/bin");
        push_var(&mut out, "PATH", path.as_str());
        let depot = join2(home, "/.julia");
        push_var(&mut out, "JULIA_DEPOT_PATH", depot.as_str());
    } else {
        push_var(&mut out, "PATH", "/usr/local/bin:/usr/bin:/bin");
    }
    push_var(&mut out, "JULIA_DAEMON_REVISE", "no");
    assert(text::views(out@) =~= assignments(sandbox_vars(all, home@)));
    to_c_strings(out.as_slice())
}

} // verus!
