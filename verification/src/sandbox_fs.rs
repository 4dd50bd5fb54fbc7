//! The file system of a confined worker, as a list of steps, and the limits
//! on what it may use.

use crate::numeric;
use crate::numeric::decimal_string;
use crate::sandbox::{SandboxConfig, SandboxError};
use crate::text;
use crate::text::{join2, join3, owned, rfind_char, take};
use vstd::prelude::*;

verus! {

// ---------------------------------------------------------------------
// Steps
// ---------------------------------------------------------------------

/// How mounts are shared with the host.
#[derive(Clone, Copy, Debug, PartialEq, Eq, Structural)]
pub enum Propagation {
    Slave,
    Private,
}

/// One change to the file system; `S` is a text.
pub enum FsOp<S> {
    /// Stop sharing the mounts below a directory.
    Propagate(S, Propagation),
    /// An empty file system in memory, with options.
    Tmpfs(S, S),
    Chdir(S),
    /// A directory, which may be there already.
    Mkdir(S),
    /// A directory and those above it.
    MkdirAll(S),
    /// The first path at the second.
    Bind(S, S),
    /// Make a bound path read-only.
    Readonly(S),
    /// A new root, and where the old one goes.
    PivotRoot(S, S),
    /// An empty file.
    Touch(S),
    /// A file with content.
    WriteFile(S, S),
    /// The first text as the content of a link at the second.
    Symlink(S, S),
    /// The process file system.
    Proc(S),
    /// An overlay, with options.
    Overlay(S, S),
    /// Take away the mount at a path, once it is no longer used.
    Detach(S),
}

/// What to do when a change fails.
#[derive(Clone, Copy, Debug, PartialEq, Eq, Structural)]
pub enum OnFail {
    /// Leave out this many of the steps that follow.
    Skip(usize),
    Abort(SandboxError),
}

/// One step: a change, how many of the steps that follow are left out when it
/// succeeds, and what to do when it fails.
pub struct Step<S> {
    pub op: FsOp<S>,
    pub on_ok: usize,
    pub on_fail: OnFail,
}

/// The texts of a change.
pub open spec fn op_view(op: FsOp<String>) -> FsOp<Seq<char>> {
    match op {
        FsOp::Propagate(a, p) => FsOp::Propagate(a@, p),
        FsOp::Tmpfs(a, b) => FsOp::Tmpfs(a@, b@),
        FsOp::Chdir(a) => FsOp::Chdir(a@),
        FsOp::Mkdir(a) => FsOp::Mkdir(a@),
        FsOp::MkdirAll(a) => FsOp::MkdirAll(a@),
        FsOp::Bind(a, b) => FsOp::Bind(a@, b@),
        FsOp::Readonly(a) => FsOp::Readonly(a@),
        FsOp::PivotRoot(a, b) => FsOp::PivotRoot(a@, b@),
        FsOp::Touch(a) => FsOp::Touch(a@),
        FsOp::WriteFile(a, b) => FsOp::WriteFile(a@, b@),
        FsOp::Symlink(a, b) => FsOp::Symlink(a@, b@),
        FsOp::Proc(a) => FsOp::Proc(a@),
        FsOp::Overlay(a, b) => FsOp::Overlay(a@, b@),
        FsOp::Detach(a) => FsOp::Detach(a@),
    }
}

pub open spec fn step_view(s: Step<String>) -> Step<Seq<char>> {
    Step { op: op_view(s.op), on_ok: s.on_ok, on_fail: s.on_fail }
}

pub type Plan = Seq<Step<Seq<char>>>;

pub open spec fn step_views(v: Seq<Step<String>>) -> Plan {
    Seq::new(v.len(), |i: int| step_view(v[i]))
}

/// The flags with which the system is asked for a change.
pub open spec fn flags_of<S>(op: FsOp<S>) -> u64 {
    match op {
        FsOp::Propagate(a, p) => match p {
            Propagation::Slave => 0x84000,
            Propagation::Private => 0x44000,
        },
        FsOp::Tmpfs(a, b) => 0x6,
        FsOp::Bind(a, b) => 0xD000,
        FsOp::Readonly(a) => 0x9027,
        FsOp::Proc(a) => 0xE,
        FsOp::Detach(a) => 0x2,
        _ => 0,
    }
}

impl FsOp<String> {
    /// The flags with which the system is asked for this change: mounts in
    /// memory and of processes hold no devices and no programs with rights of
    /// their own, and what is made read-only neither.
    pub fn flags(&self) -> (r: u64)
        ensures
            r == flags_of(*self),
    {
        match self {
            FsOp::Propagate(a, p) => match p {
                Propagation::Slave => 0x84000,
                Propagation::Private => 0x44000,
            },
            FsOp::Tmpfs(a, b) => 0x6,
            FsOp::Bind(a, b) => 0xD000,
            FsOp::Readonly(a) => 0x9027,
            FsOp::Proc(a) => 0xE,
            FsOp::Detach(a) => 0x2,
            _ => 0,
        }
    }
}

/// The step after step `i`, or why the plan ends there.
pub open spec fn after_step<S>(s: Step<S>, i: int, ok: bool) -> Result<int, SandboxError> {
    if ok {
        Ok(i + 1 + s.on_ok)
    } else {
        match s.on_fail {
            OnFail::Skip(n) => Ok(i + 1 + n),
            OnFail::Abort(e) => Err(e),
        }
    }
}

/// Every step leads to a later one, or to the end.
pub open spec fn leads_on<S>(plan: Seq<Step<S>>) -> bool {
    forall|i: int|
        0 <= i < plan.len() ==> i + 1 + (#[trigger] plan[i]).on_ok <= plan.len() && (
        plan[i].on_fail matches OnFail::Skip(n) ==> i + 1 + n <= plan.len())
}

/// The index of the step after step `i`.
pub fn next_step(plan: &[Step<String>], i: usize, ok: bool) -> (r: Result<usize, SandboxError>)
    requires
        leads_on(step_views(plan@)),
        i < plan.len(),
    ensures
        match r {
            Ok(j) => after_step(plan@[i as int], i as int, ok) == Ok::<int, SandboxError>(
                j as int,
            ) && i < j <= plan@.len(),
            Err(e) => after_step(plan@[i as int], i as int, ok) == Err::<int, SandboxError>(e),
        },
{
    assert(step_views(plan@)[i as int] == step_view(plan@[i as int]));
    if ok {
        Ok(i + 1 + plan[i].on_ok)
    } else {
        match plan[i].on_fail {
            OnFail::Skip(n) => Ok(i + 1 + n),
            OnFail::Abort(e) => Err(e),
        }
    }
}

// ---------------------------------------------------------------------
// Groups of steps
// ---------------------------------------------------------------------

/// A change without which nothing goes on.
pub open spec fn must(op: FsOp<Seq<char>>, e: SandboxError) -> Plan {
    seq![Step { op, on_ok: 0, on_fail: OnFail::Abort(e) }]
}

/// A change that may fail.
pub open spec fn may(op: FsOp<Seq<char>>) -> Plan {
    seq![Step { op, on_ok: 0, on_fail: OnFail::Skip(0) }]
}

pub open spec fn must_mkdir(path: Seq<char>) -> Plan {
    must(FsOp::Mkdir(path), SandboxError::MkdirFailed)
}

pub open spec fn must_tmpfs(path: Seq<char>, options: Seq<char>) -> Plan {
    must(FsOp::Tmpfs(path, options), SandboxError::MountFailed)
}

/// A directory of the host, read-only.
pub open spec fn readonly(src: Seq<char>, dst: Seq<char>) -> Plan {
    must_mkdir(dst) + must(FsOp::Bind(src, dst), SandboxError::MountFailed) + may(
        FsOp::Readonly(dst),
    )
}

/// A directory of the host, read-only, if it can be had. What cannot be bound
/// is left out, and `beyond` further steps are with it.
pub open spec fn optional_readonly(src: Seq<char>, dst: Seq<char>, beyond: usize) -> Plan {
    seq![
        Step {
            op: FsOp::Mkdir(dst),
            on_ok: 0,
            on_fail: OnFail::Skip((beyond + 2) as usize),
        },
        Step {
            op: FsOp::Bind(src, dst),
            on_ok: 0,
            on_fail: OnFail::Skip((beyond + 1) as usize),
        },
        Step { op: FsOp::Readonly(dst), on_ok: beyond, on_fail: OnFail::Skip(beyond) },
    ]
}

/// A device of the host.
pub open spec fn device(name: Seq<char>) -> Plan {
    may(FsOp::Touch("/newroot/dev/"@ + name)) + may(
        FsOp::Bind("/oldroot/dev/"@ + name, "/newroot/dev/"@ + name),
    )
}

/// A file in place of one of the host's.
pub open spec fn replaced(n: Seq<char>, target: Seq<char>, content: Seq<char>) -> Plan {
    may(FsOp::WriteFile("/etc-override-"@ + n, content)) + may(
        FsOp::Bind("/etc-override-"@ + n, target),
    ) + may(FsOp::Readonly(target))
}

/// A place to build the new root in.
pub open spec fn staging_plan() -> Plan {
    may(FsOp::Propagate("/"@, Propagation::Slave)) + must_tmpfs("/tmp"@, ""@) + may(
        FsOp::Chdir("/tmp"@),
    ) + must_mkdir("newroot"@) + must(
        FsOp::Bind("newroot"@, "newroot"@),
        SandboxError::MountFailed,
    ) + must_mkdir("oldroot"@) + must_mkdir("ovl-upper"@) + must_mkdir("ovl-work"@) + must(
        FsOp::PivotRoot("/tmp"@, "oldroot"@),
        SandboxError::PivotRootFailed,
    ) + may(FsOp::Chdir("/"@))
}

pub open spec fn dev_plan() -> Plan {
    must_mkdir("/newroot/dev"@) + must_tmpfs("/newroot/dev"@, "mode=0755"@) + device("null"@)
        + device("zero"@) + device("full"@) + device("random"@) + device("urandom"@) + device(
        "tty"@,
    ) + may(FsOp::Symlink("/proc/self/fd/0"@, "/newroot/dev/stdin"@)) + may(
        FsOp::Symlink("/proc/self/fd/1"@, "/newroot/dev/stdout"@),
    ) + may(FsOp::Symlink("/proc/self/fd/2"@, "/newroot/dev/stderr"@)) + may(
        FsOp::Symlink("/proc/self/fd"@, "/newroot/dev/fd"@),
    )
}

pub open spec fn passwd_text() -> Seq<char> {
    "root:x:0:0:root:/root:/bin/sh\nsandbox:x:0:0:sandbox:/home/sandbox:/bin/sh\nnobody:x:65534:65534:nobody:/nonexistent:/usr/sbin/nologin\n"@
}

pub open spec fn system_plan() -> Plan {
    must_mkdir("/newroot/proc"@) + must(
        FsOp::Proc("/newroot/proc"@),
        SandboxError::MountFailed,
    ) + must_mkdir("/newroot/tmp"@) + must_tmpfs("/newroot/tmp"@, "mode=1777"@) + readonly(
        "/oldroot/usr"@,
        "/newroot/usr"@,
    ) + readonly("/oldroot/etc"@, "/newroot/etc"@) + replaced(
        "0"@,
        "/newroot/etc/passwd"@,
        passwd_text(),
    ) + replaced(
        "1"@,
        "/newroot/etc/group"@,
        "root:x:0:\nsandbox:x:0:\nnogroup:x:65534:\n"@,
    ) + replaced(
        "2"@,
        "/newroot/etc/nsswitch.conf"@,
        "passwd: files\ngroup:  files\nhosts:  files dns\n"@,
    ) + optional_readonly("/oldroot/usr/lib"@, "/newroot/lib"@, 0) + optional_readonly(
        "/oldroot/usr/lib64"@,
        "/newroot/lib64"@,
        0,
    ) + optional_readonly("/oldroot/usr/bin"@, "/newroot/bin"@, 0) + optional_readonly(
        "/oldroot/opt"@,
        "/newroot/opt"@,
        0,
    ) + must_mkdir("/newroot/home"@) + must_tmpfs("/newroot/home"@, "mode=0755"@)
}

/// An empty place for environments, where there is to be one.
pub open spec fn environments_plan(home: Seq<char>, empty_environment: bool) -> Plan {
    if empty_environment {
        may(FsOp::MkdirAll("/newroot"@ + home + "/.julia/environments"@)) + may(
            FsOp::Tmpfs("/newroot"@ + home + "/.julia/environments"@, "mode=0755"@),
        )
    } else {
        Seq::empty()
    }
}

/// The packages of the host: as a layer that can be written over, or
/// read-only where there can be no such layer.
pub open spec fn depot_plan(home: Seq<char>, empty_environment: bool) -> Plan {
    let depot = "/newroot"@ + home + "/.julia"@;
    seq![
        Step {
            op: FsOp::Overlay(
                depot,
                "upperdir=/ovl-upper,workdir=/ovl-work,lowerdir=/oldroot"@ + home
                    + "/.julia,userxattr"@,
            ),
            on_ok: 3,
            on_fail: OnFail::Skip(0),
        },
    ] + optional_readonly(
        "/oldroot"@ + home + "/.julia"@,
        depot,
        if empty_environment {
            2
        } else {
            0
        },
    ) + environments_plan(home, empty_environment)
}

pub open spec fn home_plan(home: Seq<char>, empty_environment: bool) -> Plan {
    if home.len() == 0 {
        Seq::empty()
    } else {
        may(FsOp::MkdirAll("/newroot/root/.julia/juliaup"@)) + may(
            FsOp::Bind("/oldroot"@ + home + "/.julia/juliaup"@, "/newroot/root/.julia/juliaup"@),
        ) + may(FsOp::MkdirAll("/newroot"@ + home + "/.julia"@)) + depot_plan(
            home,
            empty_environment,
        ) + must_mkdir("/newroot/home/sandbox"@) + may(
            FsOp::Symlink(home + "/.julia"@, "/newroot/home/sandbox/.julia"@),
        )
    }
}

/// A further directory that can only be read.
pub open spec fn ro_bind(path: Seq<char>) -> Plan {
    if path.len() == 0 {
        Seq::empty()
    } else {
        may(FsOp::MkdirAll("/newroot"@ + path)) + optional_readonly(
            "/oldroot"@ + path,
            "/newroot"@ + path,
            0,
        )
    }
}

/// A further directory that can be written.
pub open spec fn rw_bind(path: Seq<char>) -> Plan {
    if path.len() == 0 {
        Seq::empty()
    } else {
        may(FsOp::MkdirAll("/newroot"@ + path)) + may(
            FsOp::Bind("/oldroot"@ + path, "/newroot"@ + path),
        )
    }
}

pub open spec fn ro_plan(paths: Seq<Seq<char>>) -> Plan
    decreases paths.len(),
{
    if paths.len() == 0 {
        Seq::empty()
    } else {
        ro_plan(paths.drop_last()) + ro_bind(paths.last())
    }
}

pub open spec fn rw_plan(paths: Seq<Seq<char>>) -> Plan
    decreases paths.len(),
{
    if paths.len() == 0 {
        Seq::empty()
    } else {
        rw_plan(paths.drop_last()) + rw_bind(paths.last())
    }
}

/// The directory of the socket that the worker calls back on.
pub open spec fn socket_plan(path: Seq<char>) -> Plan {
    let sep = text::rfind(path, '/');
    if sep >= 0 {
        may(FsOp::MkdirAll("/newroot"@ + path.take(sep))) + may(
            FsOp::Bind("/oldroot"@ + path.take(sep), "/newroot"@ + path.take(sep)),
        )
    } else {
        Seq::empty()
    }
}

/// The change to the new root, after which the old one is gone.
pub open spec fn final_plan() -> Plan {
    may(FsOp::Propagate("oldroot"@, Propagation::Private)) + must(
        FsOp::Chdir("/newroot"@),
        SandboxError::ChdirFailed,
    ) + must(FsOp::PivotRoot("."@, "."@), SandboxError::PivotRootFailed) + must(
        FsOp::Chdir("/"@),
        SandboxError::ChdirFailed,
    ) + may(FsOp::Detach("."@)) + may(FsOp::Chdir("/home/sandbox"@))
}

/// All steps.
pub open spec fn fs_plan(
    home: Seq<char>,
    empty_environment: bool,
    ro: Seq<Seq<char>>,
    rw: Seq<Seq<char>>,
    socket: Seq<char>,
) -> Plan {
    staging_plan() + dev_plan() + system_plan() + home_plan(home, empty_environment) + ro_plan(ro)
        + rw_plan(rw) + socket_plan(socket) + final_plan()
}

// ---------------------------------------------------------------------
// Laws
// ---------------------------------------------------------------------

pub proof fn lemma_leads_on_concat<S>(a: Seq<Step<S>>, b: Seq<Step<S>>)
    requires
        leads_on(a),
        leads_on(b),
    ensures
        leads_on(a + b),
{
    let all = a + b;
    assert forall|i: int| 0 <= i < all.len() implies i + 1 + (#[trigger] all[i]).on_ok
        <= all.len() && (all[i].on_fail matches OnFail::Skip(n) ==> i + 1 + n <= all.len()) by {
        if i < a.len() {
            assert(all[i] == a[i]);
        } else {
            assert(all[i] == b[i - a.len()]);
        }
    }
}

pub proof fn lemma_ro_leads_on(paths: Seq<Seq<char>>)
    ensures
        leads_on(ro_plan(paths)),
    decreases paths.len(),
{
    if paths.len() > 0 {
        lemma_ro_leads_on(paths.drop_last());
        assert(leads_on(ro_bind(paths.last())));
        lemma_leads_on_concat(ro_plan(paths.drop_last()), ro_bind(paths.last()));
    }
}

pub proof fn lemma_rw_leads_on(paths: Seq<Seq<char>>)
    ensures
        leads_on(rw_plan(paths)),
    decreases paths.len(),
{
    if paths.len() > 0 {
        lemma_rw_leads_on(paths.drop_last());
        assert(leads_on(rw_bind(paths.last())));
        lemma_leads_on_concat(rw_plan(paths.drop_last()), rw_bind(paths.last()));
    }
}

pub proof fn lemma_home_leads_on(home: Seq<char>, empty_environment: bool)
    ensures
        leads_on(home_plan(home, empty_environment)),
{
    if home.len() > 0 {
        let a = may(FsOp::MkdirAll("/newroot/root/.julia/juliaup"@)) + may(
            FsOp::Bind("/oldroot"@ + home + "/.julia/juliaup"@, "/newroot/root/.julia/juliaup"@),
        ) + may(FsOp::MkdirAll("/newroot"@ + home + "/.julia"@));
        let b = depot_plan(home, empty_environment);
        let c = must_mkdir("/newroot/home/sandbox"@);
        let d = may(FsOp::Symlink(home + "/.julia"@, "/newroot/home/sandbox/.julia"@));
        assert(leads_on(a));
        assert(leads_on(b));
        assert(leads_on(c));
        assert(leads_on(d));
        lemma_leads_on_concat(a, b);
        lemma_leads_on_concat(a + b, c);
        lemma_leads_on_concat(a + b + c, d);
    }
}

/// What comes before the change to the new root leads no further than to it.
proof fn lemma_front_leads_on(
    home: Seq<char>,
    empty_environment: bool,
    ro: Seq<Seq<char>>,
    rw: Seq<Seq<char>>,
    socket: Seq<char>,
)
    ensures
        leads_on(
            staging_plan() + dev_plan() + system_plan() + home_plan(home, empty_environment)
                + ro_plan(ro) + rw_plan(rw) + socket_plan(socket),
        ),
{
    let a = staging_plan();
    let b = dev_plan();
    let c = system_plan();
    let d = home_plan(home, empty_environment);
    let e = ro_plan(ro);
    let f = rw_plan(rw);
    let g = socket_plan(socket);
    assert(leads_on(a));
    assert(leads_on(b));
    assert(leads_on(c));
    lemma_home_leads_on(home, empty_environment);
    lemma_ro_leads_on(ro);
    lemma_rw_leads_on(rw);
    assert(leads_on(g));
    lemma_leads_on_concat(a, b);
    lemma_leads_on_concat(a + b, c);
    lemma_leads_on_concat(a + b + c, d);
    lemma_leads_on_concat(a + b + c + d, e);
    lemma_leads_on_concat(a + b + c + d + e, f);
    lemma_leads_on_concat(a + b + c + d + e + f, g);
}

/// Every step of a plan leads to a later one or to the end, so that a plan
/// comes to its end whatever fails.
pub proof fn law_plan_leads_on(
    home: Seq<char>,
    empty_environment: bool,
    ro: Seq<Seq<char>>,
    rw: Seq<Seq<char>>,
    socket: Seq<char>,
)
    ensures
        leads_on(fs_plan(home, empty_environment, ro, rw, socket)),
{
    lemma_front_leads_on(home, empty_environment, ro, rw, socket);
    let front = staging_plan() + dev_plan() + system_plan() + home_plan(home, empty_environment)
        + ro_plan(ro) + rw_plan(rw) + socket_plan(socket);
    assert(leads_on(final_plan()));
    lemma_leads_on_concat(front, final_plan());
}

/// The host's root is left behind: a plan ends with the change to the new
/// root, which no step leads past and which nothing goes on without, and with
/// taking the old one away.
pub proof fn law_old_root_is_left(
    home: Seq<char>,
    empty_environment: bool,
    ro: Seq<Seq<char>>,
    rw: Seq<Seq<char>>,
    socket: Seq<char>,
)
    ensures
        ({
            let plan = fs_plan(home, empty_environment, ro, rw, socket);
            let n = plan.len();
            &&& n >= 6
            &&& leads_on(plan.take(n - 6))
            &&& plan[n - 6].on_ok == 0 && plan[n - 6].on_fail == OnFail::Skip(0)
            &&& plan[n - 5].on_ok == 0 && plan[n - 5].on_fail is Abort
            &&& plan[n - 4] == (Step {
                op: FsOp::PivotRoot("."@, "."@),
                on_ok: 0,
                on_fail: OnFail::Abort(SandboxError::PivotRootFailed),
            })
            &&& plan[n - 2].op == FsOp::Detach("."@)
        }),
{
    let plan = fs_plan(home, empty_environment, ro, rw, socket);
    let h = final_plan();
    lemma_front_leads_on(home, empty_environment, ro, rw, socket);
    let front = staging_plan() + dev_plan() + system_plan() + home_plan(home, empty_environment)
        + ro_plan(ro) + rw_plan(rw) + socket_plan(socket);
    assert(h.len() == 6);
    assert(plan.take(plan.len() - 6) =~= front);
    assert(plan[plan.len() - 6] == h[0]);
    assert(plan[plan.len() - 5] == h[1]);
    assert(plan[plan.len() - 4] == h[2]);
    assert(plan[plan.len() - 2] == h[4]);
}

// ---------------------------------------------------------------------
// Building the plan
// ---------------------------------------------------------------------

fn push_must(out: &mut Vec<Step<String>>, op: FsOp<String>, e: SandboxError)
    ensures
        step_views(final(out)@) == step_views(old(out)@) + must(op_view(op), e),
{
    out.push(Step { op, on_ok: 0, on_fail: OnFail::Abort(e) });
    assert(step_views(out@) =~= step_views(old(out)@) + must(op_view(op), e));
}

fn push_may(out: &mut Vec<Step<String>>, op: FsOp<String>)
    ensures
        step_views(final(out)@) == step_views(old(out)@) + may(op_view(op)),
{
    out.push(Step { op, on_ok: 0, on_fail: OnFail::Skip(0) });
    assert(step_views(out@) =~= step_views(old(out)@) + may(op_view(op)));
}

fn push_mkdir(out: &mut Vec<Step<String>>, path: &str)
    ensures
        step_views(final(out)@) == step_views(old(out)@) + must_mkdir(path@),
{
    push_must(out, FsOp::Mkdir(owned(path)), SandboxError::MkdirFailed);
}

fn push_tmpfs(out: &mut Vec<Step<String>>, path: &str, options: &str)
    ensures
        step_views(final(out)@) == step_views(old(out)@) + must_tmpfs(path@, options@),
{
    push_must(out, FsOp::Tmpfs(owned(path), owned(options)), SandboxError::MountFailed);
}

fn push_readonly(out: &mut Vec<Step<String>>, src: &str, dst: &str)
    ensures
        step_views(final(out)@) == step_views(old(out)@) + readonly(src@, dst@),
{
    push_mkdir(out, dst);
    push_must(out, FsOp::Bind(owned(src), owned(dst)), SandboxError::MountFailed);
    push_may(out, FsOp::Readonly(owned(dst)));
    assert(step_views(out@) =~= step_views(old(out)@) + readonly(src@, dst@));
}

fn push_optional_readonly(out: &mut Vec<Step<String>>, src: &str, dst: &str, beyond: usize)
    requires
        beyond <= 2,
    ensures
        step_views(final(out)@) == step_views(old(out)@) + optional_readonly(src@, dst@, beyond),
{
    out.push(
        Step { op: FsOp::Mkdir(owned(dst)), on_ok: 0, on_fail: OnFail::Skip(beyond + 2) },
    );
    out.push(
        Step {
            op: FsOp::Bind(owned(src), owned(dst)),
            on_ok: 0,
            on_fail: OnFail::Skip(beyond + 1),
        },
    );
    out.push(
        Step { op: FsOp::Readonly(owned(dst)), on_ok: beyond, on_fail: OnFail::Skip(beyond) },
    );
    assert(step_views(out@) =~= step_views(old(out)@) + optional_readonly(src@, dst@, beyond));
}

fn push_device(out: &mut Vec<Step<String>>, name: &str)
    ensures
        step_views(final(out)@) == step_views(old(out)@) + device(name@),
{
    push_may(out, FsOp::Touch(join2("/newroot/dev/", name)));
    push_may(out, FsOp::Bind(join2("/oldroot/dev/", name), join2("/newroot/dev/", name)));
    assert(step_views(out@) =~= step_views(old(out)@) + device(name@));
}

fn push_replaced(out: &mut Vec<Step<String>>, n: &str, target: &str, content: &str)
    ensures
        step_views(final(out)@) == step_views(old(out)@) + replaced(n@, target@, content@),
{
    push_may(out, FsOp::WriteFile(join2("/etc-override-", n), owned(content)));
    push_may(out, FsOp::Bind(join2("/etc-override-", n), owned(target)));
    push_may(out, FsOp::Readonly(owned(target)));
    assert(step_views(out@) =~= step_views(old(out)@) + replaced(n@, target@, content@));
}

fn push_staging(out: &mut Vec<Step<String>>)
    ensures
        step_views(final(out)@) == step_views(old(out)@) + staging_plan(),
{
    push_may(out, FsOp::Propagate(owned("/"), Propagation::Slave));
    push_tmpfs(out, "/tmp", "");
    push_may(out, FsOp::Chdir(owned("/tmp")));
    push_mkdir(out, "newroot");
    push_must(
        out,
        FsOp::Bind(owned("newroot"), owned("newroot")),
        SandboxError::MountFailed,
    );
    push_mkdir(out, "oldroot");
    push_mkdir(out, "ovl-upper");
    push_mkdir(out, "ovl-work");
    push_must(
        out,
        FsOp::PivotRoot(owned("/tmp"), owned("oldroot")),
        SandboxError::PivotRootFailed,
    );
    push_may(out, FsOp::Chdir(owned("/")));
    assert(step_views(out@) =~= step_views(old(out)@) + staging_plan());
}

fn push_dev(out: &mut Vec<Step<String>>)
    ensures
        step_views(final(out)@) == step_views(old(out)@) + dev_plan(),
{
    push_mkdir(out, "/newroot/dev");
    push_tmpfs(out, "/newroot/dev", "mode=0755");
    push_device(out, "null");
    push_device(out, "zero");
    push_device(out, "full");
    push_device(out, "random");
    push_device(out, "urandom");
    push_device(out, "tty");
    push_may(out, FsOp::Symlink(owned("/proc/self/fd/0"), owned("/newroot/dev/stdin")));
    push_may(out, FsOp::Symlink(owned("/proc/self/fd/1"), owned("/newroot/dev/stdout")));
    push_may(out, FsOp::Symlink(owned("/proc/self/fd/2"), owned("/newroot/dev/stderr")));
    push_may(out, FsOp::Symlink(owned("/proc/self/fd"), owned("/newroot/dev/fd")));
    assert(step_views(out@) =~= step_views(old(out)@) + dev_plan());
}

fn push_system(out: &mut Vec<Step<String>>)
    ensures
        step_views(final(out)@) == step_views(old(out)@) + system_plan(),
{
    push_mkdir(out, "/newroot/proc");
    push_must(out, FsOp::Proc(owned("/newroot/proc")), SandboxError::MountFailed);
    push_mkdir(out, "/newroot/tmp");
    push_tmpfs(out, "/newroot/tmp", "mode=1777");
    push_readonly(out, "/oldroot/usr", "/newroot/usr");
    push_readonly(out, "/oldroot/etc", "/newroot/etc");
    push_replaced(
        out,
        "0",
        "/newroot/etc/passwd",
        "root:x:0:0:root:/root:/bin/sh\nsandbox:x:0:0:sandbox:/home/sandbox:/bin/sh\nnobody:x:65534:65534:nobody:/nonexistent:/usr/sbin/nologin\n",
    );
    push_replaced(
        out,
        "1",
        "/newroot/etc/group",
        "root:x:0:\nsandbox:x:0:\nnogroup:x:65534:\n",
    );
    push_replaced(
        out,
        "2",
        "/newroot/etc/nsswitch.conf",
        "passwd: files\ngroup:  files\nhosts:  files dns\n",
    );
    push_optional_readonly(out, "/oldroot/usr/lib", "/newroot/lib", 0);
    push_optional_readonly(out, "/oldroot/usr/lib64", "/newroot/lib64", 0);
    push_optional_readonly(out, "/oldroot/usr/bin", "/newroot/bin", 0);
    push_optional_readonly(out, "/oldroot/opt", "/newroot/opt", 0);
    push_mkdir(out, "/newroot/home");
    push_tmpfs(out, "/newroot/home", "mode=0755");
    assert(step_views(out@) =~= step_views(old(out)@) + system_plan());
}

fn push_depot(out: &mut Vec<Step<String>>, home: &str, empty_environment: bool)
    ensures
        step_views(final(out)@) == step_views(old(out)@) + depot_plan(home@, empty_environment),
{
    let depot = join3("/newroot", home, "/.julia");
    let src = join3("/oldroot", home, "/.julia");
    let options = join3(
        "upperdir=/ovl-upper,workdir=/ovl-work,lowerdir=/oldroot",
        home,
        "/.julia,userxattr",
    );
    out.push(
        Step {
            op: FsOp::Overlay(owned(depot.as_str()), options),
            on_ok: 3,
            on_fail: OnFail::Skip(0),
        },
    );
    let ghost first = depot_plan(home@, empty_environment).take(1);
    assert(step_views(out@) =~= step_views(old(out)@) + first);
    let beyond: usize = if empty_environment {
        2
    } else {
        0
    };
    push_optional_readonly(out, src.as_str(), depot.as_str(), beyond);
    if empty_environment {
        push_may(out, FsOp::MkdirAll(join3("/newroot", home, "/.julia/environments")));
        push_may(
            out,
            FsOp::Tmpfs(join3("/newroot", home, "/.julia/environments"), owned("mode=0755")),
        );
    }
    assert(step_views(out@) =~= step_views(old(out)@) + depot_plan(home@, empty_environment));
}

fn push_home(out: &mut Vec<Step<String>>, home: &str, empty_environment: bool)
    ensures
        step_views(final(out)@) == step_views(old(out)@) + home_plan(home@, empty_environment),
{
    if home.unicode_len() == 0 {
        assert(step_views(out@) =~= step_views(old(out)@) + home_plan(home@, empty_environment));
        return ;
    }
    push_may(out, FsOp::MkdirAll(owned("/newroot/root/.julia/juliaup")));
    push_may(
        out,
        FsOp::Bind(
            join3("/oldroot", home, "/.julia/juliaup"),
            owned("/newroot/root/.julia/juliaup"),
        ),
    );
    push_may(out, FsOp::MkdirAll(join3("/newroot", home, "/.julia")));
    push_depot(out, home, empty_environment);
    push_mkdir(out, "/newroot/home/sandbox");
    push_may(
        out,
        FsOp::Symlink(join2(home, "/.julia"), owned("/newroot/home/sandbox/.julia")),
    );
    assert(step_views(out@) =~= step_views(old(out)@) + home_plan(home@, empty_environment));
}

fn push_ro(out: &mut Vec<Step<String>>, paths: &[String])
    ensures
        step_views(final(out)@) == step_views(old(out)@) + ro_plan(text::views(paths@)),
{
    let ghost all = text::views(paths@);
    let mut i: usize = 0;
    assert(all.take(0) =~= Seq::empty());
    assert(step_views(out@) =~= step_views(old(out)@) + ro_plan(all.take(0)));
    while i < paths.len()
        invariant
            i <= paths@.len(),
            all == text::views(paths@),
            step_views(out@) == step_views(old(out)@) + ro_plan(all.take(i as int)),
        decreases paths@.len() - i,
    {
        let path = paths[i].as_str();
        assert(all.take(i + 1).drop_last() =~= all.take(i as int));
        if path.unicode_len() > 0 {
            let src = join2("/oldroot", path);
            let dst = join2("/newroot", path);
            push_may(out, FsOp::MkdirAll(join2("/newroot", path)));
            push_optional_readonly(out, src.as_str(), dst.as_str(), 0);
        }
        assert(step_views(out@) =~= step_views(old(out)@) + ro_plan(all.take(i + 1)));
        i = i + 1;
    }
    assert(all.take(i as int) =~= all);
}

fn push_rw(out: &mut Vec<Step<String>>, paths: &[String])
    ensures
        step_views(final(out)@) == step_views(old(out)@) + rw_plan(text::views(paths@)),
{
    let ghost all = text::views(paths@);
    let mut i: usize = 0;
    assert(all.take(0) =~= Seq::empty());
    assert(step_views(out@) =~= step_views(old(out)@) + rw_plan(all.take(0)));
    while i < paths.len()
        invariant
            i <= paths@.len(),
            all == text::views(paths@),
            step_views(out@) == step_views(old(out)@) + rw_plan(all.take(i as int)),
        decreases paths@.len() - i,
    {
        let path = paths[i].as_str();
        assert(all.take(i + 1).drop_last() =~= all.take(i as int));
        if path.unicode_len() > 0 {
            push_may(out, FsOp::MkdirAll(join2("/newroot", path)));
            push_may(out, FsOp::Bind(join2("/oldroot", path), join2("/newroot", path)));
        }
        assert(step_views(out@) =~= step_views(old(out)@) + rw_plan(all.take(i + 1)));
        i = i + 1;
    }
    assert(all.take(i as int) =~= all);
}

fn push_socket(out: &mut Vec<Step<String>>, path: &str)
    ensures
        step_views(final(out)@) == step_views(old(out)@) + socket_plan(path@),
{
    match rfind_char(path, '/') {
        Some(sep) => {
            let dir = take(path, sep);
            push_may(out, FsOp::MkdirAll(join2("/newroot", dir)));
            push_may(out, FsOp::Bind(join2("/oldroot", dir), join2("/newroot", dir)));
        },
        None => {},
    }
    assert(step_views(out@) =~= step_views(old(out)@) + socket_plan(path@));
}

fn push_final(out: &mut Vec<Step<String>>)
    ensures
        step_views(final(out)@) == step_views(old(out)@) + final_plan(),
{
    push_may(out, FsOp::Propagate(owned("oldroot"), Propagation::Private));
    push_must(out, FsOp::Chdir(owned("/newroot")), SandboxError::ChdirFailed);
    push_must(out, FsOp::PivotRoot(owned("."), owned(".")), SandboxError::PivotRootFailed);
    push_must(out, FsOp::Chdir(owned("/")), SandboxError::ChdirFailed);
    push_may(out, FsOp::Detach(owned(".")));
    push_may(out, FsOp::Chdir(owned("/home/sandbox")));
    assert(step_views(out@) =~= step_views(old(out)@) + final_plan());
}

/// The steps that give a confined worker its file system.
pub fn filesystem_plan(cfg: &SandboxConfig) -> (r: Vec<Step<String>>)
    ensures
        step_views(r@) == fs_plan(
            cfg.host_home@,
            cfg.empty_environment,
            text::views(cfg.extra_ro_binds@),
            text::views(cfg.extra_rw_binds@),
            cfg.setup_socket_path@,
        ),
        leads_on(step_views(r@)),
{
    let mut out: Vec<Step<String>> = Vec::new();
    assert(step_views(out@) + staging_plan() =~= staging_plan());
    push_staging(&mut out);
    push_dev(&mut out);
    push_system(&mut out);
    push_home(&mut out, cfg.host_home.as_str(), cfg.empty_environment);
    push_ro(&mut out, cfg.extra_ro_binds.as_slice());
    push_rw(&mut out, cfg.extra_rw_binds.as_slice());
    push_socket(&mut out, cfg.setup_socket_path.as_str());
    push_final(&mut out);
    proof {
        law_plan_leads_on(
            cfg.host_home@,
            cfg.empty_environment,
            text::views(cfg.extra_ro_binds@),
            text::views(cfg.extra_rw_binds@),
            cfg.setup_socket_path@,
        );
    }
    out
}

// ---------------------------------------------------------------------
// Identity and limits
// ---------------------------------------------------------------------

/// The map that makes the user or group `id` of the host the first one inside.
pub fn id_map(id: u32) -> (r: String)
    ensures
        r@ == "0 "@ + numeric::decimal(id as nat) + " 1\n"@,
{
    let n = decimal_string(id as u64);
    join3("0 ", n.as_str(), " 1\n")
}

/// The control group of a confined worker.
pub open spec fn cgroup_path(id: u32) -> Seq<char> {
    "/sys/fs/cgroup/julia-sandbox-"@ + numeric::decimal(id as nat)
}

pub fn cgroup_dir(id: u32) -> (r: String)
    ensures
        r@ == cgroup_path(id),
{
    let n = decimal_string(id as u64);
    join2("/sys/fs/cgroup/julia-sandbox-", n.as_str())
}

/// The files of the control group and what is written to them: the limits
/// that are set, and last the process itself. Nothing where no limit is set.
pub open spec fn cgroup_files(
    id: u32,
    max_memory: Option<Seq<char>>,
    max_cpu: Option<u32>,
) -> Seq<(Seq<char>, Seq<char>)> {
    let dir = cgroup_path(id);
    if max_memory is None && max_cpu is None {
        Seq::empty()
    } else {
        (match max_memory {
            Some(m) => seq![(dir + "/memory.max"@, m)],
            None => Seq::empty(),
        }) + (match max_cpu {
            Some(c) => seq![
                (dir + "/cpu.max"@, numeric::decimal(c as nat * 1000) + " 100000"@),
            ],
            None => Seq::empty(),
        }) + seq![(dir + "/cgroup.procs"@, "0"@)]
    }
}

pub open spec fn pair_views(v: Seq<(String, String)>) -> Seq<(Seq<char>, Seq<char>)> {
    Seq::new(v.len(), |i: int| (v[i].0@, v[i].1@))
}

pub fn cgroup_writes(cfg: &SandboxConfig) -> (r: Vec<(String, String)>)
    ensures
        pair_views(r@) == cgroup_files(
            cfg.worker_id,
            text::opt_view(cfg.max_memory),
            cfg.max_cpu,
        ),
{
    let mut out: Vec<(String, String)> = Vec::new();
    let dir = cgroup_dir(cfg.worker_id);
    let mut limited: bool = false;
    if let Some(m) = &cfg.max_memory {
        out.push((join2(dir.as_str(), "/memory.max"), owned(m.as_str())));
        limited = true;
    }
    if let Some(c) = cfg.max_cpu {
        let quota = decimal_string(c as u64 * 1000);
        out.push((join2(dir.as_str(), "/cpu.max"), join2(quota.as_str(), " 100000")));
        limited = true;
    }
    if limited {
        out.push((join2(dir.as_str(), "/cgroup.procs"), owned("0")));
    }
    assert(pair_views(out@) =~= cgroup_files(
        cfg.worker_id,
        text::opt_view(cfg.max_memory),
        cfg.max_cpu,
    ));
    out
}

} // verus!
