//! What a confined worker can reach, change and learn.

use crate::env_cache::VarText;
use crate::numeric;
use crate::sandbox;
use crate::sandbox_fs;
use crate::sandbox_fs::{FsOp, OnFail, Plan, Propagation};
use crate::text;
use vstd::prelude::*;

verus! {

// ---------------------------------------------------------------------
// Directories
// ---------------------------------------------------------------------

/// Step `i` binds `src` at `dst`.
pub open spec fn binds(plan: Plan, i: int, src: Seq<char>, dst: Seq<char>) -> bool {
    0 <= i < plan.len() && plan[i].op == FsOp::Bind(src, dst)
}

/// Whatever becomes of the steps before `i`, none of them leads past it,
/// unless nothing goes on at all.
pub open spec fn is_reached(plan: Plan, i: int) -> bool {
    forall|j: int|
        0 <= j < i ==> j + 1 + (#[trigger] plan[j]).on_ok <= i && (
        plan[j].on_fail matches OnFail::Skip(n) ==> j + 1 + n <= i)
}

/// No step from `i` on makes anything read-only or puts anything else in its
/// place.
pub open spec fn stays_open(plan: Plan, i: int) -> bool {
    forall|j: int|
        i <= j < plan.len() ==> !((#[trigger] plan[j]).op is Readonly) && !(plan[j].op is Tmpfs)
            && !(plan[j].op is Overlay)
}

/// Step `i` binds `src` at `dst`; where that succeeds, what was bound is made
/// read-only at once.
pub open spec fn binds_read_only(plan: Plan, i: int, src: Seq<char>, dst: Seq<char>) -> bool {
    &&& binds(plan, i, src, dst)
    &&& i + 1 < plan.len()
    &&& plan[i].on_ok == 0
    &&& plan[i + 1].op == FsOp::<Seq<char>>::Readonly(dst)
}

proof fn lemma_reached_behind(a: Plan, b: Plan, i: int)
    requires
        sandbox_fs::leads_on(a),
        is_reached(b, i),
        0 <= i <= b.len(),
    ensures
        is_reached(a + b, a.len() + i),
{
    let plan = a + b;
    assert forall|j: int| 0 <= j < a.len() + i implies j + 1 + (#[trigger] plan[j]).on_ok <= a.len()
        + i && (plan[j].on_fail matches OnFail::Skip(n) ==> j + 1 + n <= a.len() + i) by {
        if j < a.len() {
            assert(plan[j] == a[j]);
        } else {
            assert(plan[j] == b[j - a.len()]);
        }
    }
}

proof fn lemma_reached_before(a: Plan, b: Plan, i: int)
    requires
        is_reached(a, i),
        0 <= i <= a.len(),
    ensures
        is_reached(a + b, i),
{
    let plan = a + b;
    assert forall|j: int| 0 <= j < i implies j + 1 + (#[trigger] plan[j]).on_ok <= i && (
    plan[j].on_fail matches OnFail::Skip(n) ==> j + 1 + n <= i) by {
        assert(plan[j] == a[j]);
    }
}

proof fn lemma_rw_place(rw: Seq<Seq<char>>, k: int) -> (i: int)
    requires
        0 <= k < rw.len(),
        rw[k].len() > 0,
    ensures
        binds(sandbox_fs::rw_plan(rw), i, "/oldroot"@ + rw[k], "/newroot"@ + rw[k]),
        is_reached(sandbox_fs::rw_plan(rw), i),
    decreases rw.len(),
{
    let front = sandbox_fs::rw_plan(rw.drop_last());
    let back = sandbox_fs::rw_bind(rw.last());
    if k < rw.len() - 1 {
        let i = lemma_rw_place(rw.drop_last(), k);
        lemma_reached_before(front, back, i);
        assert((front + back)[i] == front[i]);
        i
    } else {
        sandbox_fs::lemma_rw_leads_on(rw.drop_last());
        assert(is_reached(back, 1));
        lemma_reached_behind(front, back, 1);
        let n = front.len() as int;
        assert((front + back)[n + 1] == back[1]);
        n + 1
    }
}

proof fn lemma_rw_open(rw: Seq<Seq<char>>)
    ensures
        stays_open(sandbox_fs::rw_plan(rw), 0),
    decreases rw.len(),
{
    if rw.len() > 0 {
        lemma_rw_open(rw.drop_last());
        let front = sandbox_fs::rw_plan(rw.drop_last());
        let back = sandbox_fs::rw_bind(rw.last());
        assert(stays_open(back, 0));
        lemma_open(front, back);
    }
}

proof fn lemma_open(a: Plan, b: Plan)
    requires
        stays_open(a, 0),
        stays_open(b, 0),
    ensures
        stays_open(a + b, 0),
{
    let plan = a + b;
    assert forall|j: int| 0 <= j < plan.len() implies !((#[trigger] plan[j]).op is Readonly) && !(
    plan[j].op is Tmpfs) && !(plan[j].op is Overlay) by {
        if j < a.len() {
            assert(plan[j] == a[j]);
        } else {
            assert(plan[j] == b[j - a.len()]);
        }
    }
}

proof fn lemma_ro_place(ro: Seq<Seq<char>>, k: int) -> (i: int)
    requires
        0 <= k < ro.len(),
        ro[k].len() > 0,
    ensures
        binds_read_only(sandbox_fs::ro_plan(ro), i, "/oldroot"@ + ro[k], "/newroot"@ + ro[k]),
        i > 0,
        is_reached(sandbox_fs::ro_plan(ro), i - 1),
        sandbox_fs::ro_plan(ro)[i - 1].op == FsOp::Mkdir("/newroot"@ + ro[k]),
        sandbox_fs::ro_plan(ro)[i - 1].on_ok == 0,
        sandbox_fs::ro_plan(ro)[i - 1].on_fail == OnFail::Skip(2),
        sandbox_fs::ro_plan(ro)[i].on_fail == OnFail::Skip(1),
    decreases ro.len(),
{
    let front = sandbox_fs::ro_plan(ro.drop_last());
    let back = sandbox_fs::ro_bind(ro.last());
    let all = front + back;
    if k < ro.len() - 1 {
        let i = lemma_ro_place(ro.drop_last(), k);
        lemma_reached_before(front, back, i - 1);
        assert(all[i - 1] == front[i - 1] && all[i] == front[i] && all[i + 1] == front[i + 1]);
        i
    } else {
        sandbox_fs::lemma_ro_leads_on(ro.drop_last());
        assert(is_reached(back, 1));
        lemma_reached_behind(front, back, 1);
        let n = front.len() as int;
        assert(all[n + 1] == back[1] && all[n + 2] == back[2] && all[n + 3] == back[3]);
        n + 2
    }
}

/// The steps before those for further directories.
spec fn first_part(home: Seq<char>, empty_environment: bool) -> Plan {
    sandbox_fs::staging_plan() + sandbox_fs::dev_plan() + sandbox_fs::system_plan()
        + sandbox_fs::home_plan(home, empty_environment)
}

#[verifier::rlimit(40)]
#[verifier::spinoff_prover]
proof fn lemma_parts(
    home: Seq<char>,
    empty_environment: bool,
    ro: Seq<Seq<char>>,
    rw: Seq<Seq<char>>,
    socket: Seq<char>,
)
    ensures
        sandbox_fs::fs_plan(home, empty_environment, ro, rw, socket) == first_part(
            home,
            empty_environment,
        ) + sandbox_fs::ro_plan(ro) + sandbox_fs::rw_plan(rw) + (sandbox_fs::socket_plan(socket)
            + sandbox_fs::final_plan()),
        sandbox_fs::leads_on(first_part(home, empty_environment)),
{
    assert(sandbox_fs::fs_plan(home, empty_environment, ro, rw, socket) =~= first_part(
        home,
        empty_environment,
    ) + sandbox_fs::ro_plan(ro) + sandbox_fs::rw_plan(rw) + (sandbox_fs::socket_plan(socket)
        + sandbox_fs::final_plan()));
    sandbox_fs::lemma_home_leads_on(home, empty_environment);
    let a = sandbox_fs::staging_plan();
    let b = sandbox_fs::dev_plan();
    let c = sandbox_fs::system_plan();
    assert(sandbox_fs::leads_on(a));
    assert(sandbox_fs::leads_on(b));
    assert(sandbox_fs::leads_on(c));
    sandbox_fs::lemma_leads_on_concat(a, b);
    sandbox_fs::lemma_leads_on_concat(a + b, c);
    sandbox_fs::lemma_leads_on_concat(
        a + b + c,
        sandbox_fs::home_plan(home, empty_environment),
    );
}

/// A directory that a confined worker may write is bound where it is on the
/// host. The step is reached whatever fails before it, and no later step makes
/// anything read-only or covers it.
pub proof fn law_writable_directories_stay_writable(
    home: Seq<char>,
    empty_environment: bool,
    ro: Seq<Seq<char>>,
    rw: Seq<Seq<char>>,
    socket: Seq<char>,
    k: int,
) -> (i: int)
    requires
        0 <= k < rw.len(),
        rw[k].len() > 0,
    ensures
        binds(
            sandbox_fs::fs_plan(home, empty_environment, ro, rw, socket),
            i,
            "/oldroot"@ + rw[k],
            "/newroot"@ + rw[k],
        ),
        is_reached(sandbox_fs::fs_plan(home, empty_environment, ro, rw, socket), i),
        stays_open(sandbox_fs::fs_plan(home, empty_environment, ro, rw, socket), i),
{
    let plan = sandbox_fs::fs_plan(home, empty_environment, ro, rw, socket);
    let a = first_part(home, empty_environment) + sandbox_fs::ro_plan(ro);
    let b = sandbox_fs::rw_plan(rw);
    let c = sandbox_fs::socket_plan(socket) + sandbox_fs::final_plan();
    lemma_parts(home, empty_environment, ro, rw, socket);
    sandbox_fs::lemma_ro_leads_on(ro);
    sandbox_fs::lemma_leads_on_concat(
        first_part(home, empty_environment),
        sandbox_fs::ro_plan(ro),
    );
    let i = lemma_rw_place(rw, k);
    lemma_reached_behind(a, b, i);
    lemma_reached_before(a + b, c, a.len() + i);
    let at = a.len() + i;
    assert(plan == a + b + c);
    assert(plan[at] == b[i]);
    lemma_rw_open(rw);
    assert(stays_open(sandbox_fs::socket_plan(socket), 0));
    assert(stays_open(sandbox_fs::final_plan(), 0));
    lemma_open(sandbox_fs::socket_plan(socket), sandbox_fs::final_plan());
    assert forall|j: int| at <= j < plan.len() implies !((#[trigger] plan[j]).op is Readonly) && !(
    plan[j].op is Tmpfs) && !(plan[j].op is Overlay) by {
        if j < a.len() + b.len() {
            assert(plan[j] == b[j - a.len()]);
        } else {
            assert(plan[j] == c[j - a.len() - b.len()]);
        }
    }
    at
}

/// A directory that a confined worker may only read is bound where it is on
/// the host, and is made read-only at once; where it cannot be bound, nothing
/// is made read-only in its place.
pub proof fn law_readable_directories_are_read_only(
    home: Seq<char>,
    empty_environment: bool,
    ro: Seq<Seq<char>>,
    rw: Seq<Seq<char>>,
    socket: Seq<char>,
    k: int,
) -> (i: int)
    requires
        0 <= k < ro.len(),
        ro[k].len() > 0,
    ensures
        binds_read_only(
            sandbox_fs::fs_plan(home, empty_environment, ro, rw, socket),
            i,
            "/oldroot"@ + ro[k],
            "/newroot"@ + ro[k],
        ),
        i > 0,
        is_reached(sandbox_fs::fs_plan(home, empty_environment, ro, rw, socket), i - 1),
        sandbox_fs::fs_plan(home, empty_environment, ro, rw, socket)[i - 1].op == FsOp::Mkdir(
            "/newroot"@ + ro[k],
        ),
        sandbox_fs::fs_plan(home, empty_environment, ro, rw, socket)[i - 1].on_ok == 0,
        sandbox_fs::fs_plan(home, empty_environment, ro, rw, socket)[i - 1].on_fail == OnFail::Skip(
            2,
        ),
        sandbox_fs::fs_plan(home, empty_environment, ro, rw, socket)[i].on_fail == OnFail::Skip(1),
{
    let plan = sandbox_fs::fs_plan(home, empty_environment, ro, rw, socket);
    let a = first_part(home, empty_environment);
    let b = sandbox_fs::ro_plan(ro);
    let c = sandbox_fs::rw_plan(rw) + (sandbox_fs::socket_plan(socket) + sandbox_fs::final_plan());
    lemma_parts(home, empty_environment, ro, rw, socket);
    assert(plan =~= a + b + c);
    let i = lemma_ro_place(ro, k);
    lemma_reached_behind(a, b, i - 1);
    lemma_reached_before(a + b, c, a.len() + i - 1);
    let at = a.len() + i;
    assert(plan[at - 1] == b[i - 1] && plan[at] == b[i] && plan[at + 1] == b[i + 1]);
    at
}

/// What may be bound without being made read-only: the new root itself,
/// devices, the launcher's directory, the directories that may be written, and
/// the directory of the socket.
pub open spec fn may_stay_writable(
    src: Seq<char>,
    dst: Seq<char>,
    home: Seq<char>,
    rw: Seq<Seq<char>>,
    socket: Seq<char>,
) -> bool {
    ||| src == "newroot"@ && dst == "newroot"@
    ||| exists|name: Seq<char>|
        src == #[trigger] ("/oldroot/dev/"@ + name) && dst == "/newroot/dev/"@ + name
    ||| src == "/oldroot"@ + home + "/.julia/juliaup"@ && dst == "/newroot/root/.julia/juliaup"@
    ||| exists|k: int|
        0 <= k < rw.len() && src == "/oldroot"@ + #[trigger] rw[k] && dst == "/newroot"@ + rw[k]
            && rw[k].len() > 0
    ||| exists|n: int|
        0 <= n < socket.len() && socket[n] == '/' && src == "/oldroot"@ + #[trigger] socket.take(n)
            && dst == "/newroot"@ + socket.take(n)
}

/// Everything that is bound is made read-only at once or may stay writable.
pub open spec fn is_guarded(
    plan: Plan,
    home: Seq<char>,
    rw: Seq<Seq<char>>,
    socket: Seq<char>,
) -> bool {
    forall|i: int, src: Seq<char>, dst: Seq<char>| #[trigger]
        binds(plan, i, src, dst) ==> binds_read_only(plan, i, src, dst) || may_stay_writable(
            src,
            dst,
            home,
            rw,
            socket,
        )
}

proof fn lemma_guarded(a: Plan, b: Plan, home: Seq<char>, rw: Seq<Seq<char>>, socket: Seq<char>)
    requires
        is_guarded(a, home, rw, socket),
        is_guarded(b, home, rw, socket),
    ensures
        is_guarded(a + b, home, rw, socket),
{
    let plan = a + b;
    assert forall|i: int, src: Seq<char>, dst: Seq<char>| #[trigger]
        binds(plan, i, src, dst) implies binds_read_only(plan, i, src, dst) || may_stay_writable(
        src,
        dst,
        home,
        rw,
        socket,
    ) by {
        if i < a.len() {
            assert(plan[i] == a[i]);
            assert(binds(a, i, src, dst));
            if i + 1 < a.len() {
                assert(plan[i + 1] == a[i + 1]);
            }
        } else {
            let k = i - a.len();
            assert(plan[i] == b[k]);
            assert(binds(b, k, src, dst));
            if k + 1 < b.len() {
                assert(plan[i + 1] == b[k + 1]);
            }
        }
    }
}

proof fn lemma_device_guarded(
    name: Seq<char>,
    home: Seq<char>,
    rw: Seq<Seq<char>>,
    socket: Seq<char>,
)
    ensures
        is_guarded(sandbox_fs::device(name), home, rw, socket),
{
    let plan = sandbox_fs::device(name);
    assert(plan.len() == 2);
    assert(plan[0].op is Touch);
    assert(plan[1].op == FsOp::Bind("/oldroot/dev/"@ + name, "/newroot/dev/"@ + name));
}

proof fn lemma_dev_guarded(home: Seq<char>, rw: Seq<Seq<char>>, socket: Seq<char>)
    ensures
        is_guarded(sandbox_fs::dev_plan(), home, rw, socket),
{
    let a = sandbox_fs::must_mkdir("/newroot/dev"@) + sandbox_fs::must_tmpfs(
        "/newroot/dev"@,
        "mode=0755"@,
    );
    assert(is_guarded(a, home, rw, socket));
    lemma_device_guarded("null"@, home, rw, socket);
    lemma_device_guarded("zero"@, home, rw, socket);
    lemma_device_guarded("full"@, home, rw, socket);
    lemma_device_guarded("random"@, home, rw, socket);
    lemma_device_guarded("urandom"@, home, rw, socket);
    lemma_device_guarded("tty"@, home, rw, socket);
    lemma_guarded(a, sandbox_fs::device("null"@), home, rw, socket);
    let b = a + sandbox_fs::device("null"@);
    lemma_guarded(b, sandbox_fs::device("zero"@), home, rw, socket);
    let c = b + sandbox_fs::device("zero"@);
    lemma_guarded(c, sandbox_fs::device("full"@), home, rw, socket);
    let d = c + sandbox_fs::device("full"@);
    lemma_guarded(d, sandbox_fs::device("random"@), home, rw, socket);
    let e = d + sandbox_fs::device("random"@);
    lemma_guarded(e, sandbox_fs::device("urandom"@), home, rw, socket);
    let f = e + sandbox_fs::device("urandom"@);
    lemma_guarded(f, sandbox_fs::device("tty"@), home, rw, socket);
    let g = f + sandbox_fs::device("tty"@);
    let links = sandbox_fs::may(
        FsOp::Symlink("/proc/self/fd/0"@, "/newroot/dev/stdin"@),
    ) + sandbox_fs::may(
        FsOp::Symlink("/proc/self/fd/1"@, "/newroot/dev/stdout"@),
    ) + sandbox_fs::may(
        FsOp::Symlink("/proc/self/fd/2"@, "/newroot/dev/stderr"@),
    ) + sandbox_fs::may(FsOp::Symlink("/proc/self/fd"@, "/newroot/dev/fd"@));
    assert(is_guarded(links, home, rw, socket));
    lemma_guarded(g, links, home, rw, socket);
    assert(sandbox_fs::dev_plan() =~= g + links);
}

proof fn lemma_staging_guarded(home: Seq<char>, rw: Seq<Seq<char>>, socket: Seq<char>)
    ensures
        is_guarded(sandbox_fs::staging_plan(), home, rw, socket),
{
}

proof fn lemma_system_guarded(home: Seq<char>, rw: Seq<Seq<char>>, socket: Seq<char>)
    ensures
        is_guarded(sandbox_fs::system_plan(), home, rw, socket),
{
}

proof fn lemma_home_guarded(
    home: Seq<char>,
    empty_environment: bool,
    rw: Seq<Seq<char>>,
    socket: Seq<char>,
)
    ensures
        is_guarded(sandbox_fs::home_plan(home, empty_environment), home, rw, socket),
{
    if home.len() > 0 {
        let a = sandbox_fs::may(FsOp::MkdirAll("/newroot/root/.julia/juliaup"@))
            + sandbox_fs::may(
            FsOp::Bind("/oldroot"@ + home + "/.julia/juliaup"@, "/newroot/root/.julia/juliaup"@),
        ) + sandbox_fs::may(FsOp::MkdirAll("/newroot"@ + home + "/.julia"@));
        let b = sandbox_fs::depot_plan(home, empty_environment);
        let c = sandbox_fs::must_mkdir("/newroot/home/sandbox"@) + sandbox_fs::may(
            FsOp::Symlink(home + "/.julia"@, "/newroot/home/sandbox/.julia"@),
        );
        assert(is_guarded(a, home, rw, socket));
        assert(is_guarded(b, home, rw, socket));
        assert(is_guarded(c, home, rw, socket));
        lemma_guarded(a, b, home, rw, socket);
        lemma_guarded(a + b, c, home, rw, socket);
        assert(sandbox_fs::home_plan(home, empty_environment) =~= a + b + c);
    }
}

proof fn lemma_ro_guarded(
    ro: Seq<Seq<char>>,
    home: Seq<char>,
    rw: Seq<Seq<char>>,
    socket: Seq<char>,
)
    ensures
        is_guarded(sandbox_fs::ro_plan(ro), home, rw, socket),
    decreases ro.len(),
{
    if ro.len() > 0 {
        lemma_ro_guarded(ro.drop_last(), home, rw, socket);
        assert(is_guarded(sandbox_fs::ro_bind(ro.last()), home, rw, socket));
        lemma_guarded(
            sandbox_fs::ro_plan(ro.drop_last()),
            sandbox_fs::ro_bind(ro.last()),
            home,
            rw,
            socket,
        );
    }
}

proof fn lemma_rw_guarded(rw: Seq<Seq<char>>, n: int, home: Seq<char>, socket: Seq<char>)
    requires
        0 <= n <= rw.len(),
    ensures
        is_guarded(sandbox_fs::rw_plan(rw.take(n)), home, rw, socket),
    decreases n,
{
    if n > 0 {
        lemma_rw_guarded(rw, n - 1, home, socket);
        let some = rw.take(n);
        assert(some.drop_last() =~= rw.take(n - 1));
        let back = sandbox_fs::rw_bind(some.last());
        assert(some.last() == rw[n - 1]);
        if some.last().len() > 0 {
            assert(back.len() == 2);
            assert(back[0].op is MkdirAll);
            assert(back[1].op == FsOp::Bind("/oldroot"@ + rw[n - 1], "/newroot"@ + rw[n - 1]));
        }
        assert(is_guarded(back, home, rw, socket));
        lemma_guarded(sandbox_fs::rw_plan(rw.take(n - 1)), back, home, rw, socket);
    }
}

proof fn lemma_socket_guarded(home: Seq<char>, rw: Seq<Seq<char>>, socket: Seq<char>)
    ensures
        is_guarded(sandbox_fs::socket_plan(socket), home, rw, socket),
{
    text::lemma_rfind(socket, '/');
    let sep = text::rfind(socket, '/');
    let plan = sandbox_fs::socket_plan(socket);
    if sep >= 0 {
        assert(plan.len() == 2);
        assert(plan[0].op is MkdirAll);
        assert(plan[1].op == FsOp::Bind(
            "/oldroot"@ + socket.take(sep),
            "/newroot"@ + socket.take(sep),
        ));
        assert(socket[sep] == '/');
    }
}

/// Whatever is bound into the file system of a confined worker is made
/// read-only at once, but for what it has to be able to write.
#[verifier::rlimit(40)]
pub proof fn law_what_is_bound_is_read_only(
    home: Seq<char>,
    empty_environment: bool,
    ro: Seq<Seq<char>>,
    rw: Seq<Seq<char>>,
    socket: Seq<char>,
)
    ensures
        is_guarded(
            sandbox_fs::fs_plan(home, empty_environment, ro, rw, socket),
            home,
            rw,
            socket,
        ),
{
    let a = sandbox_fs::staging_plan();
    let b = sandbox_fs::dev_plan();
    let c = sandbox_fs::system_plan();
    let d = sandbox_fs::home_plan(home, empty_environment);
    let e = sandbox_fs::ro_plan(ro);
    let f = sandbox_fs::rw_plan(rw);
    let g = sandbox_fs::socket_plan(socket);
    let h = sandbox_fs::final_plan();
    lemma_staging_guarded(home, rw, socket);
    lemma_dev_guarded(home, rw, socket);
    lemma_system_guarded(home, rw, socket);
    lemma_home_guarded(home, empty_environment, rw, socket);
    lemma_ro_guarded(ro, home, rw, socket);
    lemma_rw_guarded(rw, rw.len() as int, home, socket);
    assert(rw.take(rw.len() as int) =~= rw);
    lemma_socket_guarded(home, rw, socket);
    assert(is_guarded(h, home, rw, socket));
    lemma_guarded(a, b, home, rw, socket);
    lemma_guarded(a + b, c, home, rw, socket);
    lemma_guarded(a + b + c, d, home, rw, socket);
    lemma_guarded(a + b + c + d, e, home, rw, socket);
    lemma_guarded(a + b + c + d + e, f, home, rw, socket);
    lemma_guarded(a + b + c + d + e + f, g, home, rw, socket);
    lemma_guarded(a + b + c + d + e + f + g, h, home, rw, socket);
}

/// Some step binds `src` at `dst` and makes it read-only.
pub open spec fn shows(plan: Plan, src: Seq<char>, dst: Seq<char>) -> bool {
    exists|i: int| #[trigger] binds_read_only(plan, i, src, dst)
}

/// Some step does `op`.
pub open spec fn does(plan: Plan, op: FsOp<Seq<char>>) -> bool {
    exists|i: int| 0 <= i < plan.len() && (#[trigger] plan[i]).op == op
}

proof fn lemma_shows(a: Plan, b: Plan, c: Plan, src: Seq<char>, dst: Seq<char>, i: int)
    requires
        binds_read_only(b, i, src, dst),
    ensures
        shows(a + b + c, src, dst),
{
    let plan = a + b + c;
    let at = a.len() + i;
    assert(plan[at] == b[i] && plan[at + 1] == b[i + 1]);
    assert(binds_read_only(plan, at, src, dst));
}

proof fn lemma_does(a: Plan, b: Plan, c: Plan, i: int)
    requires
        0 <= i < b.len(),
    ensures
        does(a + b + c, b[i].op),
{
    let plan = a + b + c;
    let at = a.len() + i;
    assert(plan[at] == b[i]);
}

/// A confined worker sees the programs and libraries of the host, read-only,
/// processes of its own, and empty places for temporary files and homes.
#[verifier::rlimit(40)]
#[verifier::spinoff_prover]
pub proof fn law_the_system_is_shown_read_only(
    home: Seq<char>,
    empty_environment: bool,
    ro: Seq<Seq<char>>,
    rw: Seq<Seq<char>>,
    socket: Seq<char>,
)
    ensures
        ({
            let plan = sandbox_fs::fs_plan(home, empty_environment, ro, rw, socket);
            &&& shows(plan, "/oldroot/usr"@, "/newroot/usr"@)
            &&& shows(plan, "/oldroot/etc"@, "/newroot/etc"@)
            &&& shows(plan, "/oldroot/usr/lib"@, "/newroot/lib"@)
            &&& shows(plan, "/oldroot/usr/lib64"@, "/newroot/lib64"@)
            &&& shows(plan, "/oldroot/usr/bin"@, "/newroot/bin"@)
            &&& shows(plan, "/oldroot/opt"@, "/newroot/opt"@)
            &&& shows(plan, "/etc-override-0"@, "/newroot/etc/passwd"@)
            &&& shows(plan, "/etc-override-1"@, "/newroot/etc/group"@)
            &&& shows(plan, "/etc-override-2"@, "/newroot/etc/nsswitch.conf"@)
            &&& does(plan, FsOp::Proc("/newroot/proc"@))
            &&& does(plan, FsOp::Tmpfs("/newroot/tmp"@, "mode=1777"@))
            &&& does(plan, FsOp::Tmpfs("/newroot/home"@, "mode=0755"@))
        }),
{
    let plan = sandbox_fs::fs_plan(home, empty_environment, ro, rw, socket);
    let a = sandbox_fs::staging_plan() + sandbox_fs::dev_plan();
    let b = sandbox_fs::system_plan();
    let c = sandbox_fs::home_plan(home, empty_environment) + sandbox_fs::ro_plan(ro)
        + sandbox_fs::rw_plan(rw) + sandbox_fs::socket_plan(socket) + sandbox_fs::final_plan();
    assert(plan =~= a + b + c);
    lemma_names_of_files();
    lemma_does(a, b, c, 1);
    lemma_does(a, b, c, 3);
    lemma_shows(a, b, c, "/oldroot/usr"@, "/newroot/usr"@, 5);
    lemma_shows(a, b, c, "/oldroot/etc"@, "/newroot/etc"@, 8);
    lemma_shows(a, b, c, "/etc-override-0"@, "/newroot/etc/passwd"@, 11);
    lemma_shows(a, b, c, "/etc-override-1"@, "/newroot/etc/group"@, 14);
    lemma_shows(a, b, c, "/etc-override-2"@, "/newroot/etc/nsswitch.conf"@, 17);
    lemma_shows(a, b, c, "/oldroot/usr/lib"@, "/newroot/lib"@, 20);
    lemma_shows(a, b, c, "/oldroot/usr/lib64"@, "/newroot/lib64"@, 23);
    lemma_shows(a, b, c, "/oldroot/usr/bin"@, "/newroot/bin"@, 26);
    lemma_shows(a, b, c, "/oldroot/opt"@, "/newroot/opt"@, 29);
    lemma_does(a, b, c, 32);
}

/// The host's packages are laid under a layer that can be written. Where that
/// succeeds, the steps that show them read-only instead are left out; where it
/// fails, they follow. Environments are empty only if they are meant to be.
#[verifier::rlimit(40)]
#[verifier::spinoff_prover]
pub proof fn law_packages_are_layered_or_read_only(
    home: Seq<char>,
    empty_environment: bool,
    ro: Seq<Seq<char>>,
    rw: Seq<Seq<char>>,
    socket: Seq<char>,
) -> (i: int)
    requires
        home.len() > 0,
    ensures
        ({
            let plan = sandbox_fs::fs_plan(home, empty_environment, ro, rw, socket);
            let depot = "/newroot"@ + home + "/.julia"@;
            &&& 0 <= i < plan.len() - 6
            &&& plan[i].op == FsOp::Overlay(
                depot,
                "upperdir=/ovl-upper,workdir=/ovl-work,lowerdir=/oldroot"@ + home
                    + "/.julia,userxattr"@,
            )
            &&& plan[i].on_fail == OnFail::Skip(0)
            &&& binds_read_only(plan, i + 2, "/oldroot"@ + home + "/.julia"@, depot)
            &&& i + 1 + plan[i].on_ok == i + 4
            &&& plan[i + 1].on_fail == OnFail::Skip(
                if empty_environment {
                    4
                } else {
                    2
                },
            )
            &&& plan[i + 2].on_fail == OnFail::Skip(
                if empty_environment {
                    3
                } else {
                    1
                },
            )
            &&& plan[i + 3].on_ok == if empty_environment {
                2usize
            } else {
                0
            }
            &&& (plan[i + 5].op == FsOp::Tmpfs(depot + "/environments"@, "mode=0755"@)
                <==> empty_environment)
        }),
{
    let plan = sandbox_fs::fs_plan(home, empty_environment, ro, rw, socket);
    let a = sandbox_fs::staging_plan() + sandbox_fs::dev_plan() + sandbox_fs::system_plan()
        + sandbox_fs::may(FsOp::MkdirAll("/newroot/root/.julia/juliaup"@)) + sandbox_fs::may(
        FsOp::Bind("/oldroot"@ + home + "/.julia/juliaup"@, "/newroot/root/.julia/juliaup"@),
    ) + sandbox_fs::may(FsOp::MkdirAll("/newroot"@ + home + "/.julia"@));
    let b = sandbox_fs::depot_plan(home, empty_environment) + sandbox_fs::must_mkdir(
        "/newroot/home/sandbox"@,
    ) + sandbox_fs::may(FsOp::Symlink(home + "/.julia"@, "/newroot/home/sandbox/.julia"@));
    let c = sandbox_fs::ro_plan(ro) + sandbox_fs::rw_plan(rw) + sandbox_fs::socket_plan(socket)
        + sandbox_fs::final_plan();
    assert(plan =~= a + b + c);
    let i = a.len() as int;
    assert(b.len() >= 6);
    assert(sandbox_fs::final_plan().len() == 6);
    assert(plan[i] == b[0]);
    assert(plan[i + 1] == b[1]);
    assert(plan[i + 2] == b[2]);
    assert(plan[i + 3] == b[3]);
    assert(plan[i + 5] == b[5]);
    reveal_strlit("/.julia/environments");
    reveal_strlit("/.julia");
    reveal_strlit("/environments");
    assert("/newroot"@ + home + "/.julia"@ + "/environments"@ =~= "/newroot"@ + home
        + "/.julia/environments"@);
    i
}

/// Only what is to be read-only is mounted so, and then without devices and
/// without programs that have rights of their own. Empty file systems and
/// processes have neither as well, and nothing of the latter can be run.
pub proof fn law_mount_flags(a: Seq<char>, b: Seq<char>, p: Propagation)
    ensures
        sandbox_fs::flags_of(FsOp::Readonly(a)) & 0x7 == 0x7,
        sandbox_fs::flags_of(FsOp::Readonly(a)) & 0x1020 == 0x1020,
        sandbox_fs::flags_of(FsOp::Bind(a, b)) & 0x5021 == 0x5000,
        sandbox_fs::flags_of(FsOp::Tmpfs(a, b)) & 0x1027 == 0x6,
        sandbox_fs::flags_of(FsOp::Proc(a)) & 0x102f == 0xe,
        sandbox_fs::flags_of(FsOp::Detach(a)) & 0x7 == 0x2,
        sandbox_fs::flags_of(FsOp::Propagate(a, Propagation::Slave)) & 0xc4000 == 0x84000,
        sandbox_fs::flags_of(FsOp::Propagate(a, Propagation::Private)) & 0xc4000 == 0x44000,
        sandbox_fs::flags_of(FsOp::Propagate(a, p)) & 0x1027 == 0,
        sandbox_fs::flags_of(FsOp::Overlay(a, b)) == 0,
{
    assert(0x9027u64 & 0x7 == 0x7) by (bit_vector);
    assert(0x9027u64 & 0x1020 == 0x1020) by (bit_vector);
    assert(0xD000u64 & 0x5021 == 0x5000) by (bit_vector);
    assert(0x6u64 & 0x1027 == 0x6) by (bit_vector);
    assert(0xEu64 & 0x102f == 0xe) by (bit_vector);
    assert(0x2u64 & 0x7 == 0x2) by (bit_vector);
    assert(0x84000u64 & 0xc4000 == 0x84000) by (bit_vector);
    assert(0x44000u64 & 0xc4000 == 0x44000) by (bit_vector);
    assert(0x84000u64 & 0x1027 == 0) by (bit_vector);
    assert(0x44000u64 & 0x1027 == 0) by (bit_vector);
}

// ---------------------------------------------------------------------
// The command line
// ---------------------------------------------------------------------

/// How many texts an optional one is.
pub open spec fn count_of(b: bool) -> int {
    if b {
        1
    } else {
        0
    }
}

/// Where each part of a worker's command line stands.
pub proof fn law_command_line(
    executable: Seq<char>,
    channel: Option<Seq<char>>,
    project: Seq<char>,
    args: Seq<char>,
    threads: Option<Seq<char>>,
    interactive: bool,
    expr: Seq<char>,
    k: int,
)
    ensures
        ({
            let argv = sandbox::worker_argv(
                executable,
                channel,
                project,
                args,
                threads,
                interactive,
                expr,
            );
            let n = argv.len() as int;
            let before = 1 + count_of(channel is Some) + count_of(project.len() > 0);
            let behind = 2 + count_of(interactive) + count_of(threads is Some);
            &&& n == before + text::words(args).len() + behind
            &&& argv[0] == executable
            &&& channel matches Some(c) ==> argv[1] == c
            &&& project.len() > 0 ==> argv[before - 1] == "--project="@ + project
            &&& 0 <= k < text::words(args).len() ==> argv[before + k] == text::words(args)[k]
            &&& threads matches Some(t) ==> argv[n - behind] == "--threads="@ + t
            &&& interactive ==> argv[n - 3] == "-i"@
            &&& argv[n - 2] == "--eval"@
            &&& argv[n - 1] == expr
        }),
{
    if let Some(c) = channel {
        assert(Seq::<char>::empty() + c =~= c);
    }
}

/// What the system is handed is the text with one zero behind it.
pub proof fn law_texts_end_with_zero(v: Seq<Seq<char>>, i: int)
    requires
        0 <= i < v.len(),
    ensures
        sandbox::c_strings(v).len() == v.len(),
        sandbox::c_strings(v)[i].len() == vstd::utf8::encode_utf8(v[i]).len() + 1,
        sandbox::c_strings(v)[i].last() == 0,
        sandbox::c_strings(v)[i].drop_last() == vstd::utf8::encode_utf8(v[i]),
{
    assert(sandbox::c_strings(v)[i].drop_last() =~= vstd::utf8::encode_utf8(v[i]));
}

// ---------------------------------------------------------------------
// The environment
// ---------------------------------------------------------------------

/// The names under which a confined worker may have what the host has.
pub open spec fn is_harmless(key: Seq<char>) -> bool {
    ||| key.len() >= 6 && key.take(6) == "JULIA_"@
    ||| key == "LANG"@ || key == "LC_CTYPE"@ || key == "LC_ALL"@
    ||| key == "TERM"@ || key == "COLORTERM"@
    ||| key == "XDG_DATA_HOME"@ || key == "XDG_CONFIG_HOME"@
    ||| key == "XDG_CACHE_HOME"@ || key == "XDG_STATE_HOME"@
    ||| key == "OPENBLAS_MAIN_FREE"@ || key == "OPENBLAS_DEFAULT_NUM_THREADS"@
    ||| key == "CUDA_CACHE_PATH"@
}

/// The names that say who the worker is and where it finds things.
pub open spec fn is_identity(key: Seq<char>) -> bool {
    ||| key == "HOME"@ || key == "USER"@ || key == "LOGNAME"@
    ||| key == "PATH"@ || key == "JULIA_DEPOT_PATH"@ || key == "JULIA_DAEMON_REVISE"@
}

/// Variable `k` of the host is the last of its name, which is harmless.
pub open spec fn is_shared(vars: Seq<VarText>, k: int) -> bool {
    &&& 0 <= k < vars.len()
    &&& is_harmless(vars[k].0)
    &&& !is_identity(vars[k].0)
    &&& forall|j: int| k < j < vars.len() ==> (#[trigger] vars[j]).0 != vars[k].0
}

proof fn lemma_shared(vars: Seq<VarText>, k: int)
    requires
        0 <= k < vars.len(),
    ensures
        sandbox::passed_on(vars, k) == is_shared(vars, k),
{
    reveal_strlit("JULIA_");
    let key = vars[k].0;
    if key.len() >= 6 {
        assert(key.take(6) =~= key.subrange(0, 6));
    }
    assert("JULIA_"@.is_prefix_of(key) == (key.len() >= 6 && key.take(6) == "JULIA_"@));
    if sandbox::named_from(vars, key, k + 1) {
        let j = choose|j: int| k + 1 <= j < vars.len() && (#[trigger] vars[j]).0 == key;
        assert(vars[j].0 == key);
    }
}

/// The variable at place `i` of those passed on comes from the host's at `k`.
pub open spec fn comes_from(some: Seq<VarText>, i: int, vars: Seq<VarText>, k: int) -> bool {
    is_shared(vars, k) && some[i] == vars[k]
}

proof fn lemma_from_host(vars: Seq<VarText>, n: int, i: int) -> (k: int)
    requires
        0 <= n <= vars.len(),
        0 <= i < sandbox::host_vars(vars, n).len(),
    ensures
        k < n,
        comes_from(sandbox::host_vars(vars, n), i, vars, k),
    decreases n,
{
    lemma_shared(vars, n - 1);
    if i < sandbox::host_vars(vars, n - 1).len() {
        lemma_from_host(vars, n - 1, i)
    } else {
        n - 1
    }
}

proof fn lemma_to_worker(vars: Seq<VarText>, n: int, k: int)
    requires
        0 <= k < n <= vars.len(),
        is_shared(vars, k),
    ensures
        sandbox::host_vars(vars, n).contains(vars[k]),
    decreases n,
{
    lemma_shared(vars, n - 1);
    let all = sandbox::host_vars(vars, n);
    let some = sandbox::host_vars(vars, n - 1);
    if k < n - 1 {
        lemma_to_worker(vars, n - 1, k);
        let i = some.index_of(vars[k]);
        assert(all[i] == vars[k]);
    } else {
        assert(all[all.len() - 1] == vars[k]);
    }
}

proof fn lemma_host_once(vars: Seq<VarText>, n: int, i: int, j: int)
    requires
        0 <= n <= vars.len(),
        0 <= i < j < sandbox::host_vars(vars, n).len(),
    ensures
        sandbox::host_vars(vars, n)[i].0 != sandbox::host_vars(vars, n)[j].0,
    decreases n,
{
    let some = sandbox::host_vars(vars, n - 1);
    if j < some.len() {
        lemma_host_once(vars, n - 1, i, j);
    } else {
        let k = lemma_from_host(vars, n - 1, i);
        assert(vars[n - 1].0 != vars[k].0);
    }
}

/// A confined worker has from the host the last variable of each harmless
/// name, and no other: nothing else of the host's environment reaches it.
pub proof fn law_only_harmless_variables_are_shared(
    vars: Seq<VarText>,
    home: Seq<char>,
    k: int,
    i: int,
)
    ensures
        is_shared(vars, k) ==> sandbox::sandbox_vars(vars, home).contains(vars[k]),
        0 <= i < sandbox::sandbox_vars(vars, home).len() ==> is_identity(
            sandbox::sandbox_vars(vars, home)[i].0,
        ) || exists|l: int| #[trigger]
            comes_from(sandbox::sandbox_vars(vars, home), i, vars, l),
{
    let n = vars.len() as int;
    let host = sandbox::host_vars(vars, n);
    let all = sandbox::sandbox_vars(vars, home);
    if is_shared(vars, k) {
        lemma_to_worker(vars, n, k);
        let at = host.index_of(vars[k]);
        assert(all[at] == vars[k]);
    }
    if 0 <= i < all.len() {
        if i < host.len() {
            let l = lemma_from_host(vars, n, i);
            assert(comes_from(all, i, vars, l));
        } else {
            let own = sandbox::own_vars(home);
            assert(all[i] == own[i - host.len()]);
        }
    }
}

/// A confined worker is told a name, a home and a search path of its own,
/// whatever the host has under those names, and that nothing is to be revised.
pub proof fn law_identity_of_a_confined_worker(vars: Seq<VarText>, home: Seq<char>, i: int)
    requires
        0 <= i < sandbox::sandbox_vars(vars, home).len(),
    ensures
        ({
            let v = sandbox::sandbox_vars(vars, home)[i];
            &&& v.0 == "HOME"@ ==> v.1 == "/home/sandbox"@
            &&& v.0 == "USER"@ ==> v.1 == "sandbox"@
            &&& v.0 == "LOGNAME"@ ==> v.1 == "sandbox"@
            &&& v.0 == "PATH"@ ==> v.1 == if home.len() > 0 {
                home + "/.julia/juliaup/bin:"@ + "/usr/local/bin:/usr/bin:/bin"@
            } else {
                "/usr/local/bin:/usr/bin:/bin"@
            }
            &&& v.0 == "JULIA_DEPOT_PATH"@ ==> home.len() > 0 && v.1 == home + "/.julia"@
            &&& v.0 == "JULIA_DAEMON_REVISE"@ ==> v.1 == "no"@
        }),
{
    let host = sandbox::host_vars(vars, vars.len() as int);
    let own = sandbox::own_vars(home);
    lemma_own_names();
    reveal_strlit("/.julia/juliaup/bin:");
    reveal_strlit("/usr/local/bin:/usr/bin:/bin");
    reveal_strlit("/.julia/juliaup/bin:/usr/local/bin:/usr/bin:/bin");
    assert("/.julia/juliaup/bin:"@ + "/usr/local/bin:/usr/bin:/bin"@
        =~= "/.julia/juliaup/bin:/usr/local/bin:/usr/bin:/bin"@);
    assert(home + "/.julia/juliaup/bin:"@ + "/usr/local/bin:/usr/bin:/bin"@ =~= home + (
    "/.julia/juliaup/bin:"@ + "/usr/local/bin:/usr/bin:/bin"@));
    if i < host.len() {
        let k = lemma_from_host(vars, vars.len() as int, i);
        assert(!is_identity(vars[k].0));
    } else {
        assert(sandbox::sandbox_vars(vars, home)[i] == own[i - host.len()]);
    }
}

proof fn lemma_own_names()
    ensures
        "HOME"@ != "USER"@,
        "HOME"@ != "LOGNAME"@,
        "HOME"@ != "PATH"@,
        "HOME"@ != "JULIA_DEPOT_PATH"@,
        "HOME"@ != "JULIA_DAEMON_REVISE"@,
        "USER"@ != "LOGNAME"@,
        "USER"@ != "PATH"@,
        "USER"@ != "JULIA_DEPOT_PATH"@,
        "USER"@ != "JULIA_DAEMON_REVISE"@,
        "LOGNAME"@ != "PATH"@,
        "LOGNAME"@ != "JULIA_DEPOT_PATH"@,
        "LOGNAME"@ != "JULIA_DAEMON_REVISE"@,
        "PATH"@ != "JULIA_DEPOT_PATH"@,
        "PATH"@ != "JULIA_DAEMON_REVISE"@,
        "JULIA_DEPOT_PATH"@ != "JULIA_DAEMON_REVISE"@,
{
    reveal_strlit("HOME");
    reveal_strlit("USER");
    reveal_strlit("LOGNAME");
    reveal_strlit("PATH");
    reveal_strlit("JULIA_DEPOT_PATH");
    reveal_strlit("JULIA_DAEMON_REVISE");
    assert("HOME"@[0] == 'H' && "USER"@[0] == 'U' && "LOGNAME"@[0] == 'L' && "PATH"@[0] == 'P'
        && "JULIA_DEPOT_PATH"@[0] == 'J' && "JULIA_DAEMON_REVISE"@[0] == 'J');
    assert("JULIA_DEPOT_PATH"@.len() != "JULIA_DAEMON_REVISE"@.len());
}

/// No variable of a confined worker is set twice.
pub proof fn law_variables_are_set_once(vars: Seq<VarText>, home: Seq<char>, i: int, j: int)
    requires
        0 <= i < j < sandbox::sandbox_vars(vars, home).len(),
    ensures
        sandbox::sandbox_vars(vars, home)[i].0 != sandbox::sandbox_vars(vars, home)[j].0,
{
    let n = vars.len() as int;
    let host = sandbox::host_vars(vars, n);
    let own = sandbox::own_vars(home);
    let all = sandbox::sandbox_vars(vars, home);
    lemma_own_names();
    if j < host.len() {
        lemma_host_once(vars, n, i, j);
    } else {
        assert(all[j] == own[j - host.len()]);
        if i < host.len() {
            let k = lemma_from_host(vars, n, i);
            assert(!is_identity(vars[k].0));
        } else {
            assert(all[i] == own[i - host.len()]);
        }
    }
}

// ---------------------------------------------------------------------
// Limits
// ---------------------------------------------------------------------

/// The limits that are set are written, each to its file of the worker's own
/// group, and the process joins the group after that. Where none is set, it
/// joins none.
pub proof fn law_limits_are_written(id: u32, memory: Seq<char>, share: u32)
    ensures
        ({
            let dir = "/sys/fs/cgroup/julia-sandbox-"@ + numeric::decimal(id as nat);
            let memory_limit = (dir + "/memory.max"@, memory);
            let share_limit = (
                dir + "/cpu.max"@,
                numeric::decimal(share as nat * 1000) + " 100000"@,
            );
            let join = (dir + "/cgroup.procs"@, "0"@);
            &&& sandbox_fs::cgroup_files(id, None, None) == Seq::<(Seq<char>, Seq<char>)>::empty()
            &&& sandbox_fs::cgroup_files(id, Some(memory), None) == seq![memory_limit, join]
            &&& sandbox_fs::cgroup_files(id, None, Some(share)) == seq![share_limit, join]
            &&& sandbox_fs::cgroup_files(id, Some(memory), Some(share)) == seq![
                memory_limit,
                share_limit,
                join,
            ]
        }),
{
    let dir = "/sys/fs/cgroup/julia-sandbox-"@ + numeric::decimal(id as nat);
    let memory_limit = (dir + "/memory.max"@, memory);
    let share_limit = (dir + "/cpu.max"@, numeric::decimal(share as nat * 1000) + " 100000"@);
    let join = (dir + "/cgroup.procs"@, "0"@);
    assert(sandbox_fs::cgroup_files(id, Some(memory), None) =~= seq![memory_limit, join]);
    assert(sandbox_fs::cgroup_files(id, None, Some(share)) =~= seq![share_limit, join]);
    assert(sandbox_fs::cgroup_files(id, Some(memory), Some(share)) =~= seq![
        memory_limit,
        share_limit,
        join,
    ]);
}

/// Workers with different numbers have different groups.
pub proof fn law_groups_are_not_shared(a: u32, b: u32)
    requires
        sandbox_fs::cgroup_path(a) == sandbox_fs::cgroup_path(b),
    ensures
        a == b,
{
    let front = "/sys/fs/cgroup/julia-sandbox-"@;
    let x = sandbox_fs::cgroup_path(a);
    let y = sandbox_fs::cgroup_path(b);
    assert(x.skip(front.len() as int) =~= numeric::decimal(a as nat));
    assert(y.skip(front.len() as int) =~= numeric::decimal(b as nat));
    numeric::law_decimal_injective(a as nat, b as nat);
}

// ---------------------------------------------------------------------
// What has to succeed
// ---------------------------------------------------------------------

/// Some step does `op`, and nothing goes on where it fails.
pub open spec fn demands(plan: Plan, op: FsOp<Seq<char>>) -> bool {
    exists|i: int|
        0 <= i < plan.len() && (#[trigger] plan[i]).op == op && plan[i].on_fail is Abort
            && plan[i].on_ok == 0
}

proof fn lemma_demands(a: Plan, b: Plan, c: Plan, i: int)
    requires
        0 <= i < b.len(),
        b[i].on_fail is Abort,
        b[i].on_ok == 0,
    ensures
        demands(a + b + c, b[i].op),
{
    let plan = a + b + c;
    let at = a.len() + i;
    assert(plan[at] == b[i]);
}

/// Without a new root of its own a confined worker does not start.
#[verifier::rlimit(40)]
#[verifier::spinoff_prover]
pub proof fn law_a_new_root_is_demanded(
    home: Seq<char>,
    empty_environment: bool,
    ro: Seq<Seq<char>>,
    rw: Seq<Seq<char>>,
    socket: Seq<char>,
)
    ensures
        ({
            let plan = sandbox_fs::fs_plan(home, empty_environment, ro, rw, socket);
            &&& demands(plan, FsOp::Tmpfs("/tmp"@, ""@))
            &&& demands(plan, FsOp::Mkdir("newroot"@))
            &&& demands(plan, FsOp::Bind("newroot"@, "newroot"@))
            &&& demands(plan, FsOp::Mkdir("oldroot"@))
            &&& demands(plan, FsOp::PivotRoot("/tmp"@, "oldroot"@))
            &&& demands(plan, FsOp::Chdir("/newroot"@))
            &&& demands(plan, FsOp::PivotRoot("."@, "."@))
            &&& demands(plan, FsOp::Chdir("/"@))
            &&& does(plan, FsOp::Propagate("/"@, Propagation::Slave))
            &&& does(plan, FsOp::Propagate("oldroot"@, Propagation::Private))
            &&& does(plan, FsOp::Detach("."@))
            &&& plan[plan.len() - 1].op == FsOp::Chdir("/home/sandbox"@)
        }),
{
    let plan = sandbox_fs::fs_plan(home, empty_environment, ro, rw, socket);
    let none = Seq::empty();
    let a = sandbox_fs::staging_plan();
    let rest = sandbox_fs::dev_plan() + sandbox_fs::system_plan() + sandbox_fs::home_plan(
        home,
        empty_environment,
    ) + sandbox_fs::ro_plan(ro) + sandbox_fs::rw_plan(rw) + sandbox_fs::socket_plan(socket)
        + sandbox_fs::final_plan();
    assert(plan =~= none + a + rest);
    lemma_does(none, a, rest, 0);
    lemma_demands(none, a, rest, 1);
    lemma_demands(none, a, rest, 3);
    lemma_demands(none, a, rest, 4);
    lemma_demands(none, a, rest, 5);
    lemma_demands(none, a, rest, 8);
    let front = a + sandbox_fs::dev_plan() + sandbox_fs::system_plan() + sandbox_fs::home_plan(
        home,
        empty_environment,
    ) + sandbox_fs::ro_plan(ro) + sandbox_fs::rw_plan(rw) + sandbox_fs::socket_plan(socket);
    let z = sandbox_fs::final_plan();
    assert(plan =~= front + z + none);
    lemma_does(front, z, none, 0);
    lemma_demands(front, z, none, 1);
    lemma_demands(front, z, none, 2);
    lemma_demands(front, z, none, 3);
    lemma_does(front, z, none, 4);
    assert(z.len() == 6);
    assert(plan[plan.len() - 1] == z[5]);
}

/// Nor does it without the system's programs, processes of its own, and places
/// for devices, temporary files and homes.
#[verifier::rlimit(40)]
#[verifier::spinoff_prover]
pub proof fn law_the_system_is_demanded(
    home: Seq<char>,
    empty_environment: bool,
    ro: Seq<Seq<char>>,
    rw: Seq<Seq<char>>,
    socket: Seq<char>,
)
    ensures
        ({
            let plan = sandbox_fs::fs_plan(home, empty_environment, ro, rw, socket);
            &&& demands(plan, FsOp::Tmpfs("/newroot/dev"@, "mode=0755"@))
            &&& demands(plan, FsOp::Proc("/newroot/proc"@))
            &&& demands(plan, FsOp::Tmpfs("/newroot/tmp"@, "mode=1777"@))
            &&& demands(plan, FsOp::Bind("/oldroot/usr"@, "/newroot/usr"@))
            &&& demands(plan, FsOp::Bind("/oldroot/etc"@, "/newroot/etc"@))
            &&& demands(plan, FsOp::Tmpfs("/newroot/home"@, "mode=0755"@))
        }),
{
    let plan = sandbox_fs::fs_plan(home, empty_environment, ro, rw, socket);
    let a = sandbox_fs::staging_plan();
    let b = sandbox_fs::dev_plan();
    let c = sandbox_fs::system_plan();
    let d = sandbox_fs::home_plan(home, empty_environment) + sandbox_fs::ro_plan(ro)
        + sandbox_fs::rw_plan(rw) + sandbox_fs::socket_plan(socket) + sandbox_fs::final_plan();
    assert(plan =~= a + b + (c + d));
    lemma_demands(a, b, c + d, 1);
    assert(plan =~= (a + b) + c + d);
    lemma_demands(a + b, c, d, 1);
    lemma_demands(a + b, c, d, 3);
    lemma_demands(a + b, c, d, 5);
    lemma_demands(a + b, c, d, 8);
    lemma_demands(a + b, c, d, 32);
}

/// The device `name` of the host is there.
pub open spec fn has_device(plan: Plan, name: Seq<char>) -> bool {
    &&& does(plan, FsOp::Touch("/newroot/dev/"@ + name))
    &&& does(plan, FsOp::Bind("/oldroot/dev/"@ + name, "/newroot/dev/"@ + name))
}

/// A confined worker has the devices that programs count on, and its standard
/// streams under their names.
#[verifier::rlimit(40)]
#[verifier::spinoff_prover]
pub proof fn law_devices_are_there(
    home: Seq<char>,
    empty_environment: bool,
    ro: Seq<Seq<char>>,
    rw: Seq<Seq<char>>,
    socket: Seq<char>,
)
    ensures
        ({
            let plan = sandbox_fs::fs_plan(home, empty_environment, ro, rw, socket);
            &&& has_device(plan, "null"@)
            &&& has_device(plan, "zero"@)
            &&& has_device(plan, "full"@)
            &&& has_device(plan, "random"@)
            &&& has_device(plan, "urandom"@)
            &&& has_device(plan, "tty"@)
            &&& does(plan, FsOp::Symlink("/proc/self/fd/0"@, "/newroot/dev/stdin"@))
            &&& does(plan, FsOp::Symlink("/proc/self/fd/1"@, "/newroot/dev/stdout"@))
            &&& does(plan, FsOp::Symlink("/proc/self/fd/2"@, "/newroot/dev/stderr"@))
            &&& does(plan, FsOp::Symlink("/proc/self/fd"@, "/newroot/dev/fd"@))
        }),
{
    let plan = sandbox_fs::fs_plan(home, empty_environment, ro, rw, socket);
    let a = sandbox_fs::staging_plan();
    let b = sandbox_fs::dev_plan();
    let c = sandbox_fs::system_plan() + sandbox_fs::home_plan(home, empty_environment)
        + sandbox_fs::ro_plan(ro) + sandbox_fs::rw_plan(rw) + sandbox_fs::socket_plan(socket)
        + sandbox_fs::final_plan();
    assert(plan =~= a + b + c);
    assert(b.len() == 18);
    lemma_does(a, b, c, 2);
    lemma_does(a, b, c, 3);
    lemma_does(a, b, c, 4);
    lemma_does(a, b, c, 5);
    lemma_does(a, b, c, 6);
    lemma_does(a, b, c, 7);
    lemma_does(a, b, c, 8);
    lemma_does(a, b, c, 9);
    lemma_does(a, b, c, 10);
    lemma_does(a, b, c, 11);
    lemma_does(a, b, c, 12);
    lemma_does(a, b, c, 13);
    lemma_does(a, b, c, 14);
    lemma_does(a, b, c, 15);
    lemma_does(a, b, c, 16);
    lemma_does(a, b, c, 17);
}

/// The files that tell of users are the worker's own, and know only root, the
/// worker and nobody.
#[verifier::rlimit(40)]
#[verifier::spinoff_prover]
pub proof fn law_users_are_its_own(
    home: Seq<char>,
    empty_environment: bool,
    ro: Seq<Seq<char>>,
    rw: Seq<Seq<char>>,
    socket: Seq<char>,
)
    ensures
        ({
            let plan = sandbox_fs::fs_plan(home, empty_environment, ro, rw, socket);
            &&& does(
                plan,
                FsOp::WriteFile(
                    "/etc-override-0"@,
                    "root:x:0:0:root:/root:/bin/sh\n"@
                        + "sandbox:x:0:0:sandbox:/home/sandbox:/bin/sh\n"@
                        + "nobody:x:65534:65534:nobody:/nonexistent:/usr/sbin/nologin\n"@,
                ),
            )
            &&& does(
                plan,
                FsOp::WriteFile(
                    "/etc-override-1"@,
                    "root:x:0:\n"@ + "sandbox:x:0:\n"@ + "nogroup:x:65534:\n"@,
                ),
            )
            &&& does(
                plan,
                FsOp::WriteFile(
                    "/etc-override-2"@,
                    "passwd: files\n"@ + "group:  files\n"@ + "hosts:  files dns\n"@,
                ),
            )
        }),
{
    let plan = sandbox_fs::fs_plan(home, empty_environment, ro, rw, socket);
    let a = sandbox_fs::staging_plan() + sandbox_fs::dev_plan();
    let b = sandbox_fs::system_plan();
    let c = sandbox_fs::home_plan(home, empty_environment) + sandbox_fs::ro_plan(ro)
        + sandbox_fs::rw_plan(rw) + sandbox_fs::socket_plan(socket) + sandbox_fs::final_plan();
    assert(plan =~= a + b + c);
    lemma_names_of_files();
    lemma_contents_of_files();
    lemma_does(a, b, c, 10);
    lemma_does(a, b, c, 13);
    lemma_does(a, b, c, 16);
}

proof fn lemma_names_of_files()
    ensures
        "/etc-override-"@ + "0"@ == "/etc-override-0"@,
        "/etc-override-"@ + "1"@ == "/etc-override-1"@,
        "/etc-override-"@ + "2"@ == "/etc-override-2"@,
{
    reveal_strlit("/etc-override-");
    reveal_strlit("0");
    reveal_strlit("1");
    reveal_strlit("2");
    reveal_strlit("/etc-override-0");
    reveal_strlit("/etc-override-1");
    reveal_strlit("/etc-override-2");
    assert("/etc-override-"@ + "0"@ =~= "/etc-override-0"@);
    assert("/etc-override-"@ + "1"@ =~= "/etc-override-1"@);
    assert("/etc-override-"@ + "2"@ =~= "/etc-override-2"@);
}

proof fn lemma_contents_of_files()
    ensures
        sandbox_fs::passwd_text() == "root:x:0:0:root:/root:/bin/sh\n"@
            + "sandbox:x:0:0:sandbox:/home/sandbox:/bin/sh\n"@
            + "nobody:x:65534:65534:nobody:/nonexistent:/usr/sbin/nologin\n"@,
        "root:x:0:\nsandbox:x:0:\nnogroup:x:65534:\n"@ == "root:x:0:\n"@ + "sandbox:x:0:\n"@
            + "nogroup:x:65534:\n"@,
        "passwd: files\ngroup:  files\nhosts:  files dns\n"@ == "passwd: files\n"@
            + "group:  files\n"@ + "hosts:  files dns\n"@,
{
    reveal_strlit(
        "root:x:0:0:root:/root:/bin/sh\nsandbox:x:0:0:sandbox:/home/sandbox:/bin/sh\nnobody:x:65534:65534:nobody:/nonexistent:/usr/sbin/nologin\n",
    );
    reveal_strlit("root:x:0:0:root:/root:/bin/sh\n");
    reveal_strlit("sandbox:x:0:0:sandbox:/home/sandbox:/bin/sh\n");
    reveal_strlit("nobody:x:65534:65534:nobody:/nonexistent:/usr/sbin/nologin\n");
    reveal_strlit("root:x:0:\nsandbox:x:0:\nnogroup:x:65534:\n");
    reveal_strlit("root:x:0:\n");
    reveal_strlit("sandbox:x:0:\n");
    reveal_strlit("nogroup:x:65534:\n");
    reveal_strlit("passwd: files\ngroup:  files\nhosts:  files dns\n");
    reveal_strlit("passwd: files\n");
    reveal_strlit("group:  files\n");
    reveal_strlit("hosts:  files dns\n");
    assert(sandbox_fs::passwd_text() =~= "root:x:0:0:root:/root:/bin/sh\n"@
        + "sandbox:x:0:0:sandbox:/home/sandbox:/bin/sh\n"@
        + "nobody:x:65534:65534:nobody:/nonexistent:/usr/sbin/nologin\n"@);
    assert("root:x:0:\nsandbox:x:0:\nnogroup:x:65534:\n"@ =~= "root:x:0:\n"@ + "sandbox:x:0:\n"@
        + "nogroup:x:65534:\n"@);
    assert("passwd: files\ngroup:  files\nhosts:  files dns\n"@ =~= "passwd: files\n"@
        + "group:  files\n"@ + "hosts:  files dns\n"@);
}

/// A confined worker with a home on the host has the launcher's directory, and
/// finds its packages from its own home.
#[verifier::rlimit(40)]
#[verifier::spinoff_prover]
pub proof fn law_the_home_of_a_confined_worker(
    home: Seq<char>,
    empty_environment: bool,
    ro: Seq<Seq<char>>,
    rw: Seq<Seq<char>>,
    socket: Seq<char>,
)
    requires
        home.len() > 0,
    ensures
        ({
            let plan = sandbox_fs::fs_plan(home, empty_environment, ro, rw, socket);
            &&& does(
                plan,
                FsOp::Bind(
                    "/oldroot"@ + home + "/.julia/juliaup"@,
                    "/newroot/root/.julia/juliaup"@,
                ),
            )
            &&& demands(plan, FsOp::Mkdir("/newroot/home/sandbox"@))
            &&& does(plan, FsOp::Symlink(home + "/.julia"@, "/newroot/home/sandbox/.julia"@))
        }),
{
    let plan = sandbox_fs::fs_plan(home, empty_environment, ro, rw, socket);
    let a = sandbox_fs::staging_plan() + sandbox_fs::dev_plan() + sandbox_fs::system_plan();
    let b = sandbox_fs::home_plan(home, empty_environment);
    let c = sandbox_fs::ro_plan(ro) + sandbox_fs::rw_plan(rw) + sandbox_fs::socket_plan(socket)
        + sandbox_fs::final_plan();
    assert(plan =~= a + b + c);
    let n = b.len() as int;
    lemma_does(a, b, c, 1);
    lemma_demands(a, b, c, n - 2);
    lemma_does(a, b, c, n - 1);
}

/// The directory of the socket that a confined worker calls back on is bound
/// where it is on the host.
pub proof fn law_the_socket_is_reached(
    home: Seq<char>,
    empty_environment: bool,
    ro: Seq<Seq<char>>,
    rw: Seq<Seq<char>>,
    dir: Seq<char>,
    name: Seq<char>,
)
    requires
        !name.contains('/'),
    ensures
        does(
            sandbox_fs::fs_plan(home, empty_environment, ro, rw, dir + "/"@ + name),
            FsOp::Bind("/oldroot"@ + dir, "/newroot"@ + dir),
        ),
{
    reveal_strlit("/");
    let socket = dir + "/"@ + name;
    let n = dir.len() as int;
    assert(socket[n] == '/');
    assert forall|j: int| n < j < socket.len() implies socket[j] != '/' by {
        assert(socket[j] == name[j - n - 1]);
        assert(name[j - n - 1] == '/' ==> name.contains(name[j - n - 1]));
    }
    text::lemma_rfind_is(socket, '/', n);
    assert(socket.take(n) =~= dir);
    let plan = sandbox_fs::fs_plan(home, empty_environment, ro, rw, socket);
    let a = first_part(home, empty_environment) + sandbox_fs::ro_plan(ro) + sandbox_fs::rw_plan(rw);
    let b = sandbox_fs::socket_plan(socket);
    let c = sandbox_fs::final_plan();
    assert(plan =~= a + b + c);
    lemma_does(a, b, c, 1);
}

/// A step that succeeds leads to the next one but for those that it leaves
/// out, and one that fails leads on or ends the plan as it says.
pub proof fn law_how_steps_lead_on(s: sandbox_fs::Step<Seq<char>>, i: int)
    ensures
        sandbox_fs::after_step(s, i, true) == Ok::<int, sandbox::SandboxError>(
            i + 1 + s.on_ok,
        ),
        s.on_fail matches OnFail::Skip(n) ==> sandbox_fs::after_step(s, i, false) == Ok::<
            int,
            sandbox::SandboxError,
        >(i + 1 + n),
        s.on_fail matches OnFail::Abort(e) ==> sandbox_fs::after_step(s, i, false) == Err::<
            int,
            sandbox::SandboxError,
        >(e),
{
}

} // verus!
