//! The ports and paths of streams.

use crate::conductor;
use crate::conductor::Conductor;
use crate::handover::Start;
use crate::laws::lifecycle::is_free;
use crate::numeric;
use crate::protocol;
use crate::protocol::Ip;
use crate::request::{ClientRequest, SandboxMode};
use crate::server;
use crate::spawn;
use crate::worker;
use vstd::prelude::*;

verus! {

/// The lowest port set that is free is taken, and no other changes. Where
/// there is a pool of ports, none is given out only while none is free; where
/// there is no pool, none is needed.
pub proof fn law_the_lowest_free_set_is_taken(
    before: Conductor,
    after: Conductor,
    set: Option<u16>,
    j: int,
)
    requires
        after.has_allocated(&before, set),
    ensures
        before.port_pool is None ==> set == Some(0xffffu16) && after.port_pool is None,
        before.port_pool is Some && set is Some ==> {
            let s = set->0 as int;
            &&& is_free(before, s)
            &&& !is_free(after, s)
            &&& 0 <= j < s ==> !is_free(before, j)
            &&& j != s ==> is_free(after, j) == is_free(before, j)
        },
        before.port_pool is Some && set is None ==> !is_free(before, j) && !is_free(after, j),
        before.port_pool matches Some(p) ==> after.port_pool is Some
            && after.port_pool->0.first_port() == p.first_port(),
        after.active_clients == before.active_clients,
        after.pools == before.pools,
{
}

/// A client is sent away only where every port set is taken, and one that is
/// not has a set that was free.
pub proof fn law_who_is_sent_away(
    before: Conductor,
    after: Conductor,
    key: Seq<char>,
    q: ClientRequest,
    mode: SandboxMode,
    now: i64,
    r: Start,
    j: int,
)
    requires
        after.has_begun(&before, key, &q, mode, now, r),
    ensures
        r is NoPorts ==> before.port_pool is Some && !is_free(before, j),
        r matches Start::Existing(set, c) ==> (before.port_pool is Some ==> is_free(
            before,
            set as int,
        )) && (before.port_pool is None ==> set == 0xffff),
        r matches Start::NeedsWorker(set) ==> (before.port_pool is Some ==> is_free(
            before,
            set as int,
        )) && (before.port_pool is None ==> set == 0xffff),
{
}

/// A port set that is given back is free, and no other changes.
pub proof fn law_a_set_is_given_back(free: Seq<bool>, set: u16, j: int)
    requires
        free.len() <= 0xffff,
        0 <= j < free.len(),
    ensures
        conductor::given_back(free, set).len() == free.len(),
        conductor::given_back(free, set)[j] == (free[j] || j == set),
{
}

/// The ports of a set follow each other, and sets follow each other without a
/// gap.
pub proof fn law_ports_of_a_set(base: int, idx: int, i: int)
    requires
        0 <= base,
        0 <= idx,
        base + 4 * idx + 3 <= 0xffff,
        0 <= i < 4,
    ensures
        protocol::set_ports(base, idx).len() == 4,
        protocol::set_ports(base, idx)[i] == base + 4 * idx + i,
        protocol::set_ports(base, 0)[0] == base,
        protocol::set_ports(base, idx)[3] + 1 == base + 4 * (idx + 1),
{
}

/// The streams of a client have names of their own.
pub proof fn law_names_of_streams()
    ensures
        server::suffix_of(0) == "stdin.sock"@,
        server::suffix_of(1) == "stdout.sock"@,
        server::suffix_of(2) == "stderr.sock"@,
        server::suffix_of(3) == "signals.sock"@,
{
}

/// An address of a stream is its host, a colon and its port: that of its set,
/// or none where any will do.
pub proof fn law_addresses_of_streams(
    bind: Seq<char>,
    port: u16,
    pool: protocol::PortPool,
    set: u16,
    i: int,
)
    requires
        0 <= i < 4,
        pool.first_port() + 4 * set + 3 <= 0xffff,
    ensures
        server::bound_text(bind, port) == bind + ":"@ + numeric::decimal(port as nat),
        server::stream_port(Some(pool), Some(set), i) == pool.first_port() + 4 * set + i,
        server::stream_port(Some(pool), None, i) == 0,
        server::stream_port(None, Some(set), i) == 0,
{
}

/// The addresses of this machine: those that begin with 127, and the one of
/// the newer kind, plain or with one of the former in it.
pub proof fn law_addresses_of_this_machine(a: [u8; 4], s: [u16; 8])
    ensures
        protocol::loopback(Ip::V4(a)) <==> a@[0] == 127,
        s@ == seq![0u16, 0u16, 0u16, 0u16, 0u16, 0u16, 0u16, 1u16] ==> protocol::loopback(
            Ip::V6(s),
        ),
        protocol::loopback(Ip::V6(s)) ==> s@[0] == 0 && s@[1] == 0 && s@[2] == 0 && s@[3] == 0
            && s@[4] == 0,
        protocol::loopback(Ip::V6(s)) ==> (s@[5] == 0 && s@[6] == 0 && s@[7] == 1) || (s@[5]
            == 0xffff && 0x7f00 <= s@[6] <= 0x7fff),
        s@[0] == 0 && s@[1] == 0 && s@[2] == 0 && s@[3] == 0 && s@[4] == 0 && s@[5] == 0xffff
            && 0x7f00 <= s@[6] <= 0x7fff ==> protocol::loopback(Ip::V6(s)),
{
}

/// A confined worker has a directory of its own; others share one.
pub proof fn law_directories_of_workers(dir: Seq<char>, id: u32)
    ensures
        spawn::worker_dir_text(dir, id, true, protocol::Platform::Linux) == dir + "/sandbox-"@
            + numeric::decimal(id as nat),
        spawn::worker_dir_text(dir, id, false, protocol::Platform::Linux) == dir,
        spawn::worker_dir_text(dir, id, true, protocol::Platform::MacOs) == dir,
        spawn::worker_dir_text(dir, id, true, protocol::Platform::Other) == dir,
{
}

/// A worker is started with the socket that it calls back on, its number, and
/// the conductor's own socket.
pub proof fn law_what_a_worker_is_told(setup: Seq<char>, id: u32, socket: Seq<char>)
    ensures
        spawn::worker_expr(setup, id, socket) == "using DaemonWorker; "@
            + "DaemonWorker.runworker("@ + "\""@ + setup + "\""@ + ", "@ + numeric::decimal(id as nat)
            + ", "@ + "\""@ + socket + "\""@ + ")"@,
{
    reveal_strlit("using DaemonWorker; ");
    reveal_strlit("DaemonWorker.runworker(");
    reveal_strlit("\"");
    reveal_strlit(", ");
    reveal_strlit(")");
    reveal_strlit("using DaemonWorker; DaemonWorker.runworker(\"");
    reveal_strlit("\", ");
    reveal_strlit(", \"");
    reveal_strlit("\")");
    let n = numeric::decimal(id as nat);
    assert("using DaemonWorker; DaemonWorker.runworker(\""@ =~= "using DaemonWorker; "@
        + "DaemonWorker.runworker("@ + "\""@);
    assert("\", "@ =~= "\""@ + ", "@);
    assert(", \""@ =~= ", "@ + "\""@);
    assert("\")"@ =~= "\""@ + ")"@);
    let head = "using DaemonWorker; "@ + "DaemonWorker.runworker("@ + "\""@;
    assert(head + setup + ("\""@ + ", "@) + n + (", "@ + "\""@) + socket + ("\""@ + ")"@) =~= head
        + setup + "\""@ + ", "@ + n + ", "@ + "\""@ + socket + "\""@ + ")"@);
}

/// A reading of the clock gives its seconds, and its microseconds.
pub proof fn law_clock_readings(secs: u64, nanos: u32)
    requires
        secs < 0x100_0000_0000,
        nanos < 1_000_000_000,
    ensures
        worker::seconds_of(Some((secs, nanos))) == secs,
        0 <= 1000 * (worker::micros_of(Some((secs, nanos))) - secs * 1_000_000) <= nanos,
        nanos < 1000 * (worker::micros_of(Some((secs, nanos))) - secs * 1_000_000) + 1000,
        worker::seconds_of(None) == 0,
        worker::micros_of(None) == 0,
{
    let n = secs * 1_000_000 + nanos / 1000;
    assert(0 <= n <= i64::MAX);
}

} // verus!
