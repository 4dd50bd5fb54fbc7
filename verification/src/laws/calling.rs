//! How a client finds its conductor, its project and its streams.

use crate::client_env;
use crate::dial;
use crate::dial::{DialAction, Phase};
use crate::env_cache;
use crate::env_cache::{EnvCache, Found, Kept, VarText};
use crate::handshake;
use crate::numeric;
use crate::project;
use crate::protocol;
use crate::protocol::{Platform, TransportMode};
use crate::spawn;
use crate::streams;
use crate::text;
use vstd::prelude::*;

verus! {

// ---------------------------------------------------------------------
// The address on the command line
// ---------------------------------------------------------------------

/// The argument neither gives an address nor ends the switches.
pub open spec fn is_of_no_address(a: Seq<char>) -> bool {
    &&& a != "--"@
    &&& !(a.len() >= 2 && a[0] == '-' && a[1] == 'a')
    &&& !(a.len() >= 9 && a.take(9) == "--address"@)
}

proof fn lemma_no_address(a: Seq<char>)
    requires
        is_of_no_address(a),
    ensures
        !"--address="@.is_prefix_of(a),
        !"-a"@.is_prefix_of(a),
        a != "--address"@,
        a != "-a"@,
        a != "--"@,
{
    reveal_strlit("--address=");
    reveal_strlit("--address");
    reveal_strlit("-a");
    if "--address="@.is_prefix_of(a) {
        assert(a.take(9) =~= a.subrange(0, 10).take(9));
        assert("--address="@.take(9) =~= "--address"@);
    }
    if "-a"@.is_prefix_of(a) {
        assert(a.subrange(0, 2)[0] == '-' && a.subrange(0, 2)[1] == 'a');
    }
    if a == "--address"@ {
        assert(a.take(9) =~= a);
    }
}

proof fn lemma_address_later(argv: Seq<Seq<char>>, from: int, i: int)
    requires
        0 <= from <= i <= argv.len(),
        forall|j: int| from <= j < i ==> is_of_no_address(#[trigger] argv[j]),
    ensures
        client_env::address_from(argv, from) == client_env::address_from(argv, i),
    decreases i - from,
{
    if from < i {
        assert(is_of_no_address(argv[from]));
        lemma_no_address(argv[from]);
        lemma_address_later(argv, from + 1, i);
    }
}

/// The first argument that gives an address does so: behind an equals sign,
/// behind the letter, or as the argument that follows. Nothing behind two
/// dashes does.
pub proof fn law_first_address_counts(argv: Seq<Seq<char>>, i: int, addr: Seq<char>)
    requires
        1 <= i <= argv.len(),
        forall|j: int| 1 <= j < i ==> is_of_no_address(#[trigger] argv[j]),
    ensures
        i == argv.len() ==> client_env::address_from(argv, 1) == (
            None::<Seq<char>>,
            Seq::<int>::empty(),
        ),
        i < argv.len() && argv[i] == "--"@ ==> client_env::address_from(argv, 1) == (
            None::<Seq<char>>,
            Seq::<int>::empty(),
        ),
        i < argv.len() && argv[i] == "--address="@ + addr ==> client_env::address_from(argv, 1) == (
            Some(addr),
            seq![i],
        ),
        i < argv.len() && argv[i] == "-a"@ + addr && addr.len() > 0 ==> client_env::address_from(
            argv,
            1,
        ) == (Some(addr), seq![i]),
        i + 1 < argv.len() && (argv[i] == "--address"@ || argv[i] == "-a"@) && argv[i + 1] == addr
            ==> client_env::address_from(argv, 1) == (Some(addr), seq![i, i + 1]),
{
    lemma_address_later(argv, 1, i);
    reveal_strlit("--");
    reveal_strlit("--address=");
    reveal_strlit("--address");
    reveal_strlit("-a");
    if i < argv.len() {
        let a = argv[i];
        if a == "--address="@ + addr {
            assert("--address="@ =~= a.subrange(0, 10));
            assert(a.skip(10) =~= addr);
            assert(a.len() >= 10);
        } else if a == "-a"@ + addr && addr.len() > 0 {
            assert("-a"@ =~= a.subrange(0, 2));
            assert(a.skip(2) =~= addr);
            assert(a[1] == 'a');
            assert("--address="@[1] == '-');
            if "--address="@.is_prefix_of(a) {
                assert(a.subrange(0, 10)[1] == '-');
            }
        } else if a == "--address"@ {
            assert(a.len() == 9);
            assert(a[1] == '-');
            if "-a"@.is_prefix_of(a) {
                assert(a.subrange(0, 2)[1] == 'a');
            }
        } else if a == "-a"@ {
            assert(a.len() == 2);
            assert(a[1] == 'a');
            assert("--"@[1] == '-');
        }
    }
}

/// What was taken as an address is not handed on as an argument; all else is,
/// in its order.
pub proof fn law_other_arguments_are_handed_on(argv: Seq<Seq<char>>, i: int)
    requires
        argv.len() <= usize::MAX,
    ensures
        handshake::kept_args(argv, Seq::empty()) == argv,
        0 <= i < argv.len() ==> handshake::kept_args(argv, seq![i as usize]) == argv.remove(i),
    decreases argv.len(),
{
    let none = Seq::<usize>::empty();
    let one = seq![i as usize];
    if argv.len() > 0 {
        let front = argv.drop_last();
        law_other_arguments_are_handed_on(front, i);
        assert(front.push(argv.last()) =~= argv);
        if 0 <= i < argv.len() {
            let last = (argv.len() - 1) as usize;
            if i < argv.len() - 1 {
                assert(!one.contains(last)) by {
                    assert(one[0] != last);
                }
                assert(front.remove(i).push(argv.last()) =~= argv.remove(i));
            } else {
                assert(one[0] == last);
                assert(one.contains(last));
                lemma_none_kept_out(front, last);
                assert(argv.remove(i) =~= front);
            }
        }
    } else {
        assert(handshake::kept_args(argv, none) =~= argv);
    }
}

proof fn lemma_none_kept_out(argv: Seq<Seq<char>>, k: usize)
    requires
        argv.len() <= k,
    ensures
        handshake::kept_args(argv, seq![k]) == argv,
    decreases argv.len(),
{
    if argv.len() > 0 {
        lemma_none_kept_out(argv.drop_last(), k);
        let last = (argv.len() - 1) as usize;
        assert(!seq![k].contains(last)) by {
            assert(seq![k][0] != last);
        }
        assert(argv.drop_last().push(argv.last()) =~= argv);
    } else {
        assert(handshake::kept_args(argv, seq![k]) =~= argv);
    }
}

// ---------------------------------------------------------------------
// The environment of a client
// ---------------------------------------------------------------------

/// The variable belongs to a run of measurements, and not to the client.
pub open spec fn is_of_measurement(key: Seq<char>) -> bool {
    key.len() >= 10 && key.take(10) == "HYPERFINE_"@
}

pub proof fn lemma_noise(key: Seq<char>)
    ensures
        handshake::is_noise(key) == is_of_measurement(key),
{
    reveal_strlit("HYPERFINE_");
    if key.len() >= 10 {
        assert(key.take(10) =~= key.subrange(0, 10));
    }
}

/// All variables of a client are sent in their order, but for those of
/// measurements.
pub proof fn law_variables_are_sent(vars: Seq<VarText>, v: VarText)
    ensures
        handshake::sent_vars(Seq::empty()) == Seq::<VarText>::empty(),
        is_of_measurement(v.0) ==> handshake::sent_vars(vars.push(v)) == handshake::sent_vars(vars),
        !is_of_measurement(v.0) ==> handshake::sent_vars(vars.push(v)) == handshake::sent_vars(
            vars,
        ).push(v),
{
    lemma_noise(v.0);
    assert(vars.push(v).drop_last() =~= vars);
}

/// A variable is written as its name, an equals sign and its value.
pub proof fn law_variables_are_assignments(key: Seq<char>, value: Seq<char>, i: int)
    ensures
        client_env::assignment((key, value)).len() == key.len() + 1 + value.len(),
        client_env::assignment((key, value))[key.len() as int] == '=',
        0 <= i < key.len() ==> client_env::assignment((key, value))[i] == key[i],
        0 <= i < value.len() ==> client_env::assignment((key, value))[key.len() + 1 + i]
            == value[i],
{
    reveal_strlit("=");
}

/// Variables are sent as names and values in turn.
pub proof fn law_names_and_values_in_turn(vars: Seq<VarText>, i: int)
    requires
        0 <= i < vars.len(),
    ensures
        handshake::flat(vars).len() == 2 * vars.len(),
        handshake::flat(vars)[2 * i] == vars[i].0,
        handshake::flat(vars)[2 * i + 1] == vars[i].1,
{
}

// ---------------------------------------------------------------------
// The environments that the conductor keeps
// ---------------------------------------------------------------------

/// An environment is kept under `f` at place `i`.
pub open spec fn is_kept_at(slots: Seq<Option<Kept>>, f: u64, i: int) -> bool {
    0 <= i < slots.len() && (slots[i] matches Some(k) && k.fingerprint == f)
}

proof fn lemma_slot(slots: Seq<Option<Kept>>, f: u64, i: int)
    requires
        0 <= i <= slots.len(),
        i < slots.len() ==> is_kept_at(slots, f, i),
        forall|j: int| 0 <= j < i ==> !#[trigger] is_kept_at(slots, f, j),
    ensures
        env_cache::slot_of(slots, f) == i,
    decreases slots.len(),
{
    if slots.len() > 0 && i > 0 {
        assert(!is_kept_at(slots, f, 0));
        let rest = slots.drop_first();
        assert forall|j: int| 0 <= j < i - 1 implies !#[trigger] is_kept_at(rest, f, j) by {
            assert(!is_kept_at(slots, f, j + 1));
        }
        if i < slots.len() {
            assert(rest[i - 1] == slots[i]);
        }
        lemma_slot(rest, f, i - 1);
    }
}

/// An environment that is kept is found under its fingerprint, and counts as
/// used from then on; no other is touched. What is not kept is not found.
pub proof fn law_kept_environments_are_found(
    before: EnvCache,
    after: EnvCache,
    f: u64,
    r: Option<Found>,
    i: int,
)
    requires
        before.slots().len() == 5,
        after.has_looked_up(&before, f, r),
        0 <= i <= 5,
        i < 5 ==> is_kept_at(before.slots(), f, i),
        forall|j: int| 0 <= j < i ==> !#[trigger] is_kept_at(before.slots(), f, j),
    ensures
        i < 5 ==> {
            &&& r is Some
            &&& (r->0).0 == before.slots()[i]->0.env
            &&& is_kept_at(after.slots(), f, i)
            &&& after.slots()[i]->0.env == before.slots()[i]->0.env
            &&& after.slots()[i]->0.used == before.uses()
            &&& after.uses() == before.uses() + 1
        },
        i == 5 ==> r is None && after.slots() == before.slots(),
        after.slots().len() == 5,
        forall|j: int| 0 <= j < 5 && j != i ==> #[trigger] after.slots()[j] == before.slots()[j],
{
    lemma_slot(before.slots(), f, i);
}

/// A new environment takes an empty place, or that of the one that was not
/// used for longest; all others stay.
pub proof fn law_new_environments_take_the_oldest_place(
    before: EnvCache,
    after: EnvCache,
    f: u64,
    env: Seq<VarText>,
) -> (i: int)
    requires
        before.slots().len() == 5,
        after.has_inserted(&before, f, env),
    ensures
        0 <= i < 5,
        after.slots().len() == 5,
        after.slots()[i] == Some(Kept { fingerprint: f, env, used: before.uses() }),
        after.uses() == before.uses() + 1,
        forall|j: int| 0 <= j < 5 && j != i ==> #[trigger] after.slots()[j] == before.slots()[j],
        before.slots()[i] matches Some(k) ==> forall|j: int|
            0 <= j < 5 ==> (#[trigger] before.slots()[j]) is Some && k.used
                <= before.slots()[j]->0.used,
{
    let i = choose|i: int| #[trigger]
        env_cache::next_slot(before.slots(), i) && after.slots() == before.slots().update(
            i,
            Some(Kept { fingerprint: f, env, used: before.uses() }),
        );
    i
}

/// The project of an environment is that of its first variable of the name.
pub proof fn law_project_of_an_environment(env: Seq<VarText>, i: int)
    requires
        0 <= i <= env.len(),
        i < env.len() ==> env[i].0 == "JULIA_PROJECT"@,
        forall|j: int| 0 <= j < i ==> (#[trigger] env[j]).0 != "JULIA_PROJECT"@,
    ensures
        i < env.len() ==> env_cache::project_of(env) == Some(env[i].1),
        i == env.len() ==> env_cache::project_of(env) is None,
    decreases env.len(),
{
    if env.len() > 0 && i > 0 {
        assert(env[0].0 != "JULIA_PROJECT"@);
        let rest = env.drop_first();
        assert forall|j: int| 0 <= j < i - 1 implies (#[trigger] rest[j]).0 != "JULIA_PROJECT"@ by {
            assert(env[j + 1].0 != "JULIA_PROJECT"@);
        }
        law_project_of_an_environment(rest, i - 1);
    }
}

// ---------------------------------------------------------------------
// The project
// ---------------------------------------------------------------------

/// A project that the command line names is taken as it is named. An empty
/// name, or that of a search, stands for what the search found.
pub proof fn law_named_project(
    p: Seq<char>,
    named: Option<Seq<char>>,
    home: Seq<char>,
    cwd: Seq<char>,
    found: Option<Seq<char>>,
)
    ensures
        p.len() > 0 && p != "@."@ ==> project::resolved(Some(p), named, home, cwd, found) == Some(p),
        p.len() == 0 || p == "@."@ ==> project::resolved(Some(p), named, home, cwd, found) == found,
        project::resolved(None, None, home, cwd, found) is None,
{
}

/// A project that the environment names is a path: from the home directory
/// behind a tilde, from the root behind a slash, and else from where the
/// client is.
pub proof fn law_project_of_the_environment(
    rest: Seq<char>,
    home: Seq<char>,
    cwd: Seq<char>,
    found: Option<Seq<char>>,
)
    requires
        home.len() > 0,
        cwd.len() > 0 && cwd.last() != '/',
    ensures
        project::resolved(None, Some("~/"@ + rest), home, cwd, found) == Some(home + "/"@ + rest),
        project::resolved(None, Some("/"@ + rest), home, cwd, found) == Some("/"@ + rest),
        rest.len() > 0 && rest[0] != '/' && rest[0] != '~' && rest != "@."@ ==> project::resolved(
            None,
            Some(rest),
            home,
            cwd,
            found,
        ) == Some(cwd + "/"@ + rest),
        project::resolved(None, Some(Seq::empty()), home, cwd, found) == found,
        project::resolved(None, Some("@."@), home, cwd, found) == found,
{
    reveal_strlit("~/");
    reveal_strlit("/");
    reveal_strlit("@.");
    let t = "~/"@ + rest;
    assert(t[0] == '~');
    assert("@."@[0] == '@');
    assert("~/"@ =~= t.subrange(0, 2));
    assert(home + t.skip(1) =~= home + "/"@ + rest);
    let r = "/"@ + rest;
    assert(r[0] == '/');
    if "~/"@.is_prefix_of(r) {
        assert(r.subrange(0, 2)[0] == '~');
    }
    if rest.len() > 0 && "~/"@.is_prefix_of(rest) {
        assert(rest.subrange(0, 2)[0] == '~');
    }
    assert(cwd + seq!['/'] + rest =~= cwd + "/"@ + rest);
}

/// A file of a directory is named with one slash between them.
pub proof fn law_one_slash_between(dir: Seq<char>, name: Seq<char>)
    ensures
        dir.len() > 0 && dir.last() != '/' ==> project::joined(dir, name) == dir + "/"@ + name,
        dir.len() > 0 && dir.last() == '/' ==> project::joined(dir, name) == dir + name,
        dir.len() == 0 ==> project::joined(dir, name) == name,
{
    reveal_strlit("/");
    assert(dir + seq!['/'] + name =~= dir + "/"@ + name);
    assert(Seq::<char>::empty() + name =~= name);
}

// ---------------------------------------------------------------------
// Dialling
// ---------------------------------------------------------------------

/// A client dials the address of the command line, else that of its
/// environment, and else the socket in the directory of the conductor.
pub proof fn law_what_is_dialled(a: Seq<char>, b: Option<Seq<char>>, s: Seq<char>, dir: Seq<char>)
    ensures
        dial::dial_target(Some(a), b, dir) == a,
        dial::dial_target(None, Some(s), dir) == s,
        dial::dial_target(None, None, dir) == dir + "/conductor.sock"@,
{
}

/// Where nobody answers at a socket, the conductor is asked to open it again;
/// then twenty more attempts are made, and one at the address of this machine.
/// On the network only the twenty are. The first attempt that succeeds ends
/// the matter.
pub proof fn law_how_a_client_dials(n: u8)
    ensures
        dial::dial_action(Phase::First) == DialAction::Connect,
        dial::dial_action(Phase::Signal) == DialAction::AskConductor,
        dial::dial_action(Phase::Retry(n)) == DialAction::WaitAndConnect,
        dial::dial_action(Phase::Fallback) == DialAction::ConnectFallback,
        dial::dial_action(Phase::Connected) == DialAction::Use,
        dial::dial_action(Phase::GaveUp) == DialAction::Fail,
        forall|t: TransportMode| #[trigger]
            dial::next_phase(Phase::First, t, true) == Phase::Connected,
        forall|t: TransportMode| #[trigger]
            dial::next_phase(Phase::Retry(n), t, true) == Phase::Connected,
        forall|t: TransportMode| #[trigger]
            dial::next_phase(Phase::Fallback, t, true) == Phase::Connected,
        dial::next_phase(Phase::First, TransportMode::Tcp, false) == Phase::Retry(20),
        dial::next_phase(Phase::First, TransportMode::Unix, false) == Phase::Signal,
        dial::next_phase(Phase::Signal, TransportMode::Unix, true) == Phase::Retry(20),
        dial::next_phase(Phase::Signal, TransportMode::Unix, false) == Phase::GaveUp,
        forall|t: TransportMode|
            n > 1 ==> #[trigger] dial::next_phase(Phase::Retry(n), t, false) == Phase::Retry(
                (n - 1) as u8,
            ),
        dial::next_phase(Phase::Retry(1), TransportMode::Tcp, false) == Phase::GaveUp,
        dial::next_phase(Phase::Retry(1), TransportMode::Unix, false) == Phase::Fallback,
        forall|t: TransportMode| #[trigger]
            dial::next_phase(Phase::Fallback, t, false) == Phase::GaveUp,
{
}

/// On the network, a client that is never answered tries once and then twenty
/// times more, and gives up.
pub proof fn law_network_is_tried_twenty_times_more(failures: Seq<bool>)
    requires
        failures.len() <= 21,
        forall|i: int| 0 <= i < failures.len() ==> !#[trigger] failures[i],
    ensures
        dial::phase_after(Phase::First, TransportMode::Tcp, failures) == if failures.len() == 0 {
            Phase::First
        } else if failures.len() <= 20 {
            Phase::Retry((21 - failures.len()) as u8)
        } else {
            Phase::GaveUp
        },
    decreases failures.len(),
{
    if failures.len() > 0 {
        let front = failures.drop_last();
        assert forall|i: int| 0 <= i < front.len() implies !#[trigger] front[i] by {
            assert(!failures[i]);
        }
        law_network_is_tried_twenty_times_more(front);
        assert(!failures[failures.len() - 1]);
        assert(!failures.last());
    }
}

/// The last resort is port 9345 of this machine.
pub proof fn law_last_resort()
    ensures
        dial::fallback_text() == "localhost"@ + ":"@ + numeric::decimal(9345),
{
}

// ---------------------------------------------------------------------
// Streams
// ---------------------------------------------------------------------

/// A client is told only the port of a stream on the network, and dials it at
/// the host where it found the conductor. A path is told and dialled as it is.
pub proof fn law_streams_are_dialled_at_the_conductors_host(
    bind: Seq<char>,
    port: Seq<char>,
    host: Seq<char>,
    path: Seq<char>,
)
    requires
        !port.contains(':'),
    ensures
        streams::offered(TransportMode::Tcp, bind + ":"@ + port) == ":"@ + port,
        streams::dialled(":"@ + port, true, host) == host + ":"@ + port,
        streams::offered(TransportMode::Unix, path) == path,
        streams::dialled(path, false, host) == path,
{
    reveal_strlit(":");
    let a = bind + ":"@ + port;
    let n = bind.len() as int;
    assert(a[n] == ':');
    assert forall|j: int| n < j < a.len() implies a[j] != ':' by {
        assert(a[j] == port[j - n - 1]);
        assert(port[j - n - 1] == ':' ==> port.contains(port[j - n - 1]));
    }
    text::lemma_rfind_is(a, ':', n);
    assert(a.skip(n) =~= ":"@ + port);
    assert(host + (":"@ + port) =~= host + ":"@ + port);
    assert((":"@ + port)[0] == ':');
}

// ---------------------------------------------------------------------
// Processes
// ---------------------------------------------------------------------

/// A program is looked for in each directory of the search path in turn.
pub proof fn law_search_path(name: Seq<char>, dirs: Seq<Seq<char>>, dir: Seq<char>)
    ensures
        spawn::candidates(name, Seq::empty()) == Seq::<Seq<char>>::empty(),
        dir.len() > 0 ==> spawn::candidates(name, dirs.push(dir)) == spawn::candidates(
            name,
            dirs,
        ).push(dir + "/"@ + name),
        dir.len() == 0 ==> spawn::candidates(name, dirs.push(dir)) == spawn::candidates(name, dirs),
{
    assert(dirs.push(dir).drop_last() =~= dirs);
}

/// The processor time of a process is read behind its name, which may hold
/// anything: it is the twelfth word there and the thirteenth.
pub proof fn law_processor_time(head: Seq<char>, rest: Seq<char>, u: u64, s: u64)
    requires
        !rest.contains(')'),
        text::words(rest).len() >= 13,
        text::words(rest)[11] == numeric::decimal(u as nat),
        text::words(rest)[12] == numeric::decimal(s as nat),
    ensures
        spawn::ticks_of(head + ")"@ + rest) == Some((u as nat, s as nat)),
{
    reveal_strlit(")");
    let stat = head + ")"@ + rest;
    let n = head.len() as int;
    assert(stat[n] == ')');
    assert forall|j: int| n < j < stat.len() implies stat[j] != ')' by {
        assert(stat[j] == rest[j - n - 1]);
        assert(rest[j - n - 1] == ')' ==> rest.contains(rest[j - n - 1]));
    }
    text::lemma_rfind_is(stat, ')', n);
    assert(stat.skip(n + 1) =~= rest);
    numeric::law_decimal_round_trip(u as nat, u64::MAX as nat);
    numeric::law_decimal_round_trip(s as nat, u64::MAX as nat);
}

/// The memory of a process is its second word.
pub proof fn law_process_memory(statm: Seq<char>, n: u64)
    requires
        text::words(statm).len() >= 2,
        text::words(statm)[1] == numeric::decimal(n as nat),
    ensures
        spawn::number_at(statm, 1) == Some(n as nat),
{
    numeric::law_decimal_round_trip(n as nat, u64::MAX as nat);
}

/// A client looks for its conductor in the directory that it is told, and else
/// where the conductor would be.
pub proof fn law_where_a_client_looks(
    d: Seq<char>,
    xdg: Seq<char>,
    home: Option<Seq<char>>,
    uid: u32,
    other: Option<Seq<char>>,
)
    ensures
        forall|p: Platform| #[trigger]
            dial::client_runtime_dir(p, Some(d), other, home, uid) == d,
        dial::client_runtime_dir(Platform::Linux, None, Some(xdg), home, uid) == xdg
            + "/julia-daemon"@,
        dial::client_runtime_dir(Platform::Linux, None, None, home, uid) == "/run/user/"@
            + numeric::decimal(uid as nat) + "/julia-daemon"@,
        dial::client_runtime_dir(Platform::MacOs, None, other, Some(d), uid) == d
            + "/Library/Application Support/julia-daemon"@,
        dial::client_runtime_dir(Platform::Other, None, other, home, uid) == "/tmp/julia-daemon-"@
            + numeric::decimal(uid as nat),
{
}

/// A new socket is in the directory of the conductor, and its name ends with
/// what it is for.
pub proof fn law_where_sockets_are(
    dir: Seq<char>,
    nanos: u32,
    pid: u32,
    counter: u32,
    suffix: Seq<char>,
)
    ensures
        ({
            let p = protocol::socket_path_text(dir, nanos, pid, counter, suffix);
            &&& p.len() >= dir.len() + 18 + suffix.len()
            &&& p.take(dir.len() as int) == dir
            &&& p[dir.len() as int] == '/'
            &&& p[p.len() - suffix.len() - 1] == '-'
            &&& p.skip(p.len() - suffix.len()) == suffix
        }),
{
    reveal_strlit("/");
    reveal_strlit("-");
    numeric::lemma_hex_u32_len(nanos);
    numeric::lemma_hex_u32_len(pid);
    let p = protocol::socket_path_text(dir, nanos, pid, counter, suffix);
    assert(p.take(dir.len() as int) =~= dir);
    assert(p.skip(p.len() - suffix.len()) =~= suffix);
}

/// A client waits a tenth of a second between attempts, and a live status is
/// drawn again every second.
pub proof fn law_waiting_times()
    ensures
        dial::RETRY_DELAY_MS == 100,
        crate::status::LIVE_HEARTBEAT_MS == 1000,
{
}

} // verus!
