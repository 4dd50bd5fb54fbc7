//! What each setting of the environment does to the conductor.

use crate::config;
use crate::config::{Config, Env, FloatVerdicts, MemText, MemThreshold, Outcome};
use crate::numeric;
use crate::protocol;
use crate::protocol::{Platform, TransportMode};
use crate::text;
use vstd::prelude::*;

verus! {

// ---------------------------------------------------------------------
// Variables
// ---------------------------------------------------------------------

/// The variable at `i` is called `name`, and none behind it is.
pub open spec fn stands_last(env: Env, name: Seq<char>, i: int) -> bool {
    &&& 0 <= i < env.len()
    &&& env[i].0 == name
    &&& forall|j: int| i < j < env.len() ==> (#[trigger] env[j]).0 != name
}

/// The last variable called `name` has the value `s`.
pub open spec fn gives(env: Env, name: Seq<char>, s: Seq<char>) -> bool {
    exists|i: int| #[trigger] stands_last(env, name, i) && env[i].1 == s
}

/// No variable is called `name`.
pub open spec fn silent(env: Env, name: Seq<char>) -> bool {
    forall|j: int| 0 <= j < env.len() ==> (#[trigger] env[j]).0 != name
}

proof fn lemma_setting_at(env: Env, name: Seq<char>, i: int)
    requires
        stands_last(env, name, i),
    ensures
        config::setting(env, name) == Some(env[i].1),
    decreases env.len(),
{
    let front = env.drop_last();
    if i < env.len() - 1 {
        assert(env[env.len() - 1].0 != name);
        assert forall|j: int| i < j < front.len() implies (#[trigger] front[j]).0 != name by {
            assert(env[j].0 != name);
        }
        assert(stands_last(front, name, i));
        lemma_setting_at(front, name, i);
    }
}

proof fn lemma_silent(env: Env, name: Seq<char>)
    requires
        silent(env, name),
    ensures
        config::setting(env, name) is None,
    decreases env.len(),
{
    if env.len() > 0 {
        let front = env.drop_last();
        assert(env[env.len() - 1].0 != name);
        assert forall|j: int| 0 <= j < front.len() implies (#[trigger] front[j]).0 != name by {
            assert(env[j].0 != name);
        }
        lemma_silent(front, name);
    }
}

/// A setting is the value of the last variable of its name, and is missing
/// where there is none.
pub proof fn law_the_last_variable_counts(env: Env, name: Seq<char>)
    ensures
        forall|s: Seq<char>| #[trigger]
            gives(env, name, s) ==> config::setting(env, name) == Some(s),
        silent(env, name) ==> config::setting(env, name) is None,
        silent(env, name) || exists|s: Seq<char>| #[trigger] gives(env, name, s),
{
    assert forall|s: Seq<char>| #[trigger] gives(env, name, s) implies config::setting(env, name)
        == Some(s) by {
        let i = choose|i: int| #[trigger] stands_last(env, name, i) && env[i].1 == s;
        lemma_setting_at(env, name, i);
    }
    if silent(env, name) {
        lemma_silent(env, name);
    } else {
        let k = choose|k: int| 0 <= k < env.len() && (#[trigger] env[k]).0 == name;
        let i = lemma_last_place(env, name, k);
        assert(gives(env, name, env[i].1));
    }
}

proof fn lemma_last_place(env: Env, name: Seq<char>, k: int) -> (i: int)
    requires
        0 <= k < env.len(),
        env[k].0 == name,
    ensures
        stands_last(env, name, i),
    decreases env.len() - k,
{
    if forall|j: int| k < j < env.len() ==> (#[trigger] env[j]).0 != name {
        k
    } else {
        let j = choose|j: int| k < j < env.len() && (#[trigger] env[j]).0 == name;
        lemma_last_place(env, name, j)
    }
}

// ---------------------------------------------------------------------
// Texts, numbers and choices
// ---------------------------------------------------------------------

/// A text that is given is taken as it is, and each has its own default where
/// none is given.
pub proof fn law_texts_take_effect(c: Config, env: Env, platform: Platform, uid: u32, s: Seq<char>)
    requires
        c.says(env, platform, uid),
    ensures
        gives(env, "JULIA_DAEMON_WORKER_EXECUTABLE"@, s) ==> c.worker_executable@ == s,
        silent(env, "JULIA_DAEMON_WORKER_EXECUTABLE"@) ==> c.worker_executable@ == "julia"@,
        gives(env, "JULIA_DAEMON_WORKER_ARGS"@, s) ==> c.worker_args@ == s,
        silent(env, "JULIA_DAEMON_WORKER_ARGS"@) ==> c.worker_args@ == "--startup-file=no"@,
        gives(env, "JULIA_DAEMON_PSI_THRESHOLD"@, s) ==> c.psi_threshold@ == s,
        silent(env, "JULIA_DAEMON_PSI_THRESHOLD"@) ==> c.psi_threshold@ == "10"@,
        gives(env, "JULIA_DAEMON_WORKER_PROJECT"@, s) ==> c.worker_project@ == s,
        !silent(env, "JULIA_DAEMON_WORKER_PROJECT"@),
        gives(env, "HOME"@, s) ==> c.host_home@ == s,
        silent(env, "HOME"@) ==> c.host_home@ == Seq::<char>::empty(),
        gives(env, "JULIA_DAEMON_SANDBOX_MAX_MEMORY"@, s) ==> (c.sandbox_max_memory matches Some(t) && t@ == s),
        silent(env, "JULIA_DAEMON_SANDBOX_MAX_MEMORY"@) ==> c.sandbox_max_memory is None,
{
    law_the_last_variable_counts(env, "JULIA_DAEMON_WORKER_EXECUTABLE"@);
    law_the_last_variable_counts(env, "JULIA_DAEMON_WORKER_ARGS"@);
    law_the_last_variable_counts(env, "JULIA_DAEMON_PSI_THRESHOLD"@);
    law_the_last_variable_counts(env, "JULIA_DAEMON_WORKER_PROJECT"@);
    law_the_last_variable_counts(env, "HOME"@);
    law_the_last_variable_counts(env, "JULIA_DAEMON_SANDBOX_MAX_MEMORY"@);
}

/// A number that is given is taken, and each has its own default where none is
/// given; the idle deadline has an older name that counts where the newer one
/// is missing.
pub proof fn law_numbers_take_effect(c: Config, env: Env, platform: Platform, uid: u32, n: u64)
    requires
        c.says(env, platform, uid),
    ensures
        gives(env, "JULIA_DAEMON_MIN_TTL"@, numeric::decimal(n as nat)) ==> c.min_ttl == n,
        silent(env, "JULIA_DAEMON_MIN_TTL"@) ==> c.min_ttl == 120,
        gives(env, "JULIA_DAEMON_LABEL_TTL"@, numeric::decimal(n as nat)) ==> c.label_ttl == n,
        silent(env, "JULIA_DAEMON_LABEL_TTL"@) ==> c.label_ttl == 90,
        gives(env, "JULIA_DAEMON_PING_INTERVAL"@, numeric::decimal(n as nat)) ==> c.ping_interval == n,
        silent(env, "JULIA_DAEMON_PING_INTERVAL"@) ==> c.ping_interval == 30,
        gives(env, "JULIA_DAEMON_PING_TIMEOUT"@, numeric::decimal(n as nat)) ==> c.ping_timeout == n,
        silent(env, "JULIA_DAEMON_PING_TIMEOUT"@) ==> c.ping_timeout == 5,
        gives(env, "JULIA_DAEMON_MAX_TTL"@, numeric::decimal(n as nat)) ==> c.max_ttl == n,
        silent(env, "JULIA_DAEMON_MAX_TTL"@) && gives(env, "JULIA_DAEMON_WORKER_TTL"@, numeric::decimal(n as nat)) ==> c.max_ttl == n,
        silent(env, "JULIA_DAEMON_MAX_TTL"@) && silent(env, "JULIA_DAEMON_WORKER_TTL"@) ==> c.max_ttl == 7200,
{
    numeric::law_decimal_round_trip(n as nat, u64::MAX as nat);
    law_the_last_variable_counts(env, "JULIA_DAEMON_MIN_TTL"@);
    law_the_last_variable_counts(env, "JULIA_DAEMON_LABEL_TTL"@);
    law_the_last_variable_counts(env, "JULIA_DAEMON_PING_INTERVAL"@);
    law_the_last_variable_counts(env, "JULIA_DAEMON_PING_TIMEOUT"@);
    law_the_last_variable_counts(env, "JULIA_DAEMON_MAX_TTL"@);
    law_the_last_variable_counts(env, "JULIA_DAEMON_WORKER_TTL"@);
}

/// The number of clients for one worker, and the share of processors, are
/// those that are given: one client, and no limit, unless they are.
pub proof fn law_small_numbers_take_effect(c: Config, env: Env, platform: Platform, uid: u32, n: u32)
    requires
        c.says(env, platform, uid),
    ensures
        gives(env, "JULIA_DAEMON_WORKER_MAXCLIENTS"@, numeric::decimal(n as nat)) ==> c.worker_maxclients == n,
        silent(env, "JULIA_DAEMON_WORKER_MAXCLIENTS"@) ==> c.worker_maxclients == 1,
        gives(env, "JULIA_DAEMON_SANDBOX_MAX_CPU"@, numeric::decimal(n as nat)) ==> c.sandbox_max_cpu == Some(n),
        silent(env, "JULIA_DAEMON_SANDBOX_MAX_CPU"@) ==> c.sandbox_max_cpu is None,
{
    numeric::law_decimal_round_trip(n as nat, u32::MAX as nat);
    law_the_last_variable_counts(env, "JULIA_DAEMON_WORKER_MAXCLIENTS"@);
    law_the_last_variable_counts(env, "JULIA_DAEMON_SANDBOX_MAX_CPU"@);
}

/// `s` is empty or holds, behind its first character, one that is no digit.
pub open spec fn is_no_number(s: Seq<char>) -> bool {
    s.len() == 0 || exists|i: int| 1 <= i < s.len() && !('0' <= (#[trigger] s[i]) <= '9')
}

proof fn lemma_no_number(s: Seq<char>, max: nat)
    requires
        is_no_number(s),
    ensures
        numeric::parse_unsigned(s, max) is None,
{
    if s.len() > 0 {
        let i = choose|i: int| 1 <= i < s.len() && !('0' <= (#[trigger] s[i]) <= '9');
        let digits = numeric::unsigned_digits(s);
        if s[0] == '+' {
            assert(digits[i - 1] == s[i]);
            assert(!numeric::is_digit(digits[i - 1]));
        } else {
            assert(!numeric::is_digit(digits[i]));
        }
    }
}

/// What is no number leaves these settings at their defaults.
pub proof fn law_what_is_no_number_is_passed_over(c: Config, env: Env, platform: Platform, uid: u32, s: Seq<char>)
    requires
        c.says(env, platform, uid),
        is_no_number(s),
    ensures
        gives(env, "JULIA_DAEMON_LABEL_TTL"@, s) ==> c.label_ttl == 90,
        gives(env, "JULIA_DAEMON_PING_INTERVAL"@, s) ==> c.ping_interval == 30,
        gives(env, "JULIA_DAEMON_PING_TIMEOUT"@, s) ==> c.ping_timeout == 5,
        gives(env, "JULIA_DAEMON_WORKER_MAXCLIENTS"@, s) ==> c.worker_maxclients == 1,
        gives(env, "JULIA_DAEMON_SANDBOX_MAX_CPU"@, s) ==> c.sandbox_max_cpu is None,
{
    law_the_last_variable_counts(env, "JULIA_DAEMON_LABEL_TTL"@);
    law_the_last_variable_counts(env, "JULIA_DAEMON_PING_INTERVAL"@);
    law_the_last_variable_counts(env, "JULIA_DAEMON_PING_TIMEOUT"@);
    law_the_last_variable_counts(env, "JULIA_DAEMON_WORKER_MAXCLIENTS"@);
    law_the_last_variable_counts(env, "JULIA_DAEMON_SANDBOX_MAX_CPU"@);
    lemma_no_number(s, u64::MAX as nat);
    lemma_no_number(s, u32::MAX as nat);
}

/// What is on unless it is switched off with a nought, and what is off unless
/// it is switched on with a one.
pub proof fn law_choices_take_effect(c: Config, env: Env, platform: Platform, uid: u32)
    requires
        c.says(env, platform, uid),
    ensures
        c.memory_pressure <==> !gives(env, "JULIA_DAEMON_MEMORY_PRESSURE"@, "0"@),
        c.sandbox_remote_clients <==> !gives(env, "JULIA_DAEMON_SANDBOX_REMOTE_CLIENTS"@, "0"@),
        c.sandbox_empty_environment <==> !gives(env, "JULIA_DAEMON_SANDBOX_EMPTY_ENVIRONMENT"@, "0"@),
        c.sandbox_session_bypass <==> gives(env, "JULIA_DAEMON_SANDBOX_SESSION_BYPASS"@, "1"@),
{
    reveal_strlit("0");
    reveal_strlit("1");
    law_the_last_variable_counts(env, "JULIA_DAEMON_MEMORY_PRESSURE"@);
    law_the_last_variable_counts(env, "JULIA_DAEMON_SANDBOX_REMOTE_CLIENTS"@);
    law_the_last_variable_counts(env, "JULIA_DAEMON_SANDBOX_EMPTY_ENVIRONMENT"@);
    law_the_last_variable_counts(env, "JULIA_DAEMON_SANDBOX_SESSION_BYPASS"@);
}

// ---------------------------------------------------------------------
// Thresholds for free memory
// ---------------------------------------------------------------------

/// The threshold is a part of all memory, of so many hundredths.
pub open spec fn is_part(m: MemThreshold, hundredths: Seq<char>) -> bool {
    m matches MemThreshold::Fraction(t) && t@ == hundredths
}

/// The threshold is a number of bytes.
pub open spec fn is_bytes(m: MemThreshold, n: int) -> bool {
    m matches MemThreshold::Bytes(b) && b == n
}

/// The low threshold is the part of all memory, or the number of bytes, that
/// is given; it is a tenth of all memory unless one is.
pub proof fn law_low_threshold_takes_effect(c: Config, env: Env, platform: Platform, uid: u32, s: Seq<char>, n: u64)
    requires
        c.says(env, platform, uid),
    ensures
        gives(env, "JULIA_DAEMON_MEMFREE_LOW"@, s.push('%')) ==> is_part(c.memfree_low, s),
        silent(env, "JULIA_DAEMON_MEMFREE_LOW"@) ==> is_part(c.memfree_low, "10"@),
        gives(env, "JULIA_DAEMON_MEMFREE_LOW"@, numeric::decimal(n as nat)) ==> is_bytes(c.memfree_low, n as int),
        gives(env, "JULIA_DAEMON_MEMFREE_LOW"@, numeric::decimal(n as nat).push('K')) ==> is_bytes(c.memfree_low, n * 1024),
        gives(env, "JULIA_DAEMON_MEMFREE_LOW"@, numeric::decimal(n as nat).push('k')) ==> is_bytes(c.memfree_low, n * 1024),
        gives(env, "JULIA_DAEMON_MEMFREE_LOW"@, numeric::decimal(n as nat).push('M')) ==> is_bytes(c.memfree_low, n * 1048576),
        gives(env, "JULIA_DAEMON_MEMFREE_LOW"@, numeric::decimal(n as nat).push('m')) ==> is_bytes(c.memfree_low, n * 1048576),
        gives(env, "JULIA_DAEMON_MEMFREE_LOW"@, numeric::decimal(n as nat).push('G')) ==> is_bytes(c.memfree_low, n * 1073741824),
        gives(env, "JULIA_DAEMON_MEMFREE_LOW"@, numeric::decimal(n as nat).push('g')) ==> is_bytes(c.memfree_low, n * 1073741824),
{
    law_the_last_variable_counts(env, "JULIA_DAEMON_MEMFREE_LOW"@);
    lemma_threshold(s, n);
}

/// The high threshold is the part of all memory, or the number of bytes, that
/// is given; it is three twentieths of all memory unless one is.
pub proof fn law_high_threshold_takes_effect(c: Config, env: Env, platform: Platform, uid: u32, s: Seq<char>, n: u64)
    requires
        c.says(env, platform, uid),
    ensures
        gives(env, "JULIA_DAEMON_MEMFREE_HIGH"@, s.push('%')) ==> is_part(c.memfree_high, s),
        silent(env, "JULIA_DAEMON_MEMFREE_HIGH"@) ==> is_part(c.memfree_high, "15"@),
        gives(env, "JULIA_DAEMON_MEMFREE_HIGH"@, numeric::decimal(n as nat)) ==> is_bytes(c.memfree_high, n as int),
        gives(env, "JULIA_DAEMON_MEMFREE_HIGH"@, numeric::decimal(n as nat).push('K')) ==> is_bytes(c.memfree_high, n * 1024),
        gives(env, "JULIA_DAEMON_MEMFREE_HIGH"@, numeric::decimal(n as nat).push('k')) ==> is_bytes(c.memfree_high, n * 1024),
        gives(env, "JULIA_DAEMON_MEMFREE_HIGH"@, numeric::decimal(n as nat).push('M')) ==> is_bytes(c.memfree_high, n * 1048576),
        gives(env, "JULIA_DAEMON_MEMFREE_HIGH"@, numeric::decimal(n as nat).push('m')) ==> is_bytes(c.memfree_high, n * 1048576),
        gives(env, "JULIA_DAEMON_MEMFREE_HIGH"@, numeric::decimal(n as nat).push('G')) ==> is_bytes(c.memfree_high, n * 1073741824),
        gives(env, "JULIA_DAEMON_MEMFREE_HIGH"@, numeric::decimal(n as nat).push('g')) ==> is_bytes(c.memfree_high, n * 1073741824),
{
    law_the_last_variable_counts(env, "JULIA_DAEMON_MEMFREE_HIGH"@);
    lemma_threshold(s, n);
}

proof fn lemma_unit(digits: Seq<char>, n: u64, c: char)
    requires
        digits == numeric::decimal(n as nat),
        config::unit_of(c) > 1,
        c != '%',
    ensures
        config::mem_text(digits.push(c)) == MemText::Bytes(n as nat * config::unit_of(c)),
{
    numeric::law_decimal_round_trip(n as nat, u64::MAX as nat);
    let t = digits.push(c);
    assert(t.last() == c);
    assert(t.drop_last() =~= digits);
}

proof fn lemma_threshold(s: Seq<char>, n: u64)
    ensures
        config::mem_text(s.push('%')) == MemText::Percent(s),
        config::mem_text(numeric::decimal(n as nat)) == MemText::Bytes(n as nat),
        config::mem_text(numeric::decimal(n as nat).push('K')) == MemText::Bytes(n as nat * 1024),
        config::mem_text(numeric::decimal(n as nat).push('k')) == MemText::Bytes(n as nat * 1024),
        config::mem_text(numeric::decimal(n as nat).push('M')) == MemText::Bytes(
            n as nat * 1048576,
        ),
        config::mem_text(numeric::decimal(n as nat).push('m')) == MemText::Bytes(
            n as nat * 1048576,
        ),
        config::mem_text(numeric::decimal(n as nat).push('G')) == MemText::Bytes(
            n as nat * 1073741824,
        ),
        config::mem_text(numeric::decimal(n as nat).push('g')) == MemText::Bytes(
            n as nat * 1073741824,
        ),
{
    let digits = numeric::decimal(n as nat);
    numeric::lemma_decimal(n as nat);
    numeric::law_decimal_round_trip(n as nat, u64::MAX as nat);
    assert(s.push('%').last() == '%');
    assert(s.push('%').drop_last() =~= s);
    assert(numeric::is_digit(digits[digits.len() - 1]));
    lemma_unit(digits, n, 'K');
    lemma_unit(digits, n, 'k');
    lemma_unit(digits, n, 'M');
    lemma_unit(digits, n, 'm');
    lemma_unit(digits, n, 'G');
    lemma_unit(digits, n, 'g');
}

// ---------------------------------------------------------------------
// Addresses and directories
// ---------------------------------------------------------------------

/// An address that begins with `tcp://` is one of the network.
pub proof fn law_scheme_is_taken_off(a: Seq<char>)
    ensures
        protocol::address_of("tcp://"@ + a) == Some((TransportMode::Tcp, a)),
{
    reveal_strlit("tcp://");
    let raw = "tcp://"@ + a;
    assert("tcp://"@.is_prefix_of(raw)) by {
        assert(raw.take(6) =~= "tcp://"@);
    }
    assert(raw.skip(6) =~= a);
}

/// An address without a scheme is a path where it holds a slash or begins with
/// a dot, and else one of the network. Either way it is kept as it is.
pub proof fn law_paths_are_told_from_hosts(a: Seq<char>)
    requires
        forall|i: int|
            0 <= i < a.len() - 2 ==> !(#[trigger] a[i] == ':' && a[i + 1] == '/' && a[i + 2]
                == '/'),
    ensures
        a.contains('/') || (a.len() > 0 && a[0] == '.') ==> protocol::address_of(a) == Some(
            (TransportMode::Unix, a),
        ),
        !a.contains('/') && !(a.len() > 0 && a[0] == '.') ==> protocol::address_of(a) == Some(
            (TransportMode::Tcp, a),
        ),
{
    reveal_strlit("tcp://");
    reveal_strlit("://");
    if "tcp://"@.is_prefix_of(a) {
        let front = a.subrange(0, 6);
        assert(front[3] == ':' && front[4] == '/' && front[5] == '/');
        assert(a[3] == ':');
    }
    if text::occurs(a, "://"@) {
        let i = choose|i: int|
            0 <= i && #[trigger] "://"@.is_prefix_of(a.skip(i)) && i <= a.len();
        let front = a.skip(i).subrange(0, 3);
        assert(front[0] == ':' && front[1] == '/' && front[2] == '/');
        assert(a[i] == ':');
    }
}

/// An address with a scheme other than that of the network is refused.
pub proof fn law_other_schemes_are_refused(a: Seq<char>, i: int)
    requires
        0 <= i < a.len() - 2,
        a[i] == ':' && a[i + 1] == '/' && a[i + 2] == '/',
        !"tcp://"@.is_prefix_of(a),
    ensures
        protocol::address_of(a) is None,
{
    reveal_strlit("://");
    assert("://"@ =~= a.skip(i).subrange(0, 3));
    assert("://"@.is_prefix_of(a.skip(i)));
}

/// An address without a port has port 9345.
pub proof fn law_default_port(a: Seq<char>)
    requires
        !a.contains(':'),
    ensures
        protocol::host_of(a) == a,
        protocol::port_of(a) == Some(9345nat),
{
    text::lemma_rfind(a, ':');
}

/// The conductor keeps its files where it is told to, and else where the
/// system has a place for them.
pub proof fn law_runtime_directory(
    c: Config,
    env: Env,
    platform: Platform,
    uid: u32,
    s: Seq<char>,
)
    requires
        c.says(env, platform, uid),
    ensures
        gives(env, "JULIA_DAEMON_RUNTIME"@, s) ==> c.runtime_dir@ == s,
        silent(env, "JULIA_DAEMON_RUNTIME"@) && platform == Platform::Linux && gives(
            env,
            "XDG_RUNTIME_DIR"@,
            s,
        ) ==> c.runtime_dir@ == s + "/julia-daemon"@,
        silent(env, "JULIA_DAEMON_RUNTIME"@) && platform == Platform::Linux && silent(
            env,
            "XDG_RUNTIME_DIR"@,
        ) ==> c.runtime_dir@ == "/run/user/"@ + numeric::decimal(uid as nat) + "/julia-daemon"@,
        silent(env, "JULIA_DAEMON_RUNTIME"@) && platform == Platform::MacOs && gives(
            env,
            "HOME"@,
            s,
        ) ==> c.runtime_dir@ == s + "/Library/Application Support/julia-daemon"@,
        silent(env, "JULIA_DAEMON_RUNTIME"@) && platform == Platform::MacOs && silent(
            env,
            "HOME"@,
        ) ==> c.runtime_dir@ == "/tmp/julia-daemon"@,
        silent(env, "JULIA_DAEMON_RUNTIME"@) && platform == Platform::Other ==> c.runtime_dir@
            == "/tmp/julia-daemon-"@ + numeric::decimal(uid as nat),
{
    law_the_last_variable_counts(env, "JULIA_DAEMON_RUNTIME"@);
    law_the_last_variable_counts(env, "XDG_RUNTIME_DIR"@);
    law_the_last_variable_counts(env, "HOME"@);
}

/// The conductor listens where it is told to, and else at a socket in its
/// directory.
pub proof fn law_server_address(
    c: Config,
    env: Env,
    platform: Platform,
    uid: u32,
    s: Seq<char>,
)
    requires
        c.says(env, platform, uid),
    ensures
        gives(env, "JULIA_DAEMON_SERVER"@, "tcp://"@ + s) ==> c.transport == TransportMode::Tcp
            && c.socket_path@ == s,
        gives(env, "JULIA_DAEMON_SERVER"@, s) && !s.contains(':') && s.contains('/')
            ==> c.transport == TransportMode::Unix && c.socket_path@ == s,
        gives(env, "JULIA_DAEMON_SERVER"@, s) && !s.contains('/') && !(s.len() > 0 && s[0] == '.')
            ==> c.transport == TransportMode::Tcp && c.socket_path@ == s,
        silent(env, "JULIA_DAEMON_SERVER"@) && !c.runtime_dir@.contains(':') ==> c.transport
            == TransportMode::Unix && c.socket_path@ == c.runtime_dir@ + "/conductor.sock"@,
{
    law_the_last_variable_counts(env, "JULIA_DAEMON_SERVER"@);
    law_scheme_is_taken_off(s);
    if !s.contains(':') || !s.contains('/') {
        assert forall|i: int| 0 <= i < s.len() - 2 implies !(#[trigger] s[i] == ':' && s[i + 1]
            == '/' && s[i + 2] == '/') by {
            assert(s[i] == ':' ==> s.contains(s[i]));
            assert(s[i + 1] == '/' ==> s.contains(s[i + 1]));
        }
        law_paths_are_told_from_hosts(s);
    }
    if silent(env, "JULIA_DAEMON_SERVER"@) && !c.runtime_dir@.contains(':') {
        reveal_strlit("/conductor.sock");
        let a = c.runtime_dir@ + "/conductor.sock"@;
        let n = c.runtime_dir@.len() as int;
        assert forall|i: int| 0 <= i < a.len() - 2 implies !(#[trigger] a[i] == ':' && a[i + 1]
            == '/' && a[i + 2] == '/') by {
            if i < n {
                assert(a[i] == c.runtime_dir@[i]);
                assert(a[i] == ':' ==> c.runtime_dir@.contains(c.runtime_dir@[i]));
            } else {
                assert(a[i] == "/conductor.sock"@[i - n]);
            }
        }
        assert(a[n] == '/');
        assert(a.contains(a[n]));
        law_paths_are_told_from_hosts(a);
    }
}

/// Streams are bound to the address that is given. Without one they are bound
/// to the host of the conductor's own address on the network, to every address
/// where that names none, and to none where there is no network.
pub proof fn law_bind_address(
    c: Config,
    env: Env,
    platform: Platform,
    uid: u32,
    s: Seq<char>,
    port: Seq<char>,
)
    requires
        c.says(env, platform, uid),
        !port.contains(':'),
    ensures
        gives(env, "JULIA_DAEMON_BIND"@, s) ==> c.bind_address@ == s,
        silent(env, "JULIA_DAEMON_BIND"@) && c.transport == TransportMode::Unix
            ==> c.bind_address@ == Seq::<char>::empty(),
        silent(env, "JULIA_DAEMON_BIND"@) && c.transport == TransportMode::Tcp && c.socket_path@
            == s + ":"@ + port ==> c.bind_address@ == s,
        silent(env, "JULIA_DAEMON_BIND"@) && c.transport == TransportMode::Tcp
            && !c.socket_path@.contains(':') ==> c.bind_address@ == "0.0.0.0"@,
{
    law_the_last_variable_counts(env, "JULIA_DAEMON_BIND"@);
    text::lemma_rfind(c.socket_path@, ':');
    let a = s + ":"@ + port;
    reveal_strlit(":");
    let n = s.len() as int;
    assert(a[n] == ':');
    assert forall|j: int| n < j < a.len() implies a[j] != ':' by {
        assert(a[j] == port[j - n - 1]);
        assert(port[j - n - 1] == ':' ==> port.contains(port[j - n - 1]));
    }
    text::lemma_rfind_is(a, ':', n);
    assert(a.take(n) =~= s);
}

/// The ports for streams come in sets of four, as many as the range holds;
/// there are none where there is no network.
pub proof fn law_ports_come_in_fours(
    c: Config,
    env: Env,
    platform: Platform,
    uid: u32,
    low: u16,
    high: u16,
)
    requires
        c.says(env, platform, uid),
    ensures
        c.transport == TransportMode::Unix || silent(env, "JULIA_DAEMON_PORTS"@)
            ==> c.port_range is None,
        c.transport == TransportMode::Tcp && gives(
            env,
            "JULIA_DAEMON_PORTS"@,
            numeric::decimal(low as nat) + "-"@ + numeric::decimal(high as nat),
        ) ==> match c.port_range {
            Some((base, count)) => {
                &&& base == low
                &&& count > 0
                &&& low + 4 * count - 1 <= high < low + 4 * count + 3
            },
            None => high < low + 3,
        },
{
    law_the_last_variable_counts(env, "JULIA_DAEMON_PORTS"@);
    reveal_strlit("-");
    let a = numeric::decimal(low as nat);
    let b = numeric::decimal(high as nat);
    numeric::lemma_decimal(low as nat);
    numeric::lemma_decimal(high as nat);
    numeric::law_decimal_round_trip(low as nat, 0xffff);
    numeric::law_decimal_round_trip(high as nat, 0xffff);
    let t = a + "-"@ + b;
    let n = a.len() as int;
    assert(t[n] == '-');
    assert forall|j: int| 0 <= j < n implies t[j] != '-' by {
        assert(t[j] == a[j]);
    }
    text::lemma_find_is(t, '-', n);
    assert(t.take(n) =~= a);
    assert(t.skip(n + 1) =~= b);
}

// ---------------------------------------------------------------------
// What loads and what does not
// ---------------------------------------------------------------------

/// Nothing loads without a project for the workers.
pub proof fn law_a_project_is_needed(env: Env, platform: Platform, uid: u32, v: FloatVerdicts)
    requires
        silent(env, "JULIA_DAEMON_WORKER_PROJECT"@),
    ensures
        config::outcome(env, platform, uid, v) == Outcome::Fails("MissingWorkerProject"@),
{
    law_the_last_variable_counts(env, "JULIA_DAEMON_WORKER_PROJECT"@);
}

/// No fraction that the caller could not read, and no low threshold above the
/// high one, is let through.
pub proof fn law_fractions_have_to_be_read(
    env: Env,
    platform: Platform,
    uid: u32,
    v: FloatVerdicts,
    low: Seq<char>,
    high: Seq<char>,
)
    requires
        config::outcome(env, platform, uid, v) is Loads,
    ensures
        !silent(env, "JULIA_DAEMON_PSI_THRESHOLD"@) ==> v.psi,
        gives(env, "JULIA_DAEMON_MEMFREE_LOW"@, low.push('%')) ==> v.low,
        gives(env, "JULIA_DAEMON_MEMFREE_HIGH"@, high.push('%')) ==> v.high,
        gives(env, "JULIA_DAEMON_MEMFREE_LOW"@, low.push('%')) && gives(
            env,
            "JULIA_DAEMON_MEMFREE_HIGH"@,
            high.push('%'),
        ) ==> v.low_below_high,
{
    law_the_last_variable_counts(env, "JULIA_DAEMON_PSI_THRESHOLD"@);
    law_the_last_variable_counts(env, "JULIA_DAEMON_MEMFREE_LOW"@);
    law_the_last_variable_counts(env, "JULIA_DAEMON_MEMFREE_HIGH"@);
    lemma_threshold(low, 0);
    lemma_threshold(high, 0);
}

/// The protected time and the idle deadline decide whether all else loads: the
/// first has to be above nought and below the second, and both have to be
/// numbers.
pub proof fn law_times_have_to_fit(
    env: Env,
    platform: Platform,
    uid: u32,
    v: FloatVerdicts,
    project: Seq<char>,
    server: Seq<char>,
    min: u64,
    max: u64,
    s: Seq<char>,
)
    requires
        gives(env, "JULIA_DAEMON_WORKER_PROJECT"@, project),
        gives(env, "JULIA_DAEMON_SERVER"@, server),
        !server.contains(':'),
        silent(env, "JULIA_DAEMON_PORTS"@),
        silent(env, "JULIA_DAEMON_PSI_THRESHOLD"@) || v.psi,
        silent(env, "JULIA_DAEMON_MEMFREE_LOW"@),
        silent(env, "JULIA_DAEMON_MEMFREE_HIGH"@),
        v.low_below_high,
    ensures
        gives(env, "JULIA_DAEMON_MIN_TTL"@, numeric::decimal(min as nat)) && gives(
            env,
            "JULIA_DAEMON_MAX_TTL"@,
            numeric::decimal(max as nat),
        ) ==> (config::outcome(env, platform, uid, v) is Loads <==> 0 < min < max),
        gives(env, "JULIA_DAEMON_MIN_TTL"@, numeric::decimal(min as nat)) && gives(
            env,
            "JULIA_DAEMON_MAX_TTL"@,
            numeric::decimal(max as nat),
        ) && !(0 < min < max) ==> config::outcome(env, platform, uid, v) == Outcome::Fails(
            "JULIA_DAEMON_MIN_TTL ("@ + numeric::decimal(min as nat)
                + ") must be > 0 and < MAX_TTL ("@ + numeric::decimal(max as nat) + ")."@,
        ),
        gives(env, "JULIA_DAEMON_MIN_TTL"@, s) && is_no_number(s) ==> config::outcome(
            env,
            platform,
            uid,
            v,
        ) == Outcome::Fails("invalid integer config value '"@ + s + "'."@),
        gives(env, "JULIA_DAEMON_MIN_TTL"@, numeric::decimal(min as nat)) && gives(
            env,
            "JULIA_DAEMON_MAX_TTL"@,
            s,
        ) && is_no_number(s) ==> config::outcome(env, platform, uid, v) == Outcome::Fails(
            "invalid integer config value '"@ + s + "'."@,
        ),
        silent(env, "JULIA_DAEMON_MIN_TTL"@) && silent(env, "JULIA_DAEMON_MAX_TTL"@) && silent(
            env,
            "JULIA_DAEMON_WORKER_TTL"@,
        ) ==> config::outcome(env, platform, uid, v) is Loads,
{
    law_the_last_variable_counts(env, "JULIA_DAEMON_WORKER_PROJECT"@);
    law_the_last_variable_counts(env, "JULIA_DAEMON_SERVER"@);
    law_the_last_variable_counts(env, "JULIA_DAEMON_PORTS"@);
    law_the_last_variable_counts(env, "JULIA_DAEMON_PSI_THRESHOLD"@);
    law_the_last_variable_counts(env, "JULIA_DAEMON_MEMFREE_LOW"@);
    law_the_last_variable_counts(env, "JULIA_DAEMON_MEMFREE_HIGH"@);
    law_the_last_variable_counts(env, "JULIA_DAEMON_MIN_TTL"@);
    law_the_last_variable_counts(env, "JULIA_DAEMON_MAX_TTL"@);
    law_the_last_variable_counts(env, "JULIA_DAEMON_WORKER_TTL"@);
    numeric::law_decimal_round_trip(min as nat, u64::MAX as nat);
    numeric::law_decimal_round_trip(max as nat, u64::MAX as nat);
    if is_no_number(s) {
        lemma_no_number(s, u64::MAX as nat);
    }
    assert forall|i: int| 0 <= i < server.len() - 2 implies !(#[trigger] server[i] == ':'
        && server[i + 1] == '/' && server[i + 2] == '/') by {
        assert(server[i] == ':' ==> server.contains(server[i]));
    }
    law_paths_are_told_from_hosts(server);
}

/// Where both thresholds are numbers of bytes, the low one has to be below the
/// high one; else nothing loads.
pub proof fn law_thresholds_have_to_fit(
    env: Env,
    platform: Platform,
    uid: u32,
    v: FloatVerdicts,
    low: u64,
    high: u64,
)
    requires
        gives(env, "JULIA_DAEMON_MEMFREE_LOW"@, numeric::decimal(low as nat)),
        gives(env, "JULIA_DAEMON_MEMFREE_HIGH"@, numeric::decimal(high as nat)),
        low >= high,
    ensures
        !(config::outcome(env, platform, uid, v) is Loads),
{
    law_the_last_variable_counts(env, "JULIA_DAEMON_MEMFREE_LOW"@);
    law_the_last_variable_counts(env, "JULIA_DAEMON_MEMFREE_HIGH"@);
    lemma_threshold(Seq::empty(), low);
    lemma_threshold(Seq::empty(), high);
}

/// A threshold that is neither a part nor a number keeps all from loading.
pub proof fn law_thresholds_have_to_be_numbers(
    env: Env,
    platform: Platform,
    uid: u32,
    v: FloatVerdicts,
    s: Seq<char>,
)
    requires
        s.len() > 1,
        s.last() == 'B',
        gives(env, "JULIA_DAEMON_MEMFREE_LOW"@, s) || gives(env, "JULIA_DAEMON_MEMFREE_HIGH"@, s),
    ensures
        !(config::outcome(env, platform, uid, v) is Loads),
{
    law_the_last_variable_counts(env, "JULIA_DAEMON_MEMFREE_LOW"@);
    law_the_last_variable_counts(env, "JULIA_DAEMON_MEMFREE_HIGH"@);
    assert(!('0' <= s[s.len() - 1] <= '9'));
    lemma_no_number(s, u64::MAX as nat);
}

/// An address with a scheme that is not known keeps all from loading, and is
/// told.
pub proof fn law_the_server_has_to_be_reachable(
    env: Env,
    platform: Platform,
    uid: u32,
    v: FloatVerdicts,
    project: Seq<char>,
    a: Seq<char>,
    i: int,
)
    requires
        gives(env, "JULIA_DAEMON_WORKER_PROJECT"@, project),
        gives(env, "JULIA_DAEMON_SERVER"@, a),
        0 <= i < a.len() - 2,
        a[i] == ':' && a[i + 1] == '/' && a[i + 2] == '/',
        !"tcp://"@.is_prefix_of(a),
    ensures
        config::outcome(env, platform, uid, v) == Outcome::Fails(
            "Error in JULIA_DAEMON_SERVER: "@ + ("Unsupported scheme in '"@ + a + "'"@),
        ),
{
    law_the_last_variable_counts(env, "JULIA_DAEMON_WORKER_PROJECT"@);
    law_the_last_variable_counts(env, "JULIA_DAEMON_SERVER"@);
    law_other_schemes_are_refused(a, i);
}

} // verus!
