//! How the conductor is set up, from its environment.

use crate::env_cache;
use crate::env_cache::{find_last, EnvVar};
use crate::numeric;
use crate::numeric::{decimal_string, parse_decimal};
use crate::protocol;
use crate::protocol::{
    default_runtime_dir, is_all_ports, parse_address, parse_port_range, Platform, TransportMode,
};
use crate::text;
use crate::text::{join2, join3, owned, rfind_char, same, take};
use vstd::prelude::*;

verus! {

/// A threshold for free memory: a part of all memory, written as a number of
/// hundredths, or a number of bytes.
#[derive(Debug)]
pub enum MemThreshold {
    Fraction(String),
    Bytes(u64),
}

#[derive(Debug)]
pub struct Config {
    pub socket_path: String,
    pub runtime_dir: String,
    pub transport: TransportMode,
    pub bind_address: String,
    pub worker_executable: String,
    pub worker_args: String,
    pub worker_project: String,
    pub worker_maxclients: u32,
    /// Idle workers younger than this are not culled under memory pressure.
    pub min_ttl: u64,
    /// Workers idle longer than this are always culled.
    pub max_ttl: u64,
    pub label_ttl: u64,
    pub ping_interval: u64,
    pub ping_timeout: u64,
    pub memory_pressure: bool,
    /// The stall percentage that counts as pressure, as it is written.
    pub psi_threshold: String,
    pub memfree_low: MemThreshold,
    pub memfree_high: MemThreshold,
    pub port_range: Option<(u16, u16)>,
    pub host_home: String,
    pub sandbox_remote_clients: bool,
    pub sandbox_empty_environment: bool,
    pub sandbox_max_memory: Option<String>,
    pub sandbox_max_cpu: Option<u32>,
    pub sandbox_session_bypass: bool,
}

/// What the caller has found out about the settings that are numbers with a
/// fraction: which of them can be read, and whether the low threshold is below
/// the high one where both are fractions.
#[derive(Clone, Copy, Debug)]
pub struct FloatVerdicts {
    pub psi: bool,
    pub low: bool,
    pub high: bool,
    pub low_below_high: bool,
}

/// The settings that are numbers with a fraction, as they are written;
/// `None` for a threshold that is a number of bytes.
pub struct FloatTexts {
    pub psi: String,
    pub low: Option<String>,
    pub high: Option<String>,
}

// ---------------------------------------------------------------------
// Model
// ---------------------------------------------------------------------

pub type Env = Seq<env_cache::VarText>;

/// A setting, where it is given.
pub open spec fn setting(env: Env, key: Seq<char>) -> Option<Seq<char>> {
    env_cache::last_var(env, key)
}

pub open spec fn text_or(s: Option<Seq<char>>, default: Seq<char>) -> Seq<char> {
    match s {
        Some(t) => t,
        None => default,
    }
}

/// A number, or the default where none can be read.
pub open spec fn number_or(s: Option<Seq<char>>, max: nat, default: nat) -> nat {
    match s {
        Some(t) => match numeric::parse_unsigned(t, max) {
            Some(n) => n,
            None => default,
        },
        None => default,
    }
}

/// A setting that is there and is no number.
pub open spec fn malformed(s: Option<Seq<char>>) -> bool {
    s matches Some(t) && numeric::parse_unsigned(t, u64::MAX as nat) is None
}

/// A threshold as it is understood.
pub enum MemText {
    Percent(Seq<char>),
    Bytes(nat),
    Malformed,
}

/// What the last letter of a number of bytes multiplies it by.
pub open spec fn unit_of(c: char) -> nat {
    if c == 'G' || c == 'g' {
        0x4000_0000
    } else if c == 'M' || c == 'm' {
        0x10_0000
    } else if c == 'K' || c == 'k' {
        0x400
    } else {
        1
    }
}

/// `<n>%`, or a number of bytes with a unit.
pub open spec fn mem_text(s: Seq<char>) -> MemText {
    if s.len() > 0 && s.last() == '%' {
        MemText::Percent(s.drop_last())
    } else {
        let unit = if s.len() > 0 {
            unit_of(s.last())
        } else {
            1
        };
        let digits = if unit > 1 {
            s.drop_last()
        } else {
            s
        };
        match numeric::parse_unsigned(digits, u64::MAX as nat) {
            Some(n) => MemText::Bytes(n * unit),
            None => MemText::Malformed,
        }
    }
}

/// The threshold that a setting gives.
pub open spec fn mem_setting(s: Option<Seq<char>>, default: Seq<char>) -> MemText {
    match s {
        Some(t) => mem_text(t),
        None => MemText::Percent(default),
    }
}

pub open spec fn mem_view(m: MemThreshold) -> MemText {
    match m {
        MemThreshold::Fraction(s) => MemText::Percent(s@),
        MemThreshold::Bytes(n) => MemText::Bytes(n as nat),
    }
}

/// A number of bytes that sixty-four bits do not hold.
pub open spec fn too_large(m: MemText) -> bool {
    m matches MemText::Bytes(n) && n > u64::MAX
}

/// The threshold cannot be used: it is no number, or a fraction that the
/// caller could not read.
pub open spec fn mem_bad(s: Option<Seq<char>>, default: Seq<char>, readable: bool) -> bool {
    match mem_setting(s, default) {
        MemText::Percent(p) => s is Some && !readable,
        MemText::Bytes(n) => false,
        MemText::Malformed => true,
    }
}

/// The low threshold is below the high one; thresholds of different kinds are
/// not compared.
pub open spec fn below_of(low: MemText, high: MemText, fractions: bool) -> bool {
    match (low, high) {
        (MemText::Percent(a), MemText::Percent(b)) => fractions,
        (MemText::Bytes(a), MemText::Bytes(b)) => a < b,
        _ => true,
    }
}

pub open spec fn runtime_dir_of(env: Env, platform: Platform, uid: u32) -> Seq<char> {
    match setting(env, "JULIA_DAEMON_RUNTIME"@) {
        Some(d) => d,
        None => protocol::runtime_dir_text(
            platform,
            setting(env, "XDG_RUNTIME_DIR"@),
            setting(env, "HOME"@),
            uid,
        ),
    }
}

/// The address of the conductor as it is written.
pub open spec fn server_text(env: Env, platform: Platform, uid: u32) -> Seq<char> {
    match setting(env, "JULIA_DAEMON_SERVER"@) {
        Some(a) => a,
        None => runtime_dir_of(env, platform, uid) + "/conductor.sock"@,
    }
}

/// The address that streams are bound to.
pub open spec fn bind_of(env: Env, transport: TransportMode, addr: Seq<char>) -> Seq<char> {
    match setting(env, "JULIA_DAEMON_BIND"@) {
        Some(b) => b,
        None => if transport == TransportMode::Tcp {
            if text::rfind(addr, ':') >= 0 {
                protocol::host_of(addr)
            } else {
                "0.0.0.0"@
            }
        } else {
            Seq::empty()
        },
    }
}

/// The ports for streams.
pub open spec fn ports_of(env: Env, transport: TransportMode) -> Option<(nat, nat)> {
    if transport == TransportMode::Tcp {
        match setting(env, "JULIA_DAEMON_PORTS"@) {
            Some(s) => protocol::port_range(s),
            None => None,
        }
    } else {
        None
    }
}

pub open spec fn min_ttl_of(env: Env) -> nat {
    number_or(setting(env, "JULIA_DAEMON_MIN_TTL"@), u64::MAX as nat, 120)
}

/// The idle deadline; where it is not given, an older setting for it counts.
pub open spec fn max_ttl_of(env: Env) -> nat {
    number_or(
        setting(env, "JULIA_DAEMON_MAX_TTL"@),
        u64::MAX as nat,
        number_or(setting(env, "JULIA_DAEMON_WORKER_TTL"@), u64::MAX as nat, 7200),
    )
}

pub open spec fn low_of(env: Env) -> MemText {
    mem_setting(setting(env, "JULIA_DAEMON_MEMFREE_LOW"@), "10"@)
}

pub open spec fn high_of(env: Env) -> MemText {
    mem_setting(setting(env, "JULIA_DAEMON_MEMFREE_HIGH"@), "15"@)
}

pub open spec fn bad_number(s: Seq<char>) -> Seq<char> {
    "invalid integer config value '"@ + s + "'."@
}

pub open spec fn bad_float(s: Seq<char>) -> Seq<char> {
    "invalid float config value '"@ + s + "'."@
}

pub open spec fn bad_threshold(s: Seq<char>) -> Seq<char> {
    "invalid memory threshold '"@ + s + "'."@
}

pub open spec fn bad_ttl(min: nat, max: nat) -> Seq<char> {
    "JULIA_DAEMON_MIN_TTL ("@ + numeric::decimal(min) + ") must be > 0 and < MAX_TTL ("@
        + numeric::decimal(max) + ")."@
}

/// What becomes of loading.
pub enum Outcome {
    Loads,
    Fails(Seq<char>),
    /// A number does not fit where it has to.
    Overflows,
}

/// What becomes of loading once the address is known.
pub open spec fn outcome_at(env: Env, transport: TransportMode, v: FloatVerdicts) -> Outcome {
    let ports = setting(env, "JULIA_DAEMON_PORTS"@);
    let min_ttl = setting(env, "JULIA_DAEMON_MIN_TTL"@);
    let max_ttl = setting(env, "JULIA_DAEMON_MAX_TTL"@);
    let psi = setting(env, "JULIA_DAEMON_PSI_THRESHOLD"@);
    let low = setting(env, "JULIA_DAEMON_MEMFREE_LOW"@);
    let high = setting(env, "JULIA_DAEMON_MEMFREE_HIGH"@);
    if transport == TransportMode::Tcp && (ports matches Some(s) && protocol::all_ports(s)) {
        Outcome::Overflows
    } else if malformed(min_ttl) {
        Outcome::Fails(bad_number(min_ttl->0))
    } else if malformed(max_ttl) {
        Outcome::Fails(bad_number(max_ttl->0))
    } else if psi is Some && !v.psi {
        Outcome::Fails(bad_float(psi->0))
    } else if mem_bad(low, "10"@, v.low) {
        Outcome::Fails(bad_threshold(low->0))
    } else if too_large(low_of(env)) {
        Outcome::Overflows
    } else if mem_bad(high, "15"@, v.high) {
        Outcome::Fails(bad_threshold(high->0))
    } else if too_large(high_of(env)) {
        Outcome::Overflows
    } else if min_ttl_of(env) == 0 || min_ttl_of(env) >= max_ttl_of(env) {
        Outcome::Fails(bad_ttl(min_ttl_of(env), max_ttl_of(env)))
    } else if !below_of(low_of(env), high_of(env), v.low_below_high) {
        Outcome::Fails("JULIA_DAEMON_MEMFREE_LOW must be < MEMFREE_HIGH."@)
    } else {
        Outcome::Loads
    }
}

/// What becomes of loading.
pub open spec fn outcome(env: Env, platform: Platform, uid: u32, v: FloatVerdicts) -> Outcome {
    if setting(env, "JULIA_DAEMON_WORKER_PROJECT"@) is None {
        Outcome::Fails("MissingWorkerProject"@)
    } else {
        match protocol::address_of(server_text(env, platform, uid)) {
            None => Outcome::Fails(
                "Error in JULIA_DAEMON_SERVER: "@ + ("Unsupported scheme in '"@ + server_text(
                    env,
                    platform,
                    uid,
                ) + "'"@),
            ),
            Some((transport, addr)) => outcome_at(env, transport, v),
        }
    }
}

impl Config {
    /// This is what the environment says.
    pub open spec fn says(&self, env: Env, platform: Platform, uid: u32) -> bool {
        &&& protocol::address_of(server_text(env, platform, uid)) == Some(
            (self.transport, self.socket_path@),
        )
        &&& self.runtime_dir@ == runtime_dir_of(env, platform, uid)
        &&& self.bind_address@ == bind_of(env, self.transport, self.socket_path@)
        &&& self.worker_executable@ == text_or(
            setting(env, "JULIA_DAEMON_WORKER_EXECUTABLE"@),
            "julia"@,
        )
        &&& self.worker_args@ == text_or(
            setting(env, "JULIA_DAEMON_WORKER_ARGS"@),
            "--startup-file=no"@,
        )
        &&& setting(env, "JULIA_DAEMON_WORKER_PROJECT"@) == Some(self.worker_project@)
        &&& self.worker_maxclients == number_or(
            setting(env, "JULIA_DAEMON_WORKER_MAXCLIENTS"@),
            u32::MAX as nat,
            1,
        )
        &&& self.min_ttl == min_ttl_of(env)
        &&& self.max_ttl == max_ttl_of(env)
        &&& self.label_ttl == number_or(
            setting(env, "JULIA_DAEMON_LABEL_TTL"@),
            u64::MAX as nat,
            90,
        )
        &&& self.ping_interval == number_or(
            setting(env, "JULIA_DAEMON_PING_INTERVAL"@),
            u64::MAX as nat,
            30,
        )
        &&& self.ping_timeout == number_or(
            setting(env, "JULIA_DAEMON_PING_TIMEOUT"@),
            u64::MAX as nat,
            5,
        )
        &&& self.memory_pressure == (setting(env, "JULIA_DAEMON_MEMORY_PRESSURE"@) != Some("0"@))
        &&& self.psi_threshold@ == text_or(setting(env, "JULIA_DAEMON_PSI_THRESHOLD"@), "10"@)
        &&& mem_view(self.memfree_low) == low_of(env)
        &&& mem_view(self.memfree_high) == high_of(env)
        &&& (match self.port_range {
            Some((base, count)) => Some((base as nat, count as nat)),
            None => None,
        }) == ports_of(env, self.transport)
        &&& self.host_home@ == text_or(setting(env, "HOME"@), Seq::empty())
        &&& self.sandbox_remote_clients == (setting(env, "JULIA_DAEMON_SANDBOX_REMOTE_CLIENTS"@)
            != Some("0"@))
        &&& self.sandbox_empty_environment == (setting(
            env,
            "JULIA_DAEMON_SANDBOX_EMPTY_ENVIRONMENT"@,
        ) != Some("0"@))
        &&& text::opt_view(self.sandbox_max_memory) == setting(
            env,
            "JULIA_DAEMON_SANDBOX_MAX_MEMORY"@,
        )
        &&& (match self.sandbox_max_cpu {
            Some(n) => Some(n as nat),
            None => None,
        }) == match setting(env, "JULIA_DAEMON_SANDBOX_MAX_CPU"@) {
            Some(s) => numeric::parse_unsigned(s, u32::MAX as nat),
            None => None,
        }
        &&& self.sandbox_session_bypass == (setting(env, "JULIA_DAEMON_SANDBOX_SESSION_BYPASS"@)
            == Some("1"@))
    }

    /// What every configuration that was loaded has.
    pub open spec fn wf(&self) -> bool {
        &&& 0 < self.min_ttl < self.max_ttl
        &&& self.port_range matches Some((base, count)) ==> base + 4 * count <= 0x1_0000
    }
}

// ---------------------------------------------------------------------
// Laws
// ---------------------------------------------------------------------

/// A configuration that loads has a protected time above zero and below the
/// idle deadline, and ports for every set of its range.
pub proof fn law_loaded_config_is_sound(
    c: Config,
    env: Env,
    platform: Platform,
    uid: u32,
    v: FloatVerdicts,
)
    requires
        outcome(env, platform, uid, v) is Loads,
        c.says(env, platform, uid),
    ensures
        c.wf(),
        below_of(mem_view(c.memfree_low), mem_view(c.memfree_high), v.low_below_high),
{
}

// ---------------------------------------------------------------------
// Operations
// ---------------------------------------------------------------------

impl MemThreshold {
    /// Whether `avail` bytes are fewer than this threshold asks for.
    /// `below_fraction` says so where it is a fraction.
    pub fn satisfied(&self, avail: u64, below_fraction: bool) -> (r: bool)
        ensures
            r == match mem_view(*self) {
                MemText::Bytes(b) => avail < b,
                _ => below_fraction,
            },
    {
        match self {
            MemThreshold::Fraction(s) => below_fraction,
            MemThreshold::Bytes(b) => avail < *b,
        }
    }

    fn below(&self, other: &MemThreshold, fractions: bool) -> (r: bool)
        ensures
            r == below_of(mem_view(*self), mem_view(*other), fractions),
    {
        match (self, other) {
            (MemThreshold::Fraction(a), MemThreshold::Fraction(b)) => fractions,
            (MemThreshold::Bytes(a), MemThreshold::Bytes(b)) => *a < *b,
            _ => true,
        }
    }
}

fn or_text(s: Option<&str>, default: &str) -> (r: String)
    ensures
        r@ == text_or(text::opt_str(s), default@),
{
    match s {
        Some(t) => owned(t),
        None => owned(default),
    }
}

fn parse_uint(s: Option<&str>, max: u64, default: u64) -> (r: u64)
    requires
        default <= max,
    ensures
        r == number_or(text::opt_str(s), max as nat, default as nat),
        r <= max,
{
    match s {
        Some(t) => match parse_decimal(t, max) {
            Some(n) => n,
            None => default,
        },
        None => default,
    }
}

fn parse_uint_strict(s: Option<&str>, default: u64) -> (r: Result<u64, String>)
    ensures
        match r {
            Ok(n) => !malformed(text::opt_str(s)) && n == number_or(
                text::opt_str(s),
                u64::MAX as nat,
                default as nat,
            ),
            Err(e) => malformed(text::opt_str(s)) && e@ == bad_number(text::opt_str(s)->0),
        },
{
    match s {
        None => Ok(default),
        Some(t) => match parse_decimal(t, u64::MAX) {
            Some(n) => Ok(n),
            None => Err(join3("invalid integer config value '", t, "'.")),
        },
    }
}

/// A threshold that was read, that cannot be read, or that is too large.
enum MemRead {
    Read(MemThreshold),
    Bad(String),
    TooLarge,
}

fn parse_mem_threshold(s: Option<&str>, default: &str, readable: bool) -> (r: MemRead)
    ensures
        match r {
            MemRead::Read(m) => {
                &&& !mem_bad(text::opt_str(s), default@, readable)
                &&& !too_large(mem_setting(text::opt_str(s), default@))
                &&& mem_view(m) == mem_setting(text::opt_str(s), default@)
            },
            MemRead::Bad(e) => {
                &&& mem_bad(text::opt_str(s), default@, readable)
                &&& e@ == bad_threshold(text::opt_str(s)->0)
            },
            MemRead::TooLarge => {
                &&& !mem_bad(text::opt_str(s), default@, readable)
                &&& too_large(mem_setting(text::opt_str(s), default@))
            },
        },
{
    let t = match s {
        None => {
            return MemRead::Read(MemThreshold::Fraction(owned(default)));
        },
        Some(t) => t,
    };
    let n: usize = t.unicode_len();
    let mut unit: u64 = 1;
    if n > 0 {
        let last: char = t.get_char(n - 1);
        assert(last == t@.last());
        if last == '%' {
            let pct = take(t, n - 1);
            assert(pct@ =~= t@.drop_last());
            if !readable {
                return MemRead::Bad(join3("invalid memory threshold '", t, "'."));
            }
            return MemRead::Read(MemThreshold::Fraction(owned(pct)));
        }
        if last == 'G' || last == 'g' {
            unit = 0x4000_0000;
        } else if last == 'M' || last == 'm' {
            unit = 0x10_0000;
        } else if last == 'K' || last == 'k' {
            unit = 0x400;
        }
    }
    let digits = if unit > 1 {
        take(t, n - 1)
    } else {
        t
    };
    assert(digits@ =~= if unit > 1 {
        t@.drop_last()
    } else {
        t@
    });
    match parse_decimal(digits, u64::MAX) {
        None => MemRead::Bad(join3("invalid memory threshold '", t, "'.")),
        Some(k) => match k.checked_mul(unit) {
            Some(bytes) => MemRead::Read(MemThreshold::Bytes(bytes)),
            None => MemRead::TooLarge,
        },
    }
}

fn is_text(s: Option<&str>, t: &str) -> (r: bool)
    ensures
        r == (text::opt_str(s) == Some(t@)),
{
    match s {
        Some(x) => same(x, t),
        None => false,
    }
}

fn percent_of(s: Option<&str>, default: &str) -> (r: Option<String>)
    ensures
        text::opt_view(r) == match mem_setting(text::opt_str(s), default@) {
            MemText::Percent(p) => Some(p),
            _ => None,
        },
{
    match s {
        None => Some(owned(default)),
        Some(t) => {
            let n: usize = t.unicode_len();
            if n > 0 && t.get_char(n - 1) == '%' {
                let pct = take(t, n - 1);
                assert(pct@ =~= t@.drop_last());
                Some(owned(pct))
            } else {
                None
            }
        },
    }
}

/// The settings that are numbers with a fraction, for the caller to read.
pub fn float_texts(env: &[EnvVar]) -> (r: FloatTexts)
    ensures
        ({
            let e = env_cache::var_views(env@);
            &&& r.psi@ == text_or(setting(e, "JULIA_DAEMON_PSI_THRESHOLD"@), "10"@)
            &&& text::opt_view(r.low) == match low_of(e) {
                MemText::Percent(p) => Some(p),
                _ => None,
            }
            &&& text::opt_view(r.high) == match high_of(e) {
                MemText::Percent(p) => Some(p),
                _ => None,
            }
        }),
{
    FloatTexts {
        psi: or_text(find_last(env, "JULIA_DAEMON_PSI_THRESHOLD"), "10"),
        low: percent_of(find_last(env, "JULIA_DAEMON_MEMFREE_LOW"), "10"),
        high: percent_of(find_last(env, "JULIA_DAEMON_MEMFREE_HIGH"), "15"),
    }
}

/// What becomes of loading, with the configuration or the message.
pub enum Loaded {
    Loads(Config),
    Fails(String),
    Overflows,
}

/// Reads the configuration from the environment `env`.
pub fn try_load(env: &[EnvVar], platform: Platform, uid: u32, verdicts: FloatVerdicts) -> (r:
    Loaded)
    ensures
        match r {
            Loaded::Loads(c) => {
                &&& outcome(env_cache::var_views(env@), platform, uid, verdicts) is Loads
                &&& c.says(env_cache::var_views(env@), platform, uid)
                &&& c.wf()
            },
            Loaded::Fails(e) => outcome(env_cache::var_views(env@), platform, uid, verdicts)
                == Outcome::Fails(e@),
            Loaded::Overflows => outcome(
                env_cache::var_views(env@),
                platform,
                uid,
                verdicts,
            ) is Overflows,
        },
{
    let ghost e = env_cache::var_views(env@);
    let worker_project = match find_last(env, "JULIA_DAEMON_WORKER_PROJECT") {
        Some(p) => owned(p),
        None => {
            return Loaded::Fails(owned("MissingWorkerProject"));
        },
    };
    let runtime_dir = match find_last(env, "JULIA_DAEMON_RUNTIME") {
        Some(d) => owned(d),
        None => default_runtime_dir(
            platform,
            find_last(env, "XDG_RUNTIME_DIR"),
            find_last(env, "HOME"),
            uid,
        ),
    };
    let raw_addr = match find_last(env, "JULIA_DAEMON_SERVER") {
        Some(a) => owned(a),
        None => join2(runtime_dir.as_str(), "/conductor.sock"),
    };
    let parsed = match parse_address(raw_addr.as_str()) {
        Ok(p) => p,
        Err(msg) => {
            return Loaded::Fails(join2("Error in JULIA_DAEMON_SERVER: ", msg.as_str()));
        },
    };
    let transport = parsed.mode;
    let socket_path = parsed.addr;
    let bind_address = match find_last(env, "JULIA_DAEMON_BIND") {
        Some(b) => owned(b),
        None => if transport == TransportMode::Tcp {
            match rfind_char(socket_path.as_str(), ':') {
                Some(pos) => owned(take(socket_path.as_str(), pos)),
                None => owned("0.0.0.0"),
            }
        } else {
            String::new()
        },
    };
    let mut port_range: Option<(u16, u16)> = None;
    if transport == TransportMode::Tcp {
        if let Some(s) = find_last(env, "JULIA_DAEMON_PORTS") {
            if is_all_ports(s) {
                return Loaded::Overflows;
            }
            port_range = parse_port_range(s);
        }
    }
    let min_ttl: u64 = match parse_uint_strict(find_last(env, "JULIA_DAEMON_MIN_TTL"), 120) {
        Ok(n) => n,
        Err(msg) => {
            return Loaded::Fails(msg);
        },
    };
    let worker_ttl: u64 = parse_uint(find_last(env, "JULIA_DAEMON_WORKER_TTL"), u64::MAX, 7200);
    let max_ttl: u64 = match parse_uint_strict(
        find_last(env, "JULIA_DAEMON_MAX_TTL"),
        worker_ttl,
    ) {
        Ok(n) => n,
        Err(msg) => {
            return Loaded::Fails(msg);
        },
    };
    if let Some(s) = find_last(env, "JULIA_DAEMON_PSI_THRESHOLD") {
        if !verdicts.psi {
            return Loaded::Fails(join3("invalid float config value '", s, "'."));
        }
    }
    let memfree_low = match parse_mem_threshold(
        find_last(env, "JULIA_DAEMON_MEMFREE_LOW"),
        "10",
        verdicts.low,
    ) {
        MemRead::Read(m) => m,
        MemRead::Bad(msg) => {
            return Loaded::Fails(msg);
        },
        MemRead::TooLarge => {
            return Loaded::Overflows;
        },
    };
    let memfree_high = match parse_mem_threshold(
        find_last(env, "JULIA_DAEMON_MEMFREE_HIGH"),
        "15",
        verdicts.high,
    ) {
        MemRead::Read(m) => m,
        MemRead::Bad(msg) => {
            return Loaded::Fails(msg);
        },
        MemRead::TooLarge => {
            return Loaded::Overflows;
        },
    };
    if min_ttl == 0 || min_ttl >= max_ttl {
        let low = decimal_string(min_ttl);
        let high = decimal_string(max_ttl);
        let mut msg = join3(
            "JULIA_DAEMON_MIN_TTL (",
            low.as_str(),
            ") must be > 0 and < MAX_TTL (",
        );
        msg.append(high.as_str());
        msg.append(").");
        return Loaded::Fails(msg);
    }
    if !memfree_low.below(&memfree_high, verdicts.low_below_high) {
        return Loaded::Fails(owned("JULIA_DAEMON_MEMFREE_LOW must be < MEMFREE_HIGH."));
    }
    let sandbox_max_memory = match find_last(env, "JULIA_DAEMON_SANDBOX_MAX_MEMORY") {
        Some(s) => Some(owned(s)),
        None => None,
    };
    let sandbox_max_cpu: Option<u32> = match find_last(env, "JULIA_DAEMON_SANDBOX_MAX_CPU") {
        Some(s) => match parse_decimal(s, u32::MAX as u64) {
            Some(n) => Some(n as u32),
            None => None,
        },
        None => None,
    };
    let maxclients: u64 = parse_uint(
        find_last(env, "JULIA_DAEMON_WORKER_MAXCLIENTS"),
        u32::MAX as u64,
        1,
    );
    proof {
        reveal_strlit("");
        assert(""@ =~= Seq::empty());
    }
    Loaded::Loads(
        Config {
            socket_path,
            runtime_dir,
            transport,
            bind_address,
            worker_executable: or_text(
                find_last(env, "JULIA_DAEMON_WORKER_EXECUTABLE"),
                "julia",
            ),
            worker_args: or_text(find_last(env, "JULIA_DAEMON_WORKER_ARGS"), "--startup-file=no"),
            worker_project,
            worker_maxclients: maxclients as u32,
            min_ttl,
            max_ttl,
            label_ttl: parse_uint(find_last(env, "JULIA_DAEMON_LABEL_TTL"), u64::MAX, 90),
            ping_interval: parse_uint(find_last(env, "JULIA_DAEMON_PING_INTERVAL"), u64::MAX, 30),
            ping_timeout: parse_uint(find_last(env, "JULIA_DAEMON_PING_TIMEOUT"), u64::MAX, 5),
            memory_pressure: !is_text(find_last(env, "JULIA_DAEMON_MEMORY_PRESSURE"), "0"),
            psi_threshold: or_text(find_last(env, "JULIA_DAEMON_PSI_THRESHOLD"), "10"),
            memfree_low,
            memfree_high,
            port_range,
            host_home: or_text(find_last(env, "HOME"), ""),
            sandbox_remote_clients: !is_text(
                find_last(env, "JULIA_DAEMON_SANDBOX_REMOTE_CLIENTS"),
                "0",
            ),
            sandbox_empty_environment: !is_text(
                find_last(env, "JULIA_DAEMON_SANDBOX_EMPTY_ENVIRONMENT"),
                "0",
            ),
            sandbox_max_memory,
            sandbox_max_cpu,
            sandbox_session_bypass: is_text(
                find_last(env, "JULIA_DAEMON_SANDBOX_SESSION_BYPASS"),
                "1",
            ),
        },
    )
}

impl Config {
    /// Reads the configuration from the environment `env`, where all of its
    /// numbers fit.
    pub fn load(env: &[EnvVar], platform: Platform, uid: u32, verdicts: FloatVerdicts) -> (r: Result<
        Config,
        String,
    >)
        requires
            !(outcome(env_cache::var_views(env@), platform, uid, verdicts) is Overflows),
        ensures
            match r {
                Ok(c) => {
                    &&& outcome(env_cache::var_views(env@), platform, uid, verdicts) is Loads
                    &&& c.says(env_cache::var_views(env@), platform, uid)
                    &&& c.wf()
                },
                Err(e) => outcome(env_cache::var_views(env@), platform, uid, verdicts)
                    == Outcome::Fails(e@),
            },
    {
        match try_load(env, platform, uid, verdicts) {
            Loaded::Loads(c) => Ok(c),
            Loaded::Fails(e) => Err(e),
            Loaded::Overflows => Err(String::new()),
        }
    }
}

} // verus!
