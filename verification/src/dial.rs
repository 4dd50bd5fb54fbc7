//! How a client reaches the conductor: where it looks, how often, and what it
//! says when it gives up.

use crate::client_env::EnvInfo;
use crate::numeric;
use crate::numeric::parse_i32;
use crate::protocol;
use crate::protocol::{default_runtime_dir, Platform, TransportMode};
use crate::text;
use crate::text::{join2, join3, owned, trim_str};
use vstd::prelude::*;

verus! {

// ---------------------------------------------------------------------
// Where
// ---------------------------------------------------------------------

/// The directory in which the conductor keeps its socket and its process
/// number.
pub open spec fn client_runtime_dir(
    platform: Platform,
    runtime_dir: Option<Seq<char>>,
    xdg_runtime_dir: Option<Seq<char>>,
    home: Option<Seq<char>>,
    uid: u32,
) -> Seq<char> {
    match runtime_dir {
        Some(d) => d,
        None => protocol::runtime_dir_text(platform, xdg_runtime_dir, home, uid),
    }
}

/// The address to dial: the one on the command line, else that of the
/// environment, else the socket in the runtime directory.
pub open spec fn dial_target(
    over: Option<Seq<char>>,
    server_path: Option<Seq<char>>,
    runtime_dir: Seq<char>,
) -> Seq<char> {
    match over {
        Some(a) => a,
        None => match server_path {
            Some(a) => a,
            None => runtime_dir + "/conductor.sock"@,
        },
    }
}

pub fn runtime_dir_for(env: &EnvInfo, platform: Platform, uid: u32) -> (r: String)
    ensures
        r@ == client_runtime_dir(
            platform,
            text::opt_view(env.runtime_dir),
            text::opt_view(env.xdg_runtime_dir),
            text::opt_view(env.home),
            uid,
        ),
{
    match &env.runtime_dir {
        Some(d) => owned(d.as_str()),
        None => {
            let xdg: Option<&str> = match &env.xdg_runtime_dir {
                Some(x) => Some(x.as_str()),
                None => None,
            };
            let home: Option<&str> = match &env.home {
                Some(h) => Some(h.as_str()),
                None => None,
            };
            default_runtime_dir(platform, xdg, home, uid)
        },
    }
}

/// The text of the address to dial.
pub fn target_text(env: &EnvInfo, over: Option<&str>, runtime_dir: &str) -> (r: String)
    ensures
        r@ == dial_target(text::opt_str(over), text::opt_view(env.server_path), runtime_dir@),
{
    match over {
        Some(a) => owned(a),
        None => match &env.server_path {
            Some(a) => owned(a.as_str()),
            None => join2(runtime_dir, "/conductor.sock"),
        },
    }
}

/// The file that holds the process number of the conductor.
pub fn pid_path(runtime_dir: &str) -> (r: String)
    ensures
        r@ == runtime_dir@ + "/conductor.pid"@,
{
    join2(runtime_dir, "/conductor.pid")
}

/// The process number that such a file holds.
pub fn pid_of(content: &str) -> (r: Option<i32>)
    ensures
        match r {
            Some(n) => numeric::parse_integer(
                text::trim(content@),
                i32::MIN as int,
                i32::MAX as int,
            ) == Some(n as int),
            None => numeric::parse_integer(
                text::trim(content@),
                i32::MIN as int,
                i32::MAX as int,
            ) is None,
        },
{
    parse_i32(trim_str(content))
}

/// The address tried last, when a conductor was asked to come back and did not.
pub open spec fn fallback_text() -> Seq<char> {
    protocol::host_port_text("localhost"@, protocol::DEFAULT_TCP_PORT as nat)
}

pub fn fallback_address() -> (r: String)
    ensures
        r@ == fallback_text(),
{
    let h = protocol::HostPort { host: owned("localhost"), port: protocol::DEFAULT_TCP_PORT };
    h.text()
}

// ---------------------------------------------------------------------
// How often
// ---------------------------------------------------------------------

/// How many times the client tries again.
pub const RETRIES: u8 = 20;

/// How long it waits before each of them, in milliseconds.
pub const RETRY_DELAY_MS: u64 = 100;

/// Where an attempt to reach the conductor stands.
#[derive(Clone, Copy, Debug, PartialEq, Eq, Structural)]
pub enum Phase {
    /// Nothing was tried yet.
    First,
    /// The conductor is to be asked to open its socket again.
    Signal,
    /// This many of the further attempts are left.
    Retry(u8),
    /// The fallback address is to be tried.
    Fallback,
    Connected,
    GaveUp,
}

/// What to do in a phase. Each but the last two succeeds or fails.
#[derive(Clone, Copy, Debug, PartialEq, Eq, Structural)]
pub enum DialAction {
    Connect,
    AskConductor,
    WaitAndConnect,
    ConnectFallback,
    Use,
    Fail,
}

pub open spec fn dial_action(p: Phase) -> DialAction {
    match p {
        Phase::First => DialAction::Connect,
        Phase::Signal => DialAction::AskConductor,
        Phase::Retry(n) => DialAction::WaitAndConnect,
        Phase::Fallback => DialAction::ConnectFallback,
        Phase::Connected => DialAction::Use,
        Phase::GaveUp => DialAction::Fail,
    }
}

/// The phase that follows. Over the network the client just tries again;
/// otherwise it tries again where the conductor could be asked, and then the
/// fallback address.
pub open spec fn next_phase(p: Phase, transport: TransportMode, success: bool) -> Phase {
    match p {
        Phase::First => if success {
            Phase::Connected
        } else if transport == TransportMode::Tcp {
            Phase::Retry(RETRIES)
        } else {
            Phase::Signal
        },
        Phase::Signal => if success {
            Phase::Retry(RETRIES)
        } else {
            Phase::GaveUp
        },
        Phase::Retry(n) => if success {
            Phase::Connected
        } else if n > 1 {
            Phase::Retry((n - 1) as u8)
        } else if transport == TransportMode::Tcp {
            Phase::GaveUp
        } else {
            Phase::Fallback
        },
        Phase::Fallback => if success {
            Phase::Connected
        } else {
            Phase::GaveUp
        },
        Phase::Connected => Phase::Connected,
        Phase::GaveUp => Phase::GaveUp,
    }
}

impl Phase {
    pub fn action(self) -> (r: DialAction)
        ensures
            r == dial_action(self),
    {
        match self {
            Phase::First => DialAction::Connect,
            Phase::Signal => DialAction::AskConductor,
            Phase::Retry(n) => DialAction::WaitAndConnect,
            Phase::Fallback => DialAction::ConnectFallback,
            Phase::Connected => DialAction::Use,
            Phase::GaveUp => DialAction::Fail,
        }
    }

    pub fn next(self, transport: TransportMode, success: bool) -> (r: Phase)
        ensures
            r == next_phase(self, transport, success),
    {
        match self {
            Phase::First => if success {
                Phase::Connected
            } else if transport == TransportMode::Tcp {
                Phase::Retry(RETRIES)
            } else {
                Phase::Signal
            },
            Phase::Signal => if success {
                Phase::Retry(RETRIES)
            } else {
                Phase::GaveUp
            },
            Phase::Retry(n) => if success {
                Phase::Connected
            } else if n > 1 {
                Phase::Retry(n - 1)
            } else if transport == TransportMode::Tcp {
                Phase::GaveUp
            } else {
                Phase::Fallback
            },
            Phase::Fallback => if success {
                Phase::Connected
            } else {
                Phase::GaveUp
            },
            Phase::Connected => Phase::Connected,
            Phase::GaveUp => Phase::GaveUp,
        }
    }
}

/// An upper bound for the steps that are left.
pub open spec fn steps_left(p: Phase) -> nat {
    match p {
        Phase::First => (RETRIES + 3) as nat,
        Phase::Signal => (RETRIES + 2) as nat,
        Phase::Retry(n) => (n + 1) as nat,
        Phase::Fallback => 1,
        Phase::Connected => 0,
        Phase::GaveUp => 0,
    }
}

/// The phase after a number of steps whose outcomes are given.
pub open spec fn phase_after(p: Phase, transport: TransportMode, outcomes: Seq<bool>) -> Phase
    decreases outcomes.len(),
{
    if outcomes.len() == 0 {
        p
    } else {
        next_phase(
            phase_after(p, transport, outcomes.drop_last()),
            transport,
            outcomes.last(),
        )
    }
}

/// Whatever happens, the client is connected or has given up after a bounded
/// number of steps.
pub proof fn law_dialling_ends(transport: TransportMode, outcomes: Seq<bool>)
    requires
        outcomes.len() >= RETRIES + 3,
    ensures
        ({
            let p = phase_after(Phase::First, transport, outcomes);
            p == Phase::Connected || p == Phase::GaveUp
        }),
{
    lemma_steps(transport, outcomes);
}

proof fn lemma_steps(transport: TransportMode, outcomes: Seq<bool>)
    ensures
        ({
            let p = phase_after(Phase::First, transport, outcomes);
            &&& p matches Phase::Retry(n) ==> n <= RETRIES
            &&& p == Phase::Connected || p == Phase::GaveUp || steps_left(p) + outcomes.len()
                <= RETRIES + 3
        }),
    decreases outcomes.len(),
{
    if outcomes.len() > 0 {
        lemma_steps(transport, outcomes.drop_last());
    }
}

/// Over the network the conductor is never asked to open a socket, and the
/// fallback address is never tried.
pub proof fn law_network_dials_one_address(outcomes: Seq<bool>)
    ensures
        ({
            let p = phase_after(Phase::First, TransportMode::Tcp, outcomes);
            p != Phase::Signal && p != Phase::Fallback
        }),
    decreases outcomes.len(),
{
    if outcomes.len() > 0 {
        law_network_dials_one_address(outcomes.drop_last());
    }
}

// ---------------------------------------------------------------------
// Giving up
// ---------------------------------------------------------------------

/// How the daemon is started again.
pub open spec fn restart_hint(platform: Platform) -> Seq<char> {
    match platform {
        Platform::Linux => "  systemctl --user restart julia-daemon\n"@,
        Platform::MacOs => "  launchctl kickstart -k gui/$(id -u)/net.julialang.julia-daemon\n"@,
        Platform::Other => "  pkill -f julia-conductor && julia-conductor &\n"@,
    }
}

/// What the client says when the conductor cannot be reached.
pub fn failure_text(addr: &str, platform: Platform) -> (r: String)
    ensures
        r@ == "Failed to connect to "@ + addr@ + "\n\nTry restarting the daemon:\n\n"@
            + restart_hint(platform) + "\nOr specify a different address with -a <addr>\n"@,
{
    let hint = match platform {
        Platform::Linux => "  systemctl --user restart julia-daemon\n",
        Platform::MacOs => "  launchctl kickstart -k gui/$(id -u)/net.julialang.julia-daemon\n",
        Platform::Other => "  pkill -f julia-conductor && julia-conductor &\n",
    };
    let mut out = join3("Failed to connect to ", addr, "\n\nTry restarting the daemon:\n\n");
    out.append(hint);
    out.append("\nOr specify a different address with -a <addr>\n");
    out
}

/// What the client says of an address that it does not understand.
pub fn scheme_text(addr: &str) -> (r: String)
    ensures
        r@ == "Unsupported address scheme: "@ + addr@
            + "\nOnly tcp:// and unix paths are supported.\n"@,
{
    join3("Unsupported address scheme: ", addr, "\nOnly tcp:// and unix paths are supported.\n")
}

} // verus!
