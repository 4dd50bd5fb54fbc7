//! How the conductor takes connections: signals and shutting down, requests
//! as they come in, and the clients that it answers itself.

use crate::args;
use crate::args::{try_parse, ParsedArgs};
use crate::clients;
use crate::conductor;
use crate::conductor::Conductor;
use crate::env_cache;
use crate::env_cache::{copy_vars, EnvVar};
use crate::handshake;
use crate::handshake::{lossy_text, lossy_texts, RawRequest};
use crate::numeric;
use crate::numeric::decimal_string;
use crate::project;
use crate::project::resolve;
use crate::protocol;
use crate::protocol::signals;
use crate::protocol::{is_loopback, random_socket_path, Ip, TransportMode};
use crate::request::ClientRequest;
use crate::selection;
use crate::signal_parser;
use crate::status;
use crate::status::{hide_cursor, line_count, redraw_sequence, show_cursor, ViewKind};
use crate::streams;
use crate::text;
use crate::text::{join3, owned};
use crate::upkeep;
use crate::wire;
use crate::wire::copy_all;
use crate::worker::Worker;
use vstd::prelude::*;

verus! {

// ---------------------------------------------------------------------
// Signals
// ---------------------------------------------------------------------

/// What a signal asks for.
#[derive(Clone, Copy, Debug, PartialEq, Eq, Structural)]
pub enum SignalAction {
    Shutdown,
    Rebind,
}

/// What the byte that stands for a signal asks for: `T` and `I` end the
/// conductor, `U` has it bind its socket again.
pub open spec fn action_of(b: u8) -> Option<SignalAction> {
    if b == 0x54 || b == 0x49 {
        Some(SignalAction::Shutdown)
    } else if b == 0x55 {
        Some(SignalAction::Rebind)
    } else {
        None
    }
}

/// What is done about signals, in order: nothing follows the end.
pub open spec fn actions_of(bytes: Seq<u8>) -> Seq<SignalAction>
    decreases bytes.len(),
{
    if bytes.len() == 0 {
        Seq::empty()
    } else {
        let rest = actions_of(bytes.drop_first());
        match action_of(bytes[0]) {
            Some(SignalAction::Shutdown) => seq![SignalAction::Shutdown],
            Some(SignalAction::Rebind) => seq![SignalAction::Rebind] + rest,
            None => rest,
        }
    }
}

/// What is done after a wait for connections and signals.
pub struct Turn {
    pub actions: Vec<SignalAction>,
    /// Whether a connection is taken.
    pub accept: bool,
}

/// Decides what is done after a wait that says that `ready` descriptors can be
/// read, or that it failed, and after which the signals `bytes` were there.
/// Signals come first.
pub fn accept_turn(ready: i32, bytes: &[u8]) -> (r: Turn)
    ensures
        r.actions@ == actions_of(bytes@),
        r.accept == (ready > 0 && !actions_of(bytes@).contains(SignalAction::Shutdown)),
{
    let mut actions: Vec<SignalAction> = Vec::new();
    let mut i: usize = 0;
    let ghost all = actions_of(bytes@);
    assert(bytes@.skip(0) =~= bytes@);
    assert(Seq::<SignalAction>::empty() + all =~= all);
    while i < bytes.len()
        invariant
            i <= bytes@.len(),
            all == actions_of(bytes@),
            all == actions@ + actions_of(bytes@.skip(i as int)),
            !actions@.contains(SignalAction::Shutdown),
        decreases bytes@.len() - i,
    {
        let b: u8 = bytes[i];
        let ghost left = bytes@.skip(i as int);
        assert(left.drop_first() =~= bytes@.skip(i + 1));
        let ghost before = actions@;
        if b == 0x54 || b == 0x49 {
            actions.push(SignalAction::Shutdown);
            assert(actions@ =~= all);
            assert(actions@[before.len() as int] == SignalAction::Shutdown);
            return Turn { actions, accept: false };
        }
        if b == 0x55 {
            actions.push(SignalAction::Rebind);
            assert(all =~= actions@ + actions_of(bytes@.skip(i + 1)));
            assert(!actions@.contains(SignalAction::Shutdown)) by {
                if actions@.contains(SignalAction::Shutdown) {
                    let k = actions@.index_of(SignalAction::Shutdown);
                    assert(before[k] == SignalAction::Shutdown);
                }
            }
        }
        i = i + 1;
    }
    assert(bytes@.skip(i as int) =~= Seq::empty());
    assert(all =~= actions@);
    Turn { actions, accept: ready > 0 }
}

/// A signal that ends the conductor is heeded, whatever other signals there
/// are, and nothing is done after it.
pub proof fn law_shutdown_is_last(bytes: Seq<u8>)
    ensures
        (exists|i: int|
            0 <= i < bytes.len() && #[trigger] action_of(bytes[i]) == Some(
                SignalAction::Shutdown,
            )) ==> actions_of(bytes).len() > 0 && actions_of(bytes).last()
            == SignalAction::Shutdown,
        forall|k: int|
            0 <= k < actions_of(bytes).len() - 1 ==> #[trigger] actions_of(bytes)[k]
                == SignalAction::Rebind,
    decreases bytes.len(),
{
    if bytes.len() > 0 {
        let rest = bytes.drop_first();
        law_shutdown_is_last(rest);
        assert forall|i: int|
            0 <= i < bytes.len() && #[trigger] action_of(bytes[i]) == Some(
                SignalAction::Shutdown,
            ) implies actions_of(bytes).len() > 0 && actions_of(bytes).last()
            == SignalAction::Shutdown by {
            if i > 0 {
                assert(action_of(rest[i - 1]) == Some(SignalAction::Shutdown));
            }
        }
    }
}

// ---------------------------------------------------------------------
// Shutting down
// ---------------------------------------------------------------------

/// A step of shutting down.
#[derive(Clone, Copy, Debug, PartialEq, Eq, Structural)]
pub enum ShutdownStep {
    /// Ask every worker to go.
    SoftExit,
    /// Wait so many seconds.
    Wait(u64),
    /// Tell every worker to terminate.
    Terminate,
    /// Kill every worker.
    Kill,
}

/// How the conductor shuts down: every worker has a second to go when asked,
/// and another one when told.
pub fn shutdown_steps() -> (r: Vec<ShutdownStep>)
    ensures
        r@ == seq![
            ShutdownStep::SoftExit,
            ShutdownStep::Wait(1),
            ShutdownStep::Terminate,
            ShutdownStep::Wait(1),
            ShutdownStep::Kill,
        ],
{
    let mut steps: Vec<ShutdownStep> = Vec::new();
    steps.push(ShutdownStep::SoftExit);
    steps.push(ShutdownStep::Wait(1));
    steps.push(ShutdownStep::Terminate);
    steps.push(ShutdownStep::Wait(1));
    steps.push(ShutdownStep::Kill);
    assert(steps@ =~= seq![
        ShutdownStep::SoftExit,
        ShutdownStep::Wait(1),
        ShutdownStep::Terminate,
        ShutdownStep::Wait(1),
        ShutdownStep::Kill,
    ]);
    steps
}

// ---------------------------------------------------------------------
// Requests
// ---------------------------------------------------------------------

/// Whether a connection comes from another machine; `peer` is its other end,
/// where it has an address.
pub fn is_remote(transport: TransportMode, peer: Option<&Ip>) -> (r: bool)
    ensures
        r == (transport == TransportMode::Tcp && (peer matches Some(ip) && !protocol::loopback(
            *ip,
        ))),
{
    match peer {
        Some(ip) => transport == TransportMode::Tcp && !is_loopback(ip),
        None => false,
    }
}

/// The bytes with which a client opens its request are taken as a client's,
/// and those of a notice as a notice's.
pub proof fn law_greetings_are_told_apart()
    ensures
        streams::greeting_of(wire::of_le(wire::le(protocol::client::MAGIC as nat, 4)))
            == streams::Greeting::Client,
        streams::greeting_of(wire::of_le(wire::le(protocol::notification::MAGIC as nat, 4)))
            == streams::Greeting::Notification,
{
    wire::lemma_pow256();
    wire::law_le_round_trip(protocol::client::MAGIC as nat, 4);
    wire::law_le_round_trip(protocol::notification::MAGIC as nat, 4);
}

impl Conductor {
    /// The environment with `fingerprint`, where it is kept and a fresh one is
    /// not asked for.
    pub fn cached_env(&mut self, fingerprint: u64, force_fresh: bool) -> (r: Option<Vec<EnvVar>>)
        requires
            old(self).wf(),
            old(self).env_cache.uses() < u64::MAX,
        ensures
            final(self).wf(),
            *final(self) == (Conductor { env_cache: final(self).env_cache, ..*old(self) }),
            ({
                let slots = old(self).env_cache.slots();
                let i = env_cache::slot_of(slots, fingerprint);
                if !force_fresh && i < env_cache::SLOTS {
                    &&& r matches Some(vars) && env_cache::var_views(vars@) == slots[i]->0.env
                    &&& final(self).env_cache.uses() == old(self).env_cache.uses() + 1
                    &&& final(self).env_cache.slots() == slots.update(
                        i,
                        Some(
                            (env_cache::Kept { used: old(self).env_cache.uses(), ..slots[i]->0 }),
                        ),
                    )
                } else {
                    &&& r is None
                    &&& final(self).env_cache.uses() == old(self).env_cache.uses()
                    &&& final(self).env_cache.slots() == slots
                }
            }),
    {
        if force_fresh {
            return None;
        }
        match self.env_cache.lookup(fingerprint) {
            Some((vars, _)) => Some(copy_vars(vars)),
            None => None,
        }
    }

    /// Keeps the environment that a client has sent.
    pub fn keep_env(&mut self, fingerprint: u64, fresh: Vec<EnvVar>) -> (r: Vec<EnvVar>)
        requires
            old(self).wf(),
            old(self).env_cache.uses() < u64::MAX,
        ensures
            final(self).wf(),
            *final(self) == (Conductor { env_cache: final(self).env_cache, ..*old(self) }),
            env_cache::var_views(r@) == env_cache::var_views(fresh@),
            final(self).env_cache.has_inserted(
                &old(self).env_cache,
                fingerprint,
                env_cache::var_views(fresh@),
            ),
    {
        let (vars, _) = self.env_cache.insert(fingerprint, fresh);
        copy_vars(vars)
    }

    /// The project that the environment with `fingerprint` names.
    pub fn env_project(&mut self, fingerprint: u64) -> (r: Option<String>)
        requires
            old(self).wf(),
            old(self).env_cache.uses() < u64::MAX,
        ensures
            final(self).wf(),
            *final(self) == (Conductor { env_cache: final(self).env_cache, ..*old(self) }),
            ({
                let slots = old(self).env_cache.slots();
                let i = env_cache::slot_of(slots, fingerprint);
                if i < env_cache::SLOTS {
                    &&& text::opt_view(r) == env_cache::project_of(slots[i]->0.env)
                    &&& final(self).env_cache.uses() == old(self).env_cache.uses() + 1
                    &&& final(self).env_cache.slots() == slots.update(
                        i,
                        Some(
                            (env_cache::Kept { used: old(self).env_cache.uses(), ..slots[i]->0 }),
                        ),
                    )
                } else {
                    &&& r is None
                    &&& final(self).env_cache.uses() == old(self).env_cache.uses()
                    &&& final(self).env_cache.slots() == slots
                }
            }),
    {
        match self.env_cache.lookup(fingerprint) {
            Some((_, Some(p))) => Some(owned(p)),
            Some((_, None)) => None,
            None => None,
        }
    }
}

/// The command line of a request; `None` where it cannot be taken apart.
pub fn request_args(raw: &RawRequest) -> (r: Option<ParsedArgs>)
    ensures
        r is Some <==> args::outcome(handshake::lossy_all(raw@.args)) is Some,
        r matches Some(p) ==> p.says(handshake::lossy_all(raw@.args)),
{
    let texts = lossy_texts(raw.args.as_slice());
    try_parse(texts.as_slice())
}

/// The working directory of a request.
pub fn request_dir(raw: &RawRequest) -> (r: String)
    ensures
        r@ == handshake::lossy(raw@.cwd),
{
    lossy_text(raw.cwd.as_slice())
}

/// A request, read. `parsed` are its arguments; `env` is its environment, which names `julia_project`;
/// `found` is what a search for a project gives. The project of a client on
/// another machine is not looked for here.
pub fn read_client_request(
    raw: &RawRequest,
    env: Vec<EnvVar>,
    parsed: ParsedArgs,
    julia_project: Option<&str>,
    is_remote: bool,
    home: &str,
    found: Option<&str>,
) -> (r: ClientRequest)
    requires
        parsed.says(handshake::lossy_all(raw@.args)),
    ensures
        r.flags == raw.flags,
        r.pid == raw.pid,
        r.ppid == raw.ppid,
        r.cwd@ == handshake::lossy(raw@.cwd),
        r.env == env,
        r.parsed == parsed,
        r.parsed.says(handshake::lossy_all(raw@.args)),
        text::opt_view(r.project) == if is_remote {
            None
        } else {
            project::resolved(
                args::last_value(args::switch_views(parsed.switches@), "--project"@),
                text::opt_str(julia_project),
                home@,
                handshake::lossy(raw@.cwd),
                text::opt_str(found),
            )
        },
{
    let cwd = request_dir(raw);
    let project: Option<String> = if is_remote {
        None
    } else {
        resolve(&parsed, julia_project, home, cwd.as_str(), found)
    };
    ClientRequest { flags: raw.flags, pid: raw.pid, ppid: raw.ppid, cwd, env, parsed, project }
}

// ---------------------------------------------------------------------
// Streams for a client without a worker
// ---------------------------------------------------------------------

/// What the sockets of the four streams are called.
pub open spec fn suffix_of(i: int) -> Seq<char> {
    if i == 0 {
        "stdin.sock"@
    } else if i == 1 {
        "stdout.sock"@
    } else if i == 2 {
        "stderr.sock"@
    } else {
        "signals.sock"@
    }
}

fn suffix(i: usize) -> (r: &'static str)
    ensures
        r@ == suffix_of(i as int),
{
    if i == 0 {
        "stdin.sock"
    } else if i == 1 {
        "stdout.sock"
    } else if i == 2 {
        "stderr.sock"
    } else {
        "signals.sock"
    }
}

/// The address of a stream.
pub open spec fn bound_text(bind: Seq<char>, port: u16) -> Seq<char> {
    bind + ":"@ + numeric::decimal(port as nat)
}

pub fn bound_address(bind: &str, port: u16) -> (r: String)
    ensures
        r@ == bound_text(bind@, port),
{
    let n = decimal_string(port as u64);
    join3(bind, ":", n.as_str())
}

/// Where the four streams of a client are opened, and the ports that were
/// taken for them.
pub struct Opening {
    pub port_set: Option<u16>,
    /// Paths, or addresses whose port is zero where any will do.
    pub at: Vec<String>,
}

/// The port of stream `i`: that of the set, or any.
pub open spec fn stream_port(
    pool: Option<protocol::PortPool>,
    set: Option<u16>,
    i: int,
) -> u16 {
    match (pool, set) {
        (Some(p), Some(s)) => protocol::set_ports(p.first_port() as int, s as int)[i],
        _ => 0,
    }
}

impl Conductor {
    /// The ports of every set are ports.
    pub open spec fn ports_fit(&self) -> bool {
        self.port_pool matches Some(p) ==> p.fits()
    }

    /// Decides where the streams of a client that gets no worker are opened.
    /// The caller reads the clock once for each stream, and counts the paths
    /// that it has asked for.
    pub fn open_client_streams(&mut self, nanos: &[u32; 4], pid: u32, counter: u32) -> (r: Opening)
        requires
            old(self).wf(),
            old(self).ports_fit(),
        ensures
            final(self).wf(),
            final(self).ports_fit(),
            *final(self) == (Conductor { port_pool: final(self).port_pool, ..*old(self) }),
            conductor::same_pool(final(self).port_pool, old(self).port_pool),
            match r.port_set {
                Some(s) => {
                    let free = conductor::free_sets(old(self).port_pool);
                    &&& s < free.len()
                    &&& free[s as int]
                    &&& forall|j: int| 0 <= j < s ==> !free[j]
                    &&& conductor::free_sets(final(self).port_pool) == free.update(
                        s as int,
                        false,
                    )
                },
                None => {
                    let free = conductor::free_sets(old(self).port_pool);
                    &&& forall|j: int| 0 <= j < free.len() ==> !free[j]
                    &&& conductor::free_sets(final(self).port_pool) == free
                },
            },
            old(self).ports_sound() ==> final(self).ports_sound() && (r.port_set matches Some(s)
                ==> clients::nobody_has(final(self).active_clients@, s)),
            r.at@.len() == 4,
            forall|i: int|
                0 <= i < 4 ==> (#[trigger] r.at@[i])@ == match old(self).config.transport {
                    TransportMode::Tcp => bound_text(
                        old(self).config.bind_address@,
                        stream_port(old(self).port_pool, r.port_set, i),
                    ),
                    TransportMode::Unix => protocol::socket_path_text(
                        old(self).config.runtime_dir@,
                        nanos@[i],
                        pid,
                        ((counter + i) % 0x1_0000_0000) as u32,
                        suffix_of(i),
                    ),
                },
    {
        let mut ports: [u16; 4] = [0; 4];
        let mut port_set: Option<u16> = None;
        let ghost pool = self.port_pool;
        if let Some(p) = &mut self.port_pool {
            port_set = p.allocate();
            if let Some(s) = port_set {
                ports = p.ports_for_index(s);
            }
        }
        assert forall|i: int| 0 <= i < 4 implies #[trigger] ports@[i] == stream_port(
            pool,
            port_set,
            i,
        ) by {}
        let mut at: Vec<String> = Vec::new();
        let mut i: usize = 0;
        while i < 4
            invariant
                i <= 4,
                at@.len() == i,
                *self == (Conductor { port_pool: self.port_pool, ..*old(self) }),
                forall|k: int|
                    0 <= k < 4 ==> #[trigger] ports@[k] == stream_port(
                        old(self).port_pool,
                        port_set,
                        k,
                    ),
                forall|k: int|
                    0 <= k < i ==> (#[trigger] at@[k])@ == match old(self).config.transport {
                        TransportMode::Tcp => bound_text(
                            old(self).config.bind_address@,
                            stream_port(old(self).port_pool, port_set, k),
                        ),
                        TransportMode::Unix => protocol::socket_path_text(
                            old(self).config.runtime_dir@,
                            nanos@[k],
                            pid,
                            ((counter + k) % 0x1_0000_0000) as u32,
                            suffix_of(k),
                        ),
                    },
            decreases 4 - i,
        {
            let next = match self.config.transport {
                TransportMode::Tcp => bound_address(self.config.bind_address.as_str(), ports[i]),
                TransportMode::Unix => {
                    let n: u32 = ((counter as u64 + i as u64) % 0x1_0000_0000) as u32;
                    random_socket_path(
                        self.config.runtime_dir.as_str(),
                        suffix(i),
                        nanos[i],
                        pid,
                        n,
                    )
                },
            };
            at.push(next);
            i = i + 1;
        }
        Opening { port_set, at }
    }

    /// Gives the ports of such a client back.
    pub fn release_port_set_idx(&mut self, idx: Option<u16>)
        requires
            old(self).wf(),
        ensures
            final(self).wf(),
            *final(self) == (Conductor { port_pool: final(self).port_pool, ..*old(self) }),
            conductor::same_pool(final(self).port_pool, old(self).port_pool),
            conductor::free_sets(final(self).port_pool) == match idx {
                Some(i) => {
                    let free = conductor::free_sets(old(self).port_pool);
                    if i < free.len() {
                        free.update(i as int, true)
                    } else {
                        free
                    }
                },
                None => conductor::free_sets(old(self).port_pool),
            },
            old(self).ports_fit() ==> final(self).ports_fit(),
            (old(self).ports_sound() && (idx matches Some(i) ==> clients::nobody_has(
                old(self).active_clients@,
                i,
            ))) ==> final(self).ports_sound(),
    {
        if let Some(i) = idx {
            if let Some(p) = &mut self.port_pool {
                p.release(i);
            }
        }
    }
}

/// A client that the conductor answers itself leaves the ports as they were.
pub proof fn law_answered_client_leaves_ports(free: Seq<bool>, s: int)
    requires
        0 <= s < free.len(),
        free[s],
    ensures
        free.update(s, false).update(s, true) == free,
{
    assert(free.update(s, false).update(s, true) =~= free);
}

// ---------------------------------------------------------------------
// Answers
// ---------------------------------------------------------------------

/// Bytes to write on a stream of a client.
pub enum Answer<B> {
    Stdout(B),
    Signals(B),
}

pub open spec fn answer_view(a: Answer<Vec<u8>>) -> Answer<Seq<u8>> {
    match a {
        Answer::Stdout(b) => Answer::Stdout(b@),
        Answer::Signals(b) => Answer::Signals(b@),
    }
}

pub open spec fn answer_views(v: Seq<Answer<Vec<u8>>>) -> Seq<Answer<Seq<u8>>> {
    Seq::new(v.len(), |i: int| answer_view(v[i]))
}

fn frame(id: u8) -> (r: Vec<u8>)
    ensures
        r@ == seq![id, 1u8, 0u8],
{
    let mut out: Vec<u8> = Vec::new();
    out.push(id);
    out.push(1);
    out.push(0);
    assert(out@ =~= seq![id, 1u8, 0u8]);
    out
}

/// What is written to a client that is shown `content` and ends.
pub open spec fn text_answers(content: Seq<char>) -> Seq<Answer<Seq<u8>>> {
    seq![
        Answer::Stdout(vstd::utf8::encode_utf8(content)),
        Answer::Signals(seq![signals::EXIT, 1u8, 0u8]),
    ]
}

pub fn serve_string(content: &str) -> (r: Vec<Answer<Vec<u8>>>)
    ensures
        answer_views(r@) == text_answers(content@),
{
    let mut out: Vec<Answer<Vec<u8>>> = Vec::new();
    out.push(Answer::Stdout(copy_all(content.as_bytes())));
    out.push(Answer::Signals(frame(signals::EXIT)));
    assert(answer_views(out@) =~= text_answers(content@));
    out
}

/// What is written first to a client that asked for the status, of which
/// `first` is the first frame. One that is not held open ends with it; one
/// that is gets a terminal that turns keys into signals, and no cursor.
pub open spec fn status_answers(kind: ViewKind, first: Seq<char>) -> Seq<Answer<Seq<u8>>> {
    if kind.live {
        seq![
            Answer::Signals(seq![signals::RAW_MODE, 1u8, 0u8]),
            Answer::Stdout(vstd::utf8::encode_utf8("\u{1b}[?25l"@)),
            Answer::Stdout(vstd::utf8::encode_utf8(first)),
        ]
    } else {
        text_answers(first)
    }
}

pub fn serve_status(kind: ViewKind, first: &str) -> (r: Vec<Answer<Vec<u8>>>)
    ensures
        answer_views(r@) == status_answers(kind, first@),
{
    if !kind.live {
        return serve_string(first);
    }
    let mut out: Vec<Answer<Vec<u8>>> = Vec::new();
    out.push(Answer::Signals(frame(signals::RAW_MODE)));
    out.push(Answer::Stdout(hide_cursor()));
    out.push(Answer::Stdout(copy_all(first.as_bytes())));
    assert(answer_views(out@) =~= status_answers(kind, first@));
    out
}

/// What is written last to a client whose view was held open.
pub open spec fn last_answers() -> Seq<Answer<Seq<u8>>> {
    seq![
        Answer::Stdout(vstd::utf8::encode_utf8("\u{1b}[?25h\r\n"@)),
        Answer::Signals(seq![signals::EXIT, 1u8, 0u8]),
    ]
}

pub fn end_status() -> (r: Vec<Answer<Vec<u8>>>)
    ensures
        answer_views(r@) == last_answers(),
{
    let mut out: Vec<Answer<Vec<u8>>> = Vec::new();
    out.push(Answer::Stdout(show_cursor()));
    out.push(Answer::Signals(frame(signals::EXIT)));
    assert(answer_views(out@) =~= last_answers());
    out
}

/// A view that is held open.
pub struct LiveView {
    lines: usize,
}

impl LiveView {
    /// How many lines are on the screen.
    pub closed spec fn drawn(&self) -> nat {
        self.lines as nat
    }

    /// A view whose first frame was written.
    pub fn new(first: &str) -> (r: Self)
        ensures
            r.drawn() == text::lines(first@).len(),
    {
        LiveView { lines: line_count(first) }
    }

    /// The bytes that draw `next` in place of what is on the screen.
    pub fn redraw(&mut self, next: &str) -> (r: Vec<u8>)
        ensures
            r@ == vstd::utf8::encode_utf8(status::redraw_text(old(self).drawn(), next@)),
            final(self).drawn() == text::lines(next@).len(),
    {
        let out = redraw_sequence(self.lines, next);
        self.lines = line_count(next);
        out
    }

    /// Whether the view goes on: its client was not seen to leave, and the
    /// conductor still lists it.
    pub fn goes_on(stopped: bool, listed: bool) -> (r: bool)
        ensures
            r == (!stopped && listed),
    {
        !stopped && listed
    }
}

/// A client that is answered ends with success once it has read the last of
/// the answer, and a client whose view is held open is first told to leave raw
/// mode.
pub proof fn law_answers_are_understood()
    ensures
        signal_parser::last_exit(
            signal_parser::frames(seq![signals::EXIT, 1u8, 0u8]),
        ) == Some(0u8),
        signal_parser::all_requests(
            false,
            signal_parser::frames(seq![signals::RAW_MODE, 1u8, 0u8]),
        ) == seq![
            signal_parser::Request::SetRaw(false),
            signal_parser::Request::Reply(seq![signals::RAW_MODE, 0u8]),
        ],
{
    signal_parser::law_exit_frame(0);
    let b = seq![signals::RAW_MODE, 1u8, 0u8];
    reveal_with_fuel(signal_parser::frames, 2);
    reveal_with_fuel(signal_parser::all_requests, 2);
    assert(signal_parser::first_frame(b).1 =~= seq![0u8]);
    assert(signal_parser::after_frame(b) =~= Seq::empty());
    let fs = signal_parser::frames(b);
    assert(fs =~= seq![signal_parser::first_frame(b)]);
    assert(fs.drop_last() =~= Seq::empty());
    assert(signal_parser::all_requests(false, fs) =~= seq![
        signal_parser::Request::SetRaw(false),
        signal_parser::Request::Reply(seq![signals::RAW_MODE, 0u8]),
    ]);
}

// ---------------------------------------------------------------------
// The clock
// ---------------------------------------------------------------------

impl Conductor {
    /// The seconds since anything that is timed can be counted.
    pub open spec fn clock_fits(&self, now: i64) -> bool {
        &&& self.every_worker(
            |w: Worker|
                selection::fits(now, w.last_pinged) && selection::fits(now, w.last_active),
        )
        &&& forall|i: int|
            0 <= i < self.pending_kills@.len() ==> selection::fits(
                now,
                (#[trigger] self.pending_kills@[i]).worker.retire_since,
            )
    }

    /// Where the clock fits, all ages can be counted.
    pub proof fn law_ages_can_be_counted(&self, now: i64)
        requires
            self.clock_fits(now),
        ensures
            self.every_worker(|w: Worker| w.ping_age_fits(now)),
            self.every_worker(|w: Worker| w.label_age_fits(now)),
            upkeep::graces_fit(self.pending_kills@, now),
            forall|p: int|
                0 <= p < self.pools@.len() ==> selection::ages_fit(
                    (#[trigger] self.pools@[p]).workers,
                    now,
                ),
    {
        let f = |w: Worker|
            selection::fits(now, w.last_pinged) && selection::fits(now, w.last_active);
        assert(self.every_worker(f));
        assert forall|p: int, i: int| crate::pools::in_range(self.pools@, p, i) implies f(
            #[trigger] self.pools@[p].workers[i],
        ) by {}
        assert forall|p: int| 0 <= p < self.pools@.len() implies selection::ages_fit(
            (#[trigger] self.pools@[p]).workers,
            now,
        ) by {
            let ws = self.pools@[p].workers;
            assert forall|i: int| 0 <= i < ws.len() implies (#[trigger] ws[i]).label_age_fits(
                now,
            ) by {
                assert(crate::pools::in_range(self.pools@, p, i));
                assert(f(self.pools@[p].workers[i]));
            }
        }
    }

    /// Whether the clock fits.
    pub fn can_use_clock(&self, now: i64) -> (r: bool)
        ensures
            r == self.clock_fits(now),
    {
        let ghost f = |w: Worker|
            selection::fits(now, w.last_pinged) && selection::fits(now, w.last_active);
        if let Some(w) = &self.reserve {
            if !(since_fits(now, w.last_pinged) && since_fits(now, w.last_active)) {
                assert(!f(*w));
                return false;
            }
        }
        let mut p: usize = 0;
        while p < self.pools.len()
            invariant
                p <= self.pools@.len(),
                f == (|w: Worker|
                    selection::fits(now, w.last_pinged) && selection::fits(now, w.last_active)),
                self.reserve matches Some(r) ==> f(r),
                forall|q: int, j: int|
                    q < p && crate::pools::in_range(self.pools@, q, j) ==> f(
                        #[trigger] self.pools@[q].workers[j],
                    ),
            decreases self.pools@.len() - p,
        {
            let ws = self.pools.workers(p);
            let mut i: usize = 0;
            while i < ws.len()
                invariant
                    p < self.pools@.len(),
                    i <= ws@.len(),
                    ws@ == self.pools@[p as int].workers,
                    f == (|w: Worker|
                        selection::fits(now, w.last_pinged) && selection::fits(
                            now,
                            w.last_active,
                        )),
                    forall|j: int| 0 <= j < i ==> f(#[trigger] ws@[j]),
                decreases ws@.len() - i,
            {
                if !(since_fits(now, ws[i].last_pinged) && since_fits(now, ws[i].last_active)) {
                    assert(crate::pools::in_range(self.pools@, p as int, i as int));
                    assert(!f(self.pools@[p as int].workers[i as int]));
                    return false;
                }
                i = i + 1;
            }
            p = p + 1;
        }
        let mut k: usize = 0;
        while k < self.pending_kills.len()
            invariant
                k <= self.pending_kills@.len(),
                forall|j: int|
                    0 <= j < k ==> selection::fits(
                        now,
                        (#[trigger] self.pending_kills@[j]).worker.retire_since,
                    ),
            decreases self.pending_kills@.len() - k,
        {
            if !since_fits(now, self.pending_kills[k].worker.retire_since) {
                return false;
            }
            k = k + 1;
        }
        true
    }
}

fn since_fits(now: i64, at: i64) -> (r: bool)
    ensures
        r == selection::fits(now, at),
{
    let d: i128 = now as i128 - at as i128;
    i64::MIN as i128 <= d && d <= i64::MAX as i128
}

} // verus!
