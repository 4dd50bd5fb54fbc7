//! The bytes that clients, conductor and workers exchange.

use crate::args;
use crate::client_run;
use crate::env_cache;
use crate::handshake;
use crate::handshake::RequestData;
use crate::messages;
use crate::protocol;
use crate::protocol::notification::Type;
use crate::protocol::signals;
use crate::protocol::worker::MessageType;
use crate::server;
use crate::server::SignalAction;
use crate::streams;
use crate::streams::Greeting;
use crate::text;
use crate::wire;
use crate::worker::ClientInfo;
use vstd::prelude::*;

verus! {

// ---------------------------------------------------------------------
// Numbers
// ---------------------------------------------------------------------

/// The byte of `n` that counts in steps of `unit`.
pub open spec fn byte_at(n: nat, unit: nat) -> u8 {
    ((n / unit) % 256) as u8
}

/// A number is written with its lowest byte first.
pub proof fn law_lowest_byte_first(n: nat)
    ensures
        wire::le(n, 2) == seq![byte_at(n, 1), byte_at(n, 256)],
        wire::le(n, 4) == seq![
            byte_at(n, 1),
            byte_at(n, 256),
            byte_at(n, 65536),
            byte_at(n, 16777216),
        ],
        wire::le(n, 8) == wire::le(n, 4) + wire::le(n / 4294967296, 4),
{
    reveal_with_fuel(wire::le, 9);
    assert(n / 65536 == n / 256 / 256);
    assert(n / 16777216 == n / 256 / 256 / 256);
    assert(n / 4294967296 == n / 256 / 256 / 256 / 256);
    assert(wire::le(n, 2) =~= seq![byte_at(n, 1), byte_at(n, 256)]);
    assert(wire::le(n, 4) =~= seq![
        byte_at(n, 1),
        byte_at(n, 256),
        byte_at(n, 65536),
        byte_at(n, 16777216),
    ]);
    assert(wire::le(n, 8) =~= wire::le(n, 4) + wire::le(n / 4294967296, 4));
}

/// And it is read so.
pub proof fn law_lowest_byte_is_read_first(a: u8, b: u8, c: u8, d: u8)
    ensures
        wire::of_le(seq![a, b]) == a + 256 * b,
        wire::of_le(seq![a, b, c, d]) == a + 256 * b + 65536 * c + 16777216 * d,
{
    reveal_with_fuel(wire::of_le, 5);
    let two = seq![a, b];
    assert(two.drop_first() =~= seq![b]);
    assert(seq![b].drop_first() =~= Seq::<u8>::empty());
    let four = seq![a, b, c, d];
    assert(four.drop_first() =~= seq![b, c, d]);
    assert(seq![b, c, d].drop_first() =~= seq![c, d]);
    assert(seq![c, d].drop_first() =~= seq![d]);
    assert(seq![d].drop_first() =~= Seq::<u8>::empty());
}

/// A run of bytes stands behind its length, in two bytes.
pub proof fn law_length_comes_first(b: Seq<u8>)
    requires
        b.len() <= 0xffff,
    ensures
        wire::counted(b) == seq![byte_at(b.len(), 1), byte_at(b.len(), 256)] + b,
{
    law_lowest_byte_first(b.len());
}

/// Runs follow each other in their order.
pub proof fn law_runs_follow_each_other(items: Seq<Seq<u8>>, item: Seq<u8>)
    ensures
        wire::counted_all(Seq::empty()) == Seq::<u8>::empty(),
        wire::counted_all(items.push(item)) == wire::counted_all(items) + wire::counted(item),
{
    assert(items.push(item).drop_last() =~= items);
}

// ---------------------------------------------------------------------
// Who is who
// ---------------------------------------------------------------------

/// Clients, notices and workers are greeted with their own first bytes.
pub proof fn law_first_bytes()
    ensures
        wire::le(protocol::client::MAGIC as nat, 4) == seq![0x01u8, 0x43u8, 0x44u8, 0x4Au8],
        wire::le(protocol::notification::MAGIC as nat, 4) == seq![0x01u8, 0x4Eu8, 0x44u8, 0x4Au8],
        wire::le(protocol::worker::MAGIC as nat, 4) == seq![0x01u8, 0x57u8, 0x44u8, 0x4Au8],
{
    law_lowest_byte_first(protocol::client::MAGIC as nat);
    law_lowest_byte_first(protocol::notification::MAGIC as nat);
    law_lowest_byte_first(protocol::worker::MAGIC as nat);
}

/// A connection is told from its first four bytes.
pub proof fn law_connections_are_told_apart(magic: u32)
    ensures
        streams::greeting_of(0x4A444301) == Greeting::Client,
        streams::greeting_of(0x4A444E01) == Greeting::Notification,
        magic != 0x4A444301 && magic != 0x4A444E01 ==> streams::greeting_of(magic as nat)
            == Greeting::Unknown(magic),
{
}

/// The environment is asked for with a question mark.
pub proof fn law_environment_is_asked_for()
    ensures
        protocol::client::ENV_REQUEST == '?' as u8,
{
}

/// The first byte of each message to and from a worker.
pub proof fn law_message_bytes()
    ensures
        MessageType::Ping.byte() == 1 && MessageType::Pong.byte() == 2,
        MessageType::SetProject.byte() == 16 && MessageType::ProjectOk.byte() == 17,
        MessageType::ClientRun.byte() == 32 && MessageType::Sockets.byte() == 33,
        MessageType::QueryState.byte() == 48 && MessageType::State.byte() == 49,
        MessageType::QueryClients.byte() == 50 && MessageType::Clients.byte() == 51,
        MessageType::SoftExit.byte() == 64 && MessageType::Ack.byte() == 65,
        MessageType::SyncClients.byte() == 80 && MessageType::DropSession.byte() == 81,
        MessageType::Error.byte() == 255,
{
}

/// Every message but that of an error is known by its byte, and no other byte
/// is known.
pub proof fn law_known_bytes_are_of_messages(t: MessageType, b: u8)
    ensures
        t != MessageType::Error ==> protocol::worker::known(t.byte()),
        protocol::worker::known(b) ==> b == 1 || b == 2 || b == 16 || b == 17 || b == 32 || b == 33
            || b == 48 || b == 49 || b == 50 || b == 51 || b == 64 || b == 65 || b == 80 || b == 81,
{
}

/// The bytes of notices.
pub proof fn law_notice_types()
    ensures
        Type::ClientDone.byte() == 1,
        Type::WorkerUnresponsive.byte() == 2,
        Type::WorkerExit.byte() == 3,
        Type::ClientExit.byte() == 4,
        Type::ClientInterrupt.byte() == 5,
{
}

/// The bytes of the signals stream.
pub proof fn law_signal_bytes()
    ensures
        signals::EXIT == 1,
        signals::RAW_MODE == 2,
        signals::QUERY_SIZE == 3,
        signals::NODELAY == 4,
        signals::EXECUTING == 5,
{
}

// ---------------------------------------------------------------------
// Messages
// ---------------------------------------------------------------------

/// A message begins with its byte and the length of what follows.
pub proof fn law_header_bytes(kind: MessageType, len: nat)
    requires
        len <= 0xffff,
    ensures
        messages::header(kind, len) == seq![kind.byte(), byte_at(len, 1), byte_at(len, 256)],
{
    law_lowest_byte_first(len);
    assert(messages::header(kind, len) =~= seq![
        kind.byte(),
        byte_at(len, 1),
        byte_at(len, 256),
    ]);
}

/// A message with a text holds the header, the length of the text, and the
/// text; the header counts the two bytes of the length.
pub proof fn law_text_message_bytes(kind: MessageType, s: Seq<char>)
    requires
        vstd::utf8::encode_utf8(s).len() <= 0xfffd,
    ensures
        ({
            let b = vstd::utf8::encode_utf8(s);
            messages::text_message(kind, s) == seq![
                kind.byte(),
                byte_at(b.len() + 2, 1),
                byte_at(b.len() + 2, 256),
                byte_at(b.len(), 1),
                byte_at(b.len(), 256),
            ] + b
        }),
{
    let b = vstd::utf8::encode_utf8(s);
    law_header_bytes(kind, b.len() + 2);
    law_length_comes_first(b);
    assert(messages::text_message(kind, s) =~= seq![
        kind.byte(),
        byte_at(b.len() + 2, 1),
        byte_at(b.len() + 2, 256),
        byte_at(b.len(), 1),
        byte_at(b.len(), 256),
    ] + b);
}

/// A worker is told which clients it has by their number and then each of
/// them in four bytes.
pub proof fn law_sync_message_bytes(pids: Seq<u32>, i: int)
    requires
        pids.len() <= 16383,
        0 <= i < pids.len(),
    ensures
        ({
            let m = messages::sync_message(pids);
            let n = pids.len();
            &&& m.len() == 5 + 4 * n
            &&& m[0] == 80
            &&& m[1] == byte_at(2 + 4 * n, 1) && m[2] == byte_at(2 + 4 * n, 256)
            &&& m[3] == byte_at(n, 1) && m[4] == byte_at(n, 256)
            &&& m[5 + 4 * i] == byte_at(pids[i] as nat, 1)
            &&& m[6 + 4 * i] == byte_at(pids[i] as nat, 256)
            &&& m[7 + 4 * i] == byte_at(pids[i] as nat, 65536)
            &&& m[8 + 4 * i] == byte_at(pids[i] as nat, 16777216)
        }),
{
    let n = pids.len();
    law_header_bytes(MessageType::SyncClients, 2 + 4 * n);
    law_lowest_byte_first(n);
    lemma_pid_place(pids, i);
}

proof fn lemma_pid_place(pids: Seq<u32>, i: int)
    requires
        0 <= i < pids.len(),
    ensures
        messages::pid_bytes(pids).len() == 4 * pids.len(),
        messages::pid_bytes(pids)[4 * i] == byte_at(pids[i] as nat, 1),
        messages::pid_bytes(pids)[4 * i + 1] == byte_at(pids[i] as nat, 256),
        messages::pid_bytes(pids)[4 * i + 2] == byte_at(pids[i] as nat, 65536),
        messages::pid_bytes(pids)[4 * i + 3] == byte_at(pids[i] as nat, 16777216),
    decreases pids.len(),
{
    let front = pids.drop_last();
    law_lowest_byte_first(pids.last() as nat);
    if pids.len() == 1 {
        assert(front =~= Seq::empty());
        assert(messages::pid_bytes(front).len() == 0);
    } else if i < pids.len() - 1 {
        lemma_pid_place(front, i);
    } else {
        lemma_pid_place(front, 0);
    }
}

/// A notice holds the greeting, what it is about, and whom.
pub proof fn law_notice_bytes(about: Type, pid: u32)
    ensures
        streams::notice_bytes(about, pid) == seq![
            0x01u8,
            0x4Eu8,
            0x44u8,
            0x4Au8,
            about.byte(),
            byte_at(pid as nat, 1),
            byte_at(pid as nat, 256),
            byte_at(pid as nat, 65536),
            byte_at(pid as nat, 16777216),
        ],
{
    law_first_bytes();
    law_lowest_byte_first(pid as nat);
    assert(streams::notice_bytes(about, pid) =~= seq![
        0x01u8,
        0x4Eu8,
        0x44u8,
        0x4Au8,
        about.byte(),
        byte_at(pid as nat, 1),
        byte_at(pid as nat, 256),
        byte_at(pid as nat, 65536),
        byte_at(pid as nat, 16777216),
    ]);
}

/// Where the parts of a request stand: flags, the two processes, the
/// directory, the fingerprint, and the arguments behind their number.
pub proof fn law_request_bytes(d: RequestData, count: nat)
    requires
        d.cwd.len() <= 0xffff,
        count <= 0xffff,
    ensures
        ({
            let b = handshake::request_body(d, count);
            let n = d.cwd.len() as int;
            &&& b.len() == 24 + n + wire::counted_all(d.args).len()
            &&& b[0] == d.flags && b[1] == 0 && b[2] == 0 && b[3] == 0
            &&& b.subrange(4, 8) == wire::le(d.pid as nat, 4)
            &&& b.subrange(8, 12) == wire::le(d.ppid as nat, 4)
            &&& b[12] == byte_at(d.cwd.len(), 1) && b[13] == byte_at(d.cwd.len(), 256)
            &&& b.subrange(14, 14 + n) == d.cwd
            &&& b.subrange(14 + n, 22 + n) == wire::le(d.fingerprint as nat, 8)
            &&& b.subrange(22 + n, 24 + n) == wire::le(count, 2)
            &&& b.skip(24 + n) == wire::counted_all(d.args)
        }),
{
    let b = handshake::request_body(d, count);
    let n = d.cwd.len() as int;
    law_lowest_byte_first(d.pid as nat);
    law_lowest_byte_first(d.ppid as nat);
    law_lowest_byte_first(d.fingerprint as nat);
    law_lowest_byte_first(d.fingerprint as nat / 4294967296);
    law_lowest_byte_first(count);
    law_length_comes_first(d.cwd);
    assert(b.subrange(4, 8) =~= wire::le(d.pid as nat, 4));
    assert(b.subrange(8, 12) =~= wire::le(d.ppid as nat, 4));
    assert(b.subrange(14, 14 + n) =~= d.cwd);
    assert(b.subrange(14 + n, 22 + n) =~= wire::le(d.fingerprint as nat, 8));
    assert(b.subrange(22 + n, 24 + n) =~= wire::le(count, 2));
    assert(b.skip(24 + n) =~= wire::counted_all(d.args));
}

/// `part` stands in `b` from `at` on.
pub open spec fn stands_at(b: Seq<u8>, at: int, part: Seq<u8>) -> bool {
    0 <= at && at + part.len() <= b.len() && b.subrange(at, at + part.len()) == part
}

proof fn lemma_next_part(a: Seq<u8>, b: Seq<u8>, part: Seq<u8>, at: int)
    ensures
        stands_at(a + b, a.len() as int, b),
        stands_at(a, at, part) ==> stands_at(a + b, at, part),
{
    let all = a + b;
    assert(all.subrange(a.len() as int, all.len() as int) =~= b);
    if stands_at(a, at, part) {
        assert(all.subrange(at, at + part.len()) =~= a.subrange(at, at + part.len()));
    }
}

proof fn lemma_parts(
    a: Seq<u8>,
    b: Seq<u8>,
    c: Seq<u8>,
    d: Seq<u8>,
    e: Seq<u8>,
    f: Seq<u8>,
    g: Seq<u8>,
    h: Seq<u8>,
)
    ensures
        ({
            let all = a + b + c + d + e + f + g + h;
            let n = a.len() + b.len() + c.len();
            &&& stands_at(all, 0, a)
            &&& stands_at(all, a.len() as int, b)
            &&& stands_at(all, a.len() + b.len() as int, c)
            &&& stands_at(all, n as int, d)
            &&& stands_at(all, n + d.len() as int, e)
            &&& stands_at(all, n + d.len() + e.len() as int, f)
            &&& stands_at(all, n + d.len() + e.len() + f.len() as int, g)
            &&& stands_at(all, all.len() - h.len(), h)
            &&& all.len() == n + d.len() + e.len() + f.len() + g.len() + h.len()
        }),
{
    let s1 = a + b;
    let s2 = s1 + c;
    let s3 = s2 + d;
    let s4 = s3 + e;
    let s5 = s4 + f;
    let s6 = s5 + g;
    assert(a.subrange(0, a.len() as int) =~= a);
    lemma_next_part(a, b, a, 0);
    lemma_next_part(s1, c, a, 0);
    lemma_next_part(s1, c, b, a.len() as int);
    lemma_next_part(s2, d, a, 0);
    lemma_next_part(s2, d, b, a.len() as int);
    lemma_next_part(s2, d, c, s1.len() as int);
    lemma_next_part(s3, e, a, 0);
    lemma_next_part(s3, e, b, a.len() as int);
    lemma_next_part(s3, e, c, s1.len() as int);
    lemma_next_part(s3, e, d, s2.len() as int);
    lemma_next_part(s4, f, a, 0);
    lemma_next_part(s4, f, b, a.len() as int);
    lemma_next_part(s4, f, c, s1.len() as int);
    lemma_next_part(s4, f, d, s2.len() as int);
    lemma_next_part(s4, f, e, s3.len() as int);
    lemma_next_part(s5, g, a, 0);
    lemma_next_part(s5, g, b, a.len() as int);
    lemma_next_part(s5, g, c, s1.len() as int);
    lemma_next_part(s5, g, d, s2.len() as int);
    lemma_next_part(s5, g, e, s3.len() as int);
    lemma_next_part(s5, g, f, s4.len() as int);
    lemma_next_part(s6, h, a, 0);
    lemma_next_part(s6, h, b, a.len() as int);
    lemma_next_part(s6, h, c, s1.len() as int);
    lemma_next_part(s6, h, d, s2.len() as int);
    lemma_next_part(s6, h, e, s3.len() as int);
    lemma_next_part(s6, h, f, s4.len() as int);
    lemma_next_part(s6, h, g, s5.len() as int);
}

/// The flags of a client: whether it has a terminal, and whether it may not be
/// refused.
pub open spec fn is_flags(b: u8, tty: bool, force: bool) -> bool {
    &&& b < 4
    &&& b % 2 == 1 <==> tty
    &&& b >= 2 <==> force
}

/// What a worker is told of a client: its flags, its process and directory;
/// then its variables, switches, program and arguments, and at the end the
/// ports for its streams.
pub proof fn law_client_payload(c: ClientInfo)
    ensures
        ({
            let b = client_run::client_payload(c);
            let dir = wire::counted(vstd::utf8::encode_utf8(c.cwd@));
            let env = client_run::pairs_bytes(env_cache::var_views(c.env@));
            let switches = client_run::pairs_bytes(args::switch_views(c.switches@));
            let program = client_run::program_bytes(text::opt_str(c.program_file));
            let rest = client_run::texts_bytes(text::views(c.program_args@));
            let n = 5 + dir.len();
            &&& b.len() == n + env.len() + switches.len() + program.len() + rest.len() + 2
            &&& is_flags(b[0], c.tty, c.force)
            &&& stands_at(b, 1, wire::le(c.pid as nat, 4))
            &&& stands_at(b, 5, dir)
            &&& stands_at(b, n as int, env)
            &&& stands_at(b, n + env.len() as int, switches)
            &&& stands_at(b, n + env.len() + switches.len() as int, program)
            &&& stands_at(b, n + env.len() + switches.len() + program.len() as int, rest)
            &&& stands_at(b, b.len() - 2, wire::le(c.port_set as nat, 2))
        }),
{
    let flags = seq![
        ((if c.tty {
            1int
        } else {
            0
        }) + (if c.force {
            2int
        } else {
            0
        })) as u8,
    ];
    let dir = wire::counted(vstd::utf8::encode_utf8(c.cwd@));
    let env = client_run::pairs_bytes(env_cache::var_views(c.env@));
    let switches = client_run::pairs_bytes(args::switch_views(c.switches@));
    let program = client_run::program_bytes(text::opt_str(c.program_file));
    let rest = client_run::texts_bytes(text::views(c.program_args@));
    let pid = wire::le(c.pid as nat, 4);
    let ports = wire::le(c.port_set as nat, 2);
    wire::lemma_le_len(c.pid as nat, 4);
    wire::lemma_le_len(c.port_set as nat, 2);
    let b = flags + pid + dir + env + switches + program + rest + ports;
    lemma_parts(flags, pid, dir, env, switches, program, rest, ports);
    assert(b[0] == b.subrange(0, 1)[0]);
    assert(client_run::client_payload(c) == b);
}

/// `m` is a message: its byte, the length of what follows, and `b`.
pub open spec fn is_framed(m: Seq<u8>, kind: u8, b: Seq<u8>) -> bool {
    m == seq![kind, byte_at(b.len(), 1), byte_at(b.len(), 256)] + b
}

proof fn lemma_framed(kind: MessageType, b: Seq<u8>)
    requires
        b.len() <= 0xffff,
    ensures
        is_framed(messages::header(kind, b.len() % 0x1_0000) + b, kind.byte(), b),
{
    law_header_bytes(kind, b.len());
}

/// The message that brings a client to its worker.
#[verifier::spinoff_prover]
pub proof fn law_client_message(c: ClientInfo)
    requires
        client_run::client_payload(c).len() <= 0xffff,
    ensures
        is_framed(client_run::client_message(c), 32, client_run::client_payload(c)),
{
    lemma_framed(MessageType::ClientRun, client_run::client_payload(c));
}

/// A program is told by a one and its name, and its absence by a nought.
pub proof fn law_program_bytes(p: Seq<char>)
    ensures
        client_run::program_bytes(None) == seq![0u8],
        client_run::program_bytes(Some(p)) == seq![1u8] + wire::counted(
            vstd::utf8::encode_utf8(p),
        ),
{
}

// ---------------------------------------------------------------------
// Signals to the conductor
// ---------------------------------------------------------------------

/// The conductor ends when it is told to terminate or interrupted, opens its
/// socket again when it is asked to, and passes over all else.
pub proof fn law_signals_to_the_conductor(b: u8)
    ensures
        server::action_of('T' as u8) == Some(SignalAction::Shutdown),
        server::action_of('I' as u8) == Some(SignalAction::Shutdown),
        server::action_of('U' as u8) == Some(SignalAction::Rebind),
        b != 'T' as u8 && b != 'I' as u8 && b != 'U' as u8 ==> server::action_of(b) is None,
{
}

/// One signal after another is acted on, up to the first that ends the
/// conductor.
pub proof fn law_signals_are_acted_on_in_turn(b: u8, rest: Seq<u8>)
    ensures
        server::actions_of(Seq::empty()) == Seq::<SignalAction>::empty(),
        server::actions_of(seq![b] + rest) == match server::action_of(b) {
            Some(SignalAction::Shutdown) => seq![SignalAction::Shutdown],
            Some(SignalAction::Rebind) => seq![SignalAction::Rebind] + server::actions_of(rest),
            None => server::actions_of(rest),
        },
{
    assert((seq![b] + rest).drop_first() =~= rest);
}

/// An error that a worker answers with is a number and a text.
pub proof fn law_errors_are_read(code: u16, msg: Seq<char>, after: Seq<u8>)
    requires
        vstd::utf8::encode_utf8(msg).len() <= 0xffff,
    ensures
        client_run::error_of(
            wire::le(code as nat, 2) + wire::counted(vstd::utf8::encode_utf8(msg)) + after,
        ) == Some((code as nat, msg)),
        client_run::error_of(Seq::empty()) is None,
{
    let head = wire::le(code as nat, 2);
    let item = vstd::utf8::encode_utf8(msg);
    let b = head + wire::counted(item) + after;
    wire::lemma_le_len(code as nat, 2);
    wire::lemma_pow256();
    wire::law_le_round_trip(code as nat, 2);
    wire::law_counted_round_trip(head, item, after);
    assert(b.subrange(0, 2) =~= head);
    vstd::utf8::encode_utf8_valid_utf8(msg);
    vstd::utf8::encode_utf8_decode_utf8(msg);
}

/// Variables, switches and arguments stand behind their number.
pub proof fn law_numbers_come_first(pairs: Seq<(Seq<char>, Seq<char>)>, texts: Seq<Seq<char>>)
    requires
        pairs.len() <= 0xffff,
        texts.len() <= 0xffff,
    ensures
        client_run::pairs_bytes(pairs) == seq![
            byte_at(pairs.len(), 1),
            byte_at(pairs.len(), 256),
        ] + wire::counted_all(handshake::encode_all(handshake::flat(pairs))),
        client_run::texts_bytes(texts) == seq![
            byte_at(texts.len(), 1),
            byte_at(texts.len(), 256),
        ] + wire::counted_all(handshake::encode_all(texts)),
        handshake::env_bytes(pairs, pairs.len()) == client_run::pairs_bytes(pairs),
{
    law_lowest_byte_first(pairs.len());
    law_lowest_byte_first(texts.len());
}

/// Texts are sent in their order, each as its bytes.
pub proof fn law_texts_are_sent_in_order(texts: Seq<Seq<char>>, i: int)
    requires
        0 <= i < texts.len(),
    ensures
        handshake::encode_all(texts).len() == texts.len(),
        handshake::encode_all(texts)[i] == vstd::utf8::encode_utf8(texts[i]),
{
}

} // verus!
