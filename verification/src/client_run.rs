//! Handing a client to a worker: what the conductor sends, and the streams
//! that come back.

use crate::args;
use crate::args::Switch;
use crate::env_cache;
use crate::env_cache::EnvVar;
use crate::handshake;
use crate::messages;
use crate::messages::push_header;
use crate::protocol::worker::{Flags, MessageType};
use crate::text;
use crate::text::owned;
use crate::wire;
use crate::wire::{push_bytes, push_counted, push_le, read_counted, read_le, Read, Scan};
use crate::worker::{ClientInfo, SocketPaths};
use vstd::prelude::*;

verus! {

/// `std::str::from_utf8`: the text of bytes that are UTF-8, and no text for
/// bytes that are not.
#[verifier::external_body]
fn utf8_text(bytes: &[u8]) -> (r: Option<String>)
    ensures
        match r {
            Some(s) => vstd::utf8::valid_utf8(bytes@) && s@ == vstd::utf8::decode_utf8(bytes@),
            None => !vstd::utf8::valid_utf8(bytes@),
        },
{
    match std::str::from_utf8(bytes) {
        Ok(s) => Some(s.to_string()),
        Err(_) => None,
    }
}

// ---------------------------------------------------------------------
// The client
// ---------------------------------------------------------------------

/// The program file, behind a byte that says whether there is one.
pub open spec fn program_bytes(program_file: Option<Seq<char>>) -> Seq<u8> {
    match program_file {
        Some(p) => seq![1u8] + wire::counted(vstd::utf8::encode_utf8(p)),
        None => seq![0u8],
    }
}

/// A list of pairs of texts behind the number of pairs.
pub open spec fn pairs_bytes(pairs: Seq<(Seq<char>, Seq<char>)>) -> Seq<u8> {
    wire::le(pairs.len() % 0x1_0000, 2) + wire::counted_all(
        handshake::encode_all(handshake::flat(pairs)),
    )
}

/// A list of texts behind its length.
pub open spec fn texts_bytes(texts: Seq<Seq<char>>) -> Seq<u8> {
    wire::le(texts.len() % 0x1_0000, 2) + wire::counted_all(handshake::encode_all(texts))
}

/// What the worker is told of a client.
pub open spec fn client_payload(c: ClientInfo) -> Seq<u8> {
    seq![
        ((if c.tty {
            1int
        } else {
            0
        }) + (if c.force {
            2int
        } else {
            0
        })) as u8,
    ] + wire::le(c.pid as nat, 4) + wire::counted(vstd::utf8::encode_utf8(c.cwd@)) + pairs_bytes(
        env_cache::var_views(c.env@),
    ) + pairs_bytes(args::switch_views(c.switches@)) + program_bytes(
        text::opt_str(c.program_file),
    ) + texts_bytes(text::views(c.program_args@)) + wire::le(c.port_set as nat, 2)
}

/// The message that hands a client to a worker. Its header holds the low
/// sixteen bits of the length of what follows.
pub open spec fn client_message(c: ClientInfo) -> Seq<u8> {
    messages::header(MessageType::ClientRun, client_payload(c).len() % 0x1_0000) + client_payload(
        c,
    )
}

/// One pair more behind those of a list.
proof fn lemma_flat_push(pairs: Seq<(Seq<char>, Seq<char>)>, one: (Seq<char>, Seq<char>))
    ensures
        wire::counted_all(handshake::encode_all(handshake::flat(pairs.push(one))))
            == wire::counted_all(handshake::encode_all(handshake::flat(pairs))) + wire::counted(
            vstd::utf8::encode_utf8(one.0),
        ) + wire::counted(vstd::utf8::encode_utf8(one.1)),
{
    let before = handshake::encode_all(handshake::flat(pairs));
    let mid = before.push(vstd::utf8::encode_utf8(one.0));
    let after = handshake::encode_all(handshake::flat(pairs.push(one)));
    assert(after =~= mid.push(vstd::utf8::encode_utf8(one.1)));
    assert(after.drop_last() =~= mid);
    assert(mid.drop_last() =~= before);
    assert(wire::counted_all(mid) == wire::counted_all(before) + wire::counted(mid.last()));
    assert(wire::counted_all(after) == wire::counted_all(mid) + wire::counted(after.last()));
}

fn push_vars(out: &mut Vec<u8>, vars: &[EnvVar])
    ensures
        final(out)@ == old(out)@ + pairs_bytes(env_cache::var_views(vars@)),
{
    push_le(out, (vars.len() % 0x1_0000) as u64, 2);
    let ghost head = out@;
    let ghost all = env_cache::var_views(vars@);
    let mut i: usize = 0;
    assert(handshake::encode_all(handshake::flat(all.take(0))) =~= Seq::empty());
    assert(head + wire::counted_all(Seq::empty()) =~= head);
    while i < vars.len()
        invariant
            i <= vars@.len(),
            all == env_cache::var_views(vars@),
            out@ == head + wire::counted_all(
                handshake::encode_all(handshake::flat(all.take(i as int))),
            ),
        decreases vars@.len() - i,
    {
        push_counted(out, vars[i].key.as_str().as_bytes());
        push_counted(out, vars[i].value.as_str().as_bytes());
        proof {
            lemma_flat_push(all.take(i as int), all[i as int]);
            assert(all.take(i as int).push(all[i as int]) =~= all.take(i + 1));
            assert(out@ =~= head + wire::counted_all(
                handshake::encode_all(handshake::flat(all.take(i + 1))),
            ));
        }
        i = i + 1;
    }
    assert(all.take(i as int) =~= all);
    assert(out@ =~= old(out)@ + pairs_bytes(all));
}

fn push_switches(out: &mut Vec<u8>, switches: &[Switch])
    ensures
        final(out)@ == old(out)@ + pairs_bytes(args::switch_views(switches@)),
{
    push_le(out, (switches.len() % 0x1_0000) as u64, 2);
    let ghost head = out@;
    let ghost all = args::switch_views(switches@);
    let mut i: usize = 0;
    assert(handshake::encode_all(handshake::flat(all.take(0))) =~= Seq::empty());
    assert(head + wire::counted_all(Seq::empty()) =~= head);
    while i < switches.len()
        invariant
            i <= switches@.len(),
            all == args::switch_views(switches@),
            out@ == head + wire::counted_all(
                handshake::encode_all(handshake::flat(all.take(i as int))),
            ),
        decreases switches@.len() - i,
    {
        push_counted(out, switches[i].name.as_str().as_bytes());
        push_counted(out, switches[i].value.as_str().as_bytes());
        proof {
            lemma_flat_push(all.take(i as int), all[i as int]);
            assert(all.take(i as int).push(all[i as int]) =~= all.take(i + 1));
            assert(out@ =~= head + wire::counted_all(
                handshake::encode_all(handshake::flat(all.take(i + 1))),
            ));
        }
        i = i + 1;
    }
    assert(all.take(i as int) =~= all);
    assert(out@ =~= old(out)@ + pairs_bytes(all));
}

fn push_texts(out: &mut Vec<u8>, texts: &[String])
    ensures
        final(out)@ == old(out)@ + texts_bytes(text::views(texts@)),
{
    push_le(out, (texts.len() % 0x1_0000) as u64, 2);
    let ghost head = out@;
    let ghost all = text::views(texts@);
    let mut i: usize = 0;
    assert(handshake::encode_all(all.take(0)) =~= Seq::empty());
    assert(head + wire::counted_all(Seq::empty()) =~= head);
    while i < texts.len()
        invariant
            i <= texts@.len(),
            all == text::views(texts@),
            out@ == head + wire::counted_all(handshake::encode_all(all.take(i as int))),
        decreases texts@.len() - i,
    {
        push_counted(out, texts[i].as_str().as_bytes());
        proof {
            let grown = handshake::encode_all(all.take(i + 1));
            assert(grown.drop_last() =~= handshake::encode_all(all.take(i as int)));
            assert(out@ =~= head + wire::counted_all(grown));
        }
        i = i + 1;
    }
    assert(all.take(i as int) =~= all);
    assert(out@ =~= old(out)@ + texts_bytes(all));
}

/// The message that hands `info` to a worker.
pub fn encode_client_run(info: &ClientInfo) -> (r: Vec<u8>)
    ensures
        r@ == client_message(*info),
{
    let mut payload: Vec<u8> = Vec::new();
    payload.push(Flags::new(info.tty, info.force));
    push_le(&mut payload, info.pid as u64, 4);
    push_counted(&mut payload, info.cwd.as_bytes());
    push_vars(&mut payload, info.env);
    push_switches(&mut payload, info.switches);
    let ghost head = payload@;
    match info.program_file {
        Some(p) => {
            payload.push(1);
            push_counted(&mut payload, p.as_bytes());
        },
        None => {
            payload.push(0);
        },
    }
    assert(payload@ =~= head + program_bytes(text::opt_str(info.program_file)));
    push_texts(&mut payload, info.program_args);
    push_le(&mut payload, info.port_set as u64, 2);
    assert(payload@ =~= client_payload(*info));
    let mut out: Vec<u8> = Vec::new();
    push_header(&mut out, MessageType::ClientRun, (payload.len() % 0x1_0000) as u16);
    push_bytes(&mut out, payload.as_slice());
    assert(out@ =~= client_message(*info));
    out
}

// ---------------------------------------------------------------------
// The streams
// ---------------------------------------------------------------------

/// What a worker answers: how many clients it has now, and the four streams
/// of the new one, or none where it has no room.
pub struct SocketsReply {
    pub active: u32,
    pub paths: Option<SocketPaths>,
}

/// The text of bytes that are UTF-8, or no text at all.
pub open spec fn strict_text(b: Seq<u8>) -> Seq<char> {
    if vstd::utf8::valid_utf8(b) {
        vstd::utf8::decode_utf8(b)
    } else {
        Seq::empty()
    }
}

/// The four streams of an answer.
pub open spec fn path_texts(p: SocketPaths) -> Seq<Seq<char>> {
    seq![p.stdin@, p.stdout@, p.stderr@, p.signals@]
}

/// The number of clients in an answer.
pub open spec fn reply_active(b: Seq<u8>) -> nat {
    wire::of_le(b.subrange(0, 4))
}

/// The length of the first path of an answer.
pub open spec fn first_path_len(b: Seq<u8>) -> nat {
    wire::of_le(b.subrange(4, 6))
}

/// The answer holds all that it announces: without room for the client the
/// number of clients and an empty path, and four paths otherwise.
pub open spec fn whole_reply(b: Seq<u8>) -> bool {
    &&& b.len() >= 6
    &&& first_path_len(b) > 0 ==> wire::scan_list(b, 4, 4) is Done
}

/// The four paths of an answer.
pub open spec fn reply_paths(b: Seq<u8>) -> Seq<Seq<char>> {
    match wire::scan_list(b, 4, 4) {
        Scan::Done(items, end) => Seq::new(4, |i: int| strict_text(items[i])),
        Scan::More(n) => Seq::empty(),
    }
}

fn strict(b: &[u8]) -> (r: String)
    ensures
        r@ == strict_text(b@),
{
    match utf8_text(b) {
        Some(s) => s,
        None => String::new(),
    }
}

/// Reads the answer to a client; `None` where it is cut short.
pub fn decode_sockets(b: &[u8]) -> (r: Option<SocketsReply>)
    ensures
        match r {
            Some(reply) => {
                &&& whole_reply(b@)
                &&& reply.active == reply_active(b@)
                &&& match reply.paths {
                    Some(p) => first_path_len(b@) > 0 && path_texts(p) == reply_paths(b@),
                    None => first_path_len(b@) == 0,
                }
            },
            None => !whole_reply(b@),
        },
{
    if b.len() < 6 {
        return None;
    }
    proof {
        wire::lemma_pow256();
    }
    let active: u32 = read_le(b, 0, 4) as u32;
    if read_le(b, 4, 2) == 0 {
        return Some(SocketsReply { active, paths: None });
    }
    match wire::read_list(b, 4, 4) {
        Read::More(n) => None,
        Read::Done((items, end)) => {
            let paths = SocketPaths {
                stdin: strict(items[0].as_slice()),
                stdout: strict(items[1].as_slice()),
                stderr: strict(items[2].as_slice()),
                signals: strict(items[3].as_slice()),
            };
            assert(path_texts(paths) =~= reply_paths(b@));
            Some(SocketsReply { active, paths: Some(paths) })
        },
    }
}

/// An answer with the bytes of four paths.
pub open spec fn sockets_payload(active: u32, paths: Seq<Seq<char>>) -> Seq<u8> {
    wire::le(active as nat, 4) + wire::counted_all(handshake::encode_all(paths))
}

/// The conductor reads the number and the paths that a worker sends.
pub proof fn law_sockets_round_trip(active: u32, paths: Seq<Seq<char>>)
    requires
        paths.len() == 4,
        forall|i: int|
            0 <= i < 4 ==> vstd::utf8::encode_utf8(#[trigger] paths[i]).len() < 0x1_0000,
        paths[0].len() > 0,
    ensures
        whole_reply(sockets_payload(active, paths)),
        reply_active(sockets_payload(active, paths)) == active,
        first_path_len(sockets_payload(active, paths)) > 0,
        reply_paths(sockets_payload(active, paths)) == paths,
{
    wire::lemma_pow256();
    wire::law_le_round_trip(active as nat, 4);
    let items = handshake::encode_all(paths);
    let head = wire::le(active as nat, 4);
    let b = sockets_payload(active, paths);
    assert forall|i: int| 0 <= i < items.len() implies (#[trigger] items[i]).len()
        < 0x1_0000 by {
        assert(items[i] == vstd::utf8::encode_utf8(paths[i]));
    }
    wire::law_list_round_trip(head, items, Seq::empty());
    assert(head + wire::counted_all(items) + Seq::<u8>::empty() =~= b);
    assert(b.subrange(0, 4) =~= head);
    assert forall|i: int| 0 <= i < 4 implies #[trigger] reply_paths(b)[i] == paths[i] by {
        assert(items[i] == vstd::utf8::encode_utf8(paths[i]));
        vstd::utf8::encode_utf8_valid_utf8(paths[i]);
        vstd::utf8::encode_utf8_decode_utf8(paths[i]);
    }
    assert(reply_paths(b) =~= paths);
    reveal_with_fuel(wire::scan_list, 5);
    assert(wire::scan_counted(b, 4) == Scan::Done(items[0], 6 + items[0].len() as int));
    vstd::utf8::encode_utf8_first_scalar(paths[0]);
    vstd::utf8::encode_utf8_decode_utf8(paths[0]);
    assert(items[0].len() > 0);
}

// ---------------------------------------------------------------------
// Errors
// ---------------------------------------------------------------------

/// The code and the text of a worker's error, where it holds both; `?` stands
/// for a text that is not UTF-8.
pub open spec fn error_of(b: Seq<u8>) -> Option<(nat, Seq<char>)> {
    if b.len() < 2 {
        None
    } else {
        match wire::scan_counted(b, 2) {
            Scan::Done(msg, end) => Some(
                (
                    wire::of_le(b.subrange(0, 2)),
                    if vstd::utf8::valid_utf8(msg) {
                        vstd::utf8::decode_utf8(msg)
                    } else {
                        "?"@
                    },
                ),
            ),
            Scan::More(n) => None,
        }
    }
}

pub fn decode_error(b: &[u8]) -> (r: Option<(u16, String)>)
    ensures
        match r {
            Some((code, msg)) => error_of(b@) == Some((code as nat, msg@)),
            None => error_of(b@) is None,
        },
{
    if b.len() < 2 {
        return None;
    }
    proof {
        wire::lemma_pow256();
    }
    let code: u16 = read_le(b, 0, 2) as u16;
    match read_counted(b, 2) {
        Read::More(n) => None,
        Read::Done((msg, end)) => {
            let msg = match utf8_text(msg.as_slice()) {
                Some(s) => s,
                None => owned("?"),
            };
            Some((code, msg))
        },
    }
}

} // verus!
