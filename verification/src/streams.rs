//! Where a client finds its four streams, and the notices that tell the
//! conductor what has become of a client.

use crate::client_run;
use crate::handshake;
use crate::handshake::lossy_texts;
use crate::protocol;
use crate::protocol::notification::Type;
use crate::protocol::{parse_address, ParsedAddress, TransportMode};
use crate::text;
use crate::text::{join2, owned, rfind_char, skip, starts_with_char, take};
use crate::wire;
use crate::wire::{push_counted, push_le, read_counted, read_le, read_list, Read, Scan};
use crate::worker::SocketPaths;
use vstd::prelude::*;

verus! {

// ---------------------------------------------------------------------
// What the conductor sends
// ---------------------------------------------------------------------

/// A path as a client is told of it: of a network address only what begins at
/// its last colon, since the client knows the host.
pub open spec fn offered(transport: TransportMode, path: Seq<char>) -> Seq<char> {
    if transport == TransportMode::Tcp && text::rfind(path, ':') >= 0 {
        path.skip(text::rfind(path, ':'))
    } else {
        path
    }
}

/// The bytes of paths.
pub open spec fn paths_bytes(paths: Seq<Seq<char>>) -> Seq<u8> {
    wire::counted_all(handshake::encode_all(paths))
}

pub fn offer(transport: TransportMode, path: &str) -> (r: String)
    ensures
        r@ == offered(transport, path@),
{
    if transport == TransportMode::Tcp {
        match rfind_char(path, ':') {
            Some(pos) => owned(skip(path, pos)),
            None => owned(path),
        }
    } else {
        owned(path)
    }
}

/// The bytes that tell a client where its streams are.
pub fn encode_paths(paths: &[String; 4]) -> (r: Vec<u8>)
    ensures
        r@ == paths_bytes(text::views(paths@)),
{
    let mut out: Vec<u8> = Vec::new();
    push_counted(&mut out, paths[0].as_str().as_bytes());
    push_counted(&mut out, paths[1].as_str().as_bytes());
    push_counted(&mut out, paths[2].as_str().as_bytes());
    push_counted(&mut out, paths[3].as_str().as_bytes());
    proof {
        let items = handshake::encode_all(text::views(paths@));
        assert(items.len() == 4);
        assert(items.drop_last().drop_last().drop_last().drop_last() =~= Seq::empty());
        reveal_with_fuel(wire::counted_all, 5);
        assert(items.last() == items[3]);
        assert(items.drop_last().last() == items[2]);
        assert(items.drop_last().drop_last().last() == items[1]);
        assert(items.drop_last().drop_last().drop_last().last() == items[0]);
        assert(out@ =~= wire::counted_all(items));
    }
    out
}

/// The bytes that tell a client where the streams that a worker has opened
/// for it are.
pub fn encode_socket_paths(transport: TransportMode, paths: &SocketPaths) -> (r: Vec<u8>)
    ensures
        r@ == paths_bytes(
            Seq::new(4, |i: int| offered(transport, client_run::path_texts(*paths)[i])),
        ),
{
    let all = [
        offer(transport, paths.stdin.as_str()),
        offer(transport, paths.stdout.as_str()),
        offer(transport, paths.stderr.as_str()),
        offer(transport, paths.signals.as_str()),
    ];
    assert(text::views(all@) =~= Seq::new(
        4,
        |i: int| offered(transport, client_run::path_texts(*paths)[i]),
    ));
    encode_paths(&all)
}

// ---------------------------------------------------------------------
// What the client reads
// ---------------------------------------------------------------------

/// Whether the first byte from the conductor asks for the environment. Any
/// other byte is the first of the first path's length.
pub fn is_env_request(first: u8) -> (r: bool)
    ensures
        r == (first == protocol::client::ENV_REQUEST),
{
    first == protocol::client::ENV_REQUEST
}

/// Reads the four paths.
pub fn decode_paths(b: &[u8]) -> (r: Read<Vec<String>>)
    ensures
        match r {
            Read::Done(paths) => {
                &&& wire::scan_list(b@, 0, 4) matches Scan::Done(items, end)
                &&& text::views(paths@) == handshake::lossy_all(items)
                &&& forall|i: int|
                    0 <= i < 4 && vstd::utf8::valid_utf8(items[i]) ==> (#[trigger] paths@[i])@
                        == vstd::utf8::decode_utf8(items[i])
            },
            Read::More(n) => n > 0 && wire::scan_list(b@, 0, 4) == Scan::<Seq<Seq<u8>>>::More(
                n as int,
            ),
        },
{
    match read_list(b, 0, 4) {
        Read::More(n) => Read::More(n),
        Read::Done((items, end)) => {
            let paths = lossy_texts(items.as_slice());
            assert(paths@.len() == text::views(paths@).len());
            Read::Done(paths)
        },
    }
}

/// The byte strings that stand whole in `b` from `at` on, `n` at most.
pub open spec fn whole_items(b: Seq<u8>, at: int, n: nat) -> Seq<Seq<u8>>
    decreases n,
{
    if n == 0 {
        Seq::empty()
    } else {
        match wire::scan_counted(b, at) {
            Scan::Done(item, end) => seq![item] + whole_items(b, end, (n - 1) as nat),
            Scan::More(k) => Seq::empty(),
        }
    }
}

/// The four paths where the stream has ended after `b`: those that stand
/// whole, and empty ones in place of the rest.
pub open spec fn paths_at_end(b: Seq<u8>) -> Seq<Seq<char>> {
    let items = whole_items(b, 0, 4);
    Seq::new(
        4,
        |i: int|
            if i < items.len() {
                handshake::lossy(items[i])
            } else {
                Seq::empty()
            },
    )
}

proof fn lemma_whole_items_len(b: Seq<u8>, at: int, n: nat)
    ensures
        whole_items(b, at, n).len() <= n,
    decreases n,
{
    if n > 0 {
        match wire::scan_counted(b, at) {
            Scan::Done(item, end) => {
                lemma_whole_items_len(b, end, (n - 1) as nat);
            },
            Scan::More(k) => {},
        }
    }
}

/// Reads the four paths from a stream that has ended.
pub fn decode_paths_at_end(b: &[u8]) -> (r: Vec<String>)
    ensures
        text::views(r@) == paths_at_end(b@),
{
    let ghost all = whole_items(b@, 0, 4);
    let mut items: Vec<Vec<u8>> = Vec::new();
    let mut at: usize = 0;
    let mut cut: bool = false;
    proof {
        lemma_whole_items_len(b@, 0, 4);
    }
    assert(wire::byte_views(items@) + all =~= all);
    while items.len() < 4 && !cut
        invariant
            items@.len() <= 4,
            at <= b@.len(),
            all == whole_items(b@, 0, 4),
            !cut ==> all == wire::byte_views(items@) + whole_items(
                b@,
                at as int,
                (4 - items@.len()) as nat,
            ),
            cut ==> all == wire::byte_views(items@),
        decreases (4 - items@.len()) + (if cut { 0int } else { 1int }),
    {
        match read_counted(b, at) {
            Read::More(n) => {
                cut = true;
                assert(wire::byte_views(items@) + Seq::<Seq<u8>>::empty() =~= wire::byte_views(
                    items@,
                ));
            },
            Read::Done((item, end)) => {
                let ghost before = wire::byte_views(items@);
                let ghost one = item@;
                let ghost rest = whole_items(b@, end as int, (3 - items@.len()) as nat);
                items.push(item);
                assert(wire::byte_views(items@) =~= before.push(one));
                assert(before + (seq![one] + rest) =~= before.push(one) + rest);
                at = end;
            },
        }
    }
    assert(wire::byte_views(items@) =~= all);
    let mut paths = lossy_texts(items.as_slice());
    assert(paths@.len() == text::views(paths@).len());
    let ghost known = text::views(paths@);
    while paths.len() < 4
        invariant
            known.len() <= paths@.len() <= 4,
            forall|i: int| 0 <= i < known.len() ==> (#[trigger] paths@[i])@ == known[i],
            forall|i: int|
                known.len() <= i < paths@.len() ==> (#[trigger] paths@[i])@ == Seq::<
                    char,
                >::empty(),
        decreases 4 - paths@.len(),
    {
        paths.push(String::new());
    }
    assert(text::views(paths@) =~= paths_at_end(b@));
    paths
}

/// The host of the conductor: what stands before the last colon of its
/// address.
pub fn conductor_host(addr: &str) -> (r: String)
    ensures
        r@ == protocol::host_of(addr@),
{
    match rfind_char(addr, ':') {
        Some(pos) => owned(take(addr, pos)),
        None => owned(addr),
    }
}

/// A path as the client dials it: over the network, what begins with a colon
/// is a port of the conductor's host.
pub open spec fn dialled(raw: Seq<char>, is_tcp: bool, host: Seq<char>) -> Seq<char> {
    if is_tcp && raw.len() > 0 && raw[0] == ':' {
        host + raw
    } else {
        raw
    }
}

/// The address of a stream.
pub fn stream_address(raw: &str, is_tcp: bool, host: &str) -> (r: Result<ParsedAddress, String>)
    ensures
        match r {
            Ok(a) => protocol::address_of(dialled(raw@, is_tcp, host@)) == Some((a.mode, a.addr@)),
            Err(e) => protocol::address_of(dialled(raw@, is_tcp, host@)) is None && e@
                == "Unsupported scheme in '"@ + dialled(raw@, is_tcp, host@) + "'"@,
        },
{
    if is_tcp && starts_with_char(raw, ':') {
        let addr = join2(host, raw);
        parse_address(addr.as_str())
    } else {
        parse_address(raw)
    }
}

// ---------------------------------------------------------------------
// Laws
// ---------------------------------------------------------------------

/// The client reads the paths that the conductor sent. A first path whose
/// length has the request for an environment as its low byte is the one that
/// cannot be told apart from that request.
pub proof fn law_paths_round_trip(paths: Seq<Seq<char>>)
    requires
        paths.len() == 4,
        forall|i: int|
            0 <= i < 4 ==> vstd::utf8::encode_utf8(#[trigger] paths[i]).len() < 0x1_0000,
        vstd::utf8::encode_utf8(paths[0]).len() % 0x100 != protocol::client::ENV_REQUEST,
    ensures
        paths_bytes(paths)[0] != protocol::client::ENV_REQUEST,
        wire::scan_list(paths_bytes(paths), 0, 4) == Scan::Done(
            handshake::encode_all(paths),
            paths_bytes(paths).len() as int,
        ),
        forall|i: int|
            0 <= i < 4 ==> vstd::utf8::valid_utf8(handshake::encode_all(paths)[i])
                && vstd::utf8::decode_utf8(handshake::encode_all(paths)[i]) == #[trigger] paths[i],
{
    let items = handshake::encode_all(paths);
    let b = paths_bytes(paths);
    assert forall|i: int| 0 <= i < items.len() implies (#[trigger] items[i]).len()
        < 0x1_0000 by {
        assert(items[i] == vstd::utf8::encode_utf8(paths[i]));
    }
    wire::law_list_round_trip(Seq::empty(), items, Seq::empty());
    assert(Seq::<u8>::empty() + b + Seq::<u8>::empty() =~= b);
    assert forall|i: int| 0 <= i < 4 implies vstd::utf8::valid_utf8(items[i])
        && vstd::utf8::decode_utf8(items[i]) == #[trigger] paths[i] by {
        handshake::law_texts_survive(paths, i);
    }
    lemma_first_bytes(items);
}

/// What a list of byte strings begins with: the low byte of the length of the
/// first.
proof fn lemma_first_bytes(items: Seq<Seq<u8>>)
    requires
        items.len() > 0,
    ensures
        wire::counted_all(items).len() > 0,
        wire::counted_all(items)[0] == items[0].len() % 0x100,
    decreases items.len(),
{
    let n = (items.last().len() % 0x1_0000) as nat;
    wire::lemma_le_len(n, 2);
    if items.len() > 1 {
        lemma_first_bytes(items.drop_last());
    } else {
        assert(wire::counted_all(items.drop_last()).len() == 0);
        assert(wire::le(n, 2)[0] == (n % 256) as u8);
        assert(wire::counted_all(items)[0] == wire::le(n, 2)[0]);
        assert(n % 256 == items[0].len() % 0x100) by (nonlinear_arith)
            requires
                n == items[0].len() % 0x1_0000,
        ;
    }
}

/// Over the network, a stream that a worker opens at some port is dialled at
/// that port of the host that the client knows.
pub proof fn law_streams_are_dialled_at_their_port(bind: Seq<char>, port: nat, host: Seq<char>)
    requires
        port <= 0xffff,
    ensures
        dialled(
            offered(TransportMode::Tcp, protocol::host_port_text(bind, port)),
            true,
            host,
        ) == protocol::host_port_text(host, port),
{
    reveal_strlit(":");
    crate::numeric::lemma_decimal(port);
    let path = protocol::host_port_text(bind, port);
    let n = bind.len() as int;
    assert(path[n] == ':');
    assert forall|j: int| n < j < path.len() implies path[j] != ':' by {
        assert(path[j] == crate::numeric::decimal(port)[j - n - 1]);
    }
    text::lemma_rfind_is(path, ':', n);
    assert(path.skip(n) =~= ":"@ + crate::numeric::decimal(port));
    assert(host + path.skip(n) =~= protocol::host_port_text(host, port));
}

// ---------------------------------------------------------------------
// Greetings and notices
// ---------------------------------------------------------------------

/// What a connection to the conductor is for, by its first four bytes.
#[derive(Clone, Copy, Debug, PartialEq, Eq, Structural)]
pub enum Greeting {
    Client,
    Notification,
    Unknown(u32),
}

pub open spec fn greeting_of(magic: nat) -> Greeting {
    if magic == protocol::client::MAGIC {
        Greeting::Client
    } else if magic == protocol::notification::MAGIC {
        Greeting::Notification
    } else {
        Greeting::Unknown(magic as u32)
    }
}

pub fn classify_magic(b: &[u8; 4]) -> (r: Greeting)
    ensures
        r == greeting_of(wire::of_le(b@)),
{
    let mut bytes: Vec<u8> = Vec::new();
    bytes.push(b[0]);
    bytes.push(b[1]);
    bytes.push(b[2]);
    bytes.push(b[3]);
    assert(bytes@ =~= b@);
    assert(b@.subrange(0, 4) =~= b@);
    proof {
        wire::lemma_pow256();
    }
    let magic: u32 = read_le(bytes.as_slice(), 0, 4) as u32;
    if magic == protocol::client::MAGIC {
        Greeting::Client
    } else if magic == protocol::notification::MAGIC {
        Greeting::Notification
    } else {
        Greeting::Unknown(magic)
    }
}

/// The bytes of a notice about the process `pid`.
pub open spec fn notice_bytes(about: Type, pid: u32) -> Seq<u8> {
    wire::le(protocol::notification::MAGIC as nat, 4) + seq![about.byte()] + wire::le(
        pid as nat,
        4,
    )
}

/// The notice of a client that is gone.
pub fn encode_notice(about: Type, pid: u32) -> (r: Vec<u8>)
    ensures
        r@ == notice_bytes(about, pid),
{
    let mut out: Vec<u8> = Vec::new();
    push_le(&mut out, protocol::notification::MAGIC as u64, 4);
    out.push(about.to_u8());
    push_le(&mut out, pid as u64, 4);
    assert(out@ =~= notice_bytes(about, pid));
    out
}

/// A notice from the five bytes behind its magic number: what it is about,
/// where that has a meaning, and whom.
pub fn decode_notice(b: &[u8; 5]) -> (r: (Option<Type>, u32))
    ensures
        r.0 matches Some(t) ==> t.byte() == b[0],
        r.0 is None <==> !(1 <= b[0] <= 5),
        r.1 == wire::of_le(b@.subrange(1, 5)),
{
    let mut bytes: Vec<u8> = Vec::new();
    bytes.push(b[1]);
    bytes.push(b[2]);
    bytes.push(b[3]);
    bytes.push(b[4]);
    assert(bytes@ =~= b@.subrange(1, 5));
    assert(bytes@.subrange(0, 4) =~= bytes@);
    proof {
        wire::lemma_pow256();
    }
    (Type::from_u8(b[0]), read_le(bytes.as_slice(), 0, 4) as u32)
}

/// A notice is read as it was written, and no notice is taken for a request.
pub proof fn law_notice_round_trip(about: Type, pid: u32)
    ensures
        notice_bytes(about, pid).len() == 9,
        greeting_of(wire::of_le(notice_bytes(about, pid).subrange(0, 4))) == Greeting::Notification,
        notice_bytes(about, pid)[4] == about.byte(),
        1 <= about.byte() <= 5,
        wire::of_le(notice_bytes(about, pid).subrange(5, 9)) == pid,
{
    wire::lemma_pow256();
    wire::law_le_round_trip(protocol::notification::MAGIC as nat, 4);
    wire::law_le_round_trip(pid as nat, 4);
    let b = notice_bytes(about, pid);
    assert(b.subrange(0, 4) =~= wire::le(protocol::notification::MAGIC as nat, 4));
    assert(b.subrange(5, 9) =~= wire::le(pid as nat, 4));
}

} // verus!
