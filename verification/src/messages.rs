//! What the conductor and a worker say to each other: a byte for the kind of
//! message, two for the length of what follows, and that.

use crate::protocol::worker::{MessageType, MAGIC};
use crate::wire;
use crate::wire::{push_counted, push_le, read_le, Read, Scan};
use vstd::prelude::*;

verus! {

// ---------------------------------------------------------------------
// Headers
// ---------------------------------------------------------------------

/// The header of a message of `len` bytes.
pub open spec fn header(kind: MessageType, len: nat) -> Seq<u8> {
    seq![kind.byte()] + wire::le(len, 2)
}

/// Appends a header to `out`.
pub(crate) fn push_header(out: &mut Vec<u8>, kind: MessageType, len: u16)
    ensures
        final(out)@ == old(out)@ + header(kind, len as nat),
{
    out.push(kind.to_u8());
    push_le(out, len as u64, 2);
    assert(out@ =~= old(out)@ + header(kind, len as nat));
}

/// A message without content.
pub fn encode_header(kind: MessageType) -> (r: Vec<u8>)
    ensures
        r@ == header(kind, 0),
{
    let mut out: Vec<u8> = Vec::new();
    push_header(&mut out, kind, 0);
    assert(out@ =~= header(kind, 0));
    out
}

/// The kind of a message, and the length of what follows, from a header.
pub open spec fn header_kind(b: Seq<u8>) -> u8 {
    b[0]
}

pub open spec fn header_len(b: Seq<u8>) -> nat {
    wire::of_le(b.subrange(1, 3))
}

/// Reads the three bytes of a header.
pub fn decode_header(b: &[u8; 3]) -> (r: (MessageType, u16))
    ensures
        crate::protocol::worker::known(header_kind(b@)) ==> r.0.byte() == header_kind(b@),
        r.0 == MessageType::Error <==> !crate::protocol::worker::known(header_kind(b@)),
        r.1 == header_len(b@),
{
    let mut bytes: Vec<u8> = Vec::new();
    bytes.push(b[0]);
    bytes.push(b[1]);
    bytes.push(b[2]);
    assert(bytes@ =~= b@);
    proof {
        wire::lemma_pow256();
    }
    (MessageType::from_u8(b[0]), read_le(bytes.as_slice(), 1, 2) as u16)
}

/// A header is read as it was written.
pub proof fn law_header_round_trip(kind: MessageType, len: nat)
    requires
        len < 0x1_0000,
    ensures
        header(kind, len).len() == 3,
        header_kind(header(kind, len)) == kind.byte(),
        header_len(header(kind, len)) == len,
{
    wire::lemma_pow256();
    wire::law_le_round_trip(len, 2);
    assert(header(kind, len).subrange(1, 3) =~= wire::le(len, 2));
}

/// The bytes that open a connection to a worker.
pub fn encode_magic() -> (r: Vec<u8>)
    ensures
        r@ == wire::le(MAGIC as nat, 4),
{
    let mut out: Vec<u8> = Vec::new();
    push_le(&mut out, MAGIC as u64, 4);
    assert(out@ =~= wire::le(MAGIC as nat, 4));
    out
}

// ---------------------------------------------------------------------
// Messages with a text
// ---------------------------------------------------------------------

/// The length that the header of a message with one text of `n` bytes has
/// to express.
pub open spec fn text_len(n: nat) -> nat {
    2 + n % 0x1_0000
}

/// A message with one text.
pub open spec fn text_message(kind: MessageType, s: Seq<char>) -> Seq<u8> {
    let b = vstd::utf8::encode_utf8(s);
    header(kind, text_len(b.len())) + wire::counted(b)
}

/// Whether a text fits into a message of its own.
pub fn fits_message(s: &str) -> (r: bool)
    ensures
        r == (text_len(vstd::utf8::encode_utf8(s@).len()) <= 0xffff),
{
    s.as_bytes().len() % 0x1_0000 + 2 <= 0xffff
}

fn encode_text(kind: MessageType, s: &str) -> (r: Vec<u8>)
    requires
        text_len(vstd::utf8::encode_utf8(s@).len()) <= 0xffff,
    ensures
        r@ == text_message(kind, s@),
{
    let b = s.as_bytes();
    let mut out: Vec<u8> = Vec::new();
    push_header(&mut out, kind, 2 + (b.len() % 0x1_0000) as u16);
    push_counted(&mut out, b);
    assert(out@ =~= text_message(kind, s@));
    out
}

/// Asks a worker to work in `project`.
pub fn encode_set_project(project: &str) -> (r: Vec<u8>)
    requires
        text_len(vstd::utf8::encode_utf8(project@).len()) <= 0xffff,
    ensures
        r@ == text_message(MessageType::SetProject, project@),
{
    encode_text(MessageType::SetProject, project)
}

/// Tells a worker that the session `label` is over.
pub fn encode_drop_session(label: &str) -> (r: Vec<u8>)
    requires
        text_len(vstd::utf8::encode_utf8(label@).len()) <= 0xffff,
    ensures
        r@ == text_message(MessageType::DropSession, label@),
{
    encode_text(MessageType::DropSession, label)
}

/// A text message gives its text back, where its length can express it.
pub proof fn law_text_message_round_trip(kind: MessageType, s: Seq<char>)
    requires
        text_len(vstd::utf8::encode_utf8(s).len()) <= 0xffff,
        vstd::utf8::encode_utf8(s).len() < 0x1_0000,
    ensures
        header_len(text_message(kind, s).subrange(0, 3)) == text_message(kind, s).len() - 3,
        wire::scan_counted(text_message(kind, s), 3) == Scan::Done(
            vstd::utf8::encode_utf8(s),
            text_message(kind, s).len() as int,
        ),
{
    let b = vstd::utf8::encode_utf8(s);
    let h = header(kind, text_len(b.len()));
    law_header_round_trip(kind, text_len(b.len()));
    wire::lemma_le_len(b.len(), 2);
    wire::law_counted_round_trip(h, b, Seq::empty());
    assert(h + wire::counted(b) + Seq::<u8>::empty() =~= text_message(kind, s));
    assert(text_message(kind, s).subrange(0, 3) =~= h);
}

/// What a worker may answer to a project.
#[derive(Clone, Copy, Debug, PartialEq, Eq, Structural)]
pub enum ProjectReply {
    Accepted,
    Refused,
    Unexpected,
}

pub fn project_reply(kind: MessageType) -> (r: ProjectReply)
    ensures
        r == if kind == MessageType::Error {
            ProjectReply::Refused
        } else if kind == MessageType::ProjectOk {
            ProjectReply::Accepted
        } else {
            ProjectReply::Unexpected
        },
{
    if kind == MessageType::Error {
        ProjectReply::Refused
    } else if kind == MessageType::ProjectOk {
        ProjectReply::Accepted
    } else {
        ProjectReply::Unexpected
    }
}

// ---------------------------------------------------------------------
// Client numbers
// ---------------------------------------------------------------------

/// The bytes of a list of numbers.
pub open spec fn pid_bytes(pids: Seq<u32>) -> Seq<u8>
    decreases pids.len(),
{
    if pids.len() == 0 {
        Seq::empty()
    } else {
        pid_bytes(pids.drop_last()) + wire::le(pids.last() as nat, 4)
    }
}

/// The length that the header of a list of `n` clients has to express.
pub open spec fn sync_len(n: nat) -> nat {
    2 + 4 * (n % 0x1_0000)
}

/// The message by which a worker learns which clients it should have.
pub open spec fn sync_message(pids: Seq<u32>) -> Seq<u8> {
    header(MessageType::SyncClients, sync_len(pids.len())) + wire::le(pids.len() % 0x1_0000, 2)
        + pid_bytes(pids)
}

/// Whether a list of clients fits into a message.
pub fn fits_sync(pids: &[u32]) -> (r: bool)
    ensures
        r == (sync_len(pids@.len()) <= 0xffff),
{
    2 + 4 * (pids.len() % 0x1_0000) <= 0xffff
}

pub fn encode_sync_clients(pids: &[u32]) -> (r: Vec<u8>)
    requires
        sync_len(pids@.len()) <= 0xffff,
    ensures
        r@ == sync_message(pids@),
{
    let mut out: Vec<u8> = Vec::new();
    let n: usize = pids.len() % 0x1_0000;
    push_header(&mut out, MessageType::SyncClients, (2 + 4 * n) as u16);
    push_le(&mut out, n as u64, 2);
    let ghost head = out@;
    let mut i: usize = 0;
    assert(pids@.take(0) =~= Seq::empty());
    assert(head + pid_bytes(Seq::empty()) =~= head);
    while i < pids.len()
        invariant
            i <= pids@.len(),
            out@ == head + pid_bytes(pids@.take(i as int)),
        decreases pids@.len() - i,
    {
        push_le(&mut out, pids[i] as u64, 4);
        assert(pids@.take(i + 1).drop_last() =~= pids@.take(i as int));
        assert(out@ =~= head + pid_bytes(pids@.take(i + 1)));
        i = i + 1;
    }
    assert(pids@.take(i as int) =~= pids@);
    assert(out@ =~= sync_message(pids@));
    out
}

/// The numbers in `b` behind their count.
pub open spec fn scan_pids(b: Seq<u8>) -> Scan<Seq<u32>> {
    match wire::scan_fixed(b, 0, 2) {
        Scan::More(n) => Scan::More(n),
        Scan::Done(count, at) => {
            let n = wire::of_le(count) as int;
            if 2 + 4 * n <= b.len() {
                Scan::Done(
                    Seq::new(
                        n as nat,
                        |i: int| wire::of_le(b.subrange(2 + 4 * i, 6 + 4 * i)) as u32,
                    ),
                    2 + 4 * n,
                )
            } else {
                Scan::More(2 + 4 * n - b.len())
            }
        },
    }
}

/// Reads a worker's list of its clients.
pub fn decode_clients(b: &[u8]) -> (r: Read<Vec<u32>>)
    ensures
        match r {
            Read::Done(v) => scan_pids(b@) matches Scan::Done(pids, end) && pids == v@,
            Read::More(n) => n > 0 && scan_pids(b@) == Scan::<Seq<u32>>::More(n as int),
        },
{
    if b.len() < 2 {
        return Read::More(2 - b.len());
    }
    proof {
        wire::lemma_pow256();
    }
    let n: usize = read_le(b, 0, 2) as usize;
    if b.len() - 2 < 4 * n {
        return Read::More(4 * n - (b.len() - 2));
    }
    let mut out: Vec<u32> = Vec::new();
    let mut i: usize = 0;
    while i < n
        invariant
            i <= n < 0x1_0000,
            2 + 4 * n <= b.len(),
            out@.len() == i,
            forall|j: int|
                0 <= j < i ==> (#[trigger] out@[j]) == wire::of_le(
                    b@.subrange(2 + 4 * j, 6 + 4 * j),
                ) as u32,
        decreases n - i,
    {
        proof {
            wire::lemma_pow256();
        }
        out.push(read_le(b, 2 + 4 * i, 4) as u32);
        i = i + 1;
    }
    assert(out@ =~= (scan_pids(b@)->Done_0));
    Read::Done(out)
}

proof fn lemma_pid_bytes(pids: Seq<u32>)
    ensures
        pid_bytes(pids).len() == 4 * pids.len(),
        forall|i: int|
            0 <= i < pids.len() ==> pid_bytes(pids).subrange(4 * i, 4 * i + 4) == wire::le(
                (#[trigger] pids[i]) as nat,
                4,
            ),
    decreases pids.len(),
{
    if pids.len() > 0 {
        let front = pids.drop_last();
        lemma_pid_bytes(front);
        wire::lemma_le_len(pids.last() as nat, 4);
        assert forall|i: int| 0 <= i < pids.len() implies pid_bytes(pids).subrange(
            4 * i,
            4 * i + 4,
        ) == wire::le((#[trigger] pids[i]) as nat, 4) by {
            if i < front.len() {
                assert(front[i] == pids[i]);
                assert(pid_bytes(pids).subrange(4 * i, 4 * i + 4) =~= pid_bytes(front).subrange(
                    4 * i,
                    4 * i + 4,
                ));
            } else {
                assert(pid_bytes(pids).subrange(4 * i, 4 * i + 4) =~= wire::le(
                    pids[i] as nat,
                    4,
                ));
            }
        }
    }
}

/// A list of clients is read as it was written.
pub proof fn law_clients_round_trip(pids: Seq<u32>)
    requires
        pids.len() < 0x1_0000,
    ensures
        scan_pids(wire::le(pids.len(), 2) + pid_bytes(pids)) == Scan::Done(
            pids,
            2 + 4 * pids.len() as int,
        ),
{
    wire::lemma_pow256();
    wire::law_le_round_trip(pids.len(), 2);
    lemma_pid_bytes(pids);
    let b = wire::le(pids.len(), 2) + pid_bytes(pids);
    assert(b.subrange(0, 2) =~= wire::le(pids.len(), 2));
    let read = scan_pids(b)->Done_0;
    assert forall|i: int| 0 <= i < pids.len() implies read[i] == pids[i] by {
        assert(b.subrange(2 + 4 * i, 6 + 4 * i) =~= pid_bytes(pids).subrange(4 * i, 4 * i + 4));
        wire::law_le_round_trip(pids[i] as nat, 4);
    }
    assert(read =~= pids);
}

/// The number of clients in a two-byte count, which follows a pong and the
/// answer to a list of clients.
pub fn decode_count(b: &[u8; 2]) -> (r: u16)
    ensures
        r == wire::of_le(b@),
{
    let mut bytes: Vec<u8> = Vec::new();
    bytes.push(b[0]);
    bytes.push(b[1]);
    assert(bytes@ =~= b@);
    assert(b@.subrange(0, 2) =~= b@);
    proof {
        wire::lemma_pow256();
    }
    read_le(bytes.as_slice(), 0, 2) as u16
}

} // verus!
