//! The messages by which a client and the conductor find each other: the
//! client's request, its environment, the paths it is given, and the notice
//! that it is gone.

use crate::env_cache;
use crate::env_cache::EnvVar;
use crate::protocol::client::MAGIC;
use crate::text;
use crate::text::starts_with;
use crate::wire;
use crate::wire::{push_counted, push_le, read_counted, read_le, read_list, Read, Scan};
use vstd::prelude::*;

verus! {

// ---------------------------------------------------------------------
// Bytes as text
// ---------------------------------------------------------------------

/// The text that `String::from_utf8_lossy` makes of bytes.
pub uninterp spec fn lossy(bytes: Seq<u8>) -> Seq<char>;

/// `String::from_utf8_lossy`: a text for any bytes. The text depends on the
/// bytes alone, and bytes that are UTF-8 give the text that they encode; what
/// stands in for bytes that are not is left unsaid.
#[verifier::external_body]
pub(crate) fn lossy_text(bytes: &[u8]) -> (r: String)
    ensures
        r@ == lossy(bytes@),
        vstd::utf8::valid_utf8(bytes@) ==> r@ == vstd::utf8::decode_utf8(bytes@),
{
    String::from_utf8_lossy(bytes).into_owned()
}

/// The texts of byte strings.
pub open spec fn lossy_all(items: Seq<Seq<u8>>) -> Seq<Seq<char>> {
    Seq::new(items.len(), |i: int| lossy(items[i]))
}

/// The bytes of texts.
pub open spec fn encode_all(items: Seq<Seq<char>>) -> Seq<Seq<u8>> {
    Seq::new(items.len(), |i: int| vstd::utf8::encode_utf8(items[i]))
}

/// Reads each byte string as text.
pub fn lossy_texts(items: &[Vec<u8>]) -> (r: Vec<String>)
    ensures
        text::views(r@) == lossy_all(wire::byte_views(items@)),
        forall|i: int|
            0 <= i < items@.len() && vstd::utf8::valid_utf8(items@[i]@) ==> (#[trigger] r@[i])@ == vstd::utf8::decode_utf8(
                items@[i]@,
            ),
{
    let mut out: Vec<String> = Vec::new();
    let mut i: usize = 0;
    while i < items.len()
        invariant
            i <= items@.len(),
            out@.len() == i,
            forall|j: int| 0 <= j < i ==> (#[trigger] out@[j])@ == lossy(items@[j]@),
            forall|j: int|
                0 <= j < i && vstd::utf8::valid_utf8(items@[j]@) ==> (#[trigger] out@[j])@ == vstd::utf8::decode_utf8(
                    items@[j]@,
                ),
        decreases items@.len() - i,
    {
        out.push(lossy_text(items[i].as_slice()));
        i = i + 1;
    }
    assert(text::views(out@) =~= lossy_all(wire::byte_views(items@)));
    out
}

// ---------------------------------------------------------------------
// The request
// ---------------------------------------------------------------------

/// What a client asks for, as it is sent.
pub struct RawRequest {
    pub flags: u8,
    pub pid: u32,
    pub ppid: u32,
    pub cwd: Vec<u8>,
    pub fingerprint: u64,
    pub args: Vec<Vec<u8>>,
}

/// A request as plain data.
pub struct RequestData {
    pub flags: u8,
    pub pid: u32,
    pub ppid: u32,
    pub cwd: Seq<u8>,
    pub fingerprint: u64,
    pub args: Seq<Seq<u8>>,
}

impl RawRequest {
    pub open spec fn view(&self) -> RequestData {
        RequestData {
            flags: self.flags,
            pid: self.pid,
            ppid: self.ppid,
            cwd: self.cwd@,
            fingerprint: self.fingerprint,
            args: wire::byte_views(self.args@),
        }
    }
}

/// The bytes of a request behind its magic number: flags and three bytes that
/// are not used, the two process numbers, the directory, the fingerprint and
/// `count` arguments.
pub open spec fn request_body(d: RequestData, count: nat) -> Seq<u8> {
    seq![d.flags, 0u8, 0u8, 0u8] + wire::le(d.pid as nat, 4) + wire::le(d.ppid as nat, 4)
        + wire::counted(d.cwd) + wire::le(d.fingerprint as nat, 8) + wire::le(count, 2)
        + wire::counted_all(d.args)
}

/// What the bytes `b` behind the magic number ask for.
pub open spec fn scan_request(b: Seq<u8>) -> Scan<RequestData> {
    match wire::scan_fixed(b, 0, 12) {
        Scan::More(n) => Scan::More(n),
        Scan::Done(header, at) => match wire::scan_counted(b, at) {
            Scan::More(n) => Scan::More(n),
            Scan::Done(cwd, at) => match wire::scan_fixed(b, at, 8) {
                Scan::More(n) => Scan::More(n),
                Scan::Done(fingerprint, at) => match wire::scan_fixed(b, at, 2) {
                    Scan::More(n) => Scan::More(n),
                    Scan::Done(count, at) => match wire::scan_list(b, at, wire::of_le(count)) {
                        Scan::More(n) => Scan::More(n),
                        Scan::Done(args, at) => Scan::Done(
                            RequestData {
                                flags: header[0],
                                pid: wire::of_le(header.subrange(4, 8)) as u32,
                                ppid: wire::of_le(header.subrange(8, 12)) as u32,
                                cwd,
                                fingerprint: wire::of_le(fingerprint) as u64,
                                args,
                            },
                            at,
                        ),
                    },
                },
            },
        },
    }
}

/// The arguments whose index is not among `skip`.
pub open spec fn kept_args(argv: Seq<Seq<char>>, skip: Seq<usize>) -> Seq<Seq<char>>
    decreases argv.len(),
{
    if argv.len() == 0 {
        Seq::empty()
    } else {
        let rest = kept_args(argv.drop_last(), skip);
        if skip.contains((argv.len() - 1) as usize) {
            rest
        } else {
            rest.push(argv.last())
        }
    }
}

/// The number of arguments that a request announces.
pub open spec fn announced(argv_len: nat, skip_len: nat) -> int {
    argv_len % 0x1_0000 - skip_len % 0x1_0000
}

fn is_skipped(skip: &[usize], i: usize) -> (r: bool)
    ensures
        r == skip@.contains(i),
{
    let mut j: usize = 0;
    while j < skip.len()
        invariant
            j <= skip@.len(),
            forall|k: int| 0 <= k < j ==> skip@[k] != i,
        decreases skip@.len() - j,
    {
        if skip[j] == i {
            return true;
        }
        j = j + 1;
    }
    false
}

/// The bytes that a client sends first. The arguments that `skip` lists by
/// index are for the client alone and stay behind.
pub fn encode_request(
    tty: bool,
    pid: u32,
    ppid: u32,
    cwd: &str,
    fingerprint: u64,
    argv: &[String],
    skip: &[usize],
) -> (r: Vec<u8>)
    requires
        announced(argv@.len(), skip@.len()) >= 0,
    ensures
        r@ == wire::le(MAGIC as nat, 4) + request_body(
            (RequestData {
                flags: if tty {
                    1
                } else {
                    0
                },
                pid,
                ppid,
                cwd: vstd::utf8::encode_utf8(cwd@),
                fingerprint,
                args: encode_all(kept_args(text::views(argv@), skip@)),
            }),
            announced(argv@.len(), skip@.len()) as nat,
        ),
{
    let mut out: Vec<u8> = Vec::new();
    push_le(&mut out, MAGIC as u64, 4);
    let flags: u8 = if tty {
        1
    } else {
        0
    };
    let ghost magic = wire::le(MAGIC as nat, 4);
    assert(out@ =~= magic);
    out.push(flags);
    out.push(0);
    out.push(0);
    out.push(0);
    assert(out@ =~= magic + seq![flags, 0u8, 0u8, 0u8]);
    push_le(&mut out, pid as u64, 4);
    push_le(&mut out, ppid as u64, 4);
    push_counted(&mut out, cwd.as_bytes());
    push_le(&mut out, fingerprint, 8);
    let count: usize = argv.len() % 0x1_0000 - skip.len() % 0x1_0000;
    push_le(&mut out, count as u64, 2);
    let ghost head = out@;
    let ghost all = text::views(argv@);
    let mut i: usize = 0;
    assert(all.take(0) =~= Seq::empty());
    assert(encode_all(kept_args(all.take(0), skip@)) =~= Seq::empty());
    assert(head + wire::counted_all(Seq::empty()) =~= head);
    while i < argv.len()
        invariant
            i <= argv@.len(),
            all == text::views(argv@),
            out@ == head + wire::counted_all(encode_all(kept_args(all.take(i as int), skip@))),
        decreases argv@.len() - i,
    {
        let ghost kept = kept_args(all.take(i as int), skip@);
        assert(all.take(i + 1).drop_last() =~= all.take(i as int));
        if !is_skipped(skip, i) {
            push_counted(&mut out, argv[i].as_str().as_bytes());
            proof {
                let grown = encode_all(kept.push(all[i as int]));
                assert(grown.drop_last() =~= encode_all(kept));
                assert(out@ =~= head + wire::counted_all(grown));
            }
        }
        i = i + 1;
    }
    assert(all.take(i as int) =~= all);
    assert(out@ =~= magic + request_body(
        RequestData {
            flags,
            pid,
            ppid,
            cwd: vstd::utf8::encode_utf8(cwd@),
            fingerprint,
            args: encode_all(kept_args(all, skip@)),
        },
        count as nat,
    ));
    out
}

/// Reads a request from the bytes behind its magic number.
pub fn decode_request(b: &[u8]) -> (r: Read<RawRequest>)
    ensures
        match r {
            Read::Done(q) => scan_request(b@) matches Scan::Done(d, end) && d == q@,
            Read::More(n) => n > 0 && scan_request(b@) == Scan::<RequestData>::More(n as int),
        },
{
    if b.len() < 12 {
        return Read::More(12 - b.len());
    }
    proof {
        wire::lemma_pow256();
        let header = b@.subrange(0, 12);
        assert(header.subrange(4, 8) =~= b@.subrange(4, 8));
        assert(header.subrange(8, 12) =~= b@.subrange(8, 12));
    }
    let flags: u8 = b[0];
    let pid: u32 = read_le(b, 4, 4) as u32;
    let ppid: u32 = read_le(b, 8, 4) as u32;
    match read_counted(b, 12) {
        Read::More(n) => Read::More(n),
        Read::Done((cwd, at)) => {
            let have: usize = b.len() - at;
            if have < 8 {
                return Read::More(8 - have);
            }
            let fingerprint: u64 = read_le(b, at, 8);
            if have - 8 < 2 {
                return Read::More(10 - have);
            }
            let count: usize = read_le(b, at + 8, 2) as usize;
            match read_list(b, at + 10, count) {
                Read::More(n) => Read::More(n),
                Read::Done((args, end)) => Read::Done(
                    RawRequest { flags, pid, ppid, cwd, fingerprint, args },
                ),
            }
        },
    }
}

/// The conductor reads the request that the client wrote, and reads it to its
/// last byte, whatever follows.
pub proof fn law_request_round_trip(d: RequestData, after: Seq<u8>)
    requires
        d.cwd.len() < 0x1_0000,
        d.args.len() < 0x1_0000,
        forall|i: int| 0 <= i < d.args.len() ==> (#[trigger] d.args[i]).len() < 0x1_0000,
    ensures
        scan_request(request_body(d, d.args.len()) + after) == Scan::Done(
            d,
            request_body(d, d.args.len()).len() as int,
        ),
{
    wire::lemma_pow256();
    let body = request_body(d, d.args.len());
    let b = body + after;
    let flags = seq![d.flags, 0u8, 0u8, 0u8];
    let (pid, ppid) = (wire::le(d.pid as nat, 4), wire::le(d.ppid as nat, 4));
    let (fp, count) = (wire::le(d.fingerprint as nat, 8), wire::le(d.args.len(), 2));
    let cwd = wire::counted(d.cwd);
    let args = wire::counted_all(d.args);
    wire::law_le_round_trip(d.pid as nat, 4);
    wire::law_le_round_trip(d.ppid as nat, 4);
    wire::law_le_round_trip(d.fingerprint as nat, 8);
    wire::law_le_round_trip(d.args.len(), 2);
    wire::lemma_le_len((d.cwd.len() % 0x1_0000) as nat, 2);
    let header = b.subrange(0, 12);
    assert(header.subrange(4, 8) =~= pid);
    assert(header.subrange(8, 12) =~= ppid);
    let head = flags + pid + ppid;
    wire::law_counted_round_trip(head, d.cwd, fp + count + args + after);
    assert(head + cwd + (fp + count + args + after) =~= b);
    let at = 14 + d.cwd.len() as int;
    assert(b.subrange(at, at + 8) =~= fp);
    assert(b.subrange(at + 8, at + 10) =~= count);
    let front = head + cwd + fp + count;
    wire::law_list_round_trip(front, d.args, after);
    assert(front + args + after =~= b);
}

/// The arguments that arrive are those that the client kept, letter for
/// letter.
pub proof fn law_texts_survive(items: Seq<Seq<char>>, i: int)
    requires
        0 <= i < items.len(),
    ensures
        vstd::utf8::valid_utf8(encode_all(items)[i]),
        vstd::utf8::decode_utf8(encode_all(items)[i]) == items[i],
{
    vstd::utf8::encode_utf8_valid_utf8(items[i]);
    vstd::utf8::encode_utf8_decode_utf8(items[i]);
}

/// Where every index to skip is that of an argument and none is listed
/// twice, the number announced is the number of arguments that follow.
pub proof fn law_announced_is_kept(argv: Seq<Seq<char>>, skip: Seq<usize>)
    requires
        argv.len() < 0x1_0000,
        skip.no_duplicates(),
        forall|k: int| 0 <= k < skip.len() ==> skip[k] < argv.len(),
    ensures
        announced(argv.len(), skip.len()) == kept_args(argv, skip).len(),
    decreases argv.len(),
{
    if argv.len() == 0 {
        if skip.len() > 0 {
            assert(skip[0] < argv.len());
        }
    } else {
        let front = argv.drop_last();
        let n = front.len() as usize;
        if skip.contains(n) {
            let k = skip.index_of(n);
            let rest = skip.remove(k);
            assert forall|j: int| 0 <= j < rest.len() implies rest[j] < front.len() by {
                if j < k {
                    assert(rest[j] == skip[j]);
                } else {
                    assert(rest[j] == skip[j + 1]);
                }
            }
            law_announced_is_kept(front, rest);
            lemma_kept_ignores(front, skip, k);
        } else {
            assert forall|j: int| 0 <= j < skip.len() implies skip[j] < front.len() by {
                assert(skip.contains(skip[j]));
            }
            law_announced_is_kept(front, skip);
        }
    }
}

/// An index past the end skips nothing.
proof fn lemma_kept_ignores(argv: Seq<Seq<char>>, skip: Seq<usize>, k: int)
    requires
        0 <= k < skip.len(),
        skip[k] >= argv.len(),
        argv.len() < 0x1_0000,
    ensures
        kept_args(argv, skip) == kept_args(argv, skip.remove(k)),
    decreases argv.len(),
{
    if argv.len() > 0 {
        lemma_kept_ignores(argv.drop_last(), skip, k);
        let n = (argv.len() - 1) as usize;
        let rest = skip.remove(k);
        if skip.contains(n) {
            let j = skip.index_of(n);
            assert(rest[if j < k {
                j
            } else {
                j - 1
            }] == n);
        }
        if rest.contains(n) {
            let j = rest.index_of(n);
            assert(skip[if j < k {
                j
            } else {
                j + 1
            }] == n);
        }
    }
}

// ---------------------------------------------------------------------
// The environment
// ---------------------------------------------------------------------

/// Variables that differ from run to run and say nothing of the client.
pub open spec fn is_noise(key: Seq<char>) -> bool {
    "HYPERFINE_"@.is_prefix_of(key)
}

/// The variables that are sent.
pub open spec fn sent_vars(vars: Seq<env_cache::VarText>) -> Seq<env_cache::VarText>
    decreases vars.len(),
{
    if vars.len() == 0 {
        Seq::empty()
    } else {
        let rest = sent_vars(vars.drop_last());
        if is_noise(vars.last().0) {
            rest
        } else {
            rest.push(vars.last())
        }
    }
}

/// Names and values in turn.
pub open spec fn flat(vars: Seq<env_cache::VarText>) -> Seq<Seq<char>> {
    Seq::new(
        2 * vars.len(),
        |i: int|
            if i % 2 == 0 {
                vars[i / 2].0
            } else {
                vars[i / 2].1
            },
    )
}

/// The bytes of an environment that is announced as `count` variables.
pub open spec fn env_bytes(vars: Seq<env_cache::VarText>, count: nat) -> Seq<u8> {
    wire::le(count, 2) + wire::counted_all(encode_all(flat(vars)))
}

/// The environment in `b`: names and values in turn.
pub open spec fn scan_env(b: Seq<u8>) -> Scan<Seq<Seq<u8>>> {
    match wire::scan_fixed(b, 0, 2) {
        Scan::More(n) => Scan::More(n),
        Scan::Done(count, at) => wire::scan_list(b, at, 2 * wire::of_le(count)),
    }
}

/// Names and values in turn, as variables.
pub open spec fn paired(items: Seq<Seq<u8>>) -> Seq<env_cache::VarText> {
    Seq::new(items.len() / 2, |i: int| (lossy(items[2 * i]), lossy(items[2 * i + 1])))
}

/// The bytes by which a client sends its environment. `count` is the number
/// of variables that are sent.
pub fn encode_env(vars: &[EnvVar], count: u16) -> (r: Vec<u8>)
    ensures
        r@ == env_bytes(sent_vars(env_cache::var_views(vars@)), count as nat),
{
    let mut out: Vec<u8> = Vec::new();
    push_le(&mut out, count as u64, 2);
    let ghost head = wire::le(count as nat, 2);
    let ghost all = env_cache::var_views(vars@);
    assert(out@ =~= head);
    let mut i: usize = 0;
    assert(all.take(0) =~= Seq::empty());
    assert(encode_all(flat(sent_vars(all.take(0)))) =~= Seq::empty());
    assert(head + wire::counted_all(Seq::empty()) =~= head);
    while i < vars.len()
        invariant
            i <= vars@.len(),
            all == env_cache::var_views(vars@),
            out@ == head + wire::counted_all(encode_all(flat(sent_vars(all.take(i as int))))),
        decreases vars@.len() - i,
    {
        let ghost sent = sent_vars(all.take(i as int));
        assert(all.take(i + 1).drop_last() =~= all.take(i as int));
        if !starts_with(vars[i].key.as_str(), "HYPERFINE_") {
            push_counted(&mut out, vars[i].key.as_str().as_bytes());
            push_counted(&mut out, vars[i].value.as_str().as_bytes());
            proof {
                let one = all[i as int];
                let before = encode_all(flat(sent));
                let grown = encode_all(flat(sent.push(one)));
                let mid = before.push(vstd::utf8::encode_utf8(one.0));
                assert(grown =~= mid.push(vstd::utf8::encode_utf8(one.1)));
                assert(grown.drop_last() =~= mid);
                assert(mid.drop_last() =~= before);
                assert(wire::counted_all(grown) == wire::counted_all(mid) + wire::counted(
                    grown.last(),
                ));
                assert(wire::counted_all(mid) == wire::counted_all(before) + wire::counted(
                    mid.last(),
                ));
                assert(out@ =~= head + wire::counted_all(grown));
            }
        }
        i = i + 1;
    }
    assert(all.take(i as int) =~= all);
    out
}

/// Reads an environment.
pub fn decode_env(b: &[u8]) -> (r: Read<Vec<EnvVar>>)
    ensures
        match r {
            Read::Done(vars) => scan_env(b@) matches Scan::Done(items, end)
                && env_cache::var_views(vars@) == paired(items) && (forall|i: int|
                0 <= i < vars@.len() && vstd::utf8::valid_utf8(items[2 * i]) ==> (
                #[trigger] vars@[i]).key@ == vstd::utf8::decode_utf8(items[2 * i])) && (forall|i: int|
                0 <= i < vars@.len() && vstd::utf8::valid_utf8(items[2 * i + 1]) ==> (
                #[trigger] vars@[i]).value@ == vstd::utf8::decode_utf8(items[2 * i + 1])),
            Read::More(n) => n > 0 && scan_env(b@) == Scan::<Seq<Seq<u8>>>::More(n as int),
        },
{
    if b.len() < 2 {
        return Read::More(2 - b.len());
    }
    proof {
        wire::lemma_pow256();
    }
    let count: usize = read_le(b, 0, 2) as usize;
    match read_list(b, 2, 2 * count) {
        Read::More(n) => Read::More(n),
        Read::Done((items, end)) => {
            let mut vars: Vec<EnvVar> = Vec::new();
            let mut i: usize = 0;
            while i < count
                invariant
                    i <= count,
                    items@.len() == 2 * count,
                    count < 0x1_0000,
                    vars@.len() == i,
                    forall|j: int|
                        0 <= j < i ==> (#[trigger] vars@[j])@ == (
                            lossy(items@[2 * j]@),
                            lossy(items@[2 * j + 1]@),
                        ),
                    forall|j: int|
                        0 <= j < i && vstd::utf8::valid_utf8(items@[2 * j]@) ==> (#[trigger] vars@[j]).key@
                            == vstd::utf8::decode_utf8(items@[2 * j]@),
                    forall|j: int|
                        0 <= j < i && vstd::utf8::valid_utf8(items@[2 * j + 1]@) ==> (
                        #[trigger] vars@[j]).value@ == vstd::utf8::decode_utf8(items@[2 * j + 1]@),
                decreases count - i,
            {
                let key = lossy_text(items[2 * i].as_slice());
                let value = lossy_text(items[2 * i + 1].as_slice());
                vars.push(EnvVar { key, value });
                i = i + 1;
            }
            assert(env_cache::var_views(vars@) =~= paired(wire::byte_views(items@)));
            Read::Done(vars)
        },
    }
}

/// The conductor reads the environment that the client sent, name by name and
/// value by value.
pub proof fn law_env_round_trip(vars: Seq<env_cache::VarText>, after: Seq<u8>)
    requires
        vars.len() < 0x1_0000,
        forall|i: int|
            0 <= i < vars.len() ==> vstd::utf8::encode_utf8((#[trigger] vars[i]).0).len() < 0x1_0000
                && vstd::utf8::encode_utf8(vars[i].1).len() < 0x1_0000,
    ensures
        scan_env(env_bytes(vars, vars.len()) + after) == Scan::Done(
            encode_all(flat(vars)),
            env_bytes(vars, vars.len()).len() as int,
        ),
        forall|i: int|
            0 <= i < vars.len() ==> vstd::utf8::valid_utf8(encode_all(flat(vars))[2 * i]) && vstd::utf8::valid_utf8(
                encode_all(flat(vars))[2 * i + 1],
            ) && (vstd::utf8::decode_utf8(encode_all(flat(vars))[2 * i]), vstd::utf8::decode_utf8(
                encode_all(flat(vars))[2 * i + 1],
            )) == #[trigger] vars[i],
{
    wire::lemma_pow256();
    wire::law_le_round_trip(vars.len(), 2);
    let items = encode_all(flat(vars));
    let head = wire::le(vars.len(), 2);
    let b = env_bytes(vars, vars.len()) + after;
    assert forall|i: int| 0 <= i < items.len() implies (#[trigger] items[i]).len()
        < 0x1_0000 by {
        let v = vars[i / 2];
    }
    assert(b.subrange(0, 2) =~= head);
    wire::law_list_round_trip(head, items, after);
    assert(head + wire::counted_all(items) + after =~= b);
    assert forall|i: int| 0 <= i < vars.len() implies vstd::utf8::valid_utf8(items[2 * i]) && vstd::utf8::valid_utf8(
        items[2 * i + 1],
    ) && (vstd::utf8::decode_utf8(items[2 * i]), vstd::utf8::decode_utf8(items[2 * i + 1])) == #[trigger] vars[i] by {
        assert(flat(vars)[2 * i] == vars[i].0);
        assert(flat(vars)[2 * i + 1] == vars[i].1);
        law_texts_survive(flat(vars), 2 * i);
        law_texts_survive(flat(vars), 2 * i + 1);
    }
}

} // verus!
