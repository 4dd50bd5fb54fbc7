//! What a worker says on the signals stream: frames of an identifier, a
//! length and that many bytes.

use crate::protocol::signals;
use crate::wire;
use crate::wire::{copy_range, push_bytes, push_le};
use vstd::prelude::*;

verus! {

/// What a frame asks of the client, in the order in which it is to be done.
/// `B` holds the bytes of a reply.
pub enum Request<B> {
    /// Put the terminal into raw mode, or back.
    SetRaw(bool),
    /// Send these bytes back on the signals stream.
    Reply(B),
    /// Send the size of the terminal back; see `size_reply`.
    ReportSize,
}

/// The bytes of the signals stream that make no whole frame yet, and what the
/// worker has asked for.
pub struct SignalParser {
    buf: Vec<u8>,
    sync_mode: bool,
    wants_raw: bool,
}

/// What a piece of the signals stream brings about.
pub struct Fed {
    /// The exit code, where the last frame of the piece gives one.
    pub exit: Option<u8>,
    pub requests: Vec<Request<Vec<u8>>>,
}

// ---------------------------------------------------------------------
// Model
// ---------------------------------------------------------------------

/// A frame: its identifier and its bytes.
pub type Frame = (u8, Seq<u8>);

/// `b` begins with a whole frame.
pub open spec fn has_frame(b: Seq<u8>) -> bool {
    b.len() >= 2 && 2 + b[1] <= b.len()
}

/// The frame that `b` begins with.
pub open spec fn first_frame(b: Seq<u8>) -> Frame {
    (b[0], b.subrange(2, 2 + b[1] as int))
}

/// What follows the frame that `b` begins with.
pub open spec fn after_frame(b: Seq<u8>) -> Seq<u8> {
    b.skip(2 + b[1] as int)
}

/// The whole frames that `b` begins with.
pub open spec fn frames(b: Seq<u8>) -> Seq<Frame>
    decreases b.len(),
{
    if has_frame(b) {
        seq![first_frame(b)] + frames(after_frame(b))
    } else {
        Seq::empty()
    }
}

/// The bytes behind those frames.
pub open spec fn leftover(b: Seq<u8>) -> Seq<u8>
    decreases b.len(),
{
    if has_frame(b) {
        leftover(after_frame(b))
    } else {
        b
    }
}

/// The bytes of a request.
pub open spec fn request_view(r: Request<Vec<u8>>) -> Request<Seq<u8>> {
    match r {
        Request::SetRaw(raw) => Request::SetRaw(raw),
        Request::Reply(b) => Request::Reply(b@),
        Request::ReportSize => Request::ReportSize,
    }
}

pub open spec fn request_views(v: Seq<Request<Vec<u8>>>) -> Seq<Request<Seq<u8>>> {
    Seq::new(v.len(), |i: int| request_view(v[i]))
}

/// What one frame asks for. The terminal is left alone for a client that
/// edits lines itself; a change of mode is acknowledged either way.
pub open spec fn requests_of(sync_mode: bool, f: Frame) -> Seq<Request<Seq<u8>>> {
    if f.0 == signals::RAW_MODE {
        if f.1.len() > 0 && !sync_mode {
            seq![Request::SetRaw(f.1[0] != 0), Request::Reply(seq![signals::RAW_MODE, 0u8])]
        } else {
            seq![Request::Reply(seq![signals::RAW_MODE, 0u8])]
        }
    } else if f.0 == signals::QUERY_SIZE {
        seq![Request::ReportSize]
    } else {
        Seq::empty()
    }
}

/// What all of `fs` ask for.
pub open spec fn all_requests(sync_mode: bool, fs: Seq<Frame>) -> Seq<Request<Seq<u8>>>
    decreases fs.len(),
{
    if fs.len() == 0 {
        Seq::empty()
    } else {
        all_requests(sync_mode, fs.drop_last()) + requests_of(sync_mode, fs.last())
    }
}

/// Whether the worker wants raw input after `fs`, where it did so before or
/// not. Only a client that edits lines itself keeps account of that.
pub open spec fn raw_after(sync_mode: bool, before: bool, fs: Seq<Frame>) -> bool
    decreases fs.len(),
{
    if fs.len() == 0 {
        before
    } else if sync_mode && fs.last().0 == signals::RAW_MODE && fs.last().1.len() > 0 {
        fs.last().1[0] != 0
    } else {
        raw_after(sync_mode, before, fs.drop_last())
    }
}

/// The exit code that a frame gives.
pub open spec fn exit_of(f: Frame) -> Option<u8> {
    if f.0 == signals::EXIT {
        Some(
            if f.1.len() > 0 {
                f.1[0]
            } else {
                1
            },
        )
    } else {
        None
    }
}

/// The exit code that `fs` give when they arrive together: the last frame
/// decides.
pub open spec fn last_exit(fs: Seq<Frame>) -> Option<u8> {
    if fs.len() == 0 {
        None
    } else {
        exit_of(fs.last())
    }
}

// ---------------------------------------------------------------------
// Laws
// ---------------------------------------------------------------------

/// Where the stream is cut does not matter: feeding `a` and then `b` reads
/// the frames, in order, that feeding both at once reads, and leaves the same
/// bytes.
pub proof fn law_cuts_do_not_matter(a: Seq<u8>, b: Seq<u8>)
    ensures
        frames(a + b) == frames(a) + frames(leftover(a) + b),
        leftover(a + b) == leftover(leftover(a) + b),
    decreases a.len(),
{
    if has_frame(a) {
        law_cuts_do_not_matter(after_frame(a), b);
        assert(first_frame(a + b).1 =~= first_frame(a).1);
        assert(after_frame(a + b) =~= after_frame(a) + b);
        assert(frames(a + b) =~= frames(a) + frames(leftover(a) + b));
    } else {
        assert(frames(a + b) =~= frames(a) + frames(leftover(a) + b));
    }
}

/// What is asked for does not depend on the cuts either.
pub proof fn law_requests_of_pieces(sync_mode: bool, before: bool, f: Seq<Frame>, g: Seq<Frame>)
    ensures
        all_requests(sync_mode, f + g) == all_requests(sync_mode, f) + all_requests(sync_mode, g),
        raw_after(sync_mode, before, f + g) == raw_after(
            sync_mode,
            raw_after(sync_mode, before, f),
            g,
        ),
    decreases g.len(),
{
    if g.len() > 0 {
        law_requests_of_pieces(sync_mode, before, f, g.drop_last());
        assert((f + g).drop_last() =~= f + g.drop_last());
        assert(all_requests(sync_mode, f + g) =~= all_requests(sync_mode, f) + all_requests(
            sync_mode,
            g,
        ));
    } else {
        assert(f + g =~= f);
        assert(all_requests(sync_mode, f) =~= all_requests(sync_mode, f) + all_requests(
            sync_mode,
            g,
        ));
    }
}

/// The frame that ends a session is read as its exit code.
pub proof fn law_exit_frame(code: u8)
    ensures
        frames(seq![signals::EXIT, 1u8, code]) == seq![(signals::EXIT, seq![code])],
        last_exit(frames(seq![signals::EXIT, 1u8, code])) == Some(code),
        leftover(seq![signals::EXIT, 1u8, code]).len() == 0,
{
    reveal_with_fuel(frames, 2);
    reveal_with_fuel(leftover, 2);
    let b = seq![signals::EXIT, 1u8, code];
    assert(first_frame(b).1 =~= seq![code]);
    assert(after_frame(b) =~= Seq::empty());
    assert(frames(b) =~= seq![first_frame(b)]);
}

// ---------------------------------------------------------------------
// Operations
// ---------------------------------------------------------------------

/// The frame that reports the size of a terminal: rows, then columns; 24 by
/// 80 where there is no terminal.
pub open spec fn size_frame(size: Option<(u16, u16)>) -> Seq<u8> {
    let (rows, cols) = match size {
        Some(s) => s,
        None => (24u16, 80u16),
    };
    seq![signals::QUERY_SIZE, 4u8] + wire::le(rows as nat, 2) + wire::le(cols as nat, 2)
}

pub fn size_reply(size: Option<(u16, u16)>) -> (r: Vec<u8>)
    ensures
        r@ == size_frame(size),
{
    let (rows, cols): (u16, u16) = match size {
        Some(s) => s,
        None => (24, 80),
    };
    let mut out: Vec<u8> = Vec::new();
    out.push(signals::QUERY_SIZE);
    out.push(4);
    assert(out@ =~= seq![signals::QUERY_SIZE, 4u8]);
    push_le(&mut out, rows as u64, 2);
    push_le(&mut out, cols as u64, 2);
    out
}

impl SignalParser {
    /// The bytes that make no whole frame yet.
    pub closed spec fn pending(&self) -> Seq<u8> {
        self.buf@
    }

    pub closed spec fn sync(&self) -> bool {
        self.sync_mode
    }

    /// The worker wants raw input.
    pub closed spec fn raw(&self) -> bool {
        self.wants_raw
    }

    pub fn new(sync_mode: bool) -> (r: Self)
        ensures
            r.pending() == Seq::<u8>::empty(),
            r.sync() == sync_mode,
            !r.raw(),
    {
        SignalParser { buf: Vec::new(), sync_mode, wants_raw: false }
    }

    pub fn worker_wants_raw(&self) -> (r: bool)
        ensures
            r == self.raw(),
    {
        self.wants_raw
    }

    /// Takes the next piece of the stream.
    pub fn feed(&mut self, data: &[u8]) -> (r: Fed)
        ensures
            final(self).pending() == leftover(old(self).pending() + data@),
            final(self).sync() == old(self).sync(),
            ({
                let fs = frames(old(self).pending() + data@);
                &&& final(self).raw() == raw_after(old(self).sync(), old(self).raw(), fs)
                &&& request_views(r.requests@) == all_requests(old(self).sync(), fs)
                &&& r.exit == last_exit(fs)
            }),
    {
        push_bytes(&mut self.buf, data);
        self.process()
    }

    /// Takes all whole frames off the pending bytes.
    fn process(&mut self) -> (r: Fed)
        ensures
            final(self).pending() == leftover(old(self).pending()),
            final(self).sync() == old(self).sync(),
            ({
                let fs = frames(old(self).pending());
                &&& final(self).raw() == raw_after(old(self).sync(), old(self).raw(), fs)
                &&& request_views(r.requests@) == all_requests(old(self).sync(), fs)
                &&& r.exit == last_exit(fs)
            }),
    {
        let ghost all = self.buf@;
        let ghost sync = self.sync_mode;
        let ghost before = self.wants_raw;
        let ghost mut done: Seq<Frame> = Seq::empty();
        let mut exit: Option<u8> = None;
        let mut requests: Vec<Request<Vec<u8>>> = Vec::new();
        let mut pos: usize = 0;
        assert(all.skip(0) =~= all);
        assert(done + frames(all) =~= frames(all));
        assert(request_views(requests@) =~= Seq::empty());
        while self.buf.len() - pos >= 2 && self.buf[pos + 1] as usize <= self.buf.len() - pos - 2
            invariant
                self.buf@ == all,
                self.sync_mode == sync,
                pos <= all.len(),
                frames(all) == done + frames(all.skip(pos as int)),
                leftover(all) == leftover(all.skip(pos as int)),
                self.wants_raw == raw_after(sync, before, done),
                request_views(requests@) == all_requests(sync, done),
                exit == last_exit(done),
            decreases all.len() - pos,
        {
            let ghost here = all.skip(pos as int);
            let id: u8 = self.buf[pos];
            let n: usize = self.buf[pos + 1] as usize;
            let data = copy_range(self.buf.as_slice(), pos + 2, pos + 2 + n);
            let ghost f = (id, data@);
            assert(first_frame(here).1 =~= data@);
            let ghost asked = request_views(requests@);
            exit = self.dispatch(id, data.as_slice(), &mut requests);
            pos = pos + 2 + n;
            proof {
                assert(after_frame(here) =~= all.skip(pos as int));
                assert(done + (seq![f] + frames(all.skip(pos as int))) =~= done.push(f) + frames(
                    all.skip(pos as int),
                ));
                assert(done.push(f).drop_last() =~= done);
                assert(done + seq![f] =~= done.push(f));
                law_requests_of_pieces(sync, before, done, seq![f]);
                done = done.push(f);
            }
        }
        proof {
            assert(!has_frame(all.skip(pos as int)));
            assert(done + Seq::<Frame>::empty() =~= done);
        }
        let rest = copy_range(self.buf.as_slice(), pos, self.buf.len());
        assert(rest@ =~= all.skip(pos as int));
        self.buf = rest;
        Fed { exit, requests }
    }

    /// Acts on one frame.
    fn dispatch(&mut self, id: u8, data: &[u8], requests: &mut Vec<Request<Vec<u8>>>) -> (r: Option<
        u8,
    >)
        ensures
            final(self).pending() == old(self).pending(),
            final(self).sync() == old(self).sync(),
            final(self).raw() == raw_after(
                old(self).sync(),
                old(self).raw(),
                seq![(id, data@)],
            ),
            request_views(final(requests)@) == request_views(old(requests)@) + requests_of(
                old(self).sync(),
                (id, data@),
            ),
            r == exit_of((id, data@)),
    {
        let ghost asked = request_views(requests@);
        proof {
            reveal_with_fuel(raw_after, 2);
            assert(seq![(id, data@)].drop_last() =~= Seq::empty());
        }
        if id == signals::EXIT {
            assert(request_views(requests@) =~= asked + Seq::empty());
            return Some(
                if data.len() > 0 {
                    data[0]
                } else {
                    1
                },
            );
        }
        if id == signals::RAW_MODE {
            if data.len() > 0 {
                let want_raw: bool = data[0] != 0;
                if self.sync_mode {
                    self.wants_raw = want_raw;
                } else {
                    requests.push(Request::SetRaw(want_raw));
                }
            }
            let mut ack: Vec<u8> = Vec::new();
            ack.push(id);
            ack.push(0);
            assert(ack@ =~= seq![signals::RAW_MODE, 0u8]);
            requests.push(Request::Reply(ack));
        } else if id == signals::QUERY_SIZE {
            requests.push(Request::ReportSize);
        }
        assert(request_views(requests@) =~= asked + requests_of(old(self).sync(), (id, data@)));
        None
    }
}

} // verus!
