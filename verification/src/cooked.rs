//! Line editing for a client whose worker does not ask for raw input: typed
//! bytes are kept and echoed, and go out as whole lines.

use crate::wire::push_bytes;
use vstd::prelude::*;

verus! {

/// The line being typed.
pub struct CookedState {
    line_buf: Vec<u8>,
}

/// What a typed byte brings about: bytes for the local screen, and bytes for
/// the worker. An empty string for the worker ends its input.
pub struct Reaction {
    pub echo: Vec<u8>,
    pub send: Option<Vec<u8>>,
}

/// A line holds no more bytes than this.
pub const LINE_LIMIT: usize = 4096;

// ---------------------------------------------------------------------
// Model
// ---------------------------------------------------------------------

/// The bytes for the worker, where there are any.
pub open spec fn opt_bytes(v: Option<Vec<u8>>) -> Option<Seq<u8>> {
    match v {
        Some(b) => Some(b@),
        None => None,
    }
}

/// `b` ends a line.
pub open spec fn is_enter(b: u8) -> bool {
    b == 0x0D || b == 0x0A
}

/// `b` becomes part of a line.
pub open spec fn is_text(b: u8) -> bool {
    b >= 0x20 && b != 0x7F
}

/// The line after `b` was typed.
pub open spec fn next_line(line: Seq<u8>, b: u8) -> Seq<u8> {
    if b == 0x7F {
        if line.len() > 0 {
            line.drop_last()
        } else {
            line
        }
    } else if is_enter(b) || b == 0x03 {
        Seq::empty()
    } else if is_text(b) && line.len() < LINE_LIMIT {
        line.push(b)
    } else {
        line
    }
}

/// What appears on the screen when `b` is typed.
pub open spec fn echo_of(line: Seq<u8>, b: u8) -> Seq<u8> {
    if b == 0x7F && line.len() > 0 {
        seq![0x08u8, 0x20, 0x08]
    } else if is_enter(b) {
        seq![0x0Du8, 0x0A]
    } else if is_text(b) && line.len() < LINE_LIMIT {
        seq![b]
    } else {
        Seq::empty()
    }
}

/// What the worker gets when `b` is typed: the line on Enter, Ctrl-C as
/// it is, and the end of input for Ctrl-D on an empty line.
pub open spec fn sent_on(line: Seq<u8>, b: u8) -> Option<Seq<u8>> {
    if is_enter(b) {
        Some(line.push(0x0A))
    } else if b == 0x03 {
        Some(seq![0x03u8])
    } else if b == 0x04 && line.len() == 0 {
        Some(Seq::empty())
    } else {
        None
    }
}

/// The line after all of `typed`.
pub open spec fn line_after(line: Seq<u8>, typed: Seq<u8>) -> Seq<u8>
    decreases typed.len(),
{
    if typed.len() == 0 {
        line
    } else {
        next_line(line_after(line, typed.drop_last()), typed.last())
    }
}

// ---------------------------------------------------------------------
// Laws
// ---------------------------------------------------------------------

/// A line never grows past its limit.
pub proof fn law_line_is_bounded(line: Seq<u8>, typed: Seq<u8>)
    requires
        line.len() <= LINE_LIMIT,
    ensures
        line_after(line, typed).len() <= LINE_LIMIT,
    decreases typed.len(),
{
    if typed.len() > 0 {
        law_line_is_bounded(line, typed.drop_last());
    }
}

/// Text typed on an empty line and ended with Enter reaches the worker as it
/// was typed, with a newline behind it, and leaves an empty line.
pub proof fn law_enter_sends_the_line(typed: Seq<u8>, enter: u8)
    requires
        typed.len() <= LINE_LIMIT,
        forall|i: int| 0 <= i < typed.len() ==> is_text(#[trigger] typed[i]),
        is_enter(enter),
    ensures
        line_after(Seq::empty(), typed) == typed,
        sent_on(line_after(Seq::empty(), typed), enter) == Some(typed.push(0x0A)),
        next_line(line_after(Seq::empty(), typed), enter).len() == 0,
{
    lemma_text_is_kept(typed);
}

proof fn lemma_text_is_kept(typed: Seq<u8>)
    requires
        typed.len() <= LINE_LIMIT,
        forall|i: int| 0 <= i < typed.len() ==> is_text(#[trigger] typed[i]),
    ensures
        line_after(Seq::empty(), typed) == typed,
    decreases typed.len(),
{
    if typed.len() > 0 {
        let front = typed.drop_last();
        assert forall|i: int| 0 <= i < front.len() implies is_text(#[trigger] front[i]) by {
            assert(front[i] == typed[i]);
        }
        lemma_text_is_kept(front);
        assert(front.push(typed.last()) =~= typed);
    } else {
        assert(typed =~= Seq::empty());
    }
}

/// Backspace takes back the text byte typed before it.
pub proof fn law_backspace_undoes(line: Seq<u8>, b: u8)
    requires
        is_text(b),
        line.len() < LINE_LIMIT,
    ensures
        next_line(next_line(line, b), 0x7F) == line,
        sent_on(line, b) is None,
{
    assert(line.push(b).drop_last() =~= line);
}

// ---------------------------------------------------------------------
// Operations
// ---------------------------------------------------------------------

impl CookedState {
    /// What has been typed and not sent.
    pub closed spec fn line(&self) -> Seq<u8> {
        self.line_buf@
    }

    /// The line keeps to its limit.
    pub open spec fn wf(&self) -> bool {
        self.line().len() <= LINE_LIMIT
    }

    pub fn new() -> (r: Self)
        ensures
            r.wf(),
            r.line() == Seq::<u8>::empty(),
    {
        CookedState { line_buf: Vec::new() }
    }

    /// Takes one typed byte.
    pub fn process(&mut self, byte: u8) -> (r: Reaction)
        requires
            old(self).wf(),
        ensures
            final(self).wf(),
            final(self).line() == next_line(old(self).line(), byte),
            r.echo@ == echo_of(old(self).line(), byte),
            opt_bytes(r.send) == sent_on(old(self).line(), byte),
    {
        let mut echo: Vec<u8> = Vec::new();
        let mut send: Option<Vec<u8>> = None;
        if byte == 0x7F {
            if self.line_buf.len() > 0 {
                self.line_buf.pop();
                echo.push(0x08);
                echo.push(0x20);
                echo.push(0x08);
                assert(echo@ =~= seq![0x08u8, 0x20, 0x08]);
            }
        } else if byte == 0x0D || byte == 0x0A {
            echo.push(0x0D);
            echo.push(0x0A);
            assert(echo@ =~= seq![0x0Du8, 0x0A]);
            let mut line: Vec<u8> = Vec::new();
            push_bytes(&mut line, self.line_buf.as_slice());
            line.push(0x0A);
            assert(line@ =~= self.line_buf@.push(0x0A));
            self.line_buf.clear();
            send = Some(line);
        } else if byte == 0x03 {
            self.line_buf.clear();
            let mut interrupt: Vec<u8> = Vec::new();
            interrupt.push(0x03);
            assert(interrupt@ =~= seq![0x03u8]);
            send = Some(interrupt);
        } else if byte == 0x04 {
            if self.line_buf.len() == 0 {
                send = Some(Vec::new());
            }
        } else if byte >= 0x20 {
            if self.line_buf.len() < LINE_LIMIT {
                self.line_buf.push(byte);
                echo.push(byte);
                assert(echo@ =~= seq![byte]);
            }
        }
        Reaction { echo, send }
    }
}

} // verus!
