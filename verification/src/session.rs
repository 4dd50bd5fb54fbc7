//! A client's session with a worker: what is done with each piece of input
//! that arrives, and when the session is over.

use crate::cooked;
use crate::cooked::CookedState;
use crate::signal_parser;
use crate::signal_parser::{Request, SignalParser};
use crate::wire::copy_all;
use vstd::prelude::*;

verus! {

/// How the client waits for input: streams that have ended can be taken off
/// an epoll set, and stay in a set that is polled.
#[derive(Clone, Copy, Debug, PartialEq, Eq, Structural)]
pub enum Watch {
    Epoll,
    Poll,
}

/// What has arrived, or ended.
pub enum Input<B> {
    Stdin(B),
    StdinEnd,
    Stdout(B),
    StdoutEnd,
    Stderr(B),
    StderrEnd,
    Signals(B),
    SignalsEnd,
}

/// What is to be done, in order.
pub enum Output<B> {
    /// Send to the worker's standard input.
    WorkerInput(B),
    /// End the worker's standard input.
    EndWorkerInput,
    /// Show what was typed.
    Screen(B),
    /// Write to standard output.
    Stdout(B),
    /// Write to standard error.
    Stderr(B),
    /// Do what the worker asks for.
    Signal(Request<B>),
    /// Watch standard input no longer.
    StopStdin,
    /// Watch the signals stream no longer.
    StopSignals,
}

pub struct Session {
    watch: Watch,
    sync_mode: bool,
    signal_parser: SignalParser,
    cooked_state: CookedState,
    exit_code: Option<u8>,
    stdout_eof: bool,
    stderr_eof: bool,
}

// ---------------------------------------------------------------------
// Model
// ---------------------------------------------------------------------

/// What a session remembers.
pub struct State {
    pub watch: Watch,
    pub sync: bool,
    /// Bytes of the signals stream that make no frame yet.
    pub pending: Seq<u8>,
    /// The worker wants raw input.
    pub raw: bool,
    /// The line being typed.
    pub line: Seq<u8>,
    pub exit: Option<u8>,
    pub stdout_ended: bool,
    pub stderr_ended: bool,
}

pub open spec fn input_view(i: Input<Vec<u8>>) -> Input<Seq<u8>> {
    match i {
        Input::Stdin(b) => Input::Stdin(b@),
        Input::StdinEnd => Input::StdinEnd,
        Input::Stdout(b) => Input::Stdout(b@),
        Input::StdoutEnd => Input::StdoutEnd,
        Input::Stderr(b) => Input::Stderr(b@),
        Input::StderrEnd => Input::StderrEnd,
        Input::Signals(b) => Input::Signals(b@),
        Input::SignalsEnd => Input::SignalsEnd,
    }
}

pub open spec fn output_view(o: Output<Vec<u8>>) -> Output<Seq<u8>> {
    match o {
        Output::WorkerInput(b) => Output::WorkerInput(b@),
        Output::EndWorkerInput => Output::EndWorkerInput,
        Output::Screen(b) => Output::Screen(b@),
        Output::Stdout(b) => Output::Stdout(b@),
        Output::Stderr(b) => Output::Stderr(b@),
        Output::Signal(r) => Output::Signal(signal_parser::request_view(r)),
        Output::StopStdin => Output::StopStdin,
        Output::StopSignals => Output::StopSignals,
    }
}

pub open spec fn output_views(v: Seq<Output<Vec<u8>>>) -> Seq<Output<Seq<u8>>> {
    Seq::new(v.len(), |i: int| output_view(v[i]))
}

/// The exit code is known and both output streams have ended.
pub open spec fn over(s: State) -> bool {
    s.exit is Some && s.stdout_ended && s.stderr_ended
}

/// The frames that a piece of the signals stream completes.
pub open spec fn new_frames(s: State, b: Seq<u8>) -> Seq<signal_parser::Frame> {
    signal_parser::frames(s.pending + b)
}

/// Typed bytes are edited into lines.
pub open spec fn edits_lines(s: State) -> bool {
    s.watch == Watch::Epoll && s.sync && !s.raw
}

/// What is remembered after `i`.
pub open spec fn next(s: State, i: Input<Seq<u8>>) -> State {
    match i {
        Input::Stdin(b) => if s.exit is None && edits_lines(s) {
            State { line: cooked::line_after(s.line, b), ..s }
        } else {
            s
        },
        Input::StdinEnd => s,
        Input::Stdout(b) => s,
        Input::StdoutEnd => State { stdout_ended: true, ..s },
        Input::Stderr(b) => s,
        Input::StderrEnd => State { stderr_ended: true, ..s },
        Input::Signals(b) => State {
            pending: signal_parser::leftover(s.pending + b),
            raw: signal_parser::raw_after(s.sync, s.raw, new_frames(s, b)),
            exit: match signal_parser::last_exit(new_frames(s, b)) {
                Some(code) => Some(code),
                None => s.exit,
            },
            ..s
        },
        Input::SignalsEnd => State {
            exit: if s.exit is Some {
                s.exit
            } else {
                Some(1)
            },
            ..s
        },
    }
}

/// What one typed byte brings about.
pub open spec fn typed_byte(line: Seq<u8>, b: u8) -> Seq<Output<Seq<u8>>> {
    let echo = cooked::echo_of(line, b);
    let shown: Seq<Output<Seq<u8>>> = if echo.len() > 0 {
        seq![Output::Screen(echo)]
    } else {
        Seq::empty()
    };
    match cooked::sent_on(line, b) {
        Some(bytes) => if bytes.len() == 0 {
            shown.push(Output::EndWorkerInput)
        } else {
            shown.push(Output::WorkerInput(bytes))
        },
        None => shown,
    }
}

/// What typed bytes bring about.
pub open spec fn typed(line: Seq<u8>, b: Seq<u8>) -> Seq<Output<Seq<u8>>>
    decreases b.len(),
{
    if b.len() == 0 {
        Seq::empty()
    } else {
        typed(line, b.drop_last()) + typed_byte(cooked::line_after(line, b.drop_last()), b.last())
    }
}

pub open spec fn as_outputs(rs: Seq<Request<Seq<u8>>>) -> Seq<Output<Seq<u8>>> {
    Seq::new(rs.len(), |i: int| Output::Signal(rs[i]))
}

/// What is to be done about `i`.
pub open spec fn outputs(s: State, i: Input<Seq<u8>>) -> Seq<Output<Seq<u8>>> {
    match i {
        Input::Stdin(b) => if s.exit is Some {
            Seq::empty()
        } else if edits_lines(s) {
            typed(s.line, b)
        } else {
            seq![Output::WorkerInput(b)]
        },
        Input::StdinEnd => if s.watch == Watch::Epoll {
            seq![Output::EndWorkerInput, Output::StopStdin]
        } else {
            Seq::empty()
        },
        Input::Stdout(b) => seq![Output::Stdout(b)],
        Input::StdoutEnd => Seq::empty(),
        Input::Stderr(b) => seq![Output::Stderr(b)],
        Input::StderrEnd => Seq::empty(),
        Input::Signals(b) => {
            let asked = as_outputs(signal_parser::all_requests(s.sync, new_frames(s, b)));
            if signal_parser::last_exit(new_frames(s, b)) is Some && s.watch == Watch::Epoll {
                asked.push(Output::StopSignals)
            } else {
                asked
            }
        },
        Input::SignalsEnd => if s.watch == Watch::Epoll {
            seq![Output::StopSignals]
        } else {
            Seq::empty()
        },
    }
}

/// The session ends right after `i`, without a look at what else has
/// arrived. After the end of a stream, and after input that is dropped, the
/// rest of what has arrived comes first.
pub open spec fn ends_at(s: State, i: Input<Seq<u8>>) -> bool {
    &&& s.watch == Watch::Epoll
    &&& over(next(s, i))
    &&& match i {
        Input::Stdin(b) => s.exit is None,
        Input::Stdout(b) => true,
        Input::Stderr(b) => true,
        Input::Signals(b) => true,
        _ => false,
    }
}

/// What is remembered after all of `is`.
pub open spec fn state_after(s: State, is: Seq<Input<Seq<u8>>>) -> State
    decreases is.len(),
{
    if is.len() == 0 {
        s
    } else {
        next(state_after(s, is.drop_last()), is.last())
    }
}

/// What is done about all of `is`.
pub open spec fn outputs_of(s: State, is: Seq<Input<Seq<u8>>>) -> Seq<Output<Seq<u8>>>
    decreases is.len(),
{
    if is.len() == 0 {
        Seq::empty()
    } else {
        outputs_of(s, is.drop_last()) + outputs(state_after(s, is.drop_last()), is.last())
    }
}

/// The bytes that `os` write to standard output.
pub open spec fn stdout_bytes(os: Seq<Output<Seq<u8>>>) -> Seq<u8>
    decreases os.len(),
{
    if os.len() == 0 {
        Seq::empty()
    } else {
        stdout_bytes(os.drop_last()) + match os.last() {
            Output::Stdout(b) => b,
            _ => Seq::empty(),
        }
    }
}

/// The bytes that `os` write to standard error.
pub open spec fn stderr_bytes(os: Seq<Output<Seq<u8>>>) -> Seq<u8>
    decreases os.len(),
{
    if os.len() == 0 {
        Seq::empty()
    } else {
        stderr_bytes(os.drop_last()) + match os.last() {
            Output::Stderr(b) => b,
            _ => Seq::empty(),
        }
    }
}

/// The bytes that `os` send to the worker.
pub open spec fn worker_bytes(os: Seq<Output<Seq<u8>>>) -> Seq<u8>
    decreases os.len(),
{
    if os.len() == 0 {
        Seq::empty()
    } else {
        worker_bytes(os.drop_last()) + match os.last() {
            Output::WorkerInput(b) => b,
            _ => Seq::empty(),
        }
    }
}

/// What the worker wrote to its standard output, as it arrived in `is`.
pub open spec fn stdout_arrived(is: Seq<Input<Seq<u8>>>) -> Seq<u8>
    decreases is.len(),
{
    if is.len() == 0 {
        Seq::empty()
    } else {
        stdout_arrived(is.drop_last()) + match is.last() {
            Input::Stdout(b) => b,
            _ => Seq::empty(),
        }
    }
}

/// What the worker wrote to its standard error, as it arrived in `is`.
pub open spec fn stderr_arrived(is: Seq<Input<Seq<u8>>>) -> Seq<u8>
    decreases is.len(),
{
    if is.len() == 0 {
        Seq::empty()
    } else {
        stderr_arrived(is.drop_last()) + match is.last() {
            Input::Stderr(b) => b,
            _ => Seq::empty(),
        }
    }
}

/// What was typed.
pub open spec fn stdin_arrived(is: Seq<Input<Seq<u8>>>) -> Seq<u8>
    decreases is.len(),
{
    if is.len() == 0 {
        Seq::empty()
    } else {
        stdin_arrived(is.drop_last()) + match is.last() {
            Input::Stdin(b) => b,
            _ => Seq::empty(),
        }
    }
}

// ---------------------------------------------------------------------
// Laws
// ---------------------------------------------------------------------

proof fn lemma_bytes_of_concat(a: Seq<Output<Seq<u8>>>, b: Seq<Output<Seq<u8>>>)
    ensures
        stdout_bytes(a + b) == stdout_bytes(a) + stdout_bytes(b),
        stderr_bytes(a + b) == stderr_bytes(a) + stderr_bytes(b),
        worker_bytes(a + b) == worker_bytes(a) + worker_bytes(b),
    decreases b.len(),
{
    if b.len() == 0 {
        assert(a + b =~= a);
        assert(stdout_bytes(a) + stdout_bytes(b) =~= stdout_bytes(a));
        assert(stderr_bytes(a) + stderr_bytes(b) =~= stderr_bytes(a));
        assert(worker_bytes(a) + worker_bytes(b) =~= worker_bytes(a));
    } else {
        lemma_bytes_of_concat(a, b.drop_last());
        assert((a + b).drop_last() =~= a + b.drop_last());
        assert(stdout_bytes(a + b) =~= stdout_bytes(a) + stdout_bytes(b));
        assert(stderr_bytes(a + b) =~= stderr_bytes(a) + stderr_bytes(b));
        assert(worker_bytes(a + b) =~= worker_bytes(a) + worker_bytes(b));
    }
}

/// Outputs that write to neither stream.
spec fn silent(o: Output<Seq<u8>>) -> bool {
    !(o is Stdout) && !(o is Stderr)
}

proof fn lemma_silent(os: Seq<Output<Seq<u8>>>)
    requires
        forall|i: int| 0 <= i < os.len() ==> silent(#[trigger] os[i]),
    ensures
        stdout_bytes(os) == Seq::<u8>::empty(),
        stderr_bytes(os) == Seq::<u8>::empty(),
    decreases os.len(),
{
    if os.len() > 0 {
        assert(silent(os[os.len() - 1]));
        assert forall|i: int| 0 <= i < os.drop_last().len() implies silent(
            #[trigger] os.drop_last()[i],
        ) by {
            assert(os.drop_last()[i] == os[i]);
        }
        lemma_silent(os.drop_last());
    }
}

proof fn lemma_typed_is_silent(line: Seq<u8>, b: Seq<u8>)
    ensures
        forall|i: int| 0 <= i < typed(line, b).len() ==> silent(#[trigger] typed(line, b)[i]),
    decreases b.len(),
{
    if b.len() > 0 {
        lemma_typed_is_silent(line, b.drop_last());
        let front = typed(line, b.drop_last());
        let last = typed_byte(cooked::line_after(line, b.drop_last()), b.last());
        assert forall|i: int| 0 <= i < typed(line, b).len() implies silent(
            #[trigger] typed(line, b)[i],
        ) by {
            if i < front.len() {
                assert(typed(line, b)[i] == front[i]);
            } else {
                assert(typed(line, b)[i] == last[i - front.len()]);
            }
        }
    }
}

proof fn lemma_step_streams(s: State, i: Input<Seq<u8>>)
    ensures
        stdout_bytes(outputs(s, i)) == (match i {
            Input::Stdout(b) => b,
            _ => Seq::empty(),
        }),
        stderr_bytes(outputs(s, i)) == (match i {
            Input::Stderr(b) => b,
            _ => Seq::empty(),
        }),
{
    let os = outputs(s, i);
    match i {
        Input::Stdout(b) => {
            reveal_with_fuel(stdout_bytes, 2);
            reveal_with_fuel(stderr_bytes, 2);
            assert(os.drop_last() =~= Seq::empty());
            assert(Seq::<u8>::empty() + b =~= b);
        },
        Input::Stderr(b) => {
            reveal_with_fuel(stdout_bytes, 2);
            reveal_with_fuel(stderr_bytes, 2);
            assert(os.drop_last() =~= Seq::empty());
            assert(Seq::<u8>::empty() + b =~= b);
        },
        Input::Stdin(b) => {
            lemma_typed_is_silent(s.line, b);
            lemma_silent(os);
        },
        _ => {
            lemma_silent(os);
        },
    }
}

/// What the worker writes appears unchanged, in order and whole: whatever
/// else arrives in between, standard output gets the bytes of the worker's
/// standard output, and standard error those of its standard error.
pub proof fn law_output_passes_through(s: State, is: Seq<Input<Seq<u8>>>)
    ensures
        stdout_bytes(outputs_of(s, is)) == stdout_arrived(is),
        stderr_bytes(outputs_of(s, is)) == stderr_arrived(is),
    decreases is.len(),
{
    if is.len() > 0 {
        let front = is.drop_last();
        law_output_passes_through(s, front);
        lemma_bytes_of_concat(outputs_of(s, front), outputs(state_after(s, front), is.last()));
        lemma_step_streams(state_after(s, front), is.last());
    }
}

/// Without line editing, and until an exit code is known, what is typed
/// reaches the worker unchanged, in order and whole.
pub proof fn law_input_passes_through(s: State, is: Seq<Input<Seq<u8>>>)
    requires
        s.exit is None,
        !s.sync || s.watch == Watch::Poll,
        forall|i: int|
            0 <= i < is.len() ==> !((#[trigger] is[i]) is Signals) && !(is[i] is SignalsEnd),
    ensures
        worker_bytes(outputs_of(s, is)) == stdin_arrived(is),
        state_after(s, is).exit is None,
        state_after(s, is).sync == s.sync,
        state_after(s, is).watch == s.watch,
    decreases is.len(),
{
    if is.len() > 0 {
        let front = is.drop_last();
        assert forall|i: int| 0 <= i < front.len() implies !((#[trigger] front[i]) is Signals)
            && !(front[i] is SignalsEnd) by {
            assert(front[i] == is[i]);
        }
        law_input_passes_through(s, front);
        let last = is.last();
        assert(last == is[is.len() - 1]);
        let mid = state_after(s, front);
        let os = outputs(mid, last);
        lemma_bytes_of_concat(outputs_of(s, front), os);
        reveal_with_fuel(worker_bytes, 3);
        assert(last is Stdin ==> os.drop_last() =~= Seq::empty());
        assert(worker_bytes(os) =~= match last {
            Input::Stdin(b) => b,
            _ => Seq::empty(),
        });
    }
}

/// Once the exit code is known nothing that is typed reaches the worker.
pub proof fn law_no_input_after_exit(s: State, b: Seq<u8>)
    requires
        s.exit is Some,
    ensures
        outputs(s, Input::Stdin(b)).len() == 0,
        next(s, Input::Stdin(b)) == s,
{
}

/// A session that is over stays over.
pub proof fn law_over_is_final(s: State, is: Seq<Input<Seq<u8>>>)
    requires
        over(s),
    ensures
        over(state_after(s, is)),
    decreases is.len(),
{
    if is.len() > 0 {
        law_over_is_final(s, is.drop_last());
    }
}

// ---------------------------------------------------------------------
// Operations
// ---------------------------------------------------------------------

impl Session {
    pub closed spec fn state(&self) -> State {
        State {
            watch: self.watch,
            sync: self.sync_mode,
            pending: self.signal_parser.pending(),
            raw: self.signal_parser.raw(),
            line: self.cooked_state.line(),
            exit: self.exit_code,
            stdout_ended: self.stdout_eof,
            stderr_ended: self.stderr_eof,
        }
    }

    /// The line keeps to its limit, and both parts agree on who edits lines.
    pub closed spec fn wf(&self) -> bool {
        &&& self.cooked_state.wf()
        &&& self.signal_parser.sync() == self.sync_mode
    }

    pub fn new(watch: Watch, sync_mode: bool) -> (r: Self)
        ensures
            r.wf(),
            r.state() == (State {
                watch,
                sync: sync_mode,
                pending: Seq::empty(),
                raw: false,
                line: Seq::empty(),
                exit: None,
                stdout_ended: false,
                stderr_ended: false,
            }),
    {
        Session {
            watch,
            sync_mode,
            signal_parser: SignalParser::new(sync_mode),
            cooked_state: CookedState::new(),
            exit_code: None,
            stdout_eof: false,
            stderr_eof: false,
        }
    }

    /// Edits typed bytes into lines.
    fn type_bytes(&mut self, data: &[u8]) -> (r: Vec<Output<Vec<u8>>>)
        requires
            old(self).wf(),
        ensures
            final(self).wf(),
            final(self).state() == (State {
                line: cooked::line_after(old(self).state().line, data@),
                ..old(self).state()
            }),
            output_views(r@) == typed(old(self).state().line, data@),
    {
        let mut out: Vec<Output<Vec<u8>>> = Vec::new();
        let ghost start = self.cooked_state.line();
        let mut i: usize = 0;
        assert(data@.take(0) =~= Seq::empty());
        assert(output_views(out@) =~= Seq::empty());
        while i < data.len()
            invariant
                i <= data@.len(),
                self.wf(),
                start == old(self).state().line,
                self.state() == (State {
                    line: cooked::line_after(start, data@.take(i as int)),
                    ..old(self).state()
                }),
                output_views(out@) == typed(start, data@.take(i as int)),
            decreases data@.len() - i,
        {
            let ghost before = output_views(out@);
            let ghost line = self.cooked_state.line();
            let ghost b = data@[i as int];
            let reaction = self.cooked_state.process(data[i]);
            if reaction.echo.len() > 0 {
                out.push(Output::Screen(reaction.echo));
            }
            match reaction.send {
                Some(bytes) => {
                    if bytes.len() == 0 {
                        out.push(Output::EndWorkerInput);
                    } else {
                        out.push(Output::WorkerInput(bytes));
                    }
                },
                None => {},
            }
            proof {
                assert(output_views(out@) =~= before + typed_byte(line, b));
                assert(data@.take(i + 1).drop_last() =~= data@.take(i as int));
                assert(data@.take(i + 1).last() == b);
            }
            i = i + 1;
        }
        assert(data@.take(i as int) =~= data@);
        out
    }

    /// Takes a piece of the signals stream.
    fn take_signals(&mut self, data: &[u8]) -> (r: Vec<Output<Vec<u8>>>)
        requires
            old(self).wf(),
        ensures
            final(self).wf(),
            final(self).state() == next(old(self).state(), Input::Signals(data@)),
            output_views(r@) == outputs(old(self).state(), Input::Signals(data@)),
    {
        let ghost s = self.state();
        let fed = self.signal_parser.feed(data);
        let mut requests = fed.requests;
        let mut out: Vec<Output<Vec<u8>>> = Vec::new();
        let ghost asked = signal_parser::request_views(requests@);
        let n: usize = requests.len();
        let mut i: usize = 0;
        while i < n
            invariant
                i <= n,
                n == asked.len(),
                requests@.len() == n - i,
                forall|j: int|
                    0 <= j < requests@.len() ==> signal_parser::request_view(
                        #[trigger] requests@[j],
                    ) == asked[i + j],
                output_views(out@) == as_outputs(asked).take(i as int),
            decreases n - i,
        {
            let ghost earlier = requests@;
            let ghost before = output_views(out@);
            let request = requests.remove(0);
            assert(request == earlier[0]);
            assert(signal_parser::request_view(earlier[0]) == asked[i as int]);
            out.push(Output::Signal(request));
            assert(output_views(out@) =~= before.push(Output::Signal(asked[i as int])));
            assert(as_outputs(asked).take(i + 1) =~= as_outputs(asked).take(i as int).push(
                Output::Signal(asked[i as int]),
            ));
            assert forall|j: int| 0 <= j < requests@.len() implies signal_parser::request_view(
                #[trigger] requests@[j],
            ) == asked[i + 1 + j] by {
                assert(requests@[j] == earlier[j + 1]);
            }
            i = i + 1;
        }
        assert(output_views(out@) =~= as_outputs(asked));
        match fed.exit {
            Some(code) => {
                self.exit_code = Some(code);
                if self.watch == Watch::Epoll {
                    let ghost before = output_views(out@);
                    out.push(Output::StopSignals);
                    assert(output_views(out@) =~= before.push(Output::StopSignals));
                }
            },
            None => {},
        }
        out
    }

    /// Takes what has arrived; with what is to be done about it comes whether
    /// the session ends right there.
    pub fn step(&mut self, input: &Input<Vec<u8>>) -> (r: (Vec<Output<Vec<u8>>>, bool))
        requires
            old(self).wf(),
        ensures
            final(self).wf(),
            final(self).state() == next(old(self).state(), input_view(*input)),
            output_views(r.0@) == outputs(old(self).state(), input_view(*input)),
            r.1 == ends_at(old(self).state(), input_view(*input)),
    {
        let ghost s = self.state();
        let had_exit = self.exit_code.is_some();
        let mut out: Vec<Output<Vec<u8>>> = Vec::new();
        let mut looks: bool = true;
        match input {
            Input::Stdin(b) => {
                if had_exit {
                    looks = false;
                } else if self.watch == Watch::Epoll && self.sync_mode
                    && !self.signal_parser.worker_wants_raw() {
                    out = self.type_bytes(b.as_slice());
                } else {
                    out.push(Output::WorkerInput(copy_all(b.as_slice())));
                }
            },
            Input::StdinEnd => {
                looks = false;
                if self.watch == Watch::Epoll {
                    out.push(Output::EndWorkerInput);
                    out.push(Output::StopStdin);
                }
            },
            Input::Stdout(b) => {
                out.push(Output::Stdout(copy_all(b.as_slice())));
            },
            Input::StdoutEnd => {
                looks = false;
                self.stdout_eof = true;
            },
            Input::Stderr(b) => {
                out.push(Output::Stderr(copy_all(b.as_slice())));
            },
            Input::StderrEnd => {
                looks = false;
                self.stderr_eof = true;
            },
            Input::Signals(b) => {
                out = self.take_signals(b.as_slice());
            },
            Input::SignalsEnd => {
                looks = false;
                if !had_exit {
                    self.exit_code = Some(1);
                }
                if self.watch == Watch::Epoll {
                    out.push(Output::StopSignals);
                }
            },
        }
        assert(output_views(out@) =~= outputs(s, input_view(*input)));
        let ends = looks && self.watch == Watch::Epoll && self.finished();
        (out, ends)
    }

    /// Whether the exit code is known and both output streams have ended.
    pub fn finished(&self) -> (r: bool)
        ensures
            r == over(self.state()),
    {
        self.exit_code.is_some() && self.stdout_eof && self.stderr_eof
    }

    /// The exit code of the client.
    pub fn exit_code(&self) -> (r: u8)
        ensures
            r == match self.state().exit {
                Some(code) => code,
                None => 1,
            },
    {
        match self.exit_code {
            Some(code) => code,
            None => 1,
        }
    }
}

} // verus!
