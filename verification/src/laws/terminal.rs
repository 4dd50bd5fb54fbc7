//! What passes between a client's terminal and its worker.

use crate::cooked;
use crate::laws::wire::{byte_at, law_lowest_byte_first};
use crate::server;
use crate::server::Answer;
use crate::session;
use crate::session::{Input, Output, State, Watch};
use crate::signal_parser;
use crate::signal_parser::Request;
use crate::status::ViewKind;
use vstd::prelude::*;

verus! {

// ---------------------------------------------------------------------
// Typing
// ---------------------------------------------------------------------

/// What is typed is put behind the line and shown, as long as there is room;
/// nothing is sent yet.
pub proof fn law_typing(line: Seq<u8>, b: u8)
    requires
        b >= 32,
        b != 127,
    ensures
        line.len() < 4096 ==> cooked::next_line(line, b) == line.push(b) && cooked::echo_of(line, b)
            == seq![b],
        line.len() >= 4096 ==> cooked::next_line(line, b) == line && cooked::echo_of(line, b)
            == Seq::<u8>::empty(),
        cooked::sent_on(line, b) is None,
{
}

/// The delete key takes the last byte off the line and off the screen.
pub proof fn law_deleting(line: Seq<u8>, b: u8)
    ensures
        cooked::next_line(line.push(b), 127) == line,
        cooked::echo_of(line.push(b), 127) == seq![8u8, 32u8, 8u8],
        cooked::next_line(Seq::empty(), 127) == Seq::<u8>::empty(),
        cooked::echo_of(Seq::empty(), 127) == Seq::<u8>::empty(),
        cooked::sent_on(line, 127) is None,
{
    assert(line.push(b).drop_last() =~= line);
}

/// Either key that ends a line sends it with a line feed, and begins another.
pub proof fn law_ending_a_line(line: Seq<u8>)
    ensures
        cooked::sent_on(line, 13) == Some(line.push(10)),
        cooked::sent_on(line, 10) == Some(line.push(10)),
        cooked::next_line(line, 13) == Seq::<u8>::empty(),
        cooked::next_line(line, 10) == Seq::<u8>::empty(),
        cooked::echo_of(line, 13) == seq![13u8, 10u8],
        cooked::echo_of(line, 10) == seq![13u8, 10u8],
{
}

/// An interrupt is sent at once and drops the line. The end of the input is
/// sent where the line is empty, and else does nothing.
pub proof fn law_control_keys(line: Seq<u8>, b: u8)
    ensures
        cooked::sent_on(line, 3) == Some(seq![3u8]),
        cooked::next_line(line, 3) == Seq::<u8>::empty(),
        cooked::echo_of(line, 3) == Seq::<u8>::empty(),
        line.len() == 0 ==> cooked::sent_on(line, 4) == Some(Seq::<u8>::empty()),
        line.len() > 0 ==> cooked::sent_on(line, 4) is None,
        cooked::next_line(line, 4) == line,
        b < 32 && b != 3 && b != 4 && b != 10 && b != 13 ==> {
            &&& cooked::sent_on(line, b) is None
            &&& cooked::next_line(line, b) == line
            &&& cooked::echo_of(line, b) == Seq::<u8>::empty()
        },
{
}

// ---------------------------------------------------------------------
// Frames
// ---------------------------------------------------------------------

/// A frame is its byte, the number of bytes that follow, and these.
pub proof fn law_frames_are_cut_by_their_length(id: u8, data: Seq<u8>, rest: Seq<u8>)
    requires
        data.len() <= 255,
    ensures
        signal_parser::frames(seq![id, data.len() as u8] + data + rest) == seq![(id, data)]
            + signal_parser::frames(rest),
        signal_parser::leftover(seq![id, data.len() as u8] + data + rest)
            == signal_parser::leftover(rest),
{
    let b = seq![id, data.len() as u8] + data + rest;
    assert(b[1] == data.len());
    assert(b.subrange(2, 2 + b[1] as int) =~= data);
    assert(b.skip(2 + b[1] as int) =~= rest);
}

/// A frame that is not all there is kept until it is.
pub proof fn law_unfinished_frames_wait(b: Seq<u8>)
    requires
        b.len() < 2 || b.len() < 2 + b[1],
    ensures
        signal_parser::frames(b) == Seq::<signal_parser::Frame>::empty(),
        signal_parser::leftover(b) == b,
{
}

/// What a worker can ask for: raw input and its end, which is acknowledged,
/// and the size of the terminal. Where the client edits lines itself its
/// terminal is left alone.
pub proof fn law_what_a_worker_asks_for(on: u8, data: Seq<u8>, id: u8, sync: bool)
    ensures
        signal_parser::requests_of(false, (2u8, seq![on])) == seq![
            Request::SetRaw(on != 0),
            Request::Reply(seq![2u8, 0u8]),
        ],
        signal_parser::requests_of(true, (2u8, seq![on])) == seq![
            Request::<Seq<u8>>::Reply(seq![2u8, 0u8]),
        ],
        signal_parser::requests_of(sync, (3u8, data)) == seq![Request::<Seq<u8>>::ReportSize],
        id != 2 && id != 3 ==> signal_parser::requests_of(sync, (id, data)) == Seq::<
            Request<Seq<u8>>,
        >::empty(),
{
}

/// The last frame decides whether raw input is wanted, where the client keeps
/// that in mind.
pub proof fn law_raw_input_is_kept_in_mind(
    before: bool,
    fs: Seq<signal_parser::Frame>,
    on: u8,
    id: u8,
    data: Seq<u8>,
)
    ensures
        signal_parser::raw_after(true, before, fs.push((2u8, seq![on]))) == (on != 0),
        id != 2 ==> signal_parser::raw_after(true, before, fs.push((id, data)))
            == signal_parser::raw_after(true, before, fs),
        signal_parser::raw_after(false, before, fs) == before,
        signal_parser::raw_after(true, before, Seq::empty()) == before,
    decreases fs.len(),
{
    assert(fs.push((2u8, seq![on])).last() == (2u8, seq![on]));
    assert(fs.push((id, data)).drop_last() =~= fs);
    lemma_raw_stays(before, fs);
}

proof fn lemma_raw_stays(before: bool, fs: Seq<signal_parser::Frame>)
    ensures
        signal_parser::raw_after(false, before, fs) == before,
    decreases fs.len(),
{
    if fs.len() > 0 {
        lemma_raw_stays(before, fs.drop_last());
    }
}

/// A worker that exits says with which code; without one it failed.
pub proof fn law_exit_codes(code: u8, rest: Seq<u8>, id: u8, data: Seq<u8>)
    ensures
        signal_parser::exit_of((1u8, seq![code] + rest)) == Some(code),
        signal_parser::exit_of((1u8, Seq::empty())) == Some(1u8),
        id != 1 ==> signal_parser::exit_of((id, data)) is None,
{
    assert((seq![code] + rest)[0] == code);
}

/// The size of the terminal is told as rows and columns, 24 and 80 where there
/// is none.
pub proof fn law_terminal_size(rows: u16, cols: u16)
    ensures
        signal_parser::size_frame(Some((rows, cols))) == seq![
            3u8,
            4u8,
            byte_at(rows as nat, 1),
            byte_at(rows as nat, 256),
            byte_at(cols as nat, 1),
            byte_at(cols as nat, 256),
        ],
        signal_parser::size_frame(None) == seq![3u8, 4u8, 24u8, 0u8, 80u8, 0u8],
{
    law_lowest_byte_first(rows as nat);
    law_lowest_byte_first(cols as nat);
    law_lowest_byte_first(24);
    law_lowest_byte_first(80);
    assert(signal_parser::size_frame(Some((rows, cols))) =~= seq![
        3u8,
        4u8,
        byte_at(rows as nat, 1),
        byte_at(rows as nat, 256),
        byte_at(cols as nat, 1),
        byte_at(cols as nat, 256),
    ]);
    assert(signal_parser::size_frame(None) =~= seq![3u8, 4u8, 24u8, 0u8, 80u8, 0u8]);
}

// ---------------------------------------------------------------------
// The session
// ---------------------------------------------------------------------

/// What the worker writes comes out where it was written, and changes nothing
/// else.
pub proof fn law_what_the_worker_writes_comes_out(s: State, b: Seq<u8>)
    ensures
        session::outputs(s, Input::Stdout(b)) == seq![Output::Stdout(b)],
        session::outputs(s, Input::Stderr(b)) == seq![Output::Stderr(b)],
        session::next(s, Input::Stdout(b)) == s,
        session::next(s, Input::Stderr(b)) == s,
{
}

/// What is typed goes to the worker as it is, unless the client edits lines;
/// after the worker's exit it goes nowhere.
pub proof fn law_what_is_typed_goes_to_the_worker(s: State, b: Seq<u8>)
    ensures
        s.exit is Some ==> session::outputs(s, Input::Stdin(b)) == Seq::<Output<Seq<u8>>>::empty(),
        s.exit is None && (s.raw || !s.sync || s.watch == Watch::Poll) ==> session::outputs(
            s,
            Input::Stdin(b),
        ) == seq![Output::WorkerInput(b)] && session::next(s, Input::Stdin(b)) == s,
{
}

/// Where the client edits lines, a byte is shown and a line is sent as the
/// keys say.
pub proof fn law_lines_are_edited(s: State, b: u8)
    requires
        s.exit is None,
        s.sync,
        !s.raw,
        s.watch == Watch::Epoll,
        s.line.len() < 4096,
    ensures
        32 <= b && b != 127 ==> session::outputs(s, Input::Stdin(seq![b])) == seq![
            Output::Screen(seq![b]),
        ] && session::next(s, Input::Stdin(seq![b])).line == s.line.push(b),
        b == 13 ==> session::outputs(s, Input::Stdin(seq![b])) == seq![
            Output::Screen(seq![13u8, 10u8]),
            Output::WorkerInput(s.line.push(10)),
        ] && session::next(s, Input::Stdin(seq![b])).line == Seq::<u8>::empty(),
        b == 3 ==> session::outputs(s, Input::Stdin(seq![b])) == seq![
            Output::WorkerInput(seq![3u8]),
        ],
        b == 4 && s.line.len() == 0 ==> session::outputs(s, Input::Stdin(seq![b])) == seq![
            Output::<Seq<u8>>::EndWorkerInput,
        ],
{
    let one = seq![b];
    assert(one.drop_last() =~= Seq::<u8>::empty());
    assert(one.last() == b);
    reveal_with_fuel(session::typed, 2);
    reveal_with_fuel(cooked::line_after, 2);
    let os = session::typed_byte(s.line, b);
    assert(session::typed(s.line, Seq::empty()) =~= Seq::empty());
    assert(session::typed(s.line, one) =~= os);
    if 32 <= b && b != 127 {
        assert(os =~= seq![Output::Screen(seq![b])]);
    } else if b == 13 {
        assert(os =~= seq![
            Output::Screen(seq![13u8, 10u8]),
            Output::WorkerInput(s.line.push(10)),
        ]);
    } else if b == 3 {
        assert(os =~= seq![Output::WorkerInput(seq![3u8])]);
    } else if b == 4 && s.line.len() == 0 {
        assert(os =~= seq![Output::<Seq<u8>>::EndWorkerInput]);
    }
}

/// The end of what is typed is told to the worker once.
pub proof fn law_end_of_the_input(s: State)
    ensures
        s.watch == Watch::Epoll ==> session::outputs(s, Input::StdinEnd) == seq![
            Output::<Seq<u8>>::EndWorkerInput,
            Output::StopStdin,
        ],
        s.watch == Watch::Poll ==> session::outputs(s, Input::StdinEnd) == Seq::<
            Output<Seq<u8>>,
        >::empty(),
        session::next(s, Input::StdinEnd) == s,
{
}

/// A client is done when it knows the exit code and both streams have ended.
/// Where the worker leaves without a code, it failed.
pub proof fn law_when_a_session_is_over(s: State, code: u8)
    requires
        s.pending.len() == 0,
    ensures
        session::over(s) <==> s.exit is Some && s.stdout_ended && s.stderr_ended,
        session::next(s, Input::StdoutEnd).stdout_ended,
        session::next(s, Input::StderrEnd).stderr_ended,
        session::next(s, Input::StdoutEnd).stderr_ended == s.stderr_ended,
        session::next(s, Input::StderrEnd).stdout_ended == s.stdout_ended,
        session::next(s, Input::StdoutEnd).exit == s.exit,
        session::next(s, Input::StderrEnd).exit == s.exit,
        session::next(s, Input::Signals(seq![1u8, 1u8, code])).exit == Some(code),
        session::next(s, Input::SignalsEnd).exit == if s.exit is Some {
            s.exit
        } else {
            Some(1u8)
        },
{
    let b = seq![1u8, 1u8, code];
    let none = Seq::<u8>::empty();
    assert(s.pending + b =~= b);
    law_frames_are_cut_by_their_length(1u8, seq![code], none);
    assert(seq![1u8, 1u8] + seq![code] + none =~= b);
    law_unfinished_frames_wait(none);
    let fs = signal_parser::frames(b);
    assert(fs =~= seq![(1u8, seq![code])]);
    assert(fs.last() == (1u8, seq![code]));
}

/// A turn is the last where the session is over with it; the ends of streams
/// alone are not looked at then, nor what is typed after the exit.
pub proof fn law_which_turn_is_the_last(s: State, b: Seq<u8>)
    ensures
        s.watch == Watch::Poll ==> !session::ends_at(s, Input::Stdout(b)),
        s.watch == Watch::Epoll ==> (session::ends_at(s, Input::Stdout(b)) <==> s.exit is Some
            && s.stdout_ended && s.stderr_ended),
        s.watch == Watch::Epoll ==> (session::ends_at(s, Input::Stderr(b)) <==> s.exit is Some
            && s.stdout_ended && s.stderr_ended),
        !session::ends_at(s, Input::Stdin(b)),
        !session::ends_at(s, Input::StdinEnd),
        !session::ends_at(s, Input::StdoutEnd),
        !session::ends_at(s, Input::StderrEnd),
        !session::ends_at(s, Input::SignalsEnd),
        s.watch == Watch::Epoll ==> (session::ends_at(s, Input::Signals(b)) <==> session::next(
            s,
            Input::Signals(b),
        ).exit is Some && s.stdout_ended && s.stderr_ended),
{
}

/// A client that is only told something gets it on its output, and then an
/// exit without an error.
pub proof fn law_answers_without_a_worker(content: Seq<char>)
    ensures
        server::text_answers(content) == seq![
            Answer::Stdout(vstd::utf8::encode_utf8(content)),
            Answer::Signals(seq![1u8, 1u8, 0u8]),
        ],
        server::status_answers((ViewKind { live: false, json: false }), content)
            == server::text_answers(content),
        server::status_answers((ViewKind { live: false, json: true }), content)
            == server::text_answers(content),
        server::status_answers((ViewKind { live: true, json: false }), content) == seq![
            Answer::Signals(seq![2u8, 1u8, 0u8]),
            Answer::Stdout(vstd::utf8::encode_utf8("\u{1b}[?25l"@)),
            Answer::Stdout(vstd::utf8::encode_utf8(content)),
        ],
        server::last_answers() == seq![
            Answer::Stdout(vstd::utf8::encode_utf8("\u{1b}[?25h\r\n"@)),
            Answer::Signals(seq![1u8, 1u8, 0u8]),
        ],
{
}

/// The signals stream is watched until it ends or tells of the exit, where
/// streams can be watched one by one.
pub proof fn law_how_long_signals_are_watched(s: State, code: u8)
    requires
        s.pending.len() == 0,
    ensures
        s.watch == Watch::Epoll ==> session::outputs(s, Input::SignalsEnd) == seq![
            Output::<Seq<u8>>::StopSignals,
        ],
        s.watch == Watch::Poll ==> session::outputs(s, Input::SignalsEnd) == Seq::<
            Output<Seq<u8>>,
        >::empty(),
        s.watch == Watch::Epoll ==> session::outputs(s, Input::Signals(seq![1u8, 1u8, code]))
            == seq![Output::<Seq<u8>>::StopSignals],
        s.watch == Watch::Poll ==> session::outputs(s, Input::Signals(seq![1u8, 1u8, code]))
            == Seq::<Output<Seq<u8>>>::empty(),
        session::outputs(s, Input::Signals(seq![3u8, 0u8])) == seq![
            Output::<Seq<u8>>::Signal(Request::ReportSize),
        ],
{
    let b = seq![1u8, 1u8, code];
    let none = Seq::<u8>::empty();
    assert(s.pending + b =~= b);
    law_frames_are_cut_by_their_length(1u8, seq![code], none);
    assert(seq![1u8, 1u8] + seq![code] + none =~= b);
    law_unfinished_frames_wait(none);
    let fs = signal_parser::frames(b);
    assert(fs =~= seq![(1u8, seq![code])]);
    assert(fs.last() == (1u8, seq![code]));
    assert(fs.drop_last() =~= Seq::empty());
    reveal_with_fuel(signal_parser::all_requests, 2);
    assert(signal_parser::all_requests(s.sync, fs) =~= Seq::empty());
    let asked = session::as_outputs(signal_parser::all_requests(s.sync, fs));
    assert(asked =~= Seq::empty());
    let q = seq![3u8, 0u8];
    assert(s.pending + q =~= q);
    law_frames_are_cut_by_their_length(3u8, none, none);
    assert(seq![3u8, 0u8] + none + none =~= q);
    let gs = signal_parser::frames(q);
    assert(gs =~= seq![(3u8, none)]);
    assert(gs.last() == (3u8, none));
    assert(gs.drop_last() =~= Seq::empty());
    assert(signal_parser::all_requests(s.sync, gs) =~= seq![Request::<Seq<u8>>::ReportSize]);
    assert(session::as_outputs(signal_parser::all_requests(s.sync, gs)) =~= seq![
        Output::<Seq<u8>>::Signal(Request::ReportSize),
    ]);
}

} // verus!
