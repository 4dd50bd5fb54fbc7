//! That what the library speaks of is what its values hold.

use crate::args;
use crate::args::{ParsedArgs, Switch, Threads};
use crate::client_run;
use crate::config;
use crate::config::MemText;
use crate::config::MemThreshold;
use crate::env_cache;
use crate::env_cache::EnvVar;
use crate::handshake::RawRequest;
use crate::request;
use crate::request::{ClientPlan, SandboxMode};
use crate::sandbox_fs;
use crate::sandbox_fs::{FsOp, Propagation, Step};
use crate::server;
use crate::server::Answer;
use crate::session;
use crate::session::{Input, Output};
use crate::signal_parser;
use crate::signal_parser::Request;
use crate::text;
use crate::wire;
use crate::worker::SocketPaths;
use vstd::prelude::*;

verus! {

/// Texts are what they hold, whether or not they are there.
pub proof fn law_texts(s: String, t: &str, v: Seq<String>, i: int)
    ensures
        text::opt_view(Some(s)) == Some(s@),
        text::opt_view(None) is None,
        text::opt_str(Some(t)) == Some(t@),
        text::opt_str(None) is None,
        text::or_empty(Some(s@)) == s@,
        text::or_empty(None) == Seq::<char>::empty(),
        text::views(v).len() == v.len(),
        0 <= i < v.len() ==> text::views(v)[i] == v[i]@,
{
}

/// Lists of bytes, variables and switches hold what their members do, in their
/// order.
pub proof fn law_lists(b: Seq<Vec<u8>>, v: Seq<EnvVar>, w: Seq<Switch>, i: int)
    ensures
        wire::byte_views(b).len() == b.len(),
        0 <= i < b.len() ==> wire::byte_views(b)[i] == b[i]@,
        env_cache::var_views(v).len() == v.len(),
        0 <= i < v.len() ==> env_cache::var_views(v)[i] == (v[i].key@, v[i].value@),
        args::switch_views(w).len() == w.len(),
        0 <= i < w.len() ==> args::switch_views(w)[i] == (w[i].name@, w[i].value@),
{
}

/// What was read from a command line is what it says.
pub proof fn law_parsed_arguments(p: ParsedArgs, argv: Seq<Seq<char>>)
    requires
        p.says(argv),
    ensures
        args::outcome(argv) is Some,
        args::outcome(argv)->0.switches == args::switch_views(p.switches@),
        args::outcome(argv)->0.program_file == text::opt_view(p.program_file),
        args::outcome(argv)->0.program_args == text::views(p.program_args@),
        args::channel(argv) == text::opt_view(p.julia_channel),
{
}

/// The parts of a request are its own.
pub proof fn law_requests(q: RawRequest)
    ensures
        q@.flags == q.flags,
        q@.pid == q.pid,
        q@.ppid == q.ppid,
        q@.cwd == q.cwd@,
        q@.fingerprint == q.fingerprint,
        q@.args == wire::byte_views(q.args@),
{
}

/// The four streams of a client come in one order.
pub proof fn law_streams(p: SocketPaths)
    ensures
        client_run::path_texts(p).len() == 4,
        client_run::path_texts(p)[0] == p.stdin@,
        client_run::path_texts(p)[1] == p.stdout@,
        client_run::path_texts(p)[2] == p.stderr@,
        client_run::path_texts(p)[3] == p.signals@,
{
}

/// A plan for a client is what it holds.
pub proof fn law_plans(s: String, id: u32, mode: SandboxMode, t: Threads)
    ensures
        request::plan_view(ClientPlan::Help) == ClientPlan::<Seq<char>, Seq<u16>>::Help,
        request::plan_view(ClientPlan::Version) == ClientPlan::<Seq<char>, Seq<u16>>::Version,
        request::plan_view(ClientPlan::Status) == ClientPlan::<Seq<char>, Seq<u16>>::Status,
        request::plan_view(ClientPlan::Refuse(s)) == ClientPlan::<Seq<char>, Seq<u16>>::Refuse(s@),
        request::plan_view(ClientPlan::Bypass(id)) == ClientPlan::<Seq<char>, Seq<u16>>::Bypass(id),
        request::plan_view(ClientPlan::Restart(s)) == ClientPlan::<Seq<char>, Seq<u16>>::Restart(
            s@,
        ),
        request::plan_view(ClientPlan::Assign(s, mode, t)) == ClientPlan::Assign(s@, mode, t@),
{
}

/// A step of a plan is what it holds.
pub proof fn law_steps(a: String, b: String, p: Propagation, v: Seq<Step<String>>, i: int)
    ensures
        sandbox_fs::op_view(FsOp::Propagate(a, p)) == FsOp::Propagate(a@, p),
        sandbox_fs::op_view(FsOp::Tmpfs(a, b)) == FsOp::Tmpfs(a@, b@),
        sandbox_fs::op_view(FsOp::Chdir(a)) == FsOp::Chdir(a@),
        sandbox_fs::op_view(FsOp::Mkdir(a)) == FsOp::Mkdir(a@),
        sandbox_fs::op_view(FsOp::MkdirAll(a)) == FsOp::MkdirAll(a@),
        sandbox_fs::op_view(FsOp::Bind(a, b)) == FsOp::Bind(a@, b@),
        sandbox_fs::op_view(FsOp::Readonly(a)) == FsOp::Readonly(a@),
        sandbox_fs::op_view(FsOp::PivotRoot(a, b)) == FsOp::PivotRoot(a@, b@),
        sandbox_fs::op_view(FsOp::Touch(a)) == FsOp::Touch(a@),
        sandbox_fs::op_view(FsOp::WriteFile(a, b)) == FsOp::WriteFile(a@, b@),
        sandbox_fs::op_view(FsOp::Symlink(a, b)) == FsOp::Symlink(a@, b@),
        sandbox_fs::op_view(FsOp::Proc(a)) == FsOp::Proc(a@),
        sandbox_fs::op_view(FsOp::Overlay(a, b)) == FsOp::Overlay(a@, b@),
        sandbox_fs::op_view(FsOp::Detach(a)) == FsOp::Detach(a@),
        sandbox_fs::step_views(v).len() == v.len(),
        0 <= i < v.len() ==> {
            &&& sandbox_fs::step_views(v)[i].op == sandbox_fs::op_view(v[i].op)
            &&& sandbox_fs::step_views(v)[i].on_ok == v[i].on_ok
            &&& sandbox_fs::step_views(v)[i].on_fail == v[i].on_fail
        },
{
}

/// What passes through a session is what it holds.
pub proof fn law_inputs_and_outputs(b: Vec<u8>, raw: bool)
    ensures
        session::input_view(Input::Stdin(b)) == Input::Stdin(b@),
        session::input_view(Input::Stdout(b)) == Input::Stdout(b@),
        session::input_view(Input::Stderr(b)) == Input::Stderr(b@),
        session::input_view(Input::Signals(b)) == Input::Signals(b@),
        session::input_view(Input::StdinEnd) == Input::<Seq<u8>>::StdinEnd,
        session::input_view(Input::StdoutEnd) == Input::<Seq<u8>>::StdoutEnd,
        session::input_view(Input::StderrEnd) == Input::<Seq<u8>>::StderrEnd,
        session::input_view(Input::SignalsEnd) == Input::<Seq<u8>>::SignalsEnd,
        session::output_view(Output::WorkerInput(b)) == Output::WorkerInput(b@),
        session::output_view(Output::Screen(b)) == Output::Screen(b@),
        session::output_view(Output::Stdout(b)) == Output::Stdout(b@),
        session::output_view(Output::Stderr(b)) == Output::Stderr(b@),
        session::output_view(Output::EndWorkerInput) == Output::<Seq<u8>>::EndWorkerInput,
        session::output_view(Output::StopStdin) == Output::<Seq<u8>>::StopStdin,
        session::output_view(Output::StopSignals) == Output::<Seq<u8>>::StopSignals,
        session::output_view(Output::Signal(Request::Reply(b))) == Output::Signal(
            Request::Reply(b@),
        ),
        signal_parser::request_view(Request::SetRaw(raw)) == Request::<Seq<u8>>::SetRaw(raw),
        signal_parser::request_view(Request::ReportSize) == Request::<Seq<u8>>::ReportSize,
        server::answer_view(Answer::Stdout(b)) == Answer::Stdout(b@),
        server::answer_view(Answer::Signals(b)) == Answer::Signals(b@),
{
}

/// A threshold is what it holds.
pub proof fn law_thresholds(s: String, n: u64)
    ensures
        config::mem_view(MemThreshold::Fraction(s)) == MemText::Percent(s@),
        config::mem_view(MemThreshold::Bytes(n)) == MemText::Bytes(n as nat),
{
}

} // verus!
