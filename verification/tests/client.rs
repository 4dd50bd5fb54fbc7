use julia_daemon::client_env::{extract_address_arg, extract_sync_arg, fits_count, scan_env};
use julia_daemon::cooked::{CookedState, LINE_LIMIT};
use julia_daemon::dial::{
    failure_text, fallback_address, pid_of, pid_path, runtime_dir_for, scheme_text, target_text,
    DialAction, Phase, RETRIES,
};
use julia_daemon::env_cache::{find_last, find_value, EnvCache, EnvVar, SLOTS};
use julia_daemon::protocol::{Platform, TransportMode};
use julia_daemon::session::{Input, Output, Session, Watch};
use julia_daemon::signal_parser::{size_reply, Request, SignalParser};

fn var(key: &str, value: &str) -> EnvVar {
    EnvVar { key: key.to_string(), value: value.to_string() }
}

fn strings(items: &[&str]) -> Vec<String> {
    let mut out = vec![];
    for s in items {
        out.push(s.to_string());
    }
    out
}

// ---------------------------------------------------------------------
// Line editing
// ---------------------------------------------------------------------

#[test]
fn a_typed_line_is_sent_on_enter() {
    let mut state = CookedState::new();
    for b in b"1+1" {
        let r = state.process(*b);
        assert_eq!(r.echo, vec![*b]);
        assert!(r.send.is_none());
    }
    let r = state.process(0x0d);
    assert_eq!(r.echo, vec![0x0d, 0x0a]);
    assert_eq!(r.send, Some(b"1+1\n".to_vec()));
    assert_eq!(state.process(0x0a).send, Some(b"\n".to_vec()));
}

#[test]
fn a_backspace_takes_the_last_byte_back() {
    let mut state = CookedState::new();
    assert!(state.process(0x7f).echo.is_empty());
    state.process(b'a');
    state.process(b'b');
    assert_eq!(state.process(0x7f).echo, vec![0x08, 0x20, 0x08]);
    assert_eq!(state.process(0x0d).send, Some(b"a\n".to_vec()));
}

#[test]
fn control_keys_interrupt_and_end_input() {
    let mut state = CookedState::new();
    assert_eq!(state.process(0x04).send, Some(vec![]));
    state.process(b'a');
    assert_eq!(state.process(0x04).send, None);
    assert_eq!(state.process(0x03).send, Some(vec![0x03]));
    assert_eq!(state.process(0x0d).send, Some(b"\n".to_vec()));
    assert_eq!(state.process(0x1b).send, None);
}

#[test]
fn a_line_that_is_full_takes_no_more() {
    let mut state = CookedState::new();
    for _ in 0..LINE_LIMIT {
        state.process(b'x');
    }
    assert!(state.process(b'y').echo.is_empty());
    let line = state.process(0x0d).send.unwrap();
    assert_eq!(line.len(), LINE_LIMIT + 1);
}

// ---------------------------------------------------------------------
// Signals
// ---------------------------------------------------------------------

#[test]
fn frames_are_read_across_pieces() {
    let mut parser = SignalParser::new(false);
    let first = parser.feed(&[0x02, 0x01]);
    assert!(first.exit.is_none());
    assert!(first.requests.is_empty());
    let second = parser.feed(&[0x01, 0x03, 0x00]);
    assert_eq!(second.requests.len(), 3);
    assert!(matches!(&second.requests[0], Request::SetRaw(true)));
    assert!(matches!(&second.requests[1], Request::Reply(b) if b[..] == [0x02, 0x00]));
    assert!(matches!(&second.requests[2], Request::ReportSize));
}

#[test]
fn the_exit_code_is_that_of_the_last_frame() {
    let mut parser = SignalParser::new(false);
    assert_eq!(parser.feed(&[0x01, 0x01, 0x07]).exit, Some(7));
    assert_eq!(parser.feed(&[0x01, 0x00]).exit, Some(1));
    assert_eq!(parser.feed(&[0x01, 0x01, 0x07, 0x05, 0x00]).exit, None);
}

#[test]
fn a_client_that_edits_lines_leaves_its_terminal_alone() {
    let mut parser = SignalParser::new(true);
    assert!(!parser.worker_wants_raw());
    let fed = parser.feed(&[0x02, 0x01, 0x01]);
    assert_eq!(fed.requests.len(), 1);
    assert!(parser.worker_wants_raw());
    parser.feed(&[0x02, 0x01, 0x00]);
    assert!(!parser.worker_wants_raw());
}

#[test]
fn the_size_of_the_terminal_is_reported_rows_first() {
    assert_eq!(size_reply(Some((50, 300))), vec![0x03, 4, 50, 0, 44, 1]);
    assert_eq!(size_reply(None), vec![0x03, 4, 24, 0, 80, 0]);
}

// ---------------------------------------------------------------------
// Sessions
// ---------------------------------------------------------------------

#[test]
fn a_session_ends_when_all_has_been_said() {
    let mut s = Session::new(Watch::Epoll, false);
    let (out, ends) = s.step(&Input::Stdin(b"x".to_vec()));
    assert!(!ends);
    assert!(matches!(&out[0], Output::WorkerInput(b) if b[..] == *b"x"));
    let (out, _) = s.step(&Input::Stdout(b"y".to_vec()));
    assert!(matches!(&out[0], Output::Stdout(b) if b[..] == *b"y"));
    s.step(&Input::StdoutEnd);
    s.step(&Input::StderrEnd);
    assert!(!s.finished());
    let (out, ends) = s.step(&Input::Signals(vec![0x01, 0x01, 0x03]));
    assert!(ends);
    assert!(matches!(&out[0], Output::StopSignals));
    assert!(s.finished());
    assert_eq!(s.exit_code(), 3);
}

#[test]
fn nothing_is_sent_to_a_worker_that_is_done() {
    let mut s = Session::new(Watch::Poll, false);
    s.step(&Input::Signals(vec![0x01, 0x01, 0x00]));
    let (out, _) = s.step(&Input::Stdin(b"late".to_vec()));
    assert!(out.is_empty());
    assert!(!s.finished());
}

#[test]
fn a_lost_signals_stream_is_a_failure() {
    let mut s = Session::new(Watch::Epoll, false);
    s.step(&Input::SignalsEnd);
    s.step(&Input::StdoutEnd);
    s.step(&Input::StderrEnd);
    assert!(s.finished());
    assert_eq!(s.exit_code(), 1);
}

#[test]
fn lines_are_edited_until_raw_input_is_wanted() {
    let mut s = Session::new(Watch::Epoll, true);
    let (out, _) = s.step(&Input::Stdin(b"a".to_vec()));
    assert_eq!(out.len(), 1);
    assert!(matches!(&out[0], Output::Screen(b) if b[..] == *b"a"));
    s.step(&Input::Signals(vec![0x02, 0x01, 0x01]));
    let (out, _) = s.step(&Input::Stdin(b"b".to_vec()));
    assert!(matches!(&out[0], Output::WorkerInput(b) if b[..] == *b"b"));
}

#[test]
fn the_end_of_input_is_passed_on() {
    let mut s = Session::new(Watch::Epoll, false);
    let (out, ends) = s.step(&Input::StdinEnd);
    assert!(!ends);
    assert_eq!(out.len(), 2);
    assert!(matches!(&out[0], Output::EndWorkerInput));
    assert!(matches!(&out[1], Output::StopStdin));
    let (out, _) = Session::new(Watch::Poll, false).step(&Input::StdinEnd);
    assert!(out.is_empty());
}

#[test]
fn the_end_of_input_can_be_typed() {
    let mut s = Session::new(Watch::Epoll, true);
    let (out, _) = s.step(&Input::Stdin(vec![0x04]));
    assert_eq!(out.len(), 1);
    assert!(matches!(&out[0], Output::EndWorkerInput));
}

#[test]
fn errors_pass_through() {
    let mut s = Session::new(Watch::Poll, true);
    let (out, ends) = s.step(&Input::Stderr(b"oops".to_vec()));
    assert!(!ends);
    assert!(matches!(&out[0], Output::Stderr(b) if b[..] == *b"oops"));
}

// ---------------------------------------------------------------------
// The environment
// ---------------------------------------------------------------------

#[test]
fn the_fingerprint_ignores_order_and_noise() {
    let a = vec![var("A", "b"), var("HOME", "/h")];
    let b = vec![var("HOME", "/h"), var("HYPERFINE_RUN", "3"), var("A", "b")];
    let x = scan_env(&a);
    let y = scan_env(&b);
    assert_eq!(x.fingerprint, 0x45de78f3d51f10e5);
    assert_eq!(x.fingerprint, y.fingerprint);
    assert_eq!(x.count, 2);
    assert_eq!(y.count, 2);
    assert_eq!(x.home.as_deref(), Some("/h"));
    assert!(x.server_path.is_none());
    assert!(fits_count(&b));
    assert_eq!(scan_env(&[var("A", "b")]).fingerprint, 0xdbb2f001583315cd);
}

#[test]
fn the_last_of_equal_names_counts_for_the_client() {
    let vars = vec![
        var("JULIA_DAEMON_SERVER", "a"),
        var("JULIA_DAEMON_SERVER", "b"),
        var("XDG_RUNTIME_DIR", "/x"),
        var("JULIA_DAEMON_RUNTIME", "/r"),
    ];
    let info = scan_env(&vars);
    assert_eq!(info.server_path.as_deref(), Some("b"));
    assert_eq!(info.xdg_runtime_dir.as_deref(), Some("/x"));
    assert_eq!(info.runtime_dir.as_deref(), Some("/r"));
    assert_eq!(find_value(&vars, "JULIA_DAEMON_SERVER"), Some("a"));
    assert_eq!(find_last(&vars, "JULIA_DAEMON_SERVER"), Some("b"));
    assert_eq!(find_value(&vars, "HOME"), None);
}

#[test]
fn the_address_is_taken_off_the_command_line() {
    let (addr, skip) = extract_address_arg(&strings(&["julia", "-a", "h:1", "x"]));
    assert_eq!(addr.as_deref(), Some("h:1"));
    assert_eq!(skip, vec![1, 2]);
    let (addr, skip) = extract_address_arg(&strings(&["julia", "--address=h:2"]));
    assert_eq!(addr.as_deref(), Some("h:2"));
    assert_eq!(skip, vec![1]);
    let (addr, skip) = extract_address_arg(&strings(&["julia", "--", "--address=h:2"]));
    assert_eq!(addr, None);
    assert!(skip.is_empty());
    assert!(extract_sync_arg(&strings(&["julia", "--sync"])));
    assert!(!extract_sync_arg(&strings(&["julia", "-i"])));
}

#[test]
fn environments_are_kept_for_as_long_as_they_are_used() {
    let mut cache = EnvCache::new();
    assert!(cache.can_count());
    for fp in 0..SLOTS as u64 {
        let (env, project) = cache.insert(fp, vec![var("JULIA_PROJECT", &format!("/p{}", fp))]);
        assert_eq!(env.len(), 1);
        assert_eq!(project, Some(format!("/p{}", fp).as_str()));
    }
    assert!(cache.lookup(0).is_some());
    cache.insert(99, vec![]);
    assert!(cache.lookup(0).is_some());
    assert!(cache.lookup(1).is_none());
    let (env, project) = cache.lookup(99).unwrap();
    assert!(env.is_empty());
    assert_eq!(project, None);
}

#[test]
fn an_environment_kept_twice_is_found_where_it_was() {
    let mut cache = EnvCache::new();
    cache.insert(7, vec![var("A", "old")]);
    cache.insert(7, vec![var("A", "new")]);
    let (env, _) = cache.lookup(7).unwrap();
    assert_eq!(env[0].value, "old");
}

// ---------------------------------------------------------------------
// Dialling
// ---------------------------------------------------------------------

#[test]
fn the_command_line_comes_before_the_environment() {
    let info = scan_env(&[var("JULIA_DAEMON_SERVER", "env"), var("JULIA_DAEMON_RUNTIME", "/r")]);
    assert_eq!(runtime_dir_for(&info, Platform::Linux, 1000), "/r");
    assert_eq!(target_text(&info, Some("over"), "/r"), "over");
    assert_eq!(target_text(&info, None, "/r"), "env");
    let bare = scan_env(&[]);
    assert_eq!(target_text(&bare, None, "/r"), "/r/conductor.sock");
    assert_eq!(pid_path("/r"), "/r/conductor.pid");
    assert_eq!(pid_of(" 42\n"), Some(42));
    assert_eq!(pid_of("x"), None);
}

#[test]
fn a_local_conductor_is_asked_to_come_back_and_then_given_up() {
    let mut phase = Phase::First;
    let mut actions = vec![];
    let mut waits = 0;
    loop {
        let action = phase.action();
        if matches!(action, DialAction::Fail) {
            break;
        }
        let ok = matches!(action, DialAction::AskConductor);
        if matches!(action, DialAction::WaitAndConnect) {
            waits += 1;
        } else {
            actions.push(action);
        }
        phase = phase.next(TransportMode::Unix, ok);
    }
    assert_eq!(waits, RETRIES as usize);
    assert_eq!(
        actions,
        vec![DialAction::Connect, DialAction::AskConductor, DialAction::ConnectFallback]
    );
}

#[test]
fn a_distant_conductor_is_only_dialled() {
    assert_eq!(Phase::First.next(TransportMode::Tcp, true), Phase::Connected);
    assert_eq!(Phase::First.next(TransportMode::Tcp, false), Phase::Retry(RETRIES));
    assert_eq!(Phase::Retry(1).next(TransportMode::Tcp, false), Phase::GaveUp);
    assert_eq!(Phase::Signal.next(TransportMode::Unix, false), Phase::GaveUp);
    assert_eq!(Phase::Connected.action(), DialAction::Use);
}

#[test]
fn failures_are_explained() {
    assert_eq!(fallback_address(), "localhost:9345");
    let text = failure_text("/r/conductor.sock", Platform::Linux);
    assert!(text.starts_with("Failed to connect to /r/conductor.sock\n"));
    assert!(text.contains("systemctl --user restart julia-daemon"));
    assert!(failure_text("x", Platform::MacOs).contains("launchctl"));
    assert!(scheme_text("ftp://x").starts_with("Unsupported address scheme: ftp://x\n"));
}
