use julia_daemon::conductor::Conductor;
use julia_daemon::config::{Config, FloatVerdicts};
use julia_daemon::env_cache::EnvVar;
use julia_daemon::handshake::RawRequest;
use julia_daemon::numeric::{decimal_string, hex_string, parse_decimal, parse_i32, signed_string};
use julia_daemon::pressure::PressureMonitor;
use julia_daemon::project::{
    find_project_toml, needs_search, project_file, resolve, search_dirs,
};
use julia_daemon::protocol::{Ip, Platform, TransportMode};
use julia_daemon::server::{
    accept_turn, bound_address, is_remote, read_client_request, request_args, request_dir,
    shutdown_steps, ShutdownStep, SignalAction,
};
use julia_daemon::signal_parser::SignalParser;
use julia_daemon::text::{
    contains, ends_with, find_char, rfind_char, split_char, split_lines, split_words, starts_with,
    trim_str,
};

fn var(key: &str, value: &str) -> EnvVar {
    EnvVar { key: key.to_string(), value: value.to_string() }
}

fn conductor(pairs: &[(&str, &str)]) -> Conductor {
    let mut vars = vec![
        var("JULIA_DAEMON_WORKER_PROJECT", "/opt/worker"),
        var("HOME", "/home/u"),
        var("JULIA_DAEMON_RUNTIME", "/run/jd"),
    ];
    for (k, v) in pairs {
        vars.push(var(k, v));
    }
    let fine = FloatVerdicts { psi: true, low: true, high: true, low_below_high: true };
    let config = Config::load(&vars, Platform::Linux, 1000, fine).unwrap();
    let pressure = PressureMonitor::new(&config, false, false);
    Conductor::new(config, pressure)
}

fn raw(args: &[&[u8]]) -> RawRequest {
    let mut list = vec![];
    for a in args {
        list.push(a.to_vec());
    }
    RawRequest {
        flags: 1,
        pid: 9,
        ppid: 8,
        cwd: b"/home/u/w\xff".to_vec(),
        fingerprint: 5,
        args: list,
    }
}

#[test]
fn signals_come_before_connections() {
    let t = accept_turn(1, b"xU");
    assert_eq!(t.actions, vec![SignalAction::Rebind]);
    assert!(t.accept);
    let t = accept_turn(2, b"UTU");
    assert_eq!(t.actions, vec![SignalAction::Rebind, SignalAction::Shutdown]);
    assert!(!t.accept);
    let t = accept_turn(-1, b"");
    assert!(t.actions.is_empty());
    assert!(!t.accept);
    assert_eq!(accept_turn(0, b"I").actions, vec![SignalAction::Shutdown]);
}

#[test]
fn shutting_down_takes_two_seconds() {
    assert_eq!(
        shutdown_steps(),
        vec![
            ShutdownStep::SoftExit,
            ShutdownStep::Wait(1),
            ShutdownStep::Terminate,
            ShutdownStep::Wait(1),
            ShutdownStep::Kill,
        ]
    );
}

#[test]
fn only_other_machines_are_remote() {
    let here = Ip::V4([127, 0, 0, 1]);
    let there = Ip::V4([10, 0, 0, 1]);
    assert!(!is_remote(TransportMode::Tcp, Some(&here)));
    assert!(is_remote(TransportMode::Tcp, Some(&there)));
    assert!(!is_remote(TransportMode::Unix, Some(&there)));
    assert!(!is_remote(TransportMode::Tcp, None));
}

#[test]
fn environments_are_asked_for_once() {
    let mut c = conductor(&[]);
    assert!(c.cached_env(5, false).is_none());
    let kept = c.keep_env(5, vec![var("JULIA_PROJECT", "/p"), var("A", "b")]);
    assert_eq!(kept.len(), 2);
    assert_eq!(c.cached_env(5, false).unwrap()[1].value, "b");
    assert!(c.cached_env(5, true).is_none());
    assert_eq!(c.env_project(5).as_deref(), Some("/p"));
    assert_eq!(c.env_project(6), None);
}

#[test]
fn requests_are_read_with_their_project() {
    let r = raw(&[b"julia", b"--project=/q\xff", b"f.jl"]);
    assert_eq!(request_dir(&r), "/home/u/w\u{fffd}");
    let parsed = request_args(&r).unwrap();
    assert!(!needs_search(&parsed, None));
    let q = read_client_request(&r, vec![], parsed, None, false, "/home/u", None);
    assert_eq!(q.flags, 1);
    assert_eq!(q.pid, 9);
    assert_eq!(q.ppid, 8);
    assert_eq!(q.cwd, "/home/u/w\u{fffd}");
    assert_eq!(q.project.as_deref(), Some("/q\u{fffd}"));
    let parsed = request_args(&r).unwrap();
    let q = read_client_request(&r, vec![], parsed, None, true, "/home/u", None);
    assert_eq!(q.project, None);
    assert!(request_args(&raw(&[b"julia", "-\u{e9}".as_bytes()])).is_none());
}

#[test]
fn projects_are_resolved() {
    let none = request_args(&raw(&[b"julia"])).unwrap();
    assert_eq!(resolve(&none, None, "/home/u", "/w", Some("/found")), None);
    assert_eq!(
        resolve(&none, Some("~/p"), "/home/u", "/w", None).as_deref(),
        Some("/home/u/p")
    );
    assert_eq!(resolve(&none, Some("/abs"), "/home/u", "/w", None).as_deref(), Some("/abs"));
    assert_eq!(resolve(&none, Some("rel"), "/home/u", "/w", None).as_deref(), Some("/w/rel"));
    assert!(needs_search(&none, Some("@.")));
    assert_eq!(
        resolve(&none, Some("@."), "/home/u", "/w", Some("/found")).as_deref(),
        Some("/found")
    );
    let here = request_args(&raw(&[b"julia", b"--project"])).unwrap();
    assert!(needs_search(&here, Some("/abs")));
    assert_eq!(
        resolve(&here, Some("/abs"), "/home/u", "/w", Some("/found")).as_deref(),
        Some("/found")
    );
}

#[test]
fn projects_are_looked_for_upwards() {
    let dirs = search_dirs("/a/b");
    assert_eq!(dirs, vec!["/a/b", "/a", "/"]);
    assert_eq!(find_project_toml(&dirs, &[false, true, true]), Some("/a"));
    assert_eq!(find_project_toml(&dirs, &[false, false, false]), None);
    assert_eq!(project_file("/a"), "/a/Project.toml");
}

#[test]
fn streams_are_opened_at_ports_of_the_pool() {
    let mut c = conductor(&[
        ("JULIA_DAEMON_SERVER", "127.0.0.1:9000"),
        ("JULIA_DAEMON_PORTS", "10000-10003"),
    ]);
    let o = c.open_client_streams(&[1, 2, 3, 4], 9, 7);
    assert_eq!(o.port_set, Some(0));
    assert_eq!(
        o.at,
        vec!["127.0.0.1:10000", "127.0.0.1:10001", "127.0.0.1:10002", "127.0.0.1:10003"]
    );
    let any = c.open_client_streams(&[1, 2, 3, 4], 9, 7);
    assert_eq!(any.port_set, None);
    assert_eq!(any.at[3], "127.0.0.1:0");
    c.release_port_set_idx(o.port_set);
    c.release_port_set_idx(None);
    assert_eq!(c.allocate_port_set(), Some(0));
    assert_eq!(bound_address("0.0.0.0", 80), "0.0.0.0:80");
}

#[test]
fn streams_are_opened_at_new_paths() {
    let mut c = conductor(&[]);
    let o = c.open_client_streams(&[1, 2, 3, 4], 9, u32::MAX);
    assert_eq!(o.port_set, None);
    assert_eq!(o.at[0], "/run/jd/0000000100000009ffffffff-stdin.sock");
    assert_eq!(o.at[1], "/run/jd/00000002000000090000-stdout.sock");
    assert_eq!(o.at[2], "/run/jd/00000003000000090001-stderr.sock");
    assert_eq!(o.at[3], "/run/jd/00000004000000090002-signals.sock");
}

#[test]
fn an_answered_client_exits_with_success() {
    let mut parser = SignalParser::new(false);
    assert_eq!(parser.feed(&[0x01, 0x01, 0x00]).exit, Some(0));
}

#[test]
fn numbers_are_written_and_read() {
    assert_eq!(decimal_string(0), "0");
    assert_eq!(decimal_string(u64::MAX), "18446744073709551615");
    assert_eq!(signed_string(i64::MIN), "-9223372036854775808");
    assert_eq!(hex_string(0xbeef, 8), "0000beef");
    assert_eq!(parse_decimal("65535", 65535), Some(65535));
    assert_eq!(parse_decimal("65536", 65535), None);
    assert_eq!(parse_decimal("+7", 9), Some(7));
    assert_eq!(parse_decimal("", 9), None);
    assert_eq!(parse_i32("-7"), Some(-7));
    assert_eq!(parse_i32("2147483648"), None);
}

#[test]
fn texts_are_taken_apart() {
    assert_eq!(split_char("a::b", ':'), vec!["a", "", "b"]);
    assert_eq!(split_words("  a \t b\n"), vec!["a", "b"]);
    assert_eq!(split_lines("a\r\nb\n"), vec!["a", "b"]);
    assert_eq!(trim_str(" \u{a0}x \n"), "x");
    assert_eq!(find_char("a:b:c", ':'), Some(1));
    assert_eq!(rfind_char("a:b:c", ':'), Some(3));
    assert!(starts_with("abc", "ab"));
    assert!(ends_with("abc", "bc"));
    assert!(contains("abcd", "bc"));
    assert!(!contains("abcd", "cb"));
}
