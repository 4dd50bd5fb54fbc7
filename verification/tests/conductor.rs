use julia_daemon::args::{parse, THREADS_NONE};
use julia_daemon::assignment::{client_info, joining_client_info, SpawnPlan};
use julia_daemon::clients::{ActiveClientInfo, ActiveClients};
use julia_daemon::conductor::Conductor;
use julia_daemon::config::{Config, FloatVerdicts};
use julia_daemon::env_cache::EnvVar;
use julia_daemon::handover::{answer_kind, reads_error, AnswerKind, Finish, Start};
use julia_daemon::health::{choose_evictions, notice_action, Idle, NoticeAction};
use julia_daemon::help::client_help;
use julia_daemon::pressure::PressureMonitor;
use julia_daemon::protocol::notification::Type;
use julia_daemon::protocol::worker::MessageType;
use julia_daemon::protocol::{Platform, PORT_POOL_NONE};
use julia_daemon::request::{
    build_sandbox_env, make_worker_key, path_covered_by, resolve_threads, restart_text,
    trim_trailing_slashes, version_string, worker_key, ClientPlan, ClientRequest, SandboxMode,
};
use julia_daemon::rounds::{Estimate, Pinged, Round, Synced, Timetable};
use julia_daemon::selection::Limits;
use julia_daemon::upkeep::{KillAction, Killed};
use julia_daemon::worker::{
    micros_from, seconds_from, unix_time, unix_time_us, RetireStage, Worker,
};

fn var(key: &str, value: &str) -> EnvVar {
    EnvVar { key: key.to_string(), value: value.to_string() }
}

fn config(pairs: &[(&str, &str)]) -> Config {
    let mut vars = vec![
        var("JULIA_DAEMON_WORKER_PROJECT", "/opt/worker"),
        var("HOME", "/home/u"),
        var("JULIA_DAEMON_RUNTIME", "/run/jd"),
    ];
    for (k, v) in pairs {
        vars.push(var(k, v));
    }
    let fine = FloatVerdicts { psi: true, low: true, high: true, low_below_high: true };
    Config::load(&vars, Platform::Linux, 1000, fine).unwrap()
}

fn conductor(pairs: &[(&str, &str)]) -> Conductor {
    let config = config(pairs);
    let pressure = PressureMonitor::new(&config, false, false);
    Conductor::new(config, pressure)
}

/// A conductor that looks at how long tasks wait for memory.
fn pressed(pairs: &[(&str, &str)]) -> Conductor {
    let config = config(pairs);
    let pressure = PressureMonitor::new(&config, true, false);
    Conductor::new(config, pressure)
}

fn request(args: &[&str]) -> ClientRequest {
    let mut argv = vec!["julia".to_string()];
    for a in args {
        argv.push(a.to_string());
    }
    ClientRequest {
        flags: 1,
        pid: 100,
        ppid: 50,
        cwd: "/home/u/work".to_string(),
        env: vec![var("HOME", "/home/u"), var("LANG", "C")],
        parsed: parse(&argv),
        project: Some("/home/u/proj".to_string()),
    }
}

/// A worker of the pool with `key`, started at `now`.
fn start(c: &mut Conductor, key: &str, now: i64, interactive: bool) -> u32 {
    let id = c.number_reserve();
    let w = Worker::new(id, None, THREADS_NONE, false, interactive, now);
    assert!(c.is_unused_number(id));
    c.add_worker_to_pool(key, w);
    id
}

// ---------------------------------------------------------------------
// Requests
// ---------------------------------------------------------------------

#[test]
fn requests_are_sorted() {
    let mut c = conductor(&[]);
    for (args, expected) in [
        (vec!["--help"], "help"),
        (vec!["-h"], "help"),
        (vec!["-v"], "version"),
        (vec!["--status=json"], "status"),
        (vec!["--sync"], "refuse"),
        (vec!["--restart"], "restart"),
        (vec!["-e", "1"], "assign"),
    ] {
        let (_, plan) = c.plan_client(&request(&args), false, true);
        let got = match plan {
            ClientPlan::Help => "help",
            ClientPlan::Version => "version",
            ClientPlan::Status => "status",
            ClientPlan::Refuse(t) => {
                assert_eq!(t, "--sync requires --session=<label>\n");
                "refuse"
            }
            ClientPlan::Bypass(_) => "bypass",
            ClientPlan::Restart(key) => {
                assert_eq!(key, "/home/u/proj\0\00");
                "restart"
            }
            ClientPlan::Assign(key, mode, threads) => {
                assert_eq!(key, "/home/u/proj\0\00");
                assert_eq!(mode, SandboxMode::Off);
                assert_eq!(threads, THREADS_NONE);
                "assign"
            }
        };
        assert_eq!(got, expected);
    }
    assert_eq!(c.client_counter, 7);
    assert!(c.can_count_client());
}

#[test]
fn confinement_needs_linux() {
    let mut c = conductor(&[]);
    let (_, plan) = c.plan_client(&request(&["--sandbox"]), false, false);
    assert!(matches!(plan, ClientPlan::Refuse(t) if t.starts_with("--sandbox requires Linux")));
    let (_, plan) = c.plan_client(&request(&[]), true, false);
    assert!(matches!(plan, ClientPlan::Refuse(t) if t.contains("only available on Linux")));
}

#[test]
fn clients_from_outside_are_confined() {
    let mut c = conductor(&[]);
    let (n, plan) = c.plan_client(&request(&["+1.10"]), true, true);
    assert_eq!(n, 1);
    match plan {
        ClientPlan::Assign(key, mode, _) => {
            assert_eq!(key, "__sandbox__\0+1.10\00");
            assert_eq!(mode, SandboxMode::Remote);
        }
        _ => panic!("no worker"),
    }
    let open = conductor(&[("JULIA_DAEMON_SANDBOX_REMOTE_CLIENTS", "0")]);
    assert_eq!(
        request(&[]).sandbox_mode(true, open.config.sandbox_remote_clients),
        SandboxMode::Off
    );
}

#[test]
fn a_session_can_be_joined_from_outside_where_that_is_allowed() {
    let mut c = conductor(&[("JULIA_DAEMON_SANDBOX_SESSION_BYPASS", "1")]);
    let id = start(&mut c, "k", 0, false);
    c.note_chosen(id, Some("work"), 1, 0);
    let (_, plan) = c.plan_client(&request(&["--session=work"]), true, true);
    assert!(matches!(plan, ClientPlan::Bypass(w) if w == id));
    let (_, plan) = c.plan_client(&request(&["--session=other"]), true, true);
    assert!(matches!(plan, ClientPlan::Assign(_, SandboxMode::Remote, _)));
    assert_eq!(c.find_worker_by_label_global("work"), Some(id));
    assert_eq!(c.find_worker_by_label_global("other"), None);
    let q = request(&["--session=work"]);
    assert_eq!(q.joined_session(SandboxMode::Remote, true), Some("work"));
    assert_eq!(q.joined_session(SandboxMode::Remote, false), None);
    let info = joining_client_info(&q, "/home/u", 3);
    assert_eq!(info.cwd, "/home/u");
    assert!(info.force);
    assert_eq!(joining_client_info(&q, "", 3).cwd, "/");
}

#[test]
fn keys_tell_pools_apart() {
    assert_eq!(make_worker_key("/p", Some("+1"), 5), "/p\0+1\05");
    assert_eq!(make_worker_key("/p", None, 0), "/p\0\00");
    assert_eq!(worker_key(SandboxMode::Remote, "/p", "/w", None, 0), "__sandbox__\0\00");
    assert_eq!(
        worker_key(SandboxMode::Local, "/home/u/p/", "/home/u/p/sub", None, 0),
        "__lsandbox__\0/home/u/p\0/home/u/p\0\00"
    );
    assert_eq!(
        worker_key(SandboxMode::Local, "@v1", "/w/", Some("+1"), 0),
        "__lsandbox__\0/w\0@v1\0+1\00"
    );
}

#[test]
fn paths_are_compared_by_their_parts() {
    assert_eq!(trim_trailing_slashes("/a/b//"), "/a/b");
    assert_eq!(trim_trailing_slashes("///"), "/");
    assert_eq!(trim_trailing_slashes(""), "");
    assert!(path_covered_by("/a/b/c", &["/a/b"]));
    assert!(path_covered_by("/a/b/", &["/a/b"]));
    assert!(!path_covered_by("/a/bc", &["/a/b"]));
    assert!(!path_covered_by("/a", &["/a/b", "/c"]));
}

#[test]
fn threads_come_from_the_switch_or_the_environment() {
    let env = vec![var("JULIA_NUM_THREADS", "8")];
    assert_eq!(resolve_threads(&request(&["-t4"]).parsed, &env), [4, 0]);
    assert_eq!(resolve_threads(&request(&[]).parsed, &env), [8, 0]);
    assert_eq!(resolve_threads(&request(&[]).parsed, &[]), THREADS_NONE);
}

#[test]
fn a_confined_client_has_no_name() {
    let env = build_sandbox_env(&[var("HOME", "/home/u"), var("A", "b"), var("USER", "u")]);
    assert_eq!(env.len(), 4);
    assert_eq!(env[0].key, "A");
    assert_eq!(env[1].value, "/home/sandbox");
    assert_eq!(env[2].key, "USER");
    assert_eq!(env[2].value, "sandbox");
    assert_eq!(env[3].key, "LOGNAME");
    let q = request(&["--session=s", "f.jl", "x"]);
    let env = build_sandbox_env(&q.env);
    let info = client_info(&q, SandboxMode::Remote, &env, 7);
    assert_eq!(info.cwd, "/home/sandbox");
    assert_eq!(info.env.len(), 4);
    assert_eq!(info.env[0].key, "LANG");
    assert_eq!(info.env[1].value, "/home/sandbox");
    assert!(info.tty);
    assert!(info.force);
    assert_eq!(info.program_file, Some("f.jl"));
    assert_eq!(info.port_set, 7);
    let plain = client_info(&q, SandboxMode::Off, &env, 7);
    assert_eq!(plain.cwd, "/home/u/work");
    assert_eq!(plain.env.len(), 2);
}

#[test]
fn the_conductor_says_what_it_did() {
    assert_eq!(restart_text(2), "Reset: killed 2 worker(s) for project\n");
    assert_eq!(version_string("0.1.0"), "juliaclient 0.1.0\n");
    assert!(client_help(true).contains("systemctl --user"));
    assert!(client_help(false).contains("pkill -f julia-conductor"));
    assert!(client_help(true).contains("--banner={yes|no|auto*}"));
}

// ---------------------------------------------------------------------
// Choosing a worker
// ---------------------------------------------------------------------

#[test]
fn a_session_comes_first() {
    let mut c = conductor(&[]);
    let a = start(&mut c, "k", 0, false);
    let b = start(&mut c, "k", 0, false);
    c.note_chosen(b, Some("s"), 9, 0);
    let r = c.select_worker("k", &request(&["--session=s"]), SandboxMode::Off, 10).unwrap();
    assert_eq!(r.id, b);
    assert!(r.dropped.is_none());
    let r = c.select_worker("k", &request(&[]), SandboxMode::Off, 10).unwrap();
    assert_eq!(r.id, a);
    assert!(c.select_worker("other", &request(&[]), SandboxMode::Off, 10).is_none());
}

#[test]
fn a_parent_finds_the_worker_it_had() {
    let mut c = conductor(&[]);
    let a = start(&mut c, "k", 0, false);
    let b = start(&mut c, "k", 5, false);
    let d = start(&mut c, "k", 9, false);
    c.note_chosen(b, None, 50, 0);
    assert!(c.get_worker(b).unwrap().knows_ppid(50));
    let r = c.select_worker("k", &request(&[]), SandboxMode::Off, 10).unwrap();
    assert_eq!(r.id, b);
    let mut other = request(&[]);
    other.ppid = 51;
    let r = c.select_worker("k", &other, SandboxMode::Off, 10).unwrap();
    assert_eq!(r.id, b);
    assert_ne!(a, d);
    assert!(c.select_worker("k", &other, SandboxMode::Remote, 10).is_none());
}

#[test]
fn the_second_most_recent_worker_is_reused() {
    let mut c = conductor(&[]);
    let ids = [start(&mut c, "k", 3, false), start(&mut c, "k", 9, false)];
    let r = c.select_worker("k", &request(&[]), SandboxMode::Off, 10).unwrap();
    assert_eq!(r.id, ids[0]);
    c.set_active_clients(ids[0], 1);
    let r = c.select_worker("k", &request(&[]), SandboxMode::Off, 10).unwrap();
    assert_eq!(r.id, ids[1]);
    c.set_active_clients(ids[1], 1);
    assert!(c.select_worker("k", &request(&[]), SandboxMode::Off, 10).is_none());
    assert!(c.select_worker("k", &request(&["-i"]), SandboxMode::Off, 10).is_none());
}

#[test]
fn a_session_that_was_given_up_is_dropped() {
    let mut c = conductor(&[]);
    let a = start(&mut c, "k", 0, false);
    c.note_chosen(a, Some("old"), 9, 0);
    assert!(c.select_worker("k", &request(&[]), SandboxMode::Off, 89).is_none());
    let r = c.select_worker("k", &request(&["--session=new"]), SandboxMode::Off, 90).unwrap();
    assert_eq!(r.id, a);
    assert_eq!(r.dropped.as_deref(), Some("old"));
    assert!(c.get_worker(a).unwrap().session_label.is_none());
    c.note_chosen(a, Some("new"), 9, 90);
    assert_eq!(c.get_worker(a).unwrap().session_label.as_deref(), Some("new"));
}

#[test]
fn limits_decide_who_is_free() {
    let mut w = Worker::new(1, None, THREADS_NONE, false, false, 0);
    let one = Limits { max_clients: 1, label_ttl: 90 };
    let any = Limits { max_clients: 0, label_ttl: 90 };
    w.active_clients = 1;
    assert!(!w.is_available(one, false, 5));
    assert!(w.is_available(any, false, 5));
    assert!(!w.is_available(any, true, 5));
    assert!(!w.cullable(any, 5));
    w.active_clients = 0;
    assert!(w.cullable(any, 5));
    w.session_label = Some("s".to_string());
    assert!(!w.is_label_expired(any, 89));
    assert!(w.is_label_expired(any, 90));
    assert!(w.is_serving("s"));
    // A clock that was set back has been away for ages.
    assert!(w.is_label_expired(any, -1));
}

#[test]
fn the_parents_that_are_remembered_are_the_last() {
    let mut w = Worker::new(1, None, THREADS_NONE, false, false, 0);
    for ppid in 1..=5 {
        w.record_ppid(ppid, 3);
    }
    assert!(!w.knows_ppid(1));
    assert!(!w.knows_ppid(2));
    assert!(w.knows_ppid(3));
    assert!(w.knows_ppid(4));
    assert!(w.knows_ppid(5));
}

#[test]
fn the_reserve_stands_in_where_it_can() {
    let mut c = conductor(&[]);
    let r = c.number_reserve();
    c.set_reserve(Worker::new(r, None, THREADS_NONE, false, false, 0));
    let plan = c.plan_spawn("k", None, true, THREADS_NONE, SandboxMode::Off);
    assert_eq!(plan, SpawnPlan::Plain(1));
    let plan = c.plan_spawn("k", Some("+1"), false, THREADS_NONE, SandboxMode::Off);
    assert_eq!(plan, SpawnPlan::Plain(2));
    let plan = c.plan_spawn("k", None, false, THREADS_NONE, SandboxMode::Local);
    assert_eq!(plan, SpawnPlan::Sandboxed(3));
    let plan = c.plan_spawn("k", None, false, THREADS_NONE, SandboxMode::Off);
    assert_eq!(plan, SpawnPlan::Reserve(0));
    assert!(c.reserve.is_none());
    assert_eq!(c.pools.find(0), Some((0, 0)));
    assert!(c.can_number_worker());
    let (ro, rw) = c.sandbox_binds(SandboxMode::Local, "/p");
    assert_eq!(ro, vec!["/opt/worker"]);
    assert_eq!(rw, vec!["/p"]);
    assert!(c.sandbox_binds(SandboxMode::Remote, "/p").1.is_empty());
}

// ---------------------------------------------------------------------
// Clients that come and go
// ---------------------------------------------------------------------

#[test]
fn clients_are_known_by_their_process() {
    let mut a = ActiveClients::new();
    let info = ActiveClientInfo { worker_id: 1, client_num: 1, start_time_us: 5, port_set: 2 };
    a.insert(10, info);
    a.insert(11, ActiveClientInfo { worker_id: 2, ..info });
    a.insert(10, ActiveClientInfo { client_num: 9, ..info });
    assert_eq!(a.len(), 2);
    assert_eq!(a.get(10).unwrap().client_num, 9);
    assert_eq!(a.of_worker(1), vec![10]);
    assert_eq!(a.remove(10).unwrap().client_num, 9);
    assert!(a.remove(10).is_none());
    assert!(a.get(10).is_none());
}

#[test]
fn a_client_gives_back_its_ports_and_leaves_its_worker_idle() {
    let mut c = conductor(&[
        ("JULIA_DAEMON_SERVER", "127.0.0.1:9000"),
        ("JULIA_DAEMON_PORTS", "10000-10007"),
    ]);
    let id = start(&mut c, "k", 0, false);
    let set = c.allocate_port_set().unwrap();
    assert_eq!(set, 0);
    let was_idle = c.note_chosen(id, None, 50, 5).unwrap();
    assert!(was_idle);
    c.set_active_clients(id, 1);
    assert!(c.register_client(100, 1, id, set, 7_000_000, was_idle));
    assert_eq!(c.allocate_port_set(), Some(1));
    assert_eq!(c.allocate_port_set(), None);
    assert_eq!(c.handle_interrupt(100), Some(id));
    assert_eq!(c.handle_interrupt(101), None);
    let done = c.client_done(100, 20).unwrap();
    assert!(done.went_idle);
    assert!(done.check);
    assert!(!done.retired);
    assert_eq!(done.info.client_num, 1);
    assert_eq!(c.get_worker(id).unwrap().last_active, 20);
    assert_eq!(c.allocate_port_set(), Some(0));
    assert!(c.client_done(100, 21).is_none());
}

#[test]
fn without_a_pool_there_are_no_ports_to_give() {
    let mut c = conductor(&[]);
    assert_eq!(c.allocate_port_set(), Some(PORT_POOL_NONE));
    c.release_port_set(PORT_POOL_NONE);
    assert!(c.port_pool.is_none());
}

#[test]
fn an_interactive_worker_goes_with_its_last_client() {
    let mut c = conductor(&[]);
    let id = start(&mut c, "k", 0, true);
    c.set_active_clients(id, 2);
    c.register_client(100, 1, id, PORT_POOL_NONE, 0, true);
    c.register_client(101, 2, id, PORT_POOL_NONE, 0, false);
    assert!(!c.client_done(100, 5).unwrap().went_idle);
    let done = c.client_done(101, 6).unwrap();
    assert!(done.retired);
    assert!(!done.check);
    assert!(c.get_worker(id).is_none());
    assert_eq!(c.pending_kills.len(), 1);
    assert_eq!(c.pending_kills[0].worker.retire_stage, RetireStage::Soft);
}

#[test]
fn a_worker_has_two_graces() {
    let mut c = conductor(&[]);
    let id = start(&mut c, "k", 0, false);
    assert!(c.retire_worker("k", id, 100));
    assert!(!c.retire_worker("k", id, 100));
    assert!(c.sweep_pending_kills(104).is_empty());
    assert_eq!(c.sweep_pending_kills(105), vec![KillAction::Term(id)]);
    assert!(c.sweep_pending_kills(109).is_empty());
    assert_eq!(c.sweep_pending_kills(110), vec![KillAction::Kill(id, false)]);
    assert!(c.pending_kills.is_empty());
}

#[test]
fn the_reserve_can_be_retired() {
    let mut c = conductor(&[]);
    let id = c.number_reserve();
    c.set_reserve(Worker::new(id, None, THREADS_NONE, false, false, 0));
    assert!(!c.retire_worker("k", id, 1));
    assert!(c.retire_worker("", id, 1));
    assert!(c.reserve.is_none());
}

#[test]
fn a_worker_that_does_not_answer_is_given_up_with_its_clients() {
    let mut c = conductor(&[]);
    let id = start(&mut c, "k", 0, false);
    c.register_client(100, 1, id, PORT_POOL_NONE, 0, true);
    assert_eq!(c.kill_unresponsive_worker(id), Killed::Worker(false));
    assert_eq!(c.active_clients.len(), 0);
    assert_eq!(c.kill_unresponsive_worker(id), Killed::Unknown);
    let r = c.number_reserve();
    c.set_reserve(Worker::new(r, None, THREADS_NONE, false, false, 0));
    assert_eq!(c.kill_unresponsive_worker(r), Killed::Reserve);
}

#[test]
fn a_project_is_restarted_whole() {
    let mut c = conductor(&[]);
    start(&mut c, "k", 0, false);
    let b = start(&mut c, "k", 0, false);
    let other = start(&mut c, "l", 0, false);
    c.register_client(100, 1, b, PORT_POOL_NONE, 0, true);
    let gone = c.kill_workers_for_project("k");
    assert_eq!(gone.len(), 2);
    assert_eq!(c.active_clients.len(), 0);
    assert!(c.get_worker(other).is_some());
    assert!(c.kill_workers_for_project("k").is_empty());
}

// ---------------------------------------------------------------------
// Health
// ---------------------------------------------------------------------

#[test]
fn idle_workers_are_pinged_in_time() {
    let mut c = conductor(&[]);
    let a = start(&mut c, "k", 0, false);
    let b = start(&mut c, "k", 10, false);
    assert!(c.can_use_clock(35));
    assert_eq!(c.due_for_ping(35), vec![a]);
    assert_eq!(c.due_for_ping(40).len(), 2);
    c.set_last_pinged(a, 39);
    assert_eq!(c.due_for_ping(40), vec![b]);
    c.set_active_clients(b, 1);
    assert!(c.due_for_ping(40).is_empty());
    assert!(!c.can_use_clock(i64::MIN));
}

#[test]
fn a_worker_and_the_conductor_agree_on_clients() {
    let mut c = conductor(&[]);
    let a = start(&mut c, "k", 0, false);
    c.set_active_clients(a, 2);
    c.register_client(100, 1, a, PORT_POOL_NONE, 0, true);
    c.register_client(101, 2, a, PORT_POOL_NONE, 0, false);
    assert!(c.counts_differ(a, 1));
    assert!(!c.counts_differ(a, 2));
    assert_eq!(c.stale_clients(a, &[101, 7]), vec![100]);
}

#[test]
fn workers_that_may_go_are_listed_and_empty_pools_dropped() {
    let mut c = conductor(&[]);
    let a = start(&mut c, "k", 0, false);
    let b = start(&mut c, "l", 0, false);
    c.note_chosen(b, Some("s"), 1, 0);
    let idle = c.idle_workers(50);
    assert_eq!(idle.len(), 1);
    assert_eq!(idle[0].id, a);
    assert_eq!(idle[0].key, "k");
    assert!(c.drop_empty_pools().is_empty());
    c.retire_worker("k", a, 50);
    assert_eq!(c.drop_empty_pools(), vec!["k"]);
    assert_eq!(c.pools.len(), 1);
    assert_eq!(c.all_workers(), vec![b]);
}

#[test]
fn the_lowest_ranks_are_evicted() {
    assert_eq!(choose_evictions(&[5, -1, 3, 9, -1, 0]), vec![1, 4, 5, 2]);
    assert_eq!(choose_evictions(&[2, 1]), vec![1, 0]);
    assert!(choose_evictions(&[]).is_empty());
}

#[test]
fn notices_are_acted_on() {
    assert_eq!(notice_action(Some(Type::ClientDone), true), NoticeAction::Done);
    assert_eq!(notice_action(Some(Type::ClientExit), false), NoticeAction::DoneAndCheck);
    assert_eq!(notice_action(Some(Type::ClientExit), true), NoticeAction::EndView);
    assert_eq!(notice_action(Some(Type::ClientInterrupt), false), NoticeAction::Interrupt);
    assert_eq!(notice_action(Some(Type::ClientInterrupt), true), NoticeAction::EndView);
    assert_eq!(notice_action(Some(Type::WorkerExit), false), NoticeAction::NoteExit);
    assert_eq!(notice_action(Some(Type::WorkerUnresponsive), false), NoticeAction::Ignore);
    assert_eq!(notice_action(None, false), NoticeAction::Ignore);
}

// ---------------------------------------------------------------------
// Time
// ---------------------------------------------------------------------

#[test]
fn the_clock_is_read_in_seconds_and_in_microseconds() {
    let s = unix_time();
    let us = unix_time_us();
    assert!(s > 1_600_000_000);
    assert!((us / 1_000_000 - s).abs() <= 1);
    assert_eq!(seconds_from(None), 0);
    assert_eq!(seconds_from(Some((7, 999_999_999))), 7);
    assert_eq!(micros_from(None), 0);
    assert_eq!(micros_from(Some((8, 1_999))), 8_000_001);
}

#[test]
fn processor_time_is_measured_between_samples() {
    let mut w = Worker::new(1, None, THREADS_NONE, false, false, 0);
    assert_eq!(w.sample_cpu(100, 1_000_000), None);
    assert_eq!(w.sample_cpu(150, 3_000_000), Some((50, 2_000_000)));
    assert_eq!(w.sample_cpu(100, 3_000_000), Some((0, 1)));
    assert!(w.should_ping(30, 30));
    assert!(!w.should_ping(29, 30));
}

// ---------------------------------------------------------------------
// A client on its way to a worker
// ---------------------------------------------------------------------

fn answer(active: u32, paths: &[&str]) -> Vec<u8> {
    let mut b = active.to_le_bytes().to_vec();
    for p in paths {
        b.extend_from_slice(&(p.len() as u16).to_le_bytes());
        b.extend_from_slice(p.as_bytes());
    }
    b
}

#[test]
fn a_client_gets_ports_and_then_a_worker() {
    let mut c = conductor(&[
        ("JULIA_DAEMON_SERVER", "127.0.0.1:9000"),
        ("JULIA_DAEMON_PORTS", "10000-10007"),
    ]);
    let q = request(&[]);
    assert!(matches!(
        c.begin_assignment("k", &q, SandboxMode::Off, 10),
        Start::NeedsWorker(0)
    ));
    let id = start(&mut c, "k", 10, false);
    match c.begin_assignment("k", &q, SandboxMode::Off, 10) {
        Start::Existing(1, chosen) => {
            assert_eq!(chosen.id, id);
            assert!(chosen.dropped.is_none());
        }
        _ => panic!("no worker"),
    }
    assert!(matches!(c.begin_assignment("k", &q, SandboxMode::Off, 10), Start::NoPorts));
}

#[test]
fn a_client_that_is_taken_is_told_of_its_streams() {
    let mut c = conductor(&[]);
    let id = start(&mut c, "k", 0, false);
    let b = answer(1, &["/a", "/b", "/c", "/d"]);
    match c.finish_assignment(id, 100, 3, PORT_POOL_NONE, true, &b, 77) {
        Finish::Taken(bytes, busy) => {
            assert!(busy);
            assert_eq!(bytes, b[4..].to_vec());
        }
        _ => panic!("not taken"),
    }
    let info = c.active_clients.get(100).unwrap();
    assert_eq!((info.worker_id, info.client_num, info.start_time_us), (id, 3, 77));
    assert_eq!(c.get_worker(id).unwrap().active_clients, 1);
    let again = answer(2, &["/e", "/f", "/g", "/h"]);
    assert!(matches!(
        c.finish_assignment(id, 101, 4, PORT_POOL_NONE, false, &again, 78),
        Finish::Taken(_, false)
    ));
    assert!(c.active_clients.get(100).is_some());
}

#[test]
fn a_client_that_is_not_taken_is_not_entered() {
    let mut c = conductor(&[]);
    let id = start(&mut c, "k", 0, false);
    assert!(matches!(
        c.finish_assignment(id, 100, 3, PORT_POOL_NONE, true, &answer(5, &[""]), 1),
        Finish::Busy
    ));
    assert_eq!(c.get_worker(id).unwrap().active_clients, 5);
    let short = answer(9, &["/a", "/b"]);
    assert!(matches!(
        c.finish_assignment(id, 100, 3, PORT_POOL_NONE, true, &short, 1),
        Finish::Short
    ));
    assert_eq!(c.get_worker(id).unwrap().active_clients, 5);
    assert!(c.active_clients.get(100).is_none());
}

#[test]
fn answers_are_told_apart() {
    assert_eq!(answer_kind(MessageType::Sockets), AnswerKind::Streams);
    assert_eq!(answer_kind(MessageType::Error), AnswerKind::Error);
    assert_eq!(answer_kind(MessageType::Pong), AnswerKind::Unexpected);
    assert!(!reads_error(0) && reads_error(1) && reads_error(4095) && !reads_error(4096));
}

// ---------------------------------------------------------------------
// Rounds
// ---------------------------------------------------------------------

#[test]
fn workers_that_have_idled_too_long_go_with_their_pools() {
    let mut c = conductor(&[]);
    let a = start(&mut c, "k", 0, false);
    let b = start(&mut c, "k", 0, false);
    let d = start(&mut c, "m", 0, false);
    let idle = c.idle_workers(50);
    assert_eq!(idle.len(), 3);
    let over: Vec<bool> = idle.iter().map(|e| e.id != b).collect();
    let culled = c.enforce_max_ttl(&idle, &over, 50);
    assert_eq!(culled.exits.len(), 2);
    assert!(culled.exits.contains(&a) && culled.exits.contains(&d));
    assert_eq!(culled.emptied, vec!["m".to_string()]);
    assert!(c.get_worker(a).is_none() && c.get_worker(d).is_none());
    assert!(c.get_worker(b).is_some());
    assert_eq!(c.pending_kills.len(), 2);
    assert_eq!(c.pools.len(), 1);
}

#[test]
fn a_worker_goes_only_once() {
    let mut c = conductor(&[]);
    let a = start(&mut c, "k", 0, false);
    let twice = [
        Idle { key: "k".to_string(), id: a },
        Idle { key: "k".to_string(), id: a },
        Idle { key: "m".to_string(), id: a },
    ];
    assert_eq!(c.retire_all(&twice, 1), vec![a]);
    assert_eq!(c.pending_kills.len(), 1);
}

#[test]
fn the_cheapest_go_when_memory_is_short() {
    let mut c = pressed(&[("JULIA_DAEMON_MIN_TTL", "100")]);
    let reserve = c.number_reserve();
    c.set_reserve(Worker::new(reserve, None, THREADS_NONE, false, false, 0));
    let dear = start(&mut c, "k", 0, false);
    let cheap = start(&mut c, "k", 0, false);
    let gone_anyhow = start(&mut c, "k", 0, false);
    let young = start(&mut c, "k", 150, false);
    let idle = c.idle_workers(200);
    assert_eq!(idle.len(), 4);
    let estimates: Vec<Estimate> = idle
        .iter()
        .map(|e| Estimate { over: e.id == gone_anyhow, rank: if e.id == dear { 9 } else { 2 } })
        .collect();
    let going = c.run_eviction_episode(Some(true), None, &idle, &estimates, 200);
    assert_eq!(going, vec![reserve, cheap, dear]);
    assert!(c.reserve.is_none());
    assert!(c.get_worker(gone_anyhow).is_some() && c.get_worker(young).is_some());
}

#[test]
fn no_more_than_a_few_go_at_once() {
    let mut c = pressed(&[("JULIA_DAEMON_MIN_TTL", "1")]);
    let mut ids = Vec::new();
    for _ in 0..6 {
        ids.push(start(&mut c, "k", 0, false));
    }
    let idle = c.idle_workers(200);
    let estimates: Vec<Estimate> =
        idle.iter().map(|e| Estimate { over: false, rank: -(e.id as i64) }).collect();
    let going = c.run_eviction_episode(Some(true), None, &idle, &estimates, 200);
    assert_eq!(going, vec![ids[5], ids[4], ids[3], ids[2]]);
}

#[test]
fn clients_that_their_worker_does_not_know_of_are_taken_off() {
    let mut c = conductor(&[]);
    let id = start(&mut c, "k", 0, false);
    for pid in [100, 101, 102] {
        c.register_client(pid, pid, id, PORT_POOL_NONE, 0, false);
    }
    c.set_active_clients(id, 3);
    let (mut stale, left) = c.reconcile_client_map(id, &[101], 60);
    stale.sort();
    assert_eq!(stale, vec![100, 102]);
    assert!(left.iter().all(|d| d.as_ref().is_some_and(|d| !d.went_idle)));
    assert!(c.active_clients.get(100).is_none() && c.active_clients.get(101).is_some());
    assert_eq!(c.get_worker(id).unwrap().active_clients, 1);
    assert_eq!(c.get_worker(id).unwrap().last_active, 60);
}

#[test]
fn a_ping_tells_how_a_worker_is() {
    let mut c = conductor(&[]);
    let id = start(&mut c, "k", 0, false);
    c.register_client(100, 1, id, PORT_POOL_NONE, 0, false);
    c.set_active_clients(id, 2);
    assert!(matches!(c.ping_worker(id, None), Pinged::Silent));
    assert!(matches!(c.ping_worker(id + 1, Some(0)), Pinged::Silent));
    assert!(matches!(c.ping_worker(id, Some(2)), Pinged::Well));
    assert!(matches!(c.ping_worker(id, Some(1)), Pinged::Differs(p) if p == vec![100]));
    assert!(matches!(c.sync_worker_clients(id, Some(1)), Synced::Counted));
    assert!(matches!(c.ping_worker(id, Some(1)), Pinged::Well));
    assert!(matches!(
        c.sync_worker_clients(id, None),
        Synced::Lost(Killed::Worker(false))
    ));
    assert!(c.get_worker(id).is_none() && c.active_clients.get(100).is_none());
}

#[test]
fn rounds_are_made_in_time() {
    let mut t = Timetable::new(7);
    assert_eq!(t.next_round(), Round { wait: 5, evict: true, check: false });
    assert_eq!(t.next_round(), Round { wait: 2, evict: false, check: true });
    assert_eq!(t.next_round(), Round { wait: 3, evict: true, check: false });
    let mut t = Timetable::new(3);
    assert_eq!(t.next_round(), Round { wait: 3, evict: true, check: true });
    assert_eq!(t.next_round(), Round { wait: 3, evict: true, check: true });
}

#[test]
fn nobody_goes_without_pressure() {
    let mut c = pressed(&[("JULIA_DAEMON_MIN_TTL", "1")]);
    let id = start(&mut c, "k", 0, false);
    let idle = c.idle_workers(200);
    let estimates = [Estimate { over: false, rank: 1 }];
    assert!(!c.pressure.would_press(Some(false), None));
    assert!(c.run_eviction_episode(Some(false), None, &idle, &estimates, 200).is_empty());
    assert!(c.run_eviction_episode(None, None, &idle, &estimates, 200).is_empty());
    assert!(c.get_worker(id).is_some() && c.pending_kills.is_empty());
    assert!(c.pressure.would_press(Some(true), None));
    assert_eq!(c.run_eviction_episode(Some(true), None, &idle, &estimates, 200), vec![id]);
    let mut blind = conductor(&[("JULIA_DAEMON_MIN_TTL", "1")]);
    let id = start(&mut blind, "k", 0, false);
    let idle = blind.idle_workers(200);
    assert!(blind.run_eviction_episode(Some(true), None, &idle, &estimates, 200).is_empty());
    assert!(blind.get_worker(id).is_some());
}

#[test]
fn workers_with_clients_or_sessions_do_not_go() {
    let mut c = pressed(&[("JULIA_DAEMON_MIN_TTL", "1")]);
    let busy = start(&mut c, "k", 0, false);
    c.set_active_clients(busy, 1);
    let held = start(&mut c, "k", 100, false);
    c.note_chosen(held, Some("work"), 1, 100);
    let free = start(&mut c, "k", 0, false);
    let idle = c.idle_workers(101);
    assert_eq!(idle.len(), 1);
    let culled = c.enforce_max_ttl(&idle, &[true], 101);
    assert_eq!(culled.exits, vec![free]);
    assert!(culled.emptied.is_empty());
    assert!(c.get_worker(busy).is_some() && c.get_worker(held).is_some());
}

#[test]
fn a_worker_that_nobody_knows_changes_nothing() {
    let mut c = conductor(&[]);
    c.register_client(100, 1, 7, PORT_POOL_NONE, 0, false);
    assert!(matches!(c.sync_worker_clients(7, None), Synced::Unknown));
    assert!(matches!(c.sync_worker_clients(7, Some(3)), Synced::Unknown));
    let (stale, left) = c.reconcile_client_map(7, &[], 5);
    assert!(stale.is_empty() && left.is_empty());
    assert_eq!(c.active_clients.get(100).unwrap().worker_id, 7);
}

#[test]
fn the_reserve_is_pinged_first() {
    let mut c = conductor(&[]);
    let a = start(&mut c, "k", 0, false);
    let reserve = c.number_reserve();
    c.set_reserve(Worker::new(reserve, None, THREADS_NONE, false, false, 0));
    let b = start(&mut c, "m", 0, false);
    let due = c.due_for_ping(100_000);
    assert_eq!(due[0], reserve);
    assert!(due.len() == 3 && due.contains(&a) && due.contains(&b));
}

#[test]
fn a_client_comes_to_the_worker_that_is_there() {
    let mut c = conductor(&[
        ("JULIA_DAEMON_SERVER", "127.0.0.1:9000"),
        ("JULIA_DAEMON_PORTS", "10000-10007"),
    ]);
    let id = start(&mut c, "k", 10, false);
    let q = request(&["--session=work"]);
    let set = match c.begin_assignment("k", &q, SandboxMode::Off, 10) {
        Start::Existing(set, chosen) => {
            assert_eq!(chosen.id, id);
            set
        }
        _ => panic!("no worker"),
    };
    let was_idle = c.note_chosen(id, q.session_label(), q.ppid, 10).unwrap();
    let b = answer(1, &["/a", "/b", "/c", "/d"]);
    assert!(matches!(
        c.finish_assignment(id, q.pid, 1, set, was_idle, &b, 77),
        Finish::Taken(_, true)
    ));
    let w = c.get_worker(id).unwrap();
    assert_eq!(w.session_label.as_deref(), Some("work"));
    assert_eq!(w.active_clients, 1);
    assert_eq!(c.active_clients.get(q.pid).unwrap().port_set, set);
    assert!(c.allocate_port_set().is_some_and(|other| other != set));
}

#[test]
fn answering_a_client_keeps_the_ports_as_they_are() {
    let mut c = conductor(&[]);
    let opening = c.open_client_streams(&[1, 2, 3, 4], 9, 0);
    assert_eq!(opening.port_set, None);
    c.release_port_set_idx(opening.port_set);
    assert!(c.port_pool.is_none());
    assert_eq!(c.allocate_port_set(), Some(PORT_POOL_NONE));
    let mut c = conductor(&[
        ("JULIA_DAEMON_SERVER", "127.0.0.1:9000"),
        ("JULIA_DAEMON_PORTS", "10000-10007"),
    ]);
    let opening = c.open_client_streams(&[1, 2, 3, 4], 9, 0);
    assert_eq!(opening.port_set, Some(0));
    c.release_port_set_idx(opening.port_set);
    assert_eq!(c.port_pool.as_ref().unwrap().ports_for_index(1), [10004, 10005, 10006, 10007]);
    assert_eq!(c.allocate_port_set(), Some(0));
}

#[test]
fn a_client_comes_to_a_new_worker() {
    let mut c = conductor(&[]);
    let reserve = c.number_reserve();
    c.set_reserve(Worker::new(reserve, None, THREADS_NONE, false, false, 0));
    let mut serve = |args: &[&str], pid: u32| {
        let mut q = request(args);
        q.pid = pid;
        let set = match c.begin_assignment("k", &q, SandboxMode::Remote, 10) {
            Start::NeedsWorker(set) => set,
            _ => panic!("a worker is there"),
        };
        let id = match c.plan_spawn("k", None, false, THREADS_NONE, SandboxMode::Off) {
            SpawnPlan::Reserve(id) => id,
            SpawnPlan::Plain(id) | SpawnPlan::Sandboxed(id) => {
                c.add_worker_to_pool("k", Worker::new(id, None, THREADS_NONE, false, false, 10));
                id
            }
        };
        c.set_project(id, "/p".to_string());
        let was_idle = c.note_chosen(id, q.session_label(), q.ppid, 10).unwrap();
        let b = answer(1, &["/a", "/b", "/c", "/d"]);
        assert!(matches!(
            c.finish_assignment(id, pid, 1, set, was_idle, &b, 77),
            Finish::Taken(_, true)
        ));
        assert_eq!(c.active_clients.get(pid).unwrap().worker_id, id);
        (id, c.get_worker(id).unwrap().session_label.clone())
    };
    assert_eq!(serve(&[], 100), (reserve, None));
    assert_eq!(serve(&["--session=work"], 101), (reserve + 1, Some("work".to_string())));
    assert_eq!(serve(&["--session="], 102), (reserve + 2, None));
}
