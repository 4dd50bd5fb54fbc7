use julia_daemon::args::THREADS_NONE;
use julia_daemon::conductor::Conductor;
use julia_daemon::config::{Config, FloatVerdicts};
use julia_daemon::env_cache::EnvVar;
use julia_daemon::pressure::PressureMonitor;
use julia_daemon::protocol::{Platform, PORT_POOL_NONE};
use julia_daemon::render::{render_text, Gauge};
use julia_daemon::report::render_json;
use julia_daemon::server::{end_status, serve_status, serve_string, Answer, LiveView};
use julia_daemon::status::{
    contract_home, describe_key, format_duration, hide_cursor, json_opt_str, json_str, line_count,
    redraw_sequence, show_cursor, view_kind,
};
use julia_daemon::worker::Worker;

fn conductor(memory: bool) -> Conductor {
    let mut vars = vec![];
    for (k, v) in [
        ("JULIA_DAEMON_WORKER_PROJECT", "/opt/worker"),
        ("HOME", "/home/u"),
        ("JULIA_DAEMON_RUNTIME", "/run/jd"),
    ] {
        vars.push(EnvVar { key: k.to_string(), value: v.to_string() });
    }
    let fine = FloatVerdicts { psi: true, low: true, high: true, low_below_high: true };
    let config = Config::load(&vars, Platform::Linux, 1000, fine).unwrap();
    let pressure = PressureMonitor::new(&config, false, memory);
    Conductor::new(config, pressure)
}

fn start(c: &mut Conductor, key: &str, now: i64) -> u32 {
    let id = c.number_reserve();
    c.add_worker_to_pool(key, Worker::new(id, None, THREADS_NONE, false, false, now));
    id
}

fn gauge(id: u32) -> Gauge {
    Gauge {
        worker_id: id,
        mem: "12MB".to_string(),
        cpu: "0.5".to_string(),
        cpu_fine: "0.50".to_string(),
        activity: "7".to_string(),
        remaining: 61,
    }
}

#[test]
fn durations_show_their_two_largest_units() {
    for (secs, text) in [
        (-5, "0s"),
        (59, "59s"),
        (60, "1m0s"),
        (3599, "59m59s"),
        (3600, "1h0m"),
        (86399, "23h59m"),
        (86400, "1d0h"),
        (200000, "2d7h"),
    ] {
        assert_eq!(format_duration(secs), text);
    }
}

#[test]
fn the_home_directory_is_a_tilde() {
    assert_eq!(contract_home("/home/u/p", Some("/home/u")), "~/p");
    assert_eq!(contract_home("/home/u", Some("/home/u")), "~");
    assert_eq!(contract_home("/home/user", Some("/home/u")), "/home/user");
    assert_eq!(contract_home("/x", Some("")), "/x");
    assert_eq!(contract_home("/x", None), "/x");
}

#[test]
fn keys_are_described() {
    let k = describe_key("/home/u/p\0+1.10\00", Some("/home/u"));
    assert_eq!(k.heading, "~/p");
    assert_eq!(k.channel.as_deref(), Some("+1.10"));
    let k = describe_key("\0\00", None);
    assert_eq!(k.heading, "(default)");
    assert_eq!(k.channel, None);
    let k = describe_key("__sandbox__\0+1\00", None);
    assert_eq!(k.heading, "sandboxed (remote)");
    assert_eq!(k.channel.as_deref(), Some("+1"));
    let k = describe_key("__lsandbox__\0/w\0/p\0+1\00", None);
    assert_eq!(k.heading, "/p (sandboxed)");
    assert_eq!(k.channel.as_deref(), Some("+1"));
    let k = describe_key("__lsandbox__\0/w\0\0\00", None);
    assert_eq!(k.heading, "sandboxed (sandboxed)");
}

#[test]
fn strings_are_escaped() {
    assert_eq!(json_str("a\"b\\c\nd\u{1}\u{e9}"), "\"a\\\"b\\\\c\\nd\\u0001\u{e9}\"");
    assert_eq!(json_str("\u{1f}\t"), "\"\\u001f\\u0009\"");
    assert_eq!(json_opt_str(None), "null");
    assert_eq!(json_opt_str(Some("x")), "\"x\"");
    assert_ne!(json_str("\\n"), json_str("\n"));
}

#[test]
fn a_frame_is_drawn_in_place() {
    assert_eq!(redraw_sequence(0, "x\n"), b"\x1b[?2026h\x1b[0Jx\n\x1b[?2026l".to_vec());
    assert_eq!(redraw_sequence(12, ""), b"\x1b[?2026h\x1b[12F\x1b[0J\x1b[?2026l".to_vec());
    assert_eq!(hide_cursor(), b"\x1b[?25l".to_vec());
    assert_eq!(show_cursor(), b"\x1b[?25h\r\n".to_vec());
    assert_eq!(line_count("a\nb\n"), 2);
    assert_eq!(line_count("a\nb"), 2);
    assert_eq!(line_count(""), 0);
    let mut view = LiveView::new("a\nb\n");
    assert_eq!(view.redraw("c\n"), redraw_sequence(2, "c\n"));
    assert_eq!(view.redraw(""), redraw_sequence(1, ""));
    assert!(LiveView::goes_on(false, true));
    assert!(!LiveView::goes_on(true, true));
    assert!(!LiveView::goes_on(false, false));
}

#[test]
fn only_a_terminal_is_held_open() {
    let live = view_kind("live", true);
    assert!(live.live);
    assert!(!live.json);
    assert!(!view_kind("live", false).live);
    assert!(view_kind("json", true).json);
    assert!(!view_kind("", true).live);
    let first = serve_status(live, "f");
    assert_eq!(first.len(), 3);
    assert!(matches!(&first[0], Answer::Signals(b) if b[..] == [0x02, 1, 0]));
    assert!(matches!(&first[1], Answer::Stdout(b) if b[..] == hide_cursor()[..]));
    assert!(matches!(&first[2], Answer::Stdout(b) if b[..] == *b"f"));
    let last = end_status();
    assert!(matches!(&last[0], Answer::Stdout(b) if b[..] == show_cursor()[..]));
    assert!(matches!(&last[1], Answer::Signals(b) if b[..] == [0x01, 1, 0]));
    let once = serve_status(view_kind("json", true), "{}");
    assert_eq!(once.len(), 2);
    assert!(matches!(&once[0], Answer::Stdout(b) if b[..] == *b"{}"));
    assert!(matches!(&once[1], Answer::Signals(b) if b[..] == [0x01, 1, 0]));
    assert_eq!(serve_string("help").len(), 2);
}

#[test]
fn the_status_is_a_tree() {
    let mut c = conductor(false);
    let a = start(&mut c, "/z\0\00", 0);
    let b = start(&mut c, "/a\0+1\00", 60);
    let d = start(&mut c, "/a\0+1\00", 60);
    c.set_active_clients(b, 1);
    c.register_client(100, 1, b, PORT_POOL_NONE, 90_500_000, true);
    let gauges = [gauge(a), gauge(b), gauge(d)];
    assert!(c.can_show(100));
    let text = render_text(&c, &gauges, "36MB", 100, None);
    let line = |name: &str, up: &str| {
        format!("{:<34} up {:<7} {:>8}  {:>5.1}%", name, up, "12MB", 0.5)
    };
    let busy = "\u{1b}[32m\u{25cf}\u{1b}[0m";
    let idle = "\u{1b}[2m\u{25cc}\u{1b}[0m";
    let mut expected = String::new();
    expected += "Julia Daemon Conductor \u{2014} 3 worker(s), 0 reserve, 1 client(s), 36MB total\n\n";
    expected += "\u{1b}[32m/a [+1]\u{1b}[0m\n";
    expected += &format!("\u{251c}\u{2500} {}\n", line(&format!("{} #1", busy), "40s"));
    expected += "\u{2502}  \u{2570}\u{2500} pid 100 attached 9s\n";
    expected += &format!("\u{2570}\u{2500} {}", line(&format!("{} #2", idle), "40s"));
    expected += "  \u{1b}[2midle 40s\u{1b}[0m\n\n";
    expected += "\u{1b}[32m/z\u{1b}[0m\n";
    expected += &format!("\u{2570}\u{2500} {}", line(&format!("{} #0", idle), "1m40s"));
    expected += "  \u{1b}[2midle 1m40s\u{1b}[0m\n\n";
    expected += "worker_args: --startup-file=no\n";
    assert_eq!(text, expected);
}

#[test]
fn workers_that_may_go_show_their_outlook_under_watch() {
    let mut c = conductor(true);
    let id = c.number_reserve();
    let mut w = Worker::new(id, Some("+1"), [4, 1], true, true, 0);
    w.ping_pending = true;
    c.set_reserve(w);
    let held = start(&mut c, "/a\0\00", 5);
    c.note_chosen(held, Some("s"), 1, 5);
    let text = render_text(&c, &[gauge(id), gauge(held)], "0KB", 95, None);
    assert!(text.contains("1 reserve"));
    assert!(text.contains("\u{1b}[33mpressure source: memfree\u{1b}[0m\n"));
    assert!(text.contains(
        "\u{1b}[33m\u{25cf}\u{1b}[0m #0 +1 (interactive) (threads=4,1) (remote) up"
    ));
    assert!(text.contains("#1 [s] "));
    assert!(text.contains("\u{1b}[2mactivity 7% \u{b7} culls in 1m1s\u{1b}[0m"));
}

#[test]
fn the_status_can_be_read_by_programs() {
    let mut c = conductor(false);
    let a = start(&mut c, "/a\0\00", 5);
    c.register_client(100, 1, a, PORT_POOL_NONE, 8_000_000, true);
    c.get_worker_mut(a).unwrap().mem_bytes = 77;
    assert_eq!(c.total_mem(), Some(77));
    let r = c.number_reserve();
    c.set_reserve(Worker::new(r, None, [4, 0], false, false, 0));
    let json = render_json(&c, &[gauge(a), gauge(r)], 10);
    let expected = format!(
        "{}{}{}{}",
        "{\"workers\":[{\"id\":0,\"pool_key\":\"/a\\u0000\\u00000\",\"session_label\":null,\"julia_channel\":null,\"threads\":[0,0],\"interactive\":false,\"sandboxed\":false,\"created_at\":5,\"last_active\":5,\"active_clients\":0,\"mem_bytes\":77,\"cpu_pct\":0.50,\"clients\":[{\"pid\":100,\"attached_seconds\":2}]}],",
        "\"reserve\":{\"id\":1,\"julia_channel\":null,\"threads\":[4,0],\"mem_bytes\":0},\"totals\":{\"clients\":1},",
        "\"min_ttl\":120,\"max_ttl\":7200,\"label_ttl\":90,\"worker_args\":\"--startup-file=no\",",
        "\"pressure\":{\"source\":\"none\",\"active\":false}}"
    );
    assert_eq!(json, expected);
}

#[test]
fn a_client_from_the_future_has_been_there_for_no_time() {
    let mut c = conductor(false);
    let a = start(&mut c, "k", 0);
    c.register_client(100, 1, a, PORT_POOL_NONE, 10_900_000, true);
    c.register_client(101, 2, a, PORT_POOL_NONE, 13_000_000, true);
    assert_eq!(c.clients_for(a, 10_000_000), vec![(100, 0), (101, -3)]);
    assert!(!c.can_show(i64::MAX));
}

#[test]
fn memory_that_cannot_be_added_up_is_not() {
    let mut c = conductor(false);
    let a = start(&mut c, "k", 0);
    let b = start(&mut c, "k", 0);
    c.get_worker_mut(a).unwrap().mem_bytes = u64::MAX;
    c.get_worker_mut(b).unwrap().mem_bytes = 1;
    assert_eq!(c.total_mem(), None);
    assert_eq!(c.pools.count(), 2);
}
