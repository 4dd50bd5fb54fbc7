use julia_daemon::config::{
    float_texts, try_load, Config, FloatVerdicts, Loaded, MemThreshold,
};
use julia_daemon::env_cache::EnvVar;
use julia_daemon::pressure::{
    psi_avg10, read_meminfo, try_meminfo, MemReading, PressureMonitor, Source,
};
use julia_daemon::protocol::{Platform, TransportMode};

const FINE: FloatVerdicts =
    FloatVerdicts { psi: true, low: true, high: true, low_below_high: true };

fn env(pairs: &[(&str, &str)]) -> Vec<EnvVar> {
    let mut out = vec![EnvVar {
        key: "JULIA_DAEMON_WORKER_PROJECT".to_string(),
        value: "/opt/worker".to_string(),
    }];
    for (k, v) in pairs {
        out.push(EnvVar { key: k.to_string(), value: v.to_string() });
    }
    out
}

fn load(pairs: &[(&str, &str)]) -> Result<Config, String> {
    Config::load(&env(pairs), Platform::Linux, 1000, FINE)
}

#[test]
fn defaults_are_filled_in() {
    let c = load(&[("HOME", "/home/u"), ("XDG_RUNTIME_DIR", "/run/user/1000")]).unwrap();
    assert_eq!(c.runtime_dir, "/run/user/1000/julia-daemon");
    assert_eq!(c.socket_path, "/run/user/1000/julia-daemon/conductor.sock");
    assert_eq!(c.transport, TransportMode::Unix);
    assert_eq!(c.bind_address, "");
    assert_eq!(c.worker_executable, "julia");
    assert_eq!(c.worker_args, "--startup-file=no");
    assert_eq!(c.worker_project, "/opt/worker");
    assert_eq!(c.worker_maxclients, 1);
    assert_eq!(c.min_ttl, 120);
    assert_eq!(c.max_ttl, 7200);
    assert_eq!(c.label_ttl, 90);
    assert_eq!(c.ping_interval, 30);
    assert_eq!(c.ping_timeout, 5);
    assert!(c.memory_pressure);
    assert_eq!(c.psi_threshold, "10");
    assert!(matches!(&c.memfree_low, MemThreshold::Fraction(s) if s == "10"));
    assert!(matches!(&c.memfree_high, MemThreshold::Fraction(s) if s == "15"));
    assert_eq!(c.port_range, None);
    assert_eq!(c.host_home, "/home/u");
    assert!(c.sandbox_remote_clients);
    assert!(c.sandbox_empty_environment);
    assert_eq!(c.sandbox_max_memory, None);
    assert_eq!(c.sandbox_max_cpu, None);
    assert!(!c.sandbox_session_bypass);
}

#[test]
fn a_network_conductor_binds_its_streams_to_its_host() {
    let c = load(&[
        ("JULIA_DAEMON_SERVER", "tcp://10.0.0.1:9000"),
        ("JULIA_DAEMON_PORTS", "10000-10015"),
        ("JULIA_DAEMON_SANDBOX_MAX_CPU", "50"),
        ("JULIA_DAEMON_SANDBOX_SESSION_BYPASS", "1"),
        ("JULIA_DAEMON_WORKER_MAXCLIENTS", "many"),
    ])
    .unwrap();
    assert_eq!(c.transport, TransportMode::Tcp);
    assert_eq!(c.socket_path, "10.0.0.1:9000");
    assert_eq!(c.bind_address, "10.0.0.1");
    assert_eq!(c.port_range, Some((10000, 4)));
    assert_eq!(c.sandbox_max_cpu, Some(50));
    assert!(c.sandbox_session_bypass);
    assert_eq!(c.worker_maxclients, 1);
}

#[test]
fn an_older_setting_gives_the_idle_deadline() {
    let c = load(&[("JULIA_DAEMON_WORKER_TTL", "600")]).unwrap();
    assert_eq!(c.max_ttl, 600);
    let c = load(&[("JULIA_DAEMON_WORKER_TTL", "600"), ("JULIA_DAEMON_MAX_TTL", "900")]).unwrap();
    assert_eq!(c.max_ttl, 900);
}

#[test]
fn settings_that_cannot_be_read_are_named() {
    assert_eq!(
        Config::load(&[], Platform::Linux, 1000, FINE).unwrap_err(),
        "MissingWorkerProject"
    );
    assert_eq!(
        load(&[("JULIA_DAEMON_SERVER", "http://x")]).unwrap_err(),
        "Error in JULIA_DAEMON_SERVER: Unsupported scheme in 'http://x'"
    );
    assert_eq!(
        load(&[("JULIA_DAEMON_MIN_TTL", "soon")]).unwrap_err(),
        "invalid integer config value 'soon'."
    );
    assert_eq!(
        load(&[("JULIA_DAEMON_MAX_TTL", "late")]).unwrap_err(),
        "invalid integer config value 'late'."
    );
    assert_eq!(
        load(&[("JULIA_DAEMON_MEMFREE_LOW", "little")]).unwrap_err(),
        "invalid memory threshold 'little'."
    );
    assert_eq!(
        load(&[("JULIA_DAEMON_MEMFREE_HIGH", "much")]).unwrap_err(),
        "invalid memory threshold 'much'."
    );
    assert_eq!(
        load(&[("JULIA_DAEMON_MIN_TTL", "0")]).unwrap_err(),
        "JULIA_DAEMON_MIN_TTL (0) must be > 0 and < MAX_TTL (7200)."
    );
    assert_eq!(
        load(&[("JULIA_DAEMON_MIN_TTL", "9000")]).unwrap_err(),
        "JULIA_DAEMON_MIN_TTL (9000) must be > 0 and < MAX_TTL (7200)."
    );
    assert_eq!(
        load(&[("JULIA_DAEMON_MEMFREE_LOW", "2G"), ("JULIA_DAEMON_MEMFREE_HIGH", "1G")])
            .unwrap_err(),
        "JULIA_DAEMON_MEMFREE_LOW must be < MEMFREE_HIGH."
    );
}

#[test]
fn fractions_are_for_the_caller_to_read() {
    let vars = env(&[
        ("JULIA_DAEMON_PSI_THRESHOLD", "ten"),
        ("JULIA_DAEMON_MEMFREE_LOW", "5.5%"),
        ("JULIA_DAEMON_MEMFREE_HIGH", "1G"),
    ]);
    let texts = float_texts(&vars);
    assert_eq!(texts.psi, "ten");
    assert_eq!(texts.low.as_deref(), Some("5.5"));
    assert_eq!(texts.high, None);
    let no_psi = FloatVerdicts { psi: false, ..FINE };
    assert_eq!(
        Config::load(&vars, Platform::Linux, 1000, no_psi).unwrap_err(),
        "invalid float config value 'ten'."
    );
    let no_low = FloatVerdicts { low: false, ..FINE };
    assert_eq!(
        Config::load(&vars, Platform::Linux, 1000, no_low).unwrap_err(),
        "invalid memory threshold '5.5%'."
    );
    let swapped = FloatVerdicts { low_below_high: false, ..FINE };
    assert_eq!(
        Config::load(&env(&[]), Platform::Linux, 1000, swapped).unwrap_err(),
        "JULIA_DAEMON_MEMFREE_LOW must be < MEMFREE_HIGH."
    );
}

#[test]
fn units_multiply() {
    for (text, bytes) in [("7", 7), ("2k", 2048), ("3M", 3 << 20), ("4g", 4u64 << 30)] {
        let c = load(&[("JULIA_DAEMON_MEMFREE_LOW", text), ("JULIA_DAEMON_MEMFREE_HIGH", "9G")])
            .unwrap();
        assert!(matches!(c.memfree_low, MemThreshold::Bytes(b) if b == bytes));
    }
}

#[test]
fn numbers_that_do_not_fit_are_told_apart() {
    let vars = env(&[("JULIA_DAEMON_MEMFREE_LOW", "18446744073709551615G")]);
    assert!(matches!(try_load(&vars, Platform::Linux, 1000, FINE), Loaded::Overflows));
    let vars = env(&[("JULIA_DAEMON_SERVER", "h:1"), ("JULIA_DAEMON_PORTS", "0-65535")]);
    assert!(matches!(try_load(&vars, Platform::Linux, 1000, FINE), Loaded::Overflows));
    assert!(matches!(try_load(&env(&[]), Platform::Linux, 1000, FINE), Loaded::Loads(_)));
}

fn reading(avail: u64) -> Option<MemReading> {
    Some(MemReading { avail, below_low_fraction: false, below_high_fraction: false })
}

#[test]
fn pressure_begins_below_the_low_threshold_and_ends_above_the_high_one() {
    let c = load(&[("JULIA_DAEMON_MEMFREE_LOW", "100"), ("JULIA_DAEMON_MEMFREE_HIGH", "200")])
        .unwrap();
    let mut m = PressureMonitor::new(&c, false, true);
    assert_eq!(m.source(), Source::MemFree);
    assert_eq!(m.source_name(), "memfree");
    assert!(m.active());
    assert!(!m.poll(None, reading(150)));
    assert!(m.poll(None, reading(99)));
    assert!(m.poll(None, reading(150)));
    assert!(m.poll(None, None));
    assert!(!m.poll(None, reading(200)));
    assert!(!m.poll(None, reading(150)));
}

#[test]
fn waiting_is_watched_where_it_can_be() {
    let c = load(&[]).unwrap();
    let mut m = PressureMonitor::new(&c, true, true);
    assert_eq!(m.source(), Source::Psi);
    assert_eq!(m.source_name(), "psi");
    assert!(m.poll(Some(true), None));
    assert!(m.poll(None, None));
    assert!(!m.poll(Some(false), None));
}

#[test]
fn a_monitor_can_be_switched_off() {
    let c = load(&[("JULIA_DAEMON_MEMORY_PRESSURE", "0")]).unwrap();
    let mut m = PressureMonitor::new(&c, true, true);
    assert!(!m.active());
    assert_eq!(m.source_name(), "none");
    assert!(!m.poll(Some(true), reading(0)));
}

#[test]
fn fractions_of_memory_are_compared_by_the_caller() {
    let c = load(&[]).unwrap();
    assert!(c.memfree_low.satisfied(1 << 40, true));
    assert!(!c.memfree_low.satisfied(0, false));
    let b = MemThreshold::Bytes(10);
    assert!(b.satisfied(9, false));
    assert!(!b.satisfied(10, true));
}

#[test]
fn the_kernel_is_understood() {
    let psi = "some avg10=1.53 avg60=0.87 total=1\nfull avg10=0.10 avg60=0.00 total=2\n";
    assert_eq!(psi_avg10(psi), Some("1.53".to_string()));
    assert_eq!(psi_avg10("full avg10=0.10\n"), None);
    let mem = "MemTotal:       16000 kB\nMemFree: 1 kB\nMemAvailable:    4000 kB\n";
    assert_eq!(read_meminfo(mem), Some((4000 * 1024, 16000 * 1024)));
    assert_eq!(read_meminfo("MemTotal: 1 kB\n"), None);
    assert_eq!(try_meminfo("MemTotal: 18446744073709551615 kB\n"), None);
    assert_eq!(try_meminfo(mem), Some(Some((4096000, 16384000))));
}
