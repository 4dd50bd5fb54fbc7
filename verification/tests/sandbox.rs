use julia_daemon::config::{Config, FloatVerdicts};
use julia_daemon::env_cache::EnvVar;
use julia_daemon::protocol::Platform;
use julia_daemon::sandbox::{
    build_argv, build_envp, build_worker_argv, env_allowed, SandboxConfig, SandboxError,
};
use julia_daemon::sandbox_fs::{
    cgroup_dir, cgroup_writes, filesystem_plan, id_map, next_step, FsOp, OnFail, Propagation,
};
use julia_daemon::spawn::{
    cpu_tick_pair, cpu_ticks, eval_expr, names_file, path_candidates, plain_argv, rss_bytes,
    rss_pages, sandbox_config, sandbox_dir, worker_dir,
};

fn var(key: &str, value: &str) -> EnvVar {
    EnvVar { key: key.to_string(), value: value.to_string() }
}

fn config() -> Config {
    let vars = vec![
        var("JULIA_DAEMON_WORKER_PROJECT", "/opt/worker"),
        var("HOME", "/home/u"),
        var("JULIA_DAEMON_RUNTIME", "/run/jd"),
    ];
    let fine = FloatVerdicts { psi: true, low: true, high: true, low_below_high: true };
    Config::load(&vars, Platform::Linux, 1000, fine).unwrap()
}

fn confined(environ: &[EnvVar]) -> SandboxConfig {
    sandbox_config(
        &config(),
        3,
        "/usr/bin/julia",
        "/run/jd/sandbox-3/setup.sock",
        Some("+1.10"),
        [4, 0],
        environ,
        &[],
        &["/work".to_string()],
    )
}

fn text(v: &[u8]) -> String {
    String::from_utf8(v[..v.len() - 1].to_vec()).unwrap()
}

#[test]
fn a_worker_is_started_with_its_command_line() {
    let expr = eval_expr("/s", 7, "/c");
    assert_eq!(expr, "using DaemonWorker; DaemonWorker.runworker(\"/s\", 7, \"/c\")");
    let argv = plain_argv(&config(), Some("+1.10"), true, [4, 1], &expr);
    assert_eq!(argv[0], "julia");
    assert_eq!(argv[1], "+1.10");
    assert_eq!(argv[2], "--project=/opt/worker");
    assert_eq!(argv[3], "--startup-file=no");
    assert_eq!(argv[4], "--threads=4,1");
    assert_eq!(argv[5], "-i");
    assert_eq!(argv[6], "--eval");
    assert_eq!(argv[7], expr);
    assert_eq!(argv.len(), 8);
    assert_eq!(build_worker_argv("j", None, "", "", None, false, "e"), vec!["j", "--eval", "e"]);
}

#[test]
fn a_confined_worker_has_its_command_line_as_zero_ended_strings() {
    let argv = build_argv(&confined(&[]));
    assert_eq!(argv[0], b"/usr/bin/julia\0".to_vec());
    assert_eq!(text(&argv[1]), "+1.10");
    assert_eq!(text(&argv[argv.len() - 2]), "--eval");
}

#[test]
fn a_confined_worker_gets_what_it_is_allowed() {
    let host = vec![
        var("SSH_AUTH_SOCK", "/secret"),
        var("HOME", "/home/u"),
        var("LANG", "C"),
        var("JULIA_PKG_SERVER", "x"),
        var("LANG", "en"),
        var("PATH", "/evil"),
    ];
    let envp = build_envp(&confined(&host));
    let mut all = vec![];
    for e in &envp {
        assert_eq!(e[e.len() - 1], 0);
        all.push(text(e));
    }
    assert!(all.contains(&"LANG=en".to_string()));
    assert!(!all.contains(&"LANG=C".to_string()));
    assert!(all.contains(&"JULIA_PKG_SERVER=x".to_string()));
    assert!(all.contains(&"HOME=/home/sandbox".to_string()));
    assert!(all.contains(&"USER=sandbox".to_string()));
    assert!(all.contains(&"JULIA_DAEMON_REVISE=no".to_string()));
    assert!(!all.contains(&"SSH_AUTH_SOCK=/secret".to_string()));
    assert!(!all.contains(&"PATH=/evil".to_string()));
    assert!(env_allowed("TERM"));
    assert!(!env_allowed("SSH_AUTH_SOCK"));
}

#[test]
fn a_confined_worker_sees_its_project_and_writes_where_it_may() {
    let cfg = confined(&[]);
    assert_eq!(cfg.worker_id, 3);
    assert_eq!(cfg.extra_ro_binds, vec!["/opt/worker"]);
    assert_eq!(cfg.extra_rw_binds, vec!["/work"]);
    assert_eq!(cfg.threads_arg.as_deref(), Some("4"));
    assert_eq!(cfg.host_home, "/home/u");
    assert!(cfg.empty_environment);
}

#[test]
fn the_plan_begins_with_a_root_of_its_own() {
    let plan = filesystem_plan(&confined(&[]));
    assert!(matches!(&plan[0].op, FsOp::Propagate(p, Propagation::Slave) if p == "/"));
    assert!(matches!(&plan[1].op, FsOp::Tmpfs(p, _) if p == "/tmp"));
    assert!(matches!(plan[1].on_fail, OnFail::Abort(SandboxError::MountFailed)));
    assert_eq!(plan[0].op.flags(), 0x84000);
    let mut i = 0;
    let mut pivoted = false;
    let mut detached = false;
    while i < plan.len() {
        if let FsOp::PivotRoot(_, _) = &plan[i].op {
            pivoted = true;
        }
        if let FsOp::Detach(_) = &plan[i].op {
            assert!(pivoted);
            detached = true;
        }
        i = next_step(&plan, i, true).unwrap();
    }
    assert_eq!(i, plan.len());
    assert!(detached);
}

#[test]
fn a_step_that_has_to_succeed_ends_the_plan() {
    let plan = filesystem_plan(&confined(&[]));
    assert_eq!(next_step(&plan, 0, false).unwrap(), 1);
    assert!(matches!(next_step(&plan, 1, false), Err(SandboxError::MountFailed)));
    assert_eq!(next_step(&plan, 1, true).unwrap(), 2);
}

#[test]
fn identities_and_limits_are_written() {
    assert_eq!(id_map(1000), "0 1000 1\n");
    assert_eq!(cgroup_dir(3), "/sys/fs/cgroup/julia-sandbox-3");
    let mut cfg = confined(&[]);
    assert!(cgroup_writes(&cfg).is_empty());
    cfg.max_memory = Some("2G".to_string());
    cfg.max_cpu = Some(50);
    let writes = cgroup_writes(&cfg);
    assert_eq!(
        writes,
        vec![
            ("/sys/fs/cgroup/julia-sandbox-3/memory.max".to_string(), "2G".to_string()),
            ("/sys/fs/cgroup/julia-sandbox-3/cpu.max".to_string(), "50000 100000".to_string()),
            ("/sys/fs/cgroup/julia-sandbox-3/cgroup.procs".to_string(), "0".to_string()),
        ]
    );
}

#[test]
fn confined_workers_have_directories_of_their_own() {
    assert_eq!(sandbox_dir("/run/jd", 3), "/run/jd/sandbox-3");
    assert_eq!(worker_dir("/run/jd", 3, true, Platform::Linux), "/run/jd/sandbox-3");
    assert_eq!(worker_dir("/run/jd", 3, false, Platform::Linux), "/run/jd");
    assert_eq!(worker_dir("/run/jd", 3, true, Platform::MacOs), "/run/jd");
}

#[test]
fn names_are_looked_up_on_the_search_path() {
    assert!(names_file("./julia"));
    assert!(!names_file("julia"));
    assert_eq!(path_candidates("julia", "/a::/b"), vec!["/a/julia", "/b/julia"]);
}

#[test]
fn the_system_tells_of_memory_and_time() {
    assert_eq!(rss_pages("1000 250 30 1 0 90 0\n"), Some(250));
    assert_eq!(rss_bytes("1000 250 30 1 0 90 0\n", 4096), Some(1024000));
    assert_eq!(rss_pages("1000"), None);
    let stat = "42 (ju) lia) S 1 42 42 0 -1 4194560 5 0 0 0 17 4 0 0 20";
    assert_eq!(cpu_tick_pair(stat), Some((17, 4)));
    assert_eq!(cpu_ticks(stat), Some(21));
    assert_eq!(cpu_ticks("garbage"), None);
}
