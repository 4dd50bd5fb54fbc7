use julia_daemon::args::{
    pack_threads, parse, parse_threads, render_threads, try_parse, ParsedArgs, THREADS_AUTO,
    THREADS_NONE, THREADS_UNSET,
};

fn command(args: &[&str]) -> Vec<String> {
    let mut argv = vec!["julia".to_string()];
    for a in args {
        argv.push(a.to_string());
    }
    argv
}

fn parse_str(args: &[&str]) -> ParsedArgs {
    parse(&command(args))
}

#[test]
fn short_flag_glued_value() {
    let parsed = parse_str(&["-t4"]);
    assert_eq!(parsed.get_switch("--threads"), Some("4"));
}

#[test]
fn short_flag_equals_value() {
    let parsed = parse_str(&["-t=4"]);
    assert_eq!(parsed.get_switch("--threads"), Some("4"));
    assert_eq!(parsed.thread_switch(), [4, THREADS_UNSET]);
}

#[test]
fn short_flag_space_separated_value() {
    let parsed = parse_str(&["-t", "4"]);
    assert_eq!(parsed.get_switch("--threads"), Some("4"));
}

#[test]
fn long_flag_equals_value() {
    let parsed = parse_str(&["--threads=4"]);
    assert_eq!(parsed.get_switch("--threads"), Some("4"));
}

#[test]
fn short_flag_expands_to_long_name() {
    let parsed = parse_str(&["-P", "MyProject"]);
    assert!(parsed.has_switch("--project"));
    assert_eq!(parsed.get_switch("--project"), Some("MyProject"));
}

#[test]
fn no_value_switch_takes_no_argument() {
    let parsed = parse_str(&["-i", "script.jl"]);
    assert_eq!(parsed.get_switch("-i"), Some(""));
    assert_eq!(parsed.program_file.as_deref(), Some("script.jl"));
}

#[test]
fn optional_value_switch_without_equals_takes_no_argument() {
    let parsed = parse_str(&["--session", "script.jl"]);
    assert_eq!(parsed.get_switch("--session"), Some(""));
    assert_eq!(parsed.program_file.as_deref(), Some("script.jl"));
}

#[test]
fn get_switch_returns_last_occurrence() {
    let parsed = parse_str(&["--threads=2", "--threads=4"]);
    assert_eq!(parsed.get_switch("--threads"), Some("4"));
}

#[test]
fn julia_channel_prefix() {
    let parsed = parse_str(&["+1.10", "script.jl"]);
    assert_eq!(parsed.julia_channel.as_deref(), Some("+1.10"));
    assert_eq!(parsed.program_file.as_deref(), Some("script.jl"));
}

#[test]
fn double_dash_marks_program_file() {
    let parsed = parse_str(&["--", "script.jl", "--not-a-switch"]);
    assert_eq!(parsed.program_file.as_deref(), Some("script.jl"));
    assert_eq!(parsed.program_args, vec!["--not-a-switch".to_string()]);
}

#[test]
fn bare_positional_arg_is_program_file() {
    let parsed = parse_str(&["script.jl", "arg1", "arg2"]);
    assert_eq!(parsed.program_file.as_deref(), Some("script.jl"));
    assert_eq!(parsed.program_args, vec!["arg1".to_string(), "arg2".to_string()]);
}

#[test]
fn thread_switch_defaults_to_none() {
    let parsed = parse_str(&["script.jl"]);
    assert_eq!(parsed.thread_switch(), THREADS_NONE);
}

#[test]
fn parse_threads_variants() {
    assert_eq!(parse_threads(""), THREADS_NONE);
    assert_eq!(parse_threads("4"), [4, THREADS_UNSET]);
    assert_eq!(parse_threads("auto"), [THREADS_AUTO, THREADS_UNSET]);
    assert_eq!(parse_threads("4,1"), [4, 1]);
    assert_eq!(parse_threads("auto,2"), [THREADS_AUTO, 2]);
    assert_eq!(parse_threads("garbage"), [THREADS_AUTO, THREADS_UNSET]);
}

#[test]
fn render_threads_round_trip() {
    assert_eq!(render_threads(THREADS_NONE), None);
    assert_eq!(render_threads([4, THREADS_UNSET]), Some("4".to_string()));
    assert_eq!(render_threads([THREADS_AUTO, THREADS_UNSET]), Some("auto".to_string()));
    assert_eq!(render_threads([4, 1]), Some("4,1".to_string()));
    assert_eq!(render_threads([THREADS_AUTO, 2]), Some("auto,2".to_string()));
}

#[test]
fn pack_threads_is_order_sensitive_and_distinct() {
    let a = pack_threads([4, 1]);
    let b = pack_threads([1, 4]);
    assert_ne!(a, b);
    assert_eq!(pack_threads(THREADS_NONE), 0);
}

#[test]
fn packed_threads_hold_the_first_count_above_the_second() {
    assert_eq!(pack_threads([4, 1]), 0x0004_0001);
    assert_eq!(pack_threads([THREADS_AUTO, 2]), 0xffff_0002);
}

#[test]
fn a_switch_without_a_value_at_the_end_has_none() {
    let parsed = parse_str(&["-t"]);
    assert_eq!(parsed.get_switch("--threads"), Some(""));
    assert_eq!(parsed.program_file, None);
}

#[test]
fn a_dash_before_a_letter_outside_ascii_is_no_switch() {
    assert!(try_parse(&command(&["-\u{e9}"])).is_none());
    assert!(try_parse(&command(&["-e", "1"])).is_some());
}

#[test]
fn arguments_behind_the_program_are_its_own() {
    let parsed = parse_str(&["-i", "script.jl", "-t", "4", "--", "x"]);
    assert_eq!(parsed.program_file.as_deref(), Some("script.jl"));
    assert_eq!(
        parsed.program_args,
        vec!["-t".to_string(), "4".to_string(), "--".to_string(), "x".to_string()]
    );
    assert!(!parsed.has_switch("--threads"));
}

#[test]
fn nothing_is_said_by_an_empty_command_line() {
    let parsed = parse(&[]);
    assert!(parsed.switches.is_empty());
    assert_eq!(parsed.program_file, None);
    assert_eq!(parsed.julia_channel, None);
}

#[test]
fn thread_counts_come_back_but_for_an_unset_first_one() {
    for spec in [[4, 0], [4, 1], [THREADS_AUTO, 2], [THREADS_AUTO, THREADS_AUTO]] {
        assert_eq!(parse_threads(&render_threads(spec).unwrap()), spec);
    }
    assert_eq!(render_threads([0, 3]), Some("auto,3".to_string()));
    assert_eq!(parse_threads("auto,3"), [THREADS_AUTO, 3]);
}
