use jqrutils::args::{command_args, parse_timeout_flag, ArgError};
use jqrutils::exit::{exit_code_byte, exit_status_code, SPAWN_FAILURE_EXIT, USAGE_EXIT};
use jqrutils::quiet::{Chunk, Output, State};

fn strs(v: &[&str]) -> Vec<String> {
    v.iter().map(|s| s.to_string()).collect()
}

fn shown(w: Vec<Chunk>) -> Vec<(Output, String)> {
    w.into_iter()
        .map(|c| (c.output, String::from_utf8(c.data).unwrap()))
        .collect()
}

fn command_of(args: &[&str]) -> Option<Vec<String>> {
    let args = strs(args);
    let flag = parse_timeout_flag(&args).unwrap();
    command_args(&args[flag.command_start..])
}

#[test]
fn success_suppresses_output() {
    assert_eq!(
        command_of(&["sh", "-c", "echo hello; echo world >&2"]),
        Some(strs(&["sh", "-c", "echo hello; echo world >&2"]))
    );
    let mut s = State::new();
    assert!(shown(s.receive(Output::Stdout, b"hello\n".to_vec())).is_empty());
    assert!(shown(s.receive(Output::Stderr, b"world\n".to_vec())).is_empty());
    assert!(shown(s.on_exit(true)).is_empty());
    assert!(!s.is_streaming());
}

#[test]
fn failure_shows_stdout() {
    let mut s = State::new();
    assert!(s.receive(Output::Stdout, b"visible\n".to_vec()).is_empty());
    assert_eq!(shown(s.on_exit(false)), vec![(Output::Stdout, "visible\n".to_string())]);
    assert_eq!(exit_code_byte(exit_status_code(Some(1), None)), 1);
}

#[test]
fn failure_shows_stderr() {
    let mut s = State::new();
    assert!(s.receive(Output::Stderr, b"oops\n".to_vec()).is_empty());
    assert_eq!(shown(s.on_exit(false)), vec![(Output::Stderr, "oops\n".to_string())]);
    assert_eq!(exit_code_byte(exit_status_code(Some(3), None)), 3);
}

#[test]
fn quiet_preserves_exit_code() {
    assert_eq!(exit_code_byte(exit_status_code(Some(42), None)), 42);
}

#[test]
fn quiet_missing_command_exits_127() {
    assert_eq!(
        command_of(&["nonexistent_command_xyz_123"]),
        Some(strs(&["nonexistent_command_xyz_123"]))
    );
    assert_eq!(SPAWN_FAILURE_EXIT, 127);
}

#[test]
fn quiet_no_args_shows_usage() {
    assert_eq!(command_of(&[]), None);
    assert_eq!(USAGE_EXIT, 1);
}

#[test]
fn quiet_double_dash_separator() {
    assert_eq!(command_of(&["--", "sh", "-c", "echo hidden"]), Some(strs(&["sh", "-c", "echo hidden"])));
    let mut s = State::new();
    assert!(s.receive(Output::Stdout, b"hidden\n".to_vec()).is_empty());
    assert!(s.on_exit(true).is_empty());
}

#[test]
fn timeout_shows_output_for_slow_command() {
    let args = strs(&["-t", "0.3", "sh", "-c", "echo early; sleep 2; echo late"]);
    let flag = parse_timeout_flag(&args).unwrap();
    assert_eq!(flag.value, Some("0.3".to_string()));
    assert_eq!(flag.command_start, 2);
    let secs: f64 = flag.value.unwrap().parse().unwrap();
    assert!(secs >= 0.25 && secs < 1.0);
    let mut s = State::new();
    assert!(s.receive(Output::Stdout, b"early\n".to_vec()).is_empty());
    assert_eq!(shown(s.on_timeout()), vec![(Output::Stdout, "early\n".to_string())]);
    assert!(s.is_streaming());
    assert_eq!(
        shown(s.receive(Output::Stdout, b"late\n".to_vec())),
        vec![(Output::Stdout, "late\n".to_string())]
    );
    assert!(s.on_exit(true).is_empty());
}

#[test]
fn timeout_suppresses_fast_success() {
    let args = strs(&["-t", "5", "sh", "-c", "echo fast"]);
    let flag = parse_timeout_flag(&args).unwrap();
    assert_eq!(flag.value, Some("5".to_string()));
    assert_eq!(command_args(&args[flag.command_start..]), Some(strs(&["sh", "-c", "echo fast"])));
    let mut s = State::new();
    assert!(s.receive(Output::Stdout, b"fast\n".to_vec()).is_empty());
    assert!(s.on_exit(true).is_empty());
}

#[test]
fn timeout_still_shows_on_failure() {
    let mut s = State::new();
    assert!(s.receive(Output::Stdout, b"fail\n".to_vec()).is_empty());
    assert_eq!(shown(s.on_exit(false)), vec![(Output::Stdout, "fail\n".to_string())]);
    // A time limit that runs out after the exit has nothing left to show.
    assert!(s.on_timeout().is_empty());
}

#[test]
fn timeout_missing_value() {
    assert_eq!(parse_timeout_flag(&strs(&["-t"])).err(), Some(ArgError::MissingTimeout));
}

#[test]
fn timeout_invalid_value() {
    let args = strs(&["-t", "notanumber"]);
    let flag = parse_timeout_flag(&args).unwrap();
    assert_eq!(flag.value, Some("notanumber".to_string()));
    assert!(flag.value.unwrap().parse::<f64>().is_err());
}

#[test]
fn held_output_keeps_its_order() {
    let mut s = State::new();
    assert!(s.receive(Output::Stdout, b"1".to_vec()).is_empty());
    assert!(s.receive(Output::Stderr, b"2".to_vec()).is_empty());
    assert!(s.receive(Output::Stdout, b"3".to_vec()).is_empty());
    assert_eq!(
        shown(s.flush()),
        vec![
            (Output::Stdout, "1".to_string()),
            (Output::Stderr, "2".to_string()),
            (Output::Stdout, "3".to_string()),
        ]
    );
    assert!(s.is_streaming());
    assert!(s.flush().is_empty());
    assert!(s.on_exit(false).is_empty());
}

#[test]
fn timeout_flag_only_first() {
    let args = strs(&["sh", "-t", "5"]);
    let flag = parse_timeout_flag(&args).unwrap();
    assert_eq!(flag.value, None);
    assert_eq!(flag.command_start, 0);
    assert_eq!(command_of(&["-t", "5"]), None);
    assert_eq!(command_of(&["-t", "5", "--"]), None);
}
