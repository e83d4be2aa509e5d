use jqrutils::args::command_args;
use jqrutils::exit::{errfail_exit_code, exit_status_code, SPAWN_FAILURE_EXIT, USAGE_EXIT};
use jqrutils::lines::{passthrough, ReadResult};

fn strs(v: &[&str]) -> Vec<String> {
    v.iter().map(|s| s.to_string()).collect()
}

fn reads(chunks: &[&str]) -> Vec<ReadResult> {
    let mut r: Vec<ReadResult> = chunks
        .iter()
        .map(|c| ReadResult::Bytes(c.as_bytes().to_vec()))
        .collect();
    r.push(ReadResult::Bytes(Vec::new()));
    r
}

#[test]
fn clean_exit_no_stderr() {
    let cmd = command_args(&strs(&["sh", "-c", "echo hello"])).unwrap();
    assert_eq!(cmd, strs(&["sh", "-c", "echo hello"]));
    assert_eq!(passthrough(&reads(&["hello\n"])), b"hello\n".to_vec());
    assert_eq!(passthrough(&reads(&[])), Vec::<u8>::new());
    assert_eq!(errfail_exit_code(0, false), 0);
}

#[test]
fn clean_exit_with_stderr_exits_2() {
    assert_eq!(passthrough(&reads(&["out\n"])), b"out\n".to_vec());
    assert_eq!(passthrough(&reads(&["warn\n"])), b"warn\n".to_vec());
    assert_eq!(errfail_exit_code(exit_status_code(Some(0), None), true), 2);
}

#[test]
fn nonzero_exit_preserved() {
    assert_eq!(exit_status_code(Some(42), None), 42);
    assert_eq!(errfail_exit_code(42, false), 42);
}

#[test]
fn stderr_only_exits_2() {
    assert_eq!(passthrough(&reads(&["warn\n"])), b"warn\n".to_vec());
    assert_eq!(errfail_exit_code(0, true), 2);
}

#[test]
fn passes_stdout_through() {
    assert_eq!(passthrough(&reads(&["line1\n", "line2\n"])), b"line1\nline2\n".to_vec());
    assert_eq!(errfail_exit_code(0, false), 0);
}

#[test]
fn errfail_missing_command_exits_127() {
    let cmd = command_args(&strs(&["nonexistent_command_xyz_123"])).unwrap();
    assert_eq!(cmd, strs(&["nonexistent_command_xyz_123"]));
    assert_eq!(SPAWN_FAILURE_EXIT, 127);
}

#[test]
fn errfail_no_args_shows_usage() {
    assert_eq!(command_args(&strs(&[])), None);
    assert_eq!(USAGE_EXIT, 1);
}

#[test]
fn errfail_double_dash_separator() {
    let cmd = command_args(&strs(&["--", "sh", "-c", "echo hello"])).unwrap();
    assert_eq!(cmd, strs(&["sh", "-c", "echo hello"]));
}

#[test]
fn nonzero_exit_takes_priority_over_stderr() {
    assert_eq!(errfail_exit_code(7, true), 7);
}

#[test]
fn only_separator_is_no_command() {
    assert_eq!(command_args(&strs(&["--"])), None);
    let cmd = command_args(&strs(&["--", "--"])).unwrap();
    assert_eq!(cmd, strs(&["--"]));
}

#[test]
fn signal_and_truncated_codes() {
    assert_eq!(exit_status_code(None, Some(9)), 137);
    assert_eq!(exit_status_code(None, None), 1);
    assert_eq!(exit_status_code(Some(3), Some(9)), 3);
    assert_eq!(jqrutils::exit::exit_code_byte(-1), 255);
    assert_eq!(jqrutils::exit::exit_code_byte(256), 0);
    assert_eq!(jqrutils::exit::exit_code_byte(300), 44);
    // A code that truncates to zero is reported as success, stderr or not.
    assert_eq!(errfail_exit_code(256, true), 0);
    assert_eq!(errfail_exit_code(-1, false), 255);
}

#[test]
fn passthrough_stops_at_errors() {
    let r = vec![
        ReadResult::Bytes(b"a".to_vec()),
        ReadResult::Interrupted,
        ReadResult::Bytes(b"b".to_vec()),
    ];
    assert_eq!(passthrough(&r), b"a".to_vec());
    let r = vec![
        ReadResult::Bytes(b"a".to_vec()),
        ReadResult::Failed,
        ReadResult::Bytes(b"b".to_vec()),
    ];
    assert_eq!(passthrough(&r), b"a".to_vec());
    let r = vec![
        ReadResult::Bytes(b"a".to_vec()),
        ReadResult::Bytes(Vec::new()),
        ReadResult::Bytes(b"b".to_vec()),
    ];
    assert_eq!(passthrough(&r), b"a".to_vec());
}
