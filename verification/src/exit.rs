use vstd::prelude::*;

verus! {

/// Exit code used when the command line is unusable.
pub const USAGE_EXIT: u8 = 1;

/// Exit code used when the wrapped command could not be started.
pub const SPAWN_FAILURE_EXIT: u8 = 127;

/// Exit code `errfail` uses when the command succeeded but wrote to stderr.
pub const STDERR_EXIT: u8 = 2;

/// The exit code reported for a child that ended with `code` (when it exited
/// normally) or was killed by `signal`: the code itself, else `128 + signal`,
/// else 1.
pub open spec fn status_code(code: Option<i32>, signal: Option<i32>) -> int {
    match code {
        Some(c) => c as int,
        None => match signal {
            Some(s) => 128 + s,
            None => 1,
        },
    }
}

/// The byte a process exit code is truncated to.
pub open spec fn exit_byte(code: int) -> int {
    code % 256
}

/// Law: a child that exited normally is reported with its own code, whatever
/// the signal says; one killed by signal `s` is reported as `128 + s`, so two
/// different signals give two different codes; with neither, the code is 1.
pub proof fn law_status_code(c: i32, s: i32, t: i32, other: Option<i32>)
    ensures
        status_code(Some(c), other) == c as int,
        status_code(None, Some(s)) == 128 + s,
        status_code(None, Some(s)) - status_code(None, Some(t)) == s - t,
        status_code(None, None) == 1,
{
}

/// Law: truncation to a byte gives a value in `0..=255` that differs from
/// the code by a multiple of 256, so every code that is already a byte comes
/// back unchanged, and codes 256 apart give the same byte.
pub proof fn law_exit_byte(code: int)
    ensures
        0 <= exit_byte(code) <= 255,
        (code - exit_byte(code)) % 256 == 0,
        0 <= code <= 255 ==> exit_byte(code) == code,
        exit_byte(code + 256) == exit_byte(code),
{
    assert(0 <= code % 256 < 256);
    assert((code - code % 256) % 256 == 0) by (nonlinear_arith);
    assert((code + 256) % 256 == code % 256) by (nonlinear_arith);
}

/// Computes the exit code to report for a finished child.
pub fn exit_status_code(code: Option<i32>, signal: Option<i32>) -> (r: i32)
    requires
        code is None && signal is Some ==> signal->0 <= i32::MAX - 128,
    ensures
        r as int == status_code(code, signal),
        code is Some ==> r == code->0,
        code is None && signal is Some ==> r as int == 128 + signal->0,
        code is None && signal is None ==> r == 1,
{
    match code {
        Some(c) => c,
        None => match signal {
            Some(s) => 128 + s,
            None => 1,
        },
    }
}

/// Truncates an exit code to the byte a process can return.
pub fn exit_code_byte(code: i32) -> (b: u8)
    ensures
        b as int == exit_byte(code as int),
        0 <= code <= 255 ==> b as int == code as int,
        (code as int - b as int) % 256 == 0,
{
    let b = code as u8;
    assert(b as int == (code as int) % 256) by (bit_vector)
        requires
            b == code as u8,
    ;
    b
}

/// The exit code `errfail` reports: a failing command keeps its code; a
/// successful one becomes a failure when it wrote anything to stderr.
pub open spec fn errfail_code(code: int, had_stderr: bool) -> int {
    if code != 0 {
        exit_byte(code)
    } else if had_stderr {
        STDERR_EXIT as int
    } else {
        0
    }
}

/// Law: `errfail` reports success only when the child succeeded and wrote
/// nothing to stderr, and stderr output turns a success into a failure.
/// (A child code that is a nonzero multiple of 256 truncates to success and
/// is left out.)
pub proof fn law_errfail_success_means_clean(code: int, had_stderr: bool)
    requires
        code == 0 || code % 256 != 0,
    ensures
        (errfail_code(code, had_stderr) == 0) <==> (code == 0 && !had_stderr),
        code == 0 && had_stderr ==> errfail_code(code, had_stderr) == STDERR_EXIT as int,
{
}

/// Law: a failing child's code is reported truncated to a byte, whether or
/// not it wrote to stderr; stderr output matters only when the child exited
/// with 0, turning that into 2.
pub proof fn law_errfail_failure_ignores_stderr(code: int)
    ensures
        code != 0 ==> errfail_code(code, true) == code % 256,
        code != 0 ==> errfail_code(code, false) == code % 256,
        errfail_code(0, true) == 2,
        errfail_code(0, false) == 0,
{
}

/// Decides the exit code of `errfail` from the child's exit code and whether
/// the child wrote any bytes to stderr.
pub fn errfail_exit_code(code: i32, had_stderr: bool) -> (b: u8)
    ensures
        b as int == errfail_code(code as int, had_stderr),
        code != 0 ==> b as int == (code as int) % 256,
        code == 0 && had_stderr ==> b == 2,
        code == 0 && !had_stderr ==> b == 0,
{
    if code != 0 {
        exit_code_byte(code)
    } else if had_stderr {
        STDERR_EXIT
    } else {
        0
    }
}

} // verus!
