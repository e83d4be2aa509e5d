use vstd::prelude::*;

verus! {

/// Why a command line is refused.
#[derive(Clone, Copy, PartialEq, Eq, Structural, Debug)]
pub enum ArgError {
    /// `-t` was given without a value after it.
    MissingTimeout,
    /// The command line does not name a command to run.
    Usage,
}

/// The arguments without a leading `--`, if there is one.
pub open spec fn strip_separator(args: Seq<String>) -> Seq<String> {
    if args.len() > 0 && args[0]@ == "--"@ {
        args.drop_first()
    } else {
        args
    }
}

/// `arg` is one of the flags of `prefix`.
pub open spec fn is_stream_flag(arg: String) -> bool {
    arg@ == "--stdout"@ || arg@ == "--stderr"@
}

/// How many of the leading arguments are flags of `prefix`.
pub open spec fn flag_count(args: Seq<String>) -> nat
    decreases args.len(),
{
    if args.len() > 0 && is_stream_flag(args[0]) {
        1 + flag_count(args.drop_first())
    } else {
        0
    }
}

/// One of `args` is the text `lit`.
pub open spec fn has_arg(args: Seq<String>, lit: Seq<char>) -> bool {
    exists|j: int| 0 <= j < args.len() && #[trigger] args[j]@ == lit
}

/// The argument is the text `lit`.
fn is_arg(arg: &String, lit: &str) -> (r: bool)
    ensures
        r == (arg@ == lit@),
{
    let owned: String = lit.to_owned();
    *arg == owned
}

/// Copies `args[start..]`.
fn tail_of(args: &[String], start: usize) -> (v: Vec<String>)
    requires
        start <= args@.len(),
    ensures
        v@ == args@.skip(start as int),
{
    let mut v: Vec<String> = Vec::new();
    let mut i: usize = start;
    while i < args.len()
        invariant
            start <= i <= args@.len(),
            v@ == args@.subrange(start as int, i as int),
        decreases args@.len() - i,
    {
        v.push(args[i].clone());
        i += 1;
        assert(v@ =~= args@.subrange(start as int, i as int));
    }
    assert(args@.subrange(start as int, args@.len() as int) =~= args@.skip(start as int));
    v
}

/// The command to run and its arguments: what follows an optional leading
/// `--`; `None` when that is nothing.
pub fn command_args(args: &[String]) -> (r: Option<Vec<String>>)
    ensures
        r is Some <==> strip_separator(args@).len() > 0,
        r matches Some(v) ==> v@ == strip_separator(args@),
{
    let start: usize = if args.len() > 0 && is_arg(&args[0], "--") {
        1
    } else {
        0
    };
    if start == args.len() {
        None
    } else {
        let v = tail_of(args, start);
        assert(start == 1 ==> args@.skip(1) =~= args@.drop_first());
        assert(args@.skip(0) =~= args@);
        Some(v)
    }
}

/// The `-t` option of `quiet`: its value, if given, and where the command
/// starts.
pub struct TimeoutFlag {
    pub value: Option<String>,
    pub command_start: usize,
}

/// Reads the optional `-t <seconds>` that may open `quiet`'s command line.
/// The value is handed back as given; reading it as a number is up to the
/// caller.
pub fn parse_timeout_flag(args: &[String]) -> (r: Result<TimeoutFlag, ArgError>)
    ensures
        r == (if args@.len() > 0 && args@[0]@ == "-t"@ {
            if args@.len() >= 2 {
                Ok(TimeoutFlag { value: Some(args@[1]), command_start: 2 })
            } else {
                Err(ArgError::MissingTimeout)
            }
        } else {
            Ok(TimeoutFlag { value: None, command_start: 0 })
        }),
{
    if args.len() > 0 && is_arg(&args[0], "-t") {
        if args.len() >= 2 {
            Ok(TimeoutFlag { value: Some(args[1].clone()), command_start: 2 })
        } else {
            Err(ArgError::MissingTimeout)
        }
    } else {
        Ok(TimeoutFlag { value: None, command_start: 0 })
    }
}

/// The command line of `prefix`.
pub struct PrefixArgs {
    /// Lines on stdout get the prefix.
    pub prefix_stdout: bool,
    /// Lines on stderr get the prefix.
    pub prefix_stderr: bool,
    /// The label the prefix is made of.
    pub label: String,
    /// The command to run and its arguments.
    pub command: Vec<String>,
}

proof fn lemma_flag_count(args: Seq<String>, i: int)
    requires
        0 <= i <= args.len(),
        forall|j: int| 0 <= j < i ==> is_stream_flag(#[trigger] args[j]),
        i == args.len() || !is_stream_flag(args[i]),
    ensures
        flag_count(args) == i,
    decreases i,
{
    if i > 0 {
        let rest = args.drop_first();
        assert forall|j: int| 0 <= j < i - 1 implies is_stream_flag(#[trigger] rest[j]) by {
            assert(rest[j] == args[j + 1]);
        }
        if i < args.len() {
            assert(rest[i - 1] == args[i]);
        }
        lemma_flag_count(rest, i - 1);
        assert(is_stream_flag(args[0]));
    }
}

/// Reads `prefix`'s command line: `[--stdout] [--stderr] <label> [--]
/// <command> [args...]`. With neither flag both streams are prefixed.
pub fn parse_prefix_args(args: &[String]) -> (r: Result<PrefixArgs, ArgError>)
    ensures
        ({
            let k = flag_count(args@) as int;
            let flags = args@.take(k);
            let rest = args@.skip(k);
            &&& r is Ok <==> rest.len() >= 2 && strip_separator(rest.skip(1)).len() > 0
            &&& r matches Err(e) ==> e == ArgError::Usage
            &&& r matches Ok(a) ==> {
                &&& a.label == rest[0]
                &&& a.command@ == strip_separator(rest.skip(1))
                &&& a.prefix_stdout == (has_arg(flags, "--stdout"@) || !has_arg(flags, "--stderr"@))
                &&& a.prefix_stderr == (has_arg(flags, "--stderr"@) || !has_arg(flags, "--stdout"@))
                &&& a.prefix_stdout || a.prefix_stderr
            }
        }),
{
    let mut do_stdout = false;
    let mut do_stderr = false;
    let mut i: usize = 0;
    while i < args.len()
        invariant_except_break
            i <= args@.len(),
            forall|j: int| 0 <= j < i ==> is_stream_flag(#[trigger] args@[j]),
            do_stdout == has_arg(args@.take(i as int), "--stdout"@),
            do_stderr == has_arg(args@.take(i as int), "--stderr"@),
        ensures
            i <= args@.len(),
            forall|j: int| 0 <= j < i ==> is_stream_flag(#[trigger] args@[j]),
            i == args@.len() || !is_stream_flag(args@[i as int]),
            do_stdout == has_arg(args@.take(i as int), "--stdout"@),
            do_stderr == has_arg(args@.take(i as int), "--stderr"@),
        decreases args@.len() - i,
    {
        proof {
            reveal_strlit("--stdout");
            reveal_strlit("--stderr");
            assert("--stdout"@ != "--stderr"@) by {
                assert("--stdout"@[5] != "--stderr"@[5]);
            }
        }
        let ghost before = args@.take(i as int);
        let ghost arg = args@[i as int];
        assert(args@.take(i + 1) =~= before.push(arg));
        if is_arg(&args[i], "--stdout") {
            do_stdout = true;
            assert(args@.take(i + 1)[i as int] == arg);
        } else if is_arg(&args[i], "--stderr") {
            do_stderr = true;
            assert(args@.take(i + 1)[i as int] == arg);
        } else {
            break;
        }
        assert(has_arg(args@.take(i + 1), "--stdout"@) == (has_arg(before, "--stdout"@) || arg@
            == "--stdout"@)) by {
            if has_arg(before, "--stdout"@) {
                let j = choose|j: int| 0 <= j < before.len() && #[trigger] before[j]@ == "--stdout"@;
                assert(args@.take(i + 1)[j] == before[j]);
            }
        }
        assert(has_arg(args@.take(i + 1), "--stderr"@) == (has_arg(before, "--stderr"@) || arg@
            == "--stderr"@)) by {
            if has_arg(before, "--stderr"@) {
                let j = choose|j: int| 0 <= j < before.len() && #[trigger] before[j]@ == "--stderr"@;
                assert(args@.take(i + 1)[j] == before[j]);
            }
        }
        i += 1;
    }
    proof {
        lemma_flag_count(args@, i as int);
    }
    if !do_stdout && !do_stderr {
        do_stdout = true;
        do_stderr = true;
    }
    if args.len() - i < 2 {
        assert(args@.skip(i as int).len() < 2);
        return Err(ArgError::Usage);
    }
    let label = args[i].clone();
    let tail = tail_of(args, i + 1);
    assert(tail@ =~= args@.skip(i as int).skip(1));
    match command_args(tail.as_slice()) {
        Some(command) => Ok(
            PrefixArgs { prefix_stdout: do_stdout, prefix_stderr: do_stderr, label, command },
        ),
        None => Err(ArgError::Usage),
    }
}

} // verus!
