use vstd::prelude::*;
use vstd::string::StringSliceAdditionalSpecFns;

verus! {

/// The line terminator, `b'\n'`.
pub const NEWLINE: u8 = 10;

/// What one `read` on a pipe gave back. `Bytes` with no bytes is the end of
/// the stream, as `Ok(0)` is for `std::io::Read::read`.
pub enum ReadResult {
    Bytes(Vec<u8>),
    /// The read was interrupted by a signal (`ErrorKind::Interrupted`).
    Interrupted,
    /// Any other read error.
    Failed,
}

// ---------------------------------------------------------------------------
// Line prefixing on byte sequences
// ---------------------------------------------------------------------------

/// The bytes written while `data` is appended to the unfinished line
/// `pending`: every time a newline arrives, the prefix, the finished line and
/// the newline.
pub open spec fn lines_out(prefix: Seq<u8>, pending: Seq<u8>, data: Seq<u8>) -> Seq<u8>
    decreases data.len(),
{
    if data.len() == 0 {
        Seq::empty()
    } else if data[0] == NEWLINE {
        prefix + pending + seq![NEWLINE] + lines_out(prefix, Seq::empty(), data.drop_first())
    } else {
        lines_out(prefix, pending.push(data[0]), data.drop_first())
    }
}

/// The unfinished line left after `data` is appended to `pending`.
pub open spec fn pending_after(pending: Seq<u8>, data: Seq<u8>) -> Seq<u8>
    decreases data.len(),
{
    if data.len() == 0 {
        pending
    } else if data[0] == NEWLINE {
        pending_after(Seq::empty(), data.drop_first())
    } else {
        pending_after(pending.push(data[0]), data.drop_first())
    }
}

/// What the end of the stream writes for an unfinished line: nothing when
/// there is none, else the prefix, the line and a newline.
pub open spec fn last_line(prefix: Seq<u8>, pending: Seq<u8>) -> Seq<u8> {
    if pending.len() == 0 {
        Seq::empty()
    } else {
        prefix + pending + seq![NEWLINE]
    }
}

/// The whole text `s` with `prefix` in front of every line; a last line
/// without a newline gets one.
pub open spec fn prefixed_text(prefix: Seq<u8>, s: Seq<u8>) -> Seq<u8> {
    lines_out(prefix, Seq::empty(), s) + last_line(prefix, pending_after(Seq::empty(), s))
}

/// No byte of `s` is a newline.
pub open spec fn no_newline(s: Seq<u8>) -> bool {
    forall|i: int| 0 <= i < s.len() ==> s[i] != NEWLINE
}

// ---------------------------------------------------------------------------
// Whole streams of reads
// ---------------------------------------------------------------------------

/// The bytes a stream delivers: the data of every read up to the end of the
/// stream or the first failed read; interrupted reads deliver nothing.
pub open spec fn delivered(reads: Seq<ReadResult>) -> Seq<u8>
    decreases reads.len(),
{
    if reads.len() == 0 {
        Seq::empty()
    } else {
        match reads[0] {
            ReadResult::Bytes(d) => if d@.len() == 0 {
                Seq::empty()
            } else {
                d@ + delivered(reads.drop_first())
            },
            ReadResult::Interrupted => delivered(reads.drop_first()),
            ReadResult::Failed => Seq::empty(),
        }
    }
}

/// The stream reaches its end (a read of zero bytes) before any read fails.
pub open spec fn ends_cleanly(reads: Seq<ReadResult>) -> bool
    decreases reads.len(),
{
    if reads.len() == 0 {
        false
    } else {
        match reads[0] {
            ReadResult::Bytes(d) => d@.len() == 0 || ends_cleanly(reads.drop_first()),
            ReadResult::Interrupted => ends_cleanly(reads.drop_first()),
            ReadResult::Failed => false,
        }
    }
}

/// No read before the end of the stream (or the first failure) is an
/// interrupted one.
pub open spec fn never_interrupted(reads: Seq<ReadResult>) -> bool
    decreases reads.len(),
{
    if reads.len() == 0 {
        true
    } else {
        match reads[0] {
            ReadResult::Bytes(d) => d@.len() == 0 || never_interrupted(reads.drop_first()),
            ReadResult::Interrupted => false,
            ReadResult::Failed => true,
        }
    }
}

/// What copying a pipe verbatim writes: the data of each read, until a read
/// gives zero bytes or any error (an interrupted read stops it too).
pub open spec fn passthrough_output(reads: Seq<ReadResult>) -> Seq<u8>
    decreases reads.len(),
{
    if reads.len() == 0 {
        Seq::empty()
    } else {
        match reads[0] {
            ReadResult::Bytes(d) => if d@.len() == 0 {
                Seq::empty()
            } else {
                d@ + passthrough_output(reads.drop_first())
            },
            _ => Seq::empty(),
        }
    }
}

/// What prefixing the lines of a pipe writes, starting with the unfinished
/// line `pending`: each line as soon as its newline arrives; at the end of
/// the stream the unfinished line with a newline added; interrupted reads are
/// retried; a failed read stops everything and drops the unfinished line.
pub open spec fn prefixed_output(prefix: Seq<u8>, pending: Seq<u8>, reads: Seq<ReadResult>) -> Seq<u8>
    decreases reads.len(),
{
    if reads.len() == 0 {
        Seq::empty()
    } else {
        match reads[0] {
            ReadResult::Bytes(d) => if d@.len() == 0 {
                last_line(prefix, pending)
            } else {
                lines_out(prefix, pending, d@) + prefixed_output(
                    prefix,
                    pending_after(pending, d@),
                    reads.drop_first(),
                )
            },
            ReadResult::Interrupted => prefixed_output(prefix, pending, reads.drop_first()),
            ReadResult::Failed => Seq::empty(),
        }
    }
}

// ---------------------------------------------------------------------------
// Lemmas and laws
// ---------------------------------------------------------------------------

/// Appending `a` and then `b` to a line writes what appending `a` writes,
/// then what appending `b` writes, and leaves the same unfinished line.
pub proof fn lemma_lines_concat(prefix: Seq<u8>, pending: Seq<u8>, a: Seq<u8>, b: Seq<u8>)
    ensures
        lines_out(prefix, pending, a + b) == lines_out(prefix, pending, a) + lines_out(
            prefix,
            pending_after(pending, a),
            b,
        ),
        pending_after(pending, a + b) == pending_after(pending_after(pending, a), b),
    decreases a.len(),
{
    if a.len() == 0 {
        assert(a + b =~= b);
    } else {
        assert((a + b).drop_first() =~= a.drop_first() + b);
        assert((a + b)[0] == a[0]);
        if a[0] == NEWLINE {
            lemma_lines_concat(prefix, Seq::empty(), a.drop_first(), b);
        } else {
            lemma_lines_concat(prefix, pending.push(a[0]), a.drop_first(), b);
        }
    }
}

/// Bytes without a newline only extend the unfinished line.
pub proof fn lemma_no_newline(prefix: Seq<u8>, pending: Seq<u8>, s: Seq<u8>)
    requires
        no_newline(s),
    ensures
        lines_out(prefix, pending, s) == Seq::<u8>::empty(),
        pending_after(pending, s) == pending + s,
    decreases s.len(),
{
    if s.len() == 0 {
        assert(pending + s =~= pending);
    } else {
        assert(s[0] != NEWLINE);
        lemma_no_newline(prefix, pending.push(s[0]), s.drop_first());
        assert(pending.push(s[0]) + s.drop_first() =~= pending + s);
    }
}

/// Law: a text made of a line, a newline and more text is written as the
/// prefix, the line and the newline, followed by the rest prefixed the same
/// way.
pub proof fn law_prefix_each_line(prefix: Seq<u8>, line: Seq<u8>, rest: Seq<u8>)
    requires
        no_newline(line),
    ensures
        prefixed_text(prefix, line + seq![NEWLINE] + rest) == prefix + line + seq![NEWLINE]
            + prefixed_text(prefix, rest),
{
    let e = Seq::<u8>::empty();
    let nl_rest = seq![NEWLINE] + rest;
    assert(line + seq![NEWLINE] + rest =~= line + nl_rest);
    lemma_lines_concat(prefix, e, line, nl_rest);
    lemma_no_newline(prefix, e, line);
    assert(e + line =~= line);
    assert(nl_rest[0] == NEWLINE);
    assert(nl_rest.drop_first() =~= rest);
}

/// Law: a text without a newline is written as one line with a newline
/// added, and an empty text writes nothing.
pub proof fn law_prefix_last_line(prefix: Seq<u8>, line: Seq<u8>)
    requires
        no_newline(line),
    ensures
        prefixed_text(prefix, line) == (if line.len() == 0 {
            Seq::<u8>::empty()
        } else {
            prefix + line + seq![NEWLINE]
        }),
{
    let e = Seq::<u8>::empty();
    lemma_no_newline(prefix, e, line);
    assert(e + line =~= line);
    assert(e + last_line(prefix, line) =~= last_line(prefix, line));
}

/// Law: for a stream that reaches its end, the prefixed output depends only
/// on the bytes delivered, not on how they were split into reads or on
/// interrupted reads.
pub proof fn law_prefix_ignores_chunking(prefix: Seq<u8>, reads: Seq<ReadResult>)
    requires
        ends_cleanly(reads),
    ensures
        prefixed_output(prefix, Seq::empty(), reads) == prefixed_text(prefix, delivered(reads)),
{
    lemma_prefixed_output_from(prefix, Seq::empty(), reads);
}

proof fn lemma_prefixed_output_from(prefix: Seq<u8>, pending: Seq<u8>, reads: Seq<ReadResult>)
    requires
        ends_cleanly(reads),
    ensures
        prefixed_output(prefix, pending, reads) == lines_out(prefix, pending, delivered(reads))
            + last_line(prefix, pending_after(pending, delivered(reads))),
    decreases reads.len(),
{
    let rest = reads.drop_first();
    match reads[0] {
        ReadResult::Bytes(d) => {
            if d@.len() == 0 {
                assert(Seq::<u8>::empty() + last_line(prefix, pending) =~= last_line(
                    prefix,
                    pending,
                ));
            } else {
                lemma_prefixed_output_from(prefix, pending_after(pending, d@), rest);
                lemma_lines_concat(prefix, pending, d@, delivered(rest));
            }
        },
        ReadResult::Interrupted => {
            lemma_prefixed_output_from(prefix, pending, rest);
        },
        ReadResult::Failed => {},
    }
}

/// Law: copying a stream that is never interrupted writes exactly the bytes
/// it delivered.
pub proof fn law_passthrough_copies(reads: Seq<ReadResult>)
    requires
        never_interrupted(reads),
    ensures
        passthrough_output(reads) == delivered(reads),
    decreases reads.len(),
{
    if reads.len() > 0 {
        match reads[0] {
            ReadResult::Bytes(d) => {
                if d@.len() > 0 {
                    law_passthrough_copies(reads.drop_first());
                }
            },
            _ => {},
        }
    }
}


// ---------------------------------------------------------------------------
// Executable line prefixing
// ---------------------------------------------------------------------------

/// Appends the bytes of `src` to `out`.
fn append_bytes(out: &mut Vec<u8>, src: &[u8])
    ensures
        final(out)@ == old(out)@ + src@,
{
    let ghost start = out@;
    let mut i: usize = 0;
    while i < src.len()
        invariant
            i <= src@.len(),
            out@ == start + src@.subrange(0, i as int),
        decreases src@.len() - i,
    {
        out.push(src[i]);
        i += 1;
        assert(src@.subrange(0, i as int) =~= src@.subrange(0, i - 1).push(src@[i - 1]));
    }
    assert(src@.subrange(0, src@.len() as int) =~= src@);
}

/// The prefix written in front of each line for the label `label`: the
/// label's bytes followed by a space.
pub fn line_prefix(label: &str) -> (p: Vec<u8>)
    ensures
        p@ == label.spec_bytes() + seq![32u8],
{
    let mut p: Vec<u8> = Vec::new();
    append_bytes(&mut p, label.as_bytes());
    p.push(32u8);
    p
}

/// Prefixes the lines of a byte stream fed to it piece by piece. A line is
/// written whole, once its newline has arrived.
pub struct LinePrefixer {
    prefix: Vec<u8>,
    pending: Vec<u8>,
}

impl LinePrefixer {
    /// The bytes written in front of each line.
    pub closed spec fn prefix_bytes(&self) -> Seq<u8> {
        self.prefix@
    }

    /// The line received so far whose newline has not arrived yet.
    pub closed spec fn pending_line(&self) -> Seq<u8> {
        self.pending@
    }

    /// A prefixer with no unfinished line.
    pub fn new(prefix: Vec<u8>) -> (r: Self)
        ensures
            r.prefix_bytes() == prefix@,
            r.pending_line() == Seq::<u8>::empty(),
    {
        LinePrefixer { prefix, pending: Vec::new() }
    }

    /// Takes the bytes of one read and returns what is to be written: each
    /// line completed by them, prefixed.
    pub fn push(&mut self, data: &[u8]) -> (out: Vec<u8>)
        ensures
            out@ == lines_out(old(self).prefix_bytes(), old(self).pending_line(), data@),
            final(self).pending_line() == pending_after(old(self).pending_line(), data@),
            final(self).prefix_bytes() == old(self).prefix_bytes(),
    {
        let ghost p = self.prefix@;
        let ghost q0 = self.pending@;
        let mut out: Vec<u8> = Vec::new();
        let mut i: usize = 0;
        assert(data@.subrange(0, data@.len() as int) =~= data@);
        assert(out@ + lines_out(p, q0, data@) =~= lines_out(p, q0, data@));
        while i < data.len()
            invariant
                i <= data@.len(),
                self.prefix@ == p,
                out@ + lines_out(p, self.pending@, data@.subrange(i as int, data@.len() as int))
                    == lines_out(p, q0, data@),
                pending_after(self.pending@, data@.subrange(i as int, data@.len() as int))
                    == pending_after(q0, data@),
            decreases data@.len() - i,
        {
            let ghost rest = data@.subrange(i as int, data@.len() as int);
            let ghost q = self.pending@;
            assert(rest[0] == data@[i as int]);
            assert(rest.drop_first() =~= data@.subrange(i + 1, data@.len() as int));
            let b = data[i];
            if b == NEWLINE {
                append_bytes(&mut out, self.prefix.as_slice());
                append_bytes(&mut out, self.pending.as_slice());
                out.push(NEWLINE);
                self.pending = Vec::new();
                assert(out@ =~= (out@.subrange(0, out@.len() - p.len() - q.len() - 1) + p + q
                    + seq![NEWLINE]));
            } else {
                self.pending.push(b);
            }
            i += 1;
        }
        assert(data@.subrange(data@.len() as int, data@.len() as int) =~= Seq::<u8>::empty());
        assert(out@ + Seq::<u8>::empty() =~= out@);
        out
    }

    /// The end of the stream: returns the unfinished line, prefixed and with
    /// a newline added, if there is one.
    pub fn finish(&mut self) -> (out: Vec<u8>)
        ensures
            out@ == last_line(old(self).prefix_bytes(), old(self).pending_line()),
            final(self).pending_line() == Seq::<u8>::empty(),
            final(self).prefix_bytes() == old(self).prefix_bytes(),
    {
        let mut out: Vec<u8> = Vec::new();
        if self.pending.len() > 0 {
            append_bytes(&mut out, self.prefix.as_slice());
            append_bytes(&mut out, self.pending.as_slice());
            out.push(NEWLINE);
            self.pending = Vec::new();
        }
        out
    }
}


/// What one read on a pipe leads to: the bytes to write now, and whether the
/// pipe is finished with.
pub struct Step {
    pub write: Vec<u8>,
    pub done: bool,
}

/// How the bytes read from a child's pipe are relayed to our own output.
pub enum Relay {
    /// Every byte is written as it was read.
    Passthrough,
    /// Every line is written with a prefix in front.
    Prefix(LinePrefixer),
}

impl Relay {
    /// What the relay writes, from its current state on, for the reads
    /// `reads`.
    pub open spec fn output_for(&self, reads: Seq<ReadResult>) -> Seq<u8> {
        match self {
            Relay::Passthrough => passthrough_output(reads),
            Relay::Prefix(lp) => prefixed_output(lp.prefix_bytes(), lp.pending_line(), reads),
        }
    }

    /// Whether the read `r` finishes with the pipe: the end of the stream
    /// always does, a failed read always does, and an interrupted read does
    /// only for a verbatim copy (a line reader retries it).
    pub open spec fn ends_with(&self, r: ReadResult) -> bool {
        match r {
            ReadResult::Bytes(d) => d@.len() == 0,
            ReadResult::Interrupted => self is Passthrough,
            ReadResult::Failed => true,
        }
    }

    /// Handles one read: returns what to write now and whether the pipe is
    /// finished with. What is written now, followed by what the relay writes
    /// for any later reads, is what the relay would have written for this
    /// read followed by those.
    pub fn on_read(&mut self, r: &ReadResult) -> (s: Step)
        ensures
            s.done == old(self).ends_with(*r),
            forall|rest: Seq<ReadResult>|
                #![trigger old(self).output_for(seq![*r] + rest)]
                s.write@ + (if s.done {
                    Seq::<u8>::empty()
                } else {
                    final(self).output_for(rest)
                }) == old(self).output_for(seq![*r] + rest),
            (*final(self) is Passthrough) == (*old(self) is Passthrough),
    {
        let ghost before = *self;
        let s = match self {
            Relay::Passthrough => match r {
                ReadResult::Bytes(d) => {
                    let mut write: Vec<u8> = Vec::new();
                    append_bytes(&mut write, d.as_slice());
                    Step { write, done: d.len() == 0 }
                },
                _ => Step { write: Vec::new(), done: true },
            },
            Relay::Prefix(lp) => match r {
                ReadResult::Bytes(d) => {
                    if d.len() == 0 {
                        Step { write: lp.finish(), done: true }
                    } else {
                        Step { write: lp.push(d.as_slice()), done: false }
                    }
                },
                ReadResult::Interrupted => Step { write: Vec::new(), done: false },
                ReadResult::Failed => Step { write: Vec::new(), done: true },
            },
        };
        assert forall|rest: Seq<ReadResult>|
            #![trigger before.output_for(seq![*r] + rest)]
            s.write@ + (if s.done {
                Seq::<u8>::empty()
            } else {
                self.output_for(rest)
            }) == before.output_for(seq![*r] + rest) by {
            let all = seq![*r] + rest;
            assert(all[0] == *r);
            assert(all.drop_first() =~= rest);
            assert(s.write@ + Seq::<u8>::empty() =~= s.write@);
        }
        s
    }
}

/// Feeds every read to `relay` until it is finished with the pipe, and
/// returns all it wrote.
fn run_relay(initial: Relay, reads: &Vec<ReadResult>) -> (out: Vec<u8>)
    ensures
        out@ == initial.output_for(reads@),
{
    let ghost start = initial;
    let mut relay = initial;
    let mut out: Vec<u8> = Vec::new();
    let mut i: usize = 0;
    assert(reads@.skip(0) =~= reads@);
    while i < reads.len()
        invariant
            i <= reads@.len(),
            out@ + relay.output_for(reads@.skip(i as int)) == start.output_for(reads@),
            start == initial,
        decreases reads@.len() - i,
    {
        let ghost old_out = out@;
        let ghost current = relay;
        let s = relay.on_read(&reads[i]);
        append_bytes(&mut out, s.write.as_slice());
        assert(seq![reads@[i as int]] + reads@.skip(i + 1) =~= reads@.skip(i as int));
        assert(current.output_for(seq![reads@[i as int]] + reads@.skip(i + 1)) == s.write@ + (
        if s.done {
            Seq::<u8>::empty()
        } else {
            relay.output_for(reads@.skip(i + 1))
        }));
        if s.done {
            assert(out@ =~= out@ + Seq::<u8>::empty());
            return out;
        }
        i += 1;
        assert(out@ + relay.output_for(reads@.skip(i as int)) =~= old_out + (s.write@
            + relay.output_for(reads@.skip(i as int))));
    }
    assert(reads@.skip(i as int) =~= Seq::<ReadResult>::empty());
    assert(out@ + Seq::<u8>::empty() =~= out@);
    out
}

/// Copies a pipe verbatim: writes the data of each read until a read gives
/// zero bytes or an error.
pub fn passthrough(reads: &Vec<ReadResult>) -> (out: Vec<u8>)
    ensures
        out@ == passthrough_output(reads@),
{
    run_relay(Relay::Passthrough, reads)
}

/// Prefixes every line read from a pipe with `prefix`, adding a newline to
/// a last line that lacks one; stops at the end of the stream or at a failed
/// read (dropping the unfinished line), and retries interrupted reads.
pub fn prefix_lines(reads: &Vec<ReadResult>, prefix: &[u8]) -> (out: Vec<u8>)
    ensures
        out@ == prefixed_output(prefix@, Seq::empty(), reads@),
{
    let mut p: Vec<u8> = Vec::new();
    append_bytes(&mut p, prefix);
    assert(Seq::<u8>::empty() + prefix@ =~= prefix@);
    run_relay(Relay::Prefix(LinePrefixer::new(p)), reads)
}

} // verus!
