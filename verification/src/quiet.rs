use vstd::prelude::*;

verus! {

/// Which of the child's output streams a piece of output came from, and so
/// which of ours it goes to.
#[derive(Clone, Copy, PartialEq, Eq, Structural, Debug)]
pub enum Output {
    Stdout,
    Stderr,
}

/// A piece of output as one read on a child's pipe delivered it.
pub struct Chunk {
    pub output: Output,
    pub data: Vec<u8>,
}

impl View for Chunk {
    type V = (Output, Seq<u8>);

    open spec fn view(&self) -> (Output, Seq<u8>) {
        (self.output, self.data@)
    }
}

/// The pieces of output in `v`, as values.
pub open spec fn chunks_view(v: Seq<Chunk>) -> Seq<(Output, Seq<u8>)> {
    v.map_values(|c: Chunk| c@)
}

/// The abstract state of `quiet`: whether output is now written as it
/// arrives, and the output held back so far, in the order it arrived.
pub struct StateView {
    pub streaming: bool,
    pub buffer: Seq<(Output, Seq<u8>)>,
}

/// What can happen to `quiet` while its child runs.
pub enum Event {
    /// The child wrote `1` to `0`.
    Data(Output, Seq<u8>),
    /// The time limit given with `-t` ran out.
    Timeout,
    /// The child ended, successfully or not.
    Exit(bool),
}

/// Output is held back, and nothing has been held yet.
pub open spec fn initial() -> StateView {
    StateView { streaming: false, buffer: Seq::empty() }
}

/// Nothing is held back once output is written as it arrives.
pub open spec fn state_inv(s: StateView) -> bool {
    s.streaming ==> s.buffer.len() == 0
}

/// Flushing writes everything held back, in order, and from then on output
/// is written as it arrives.
pub open spec fn flushed(s: StateView) -> (StateView, Seq<(Output, Seq<u8>)>) {
    (StateView { streaming: true, buffer: Seq::empty() }, s.buffer)
}

/// One event: the new state and what is written.
pub open spec fn step(s: StateView, e: Event) -> (StateView, Seq<(Output, Seq<u8>)>) {
    match e {
        Event::Data(o, d) => if s.streaming {
            (s, seq![(o, d)])
        } else {
            (StateView { streaming: false, buffer: s.buffer.push((o, d)) }, Seq::empty())
        },
        Event::Timeout => if !s.streaming {
            flushed(s)
        } else {
            (s, Seq::empty())
        },
        Event::Exit(success) => if !s.streaming && !success {
            flushed(s)
        } else {
            (s, Seq::empty())
        },
    }
}

/// A sequence of events: the final state and everything written, in order.
pub open spec fn run(s: StateView, events: Seq<Event>) -> (StateView, Seq<(Output, Seq<u8>)>)
    decreases events.len(),
{
    if events.len() == 0 {
        (s, Seq::empty())
    } else {
        let (s1, w1) = step(s, events[0]);
        let (s2, w2) = run(s1, events.drop_first());
        (s2, w1 + w2)
    }
}

/// The output the child produced during `events`, in order.
pub open spec fn received(events: Seq<Event>) -> Seq<(Output, Seq<u8>)>
    decreases events.len(),
{
    if events.len() == 0 {
        Seq::empty()
    } else {
        match events[0] {
            Event::Data(o, d) => seq![(o, d)] + received(events.drop_first()),
            _ => received(events.drop_first()),
        }
    }
}

/// The event makes `quiet` show the output: the time limit ran out or the
/// child failed.
pub open spec fn reveals(e: Event) -> bool {
    e is Timeout || e == Event::Exit(false)
}

// ---------------------------------------------------------------------------
// Laws
// ---------------------------------------------------------------------------

/// Law: every event keeps the state's invariant.
pub proof fn law_step_keeps_invariant(s: StateView, e: Event)
    requires
        state_inv(s),
    ensures
        state_inv(step(s, e).0),
{
}

/// Law: nothing is lost, duplicated or reordered: what is written, followed
/// by what is still held back, is what was held before followed by all the
/// output received, in the order it arrived.
pub proof fn law_nothing_lost(s: StateView, events: Seq<Event>)
    requires
        state_inv(s),
    ensures
        state_inv(run(s, events).0),
        run(s, events).1 + run(s, events).0.buffer == s.buffer + received(events),
    decreases events.len(),
{
    if events.len() > 0 {
        let e = events[0];
        let rest = events.drop_first();
        let (s1, w1) = step(s, e);
        law_nothing_lost(s1, rest);
        let (s2, w2) = run(s1, rest);
        match e {
            Event::Data(o, d) => {
                if s.streaming {
                    assert(s.buffer =~= Seq::<(Output, Seq<u8>)>::empty());
                    assert(w1 + w2 + s2.buffer =~= s.buffer + (seq![(o, d)] + received(rest)));
                } else {
                    assert(w1 + w2 + s2.buffer =~= s.buffer + (seq![(o, d)] + received(rest)));
                }
            },
            _ => {
                assert(w1 + w2 + s2.buffer =~= w1 + (w2 + s2.buffer));
                if !s.streaming && (e is Timeout || e == Event::Exit(false)) {
                    assert(s1.buffer + received(rest) =~= received(rest));
                } else {
                    assert(w1 =~= Seq::<(Output, Seq<u8>)>::empty());
                }
            },
        }
    } else {
        assert(Seq::<(Output, Seq<u8>)>::empty() + s.buffer =~= s.buffer + received(events));
    }
}

/// Once output is written as it arrives, it stays so.
proof fn lemma_streaming_stays(s: StateView, events: Seq<Event>)
    requires
        s.streaming,
    ensures
        run(s, events).0.streaming,
    decreases events.len(),
{
    if events.len() > 0 {
        lemma_streaming_stays(step(s, events[0]).0, events.drop_first());
    }
}

/// After an event that reveals output, output is written as it arrives.
proof fn lemma_revealed_streams(s: StateView, events: Seq<Event>, k: int)
    requires
        0 <= k < events.len(),
        reveals(events[k]),
    ensures
        run(s, events).0.streaming,
    decreases events.len(),
{
    let s1 = step(s, events[0]).0;
    if k == 0 {
        assert(s1.streaming);
        lemma_streaming_stays(s1, events.drop_first());
    } else {
        assert(events.drop_first()[k - 1] == events[k]);
        lemma_revealed_streams(s1, events.drop_first(), k - 1);
    }
}

/// Law: when the child succeeds before any time limit runs out, `quiet`
/// writes nothing at all.
pub proof fn law_success_is_silent(events: Seq<Event>)
    requires
        forall|i: int| 0 <= i < events.len() ==> !reveals(#[trigger] events[i]),
    ensures
        run(initial(), events).1 == Seq::<(Output, Seq<u8>)>::empty(),
{
    lemma_silent_from(initial(), events);
}

proof fn lemma_silent_from(s: StateView, events: Seq<Event>)
    requires
        !s.streaming,
        forall|i: int| 0 <= i < events.len() ==> !reveals(#[trigger] events[i]),
    ensures
        !run(s, events).0.streaming,
        run(s, events).1 == Seq::<(Output, Seq<u8>)>::empty(),
    decreases events.len(),
{
    if events.len() > 0 {
        let rest = events.drop_first();
        assert(!reveals(events[0]));
        assert forall|i: int| 0 <= i < rest.len() implies !reveals(#[trigger] rest[i]) by {
            assert(rest[i] == events[i + 1]);
        }
        let (s1, w1) = step(s, events[0]);
        lemma_silent_from(s1, rest);
        assert(w1 + run(s1, rest).1 =~= Seq::<(Output, Seq<u8>)>::empty());
    }
}

/// Law: once the child has failed or the time limit has run out, all the
/// output the child produced has been written, in the order it arrived, and
/// nothing is held back.
pub proof fn law_revealed_output_is_complete(events: Seq<Event>, k: int)
    requires
        0 <= k < events.len(),
        reveals(events[k]),
    ensures
        run(initial(), events).0.buffer == Seq::<(Output, Seq<u8>)>::empty(),
        run(initial(), events).1 == received(events),
{
    law_nothing_lost(initial(), events);
    lemma_revealed_streams(initial(), events, k);
    let (s2, w) = run(initial(), events);
    assert(initial().buffer + received(events) =~= received(events));
    assert(w + s2.buffer =~= w);
}

// ---------------------------------------------------------------------------
// The executable state
// ---------------------------------------------------------------------------

/// The state `quiet` shares between the threads that read its child's pipes.
pub struct State {
    streaming: bool,
    buffer: Vec<Chunk>,
}

impl View for State {
    type V = StateView;

    closed spec fn view(&self) -> StateView {
        StateView { streaming: self.streaming, buffer: chunks_view(self.buffer@) }
    }
}

impl State {
    /// Nothing is held back once output is written as it arrives.
    #[verifier::type_invariant]
    closed spec fn wf(&self) -> bool {
        state_inv(self@)
    }

    /// Output is held back, and nothing has been held yet.
    pub fn new() -> (s: State)
        ensures
            s@ == initial(),
            state_inv(s@),
    {
        let s = State { streaming: false, buffer: Vec::new() };
        assert(s@.buffer =~= Seq::<(Output, Seq<u8>)>::empty());
        s
    }

    /// Whether output is now written as it arrives.
    pub fn is_streaming(&self) -> (b: bool)
        ensures
            b == self@.streaming,
    {
        self.streaming
    }

    /// The child wrote `data` to `output`: returns what to write now, which
    /// is that piece when output is written as it arrives, and nothing when
    /// it is held back.
    pub fn receive(&mut self, output: Output, data: Vec<u8>) -> (w: Vec<Chunk>)
        ensures
            state_inv(final(self)@),
            (final(self)@, chunks_view(w@)) == step(old(self)@, Event::Data(output, data@)),
    {
        proof {
            use_type_invariant(&*self);
        }
        let ghost before = self@;
        let chunk = Chunk { output, data };
        let mut w: Vec<Chunk> = Vec::new();
        if self.streaming {
            w.push(chunk);
            assert(chunks_view(w@) =~= seq![(output, data@)]);
        } else {
            let mut held: Vec<Chunk> = Vec::new();
            std::mem::swap(&mut held, &mut self.buffer);
            held.push(chunk);
            self.buffer = held;
            assert(chunks_view(self.buffer@) =~= before.buffer.push((output, data@)));
            assert(chunks_view(w@) =~= Seq::<(Output, Seq<u8>)>::empty());
        }
        w
    }

    /// Hands out everything held back, in order, and from now on writes
    /// output as it arrives.
    pub fn flush(&mut self) -> (w: Vec<Chunk>)
        ensures
            state_inv(final(self)@),
            (final(self)@, chunks_view(w@)) == flushed(old(self)@),
    {
        proof {
            use_type_invariant(&*self);
        }
        let mut w: Vec<Chunk> = Vec::new();
        std::mem::swap(&mut w, &mut self.buffer);
        self.streaming = true;
        assert(chunks_view(self.buffer@) =~= Seq::<(Output, Seq<u8>)>::empty());
        w
    }

    /// The time limit ran out: output held back is written now, unless
    /// output is already written as it arrives.
    pub fn on_timeout(&mut self) -> (w: Vec<Chunk>)
        ensures
            state_inv(final(self)@),
            (final(self)@, chunks_view(w@)) == step(old(self)@, Event::Timeout),
    {
        proof {
            use_type_invariant(&*self);
        }
        if !self.streaming {
            self.flush()
        } else {
            let w: Vec<Chunk> = Vec::new();
            assert(chunks_view(w@) =~= Seq::<(Output, Seq<u8>)>::empty());
            w
        }
    }

    /// The child ended: when it failed, output held back is written now.
    pub fn on_exit(&mut self, success: bool) -> (w: Vec<Chunk>)
        ensures
            state_inv(final(self)@),
            (final(self)@, chunks_view(w@)) == step(old(self)@, Event::Exit(success)),
    {
        proof {
            use_type_invariant(&*self);
        }
        if !self.streaming && !success {
            self.flush()
        } else {
            let w: Vec<Chunk> = Vec::new();
            assert(chunks_view(w@) =~= Seq::<(Output, Seq<u8>)>::empty());
            w
        }
    }
}

} // verus!
