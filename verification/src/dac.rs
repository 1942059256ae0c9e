//! Double-buffered hand-off of sample blocks to a hardware output engine.
//!
//! Two fixed-size buffers alternate between a producer, which fills a block,
//! and an engine, which streams one. Each buffer has exactly one owner at
//! any instant. Ownership moves only by a hand-off from the producer and by
//! a completion signalled by the engine, so the two never touch the same
//! buffer at the same time.

use vstd::prelude::*;

verus! {

/// One of the two buffers of a pipeline.
#[derive(Copy, Clone, PartialEq, Eq, Structural, Debug)]
pub enum Slot {
    First,
    Second,
}

/// Who owns a buffer.
#[derive(Copy, Clone, PartialEq, Eq, Structural, Debug)]
pub enum BufferState {
    /// Owned by the producer, writable.
    Idle,
    /// Owned by the engine, which streams it or will stream it next; the
    /// producer must not touch it.
    InFlight,
}

impl Slot {
    /// The other buffer of the pair.
    pub open spec fn spec_other(self) -> Slot {
        match self {
            Slot::First => Slot::Second,
            Slot::Second => Slot::First,
        }
    }

    /// The other buffer of the pair.
    #[verifier::when_used_as_spec(spec_other)]
    pub fn other(self) -> (o: Slot)
        ensures
            o == self.spec_other(),
    {
        match self {
            Slot::First => Slot::Second,
            Slot::Second => Slot::First,
        }
    }
}

/// The pipeline as mathematical data: the contents and the owner of each
/// buffer, and the buffer that the engine streams, if it streams at all.
pub struct PipelineModel {
    pub first: Seq<u16>,
    pub second: Seq<u16>,
    pub first_state: BufferState,
    pub second_state: BufferState,
    pub streaming: Option<Slot>,
}

impl PipelineModel {
    /// The contents of a buffer.
    pub open spec fn buffer(self, slot: Slot) -> Seq<u16> {
        match slot {
            Slot::First => self.first,
            Slot::Second => self.second,
        }
    }

    /// The owner of a buffer.
    pub open spec fn state(self, slot: Slot) -> BufferState {
        match slot {
            Slot::First => self.first_state,
            Slot::Second => self.second_state,
        }
    }

    /// The pipeline has been armed: the engine streams.
    pub open spec fn armed(self) -> bool {
        self.streaming is Some
    }

    /// Before arming the producer owns both buffers. Afterwards the engine
    /// owns the buffer it streams.
    pub open spec fn wf(self) -> bool {
        match self.streaming {
            None => self.first_state == BufferState::Idle && self.second_state
                == BufferState::Idle,
            Some(s) => self.state(s) == BufferState::InFlight,
        }
    }

    /// The buffer that a hand-off may fill: once armed, the buffer that the
    /// engine does not stream, provided the engine has given it back.
    pub open spec fn idle_slot(self) -> Option<Slot> {
        match self.streaming {
            Some(s) if self.state(s.spec_other()) == BufferState::Idle => Some(s.spec_other()),
            _ => None,
        }
    }

    /// The pipeline with the owner of `slot` replaced.
    pub open spec fn with_state(self, slot: Slot, state: BufferState) -> PipelineModel {
        match slot {
            Slot::First => PipelineModel { first_state: state, ..self },
            Slot::Second => PipelineModel { second_state: state, ..self },
        }
    }

    /// The pipeline with the contents of `slot` replaced.
    pub open spec fn with_buffer(self, slot: Slot, data: Seq<u16>) -> PipelineModel {
        match slot {
            Slot::First => PipelineModel { first: data, ..self },
            Slot::Second => PipelineModel { second: data, ..self },
        }
    }

    /// Arming: the engine takes the first buffer and starts to stream it.
    /// An armed pipeline stays as it is.
    pub open spec fn arm(self) -> PipelineModel {
        if self.armed() {
            self
        } else {
            PipelineModel { streaming: Some(Slot::First), ..self }.with_state(
                Slot::First,
                BufferState::InFlight,
            )
        }
    }

    /// Hand-off: `slot` now holds `data` and belongs to the engine, which
    /// will stream it next.
    pub open spec fn hand_off(self, slot: Slot, data: Seq<u16>) -> PipelineModel {
        self.with_buffer(slot, data).with_state(slot, BufferState::InFlight)
    }

    /// The engine has a buffer queued behind the one it streams.
    pub open spec fn queued(self) -> bool {
        self.streaming matches Some(s) && self.state(s.spec_other()) == BufferState::InFlight
    }

    /// Completion: the engine gives back the buffer it streamed and goes on
    /// with the queued one. With nothing queued nothing changes.
    pub open spec fn complete(self) -> PipelineModel {
        match self.streaming {
            Some(s) if self.queued() => PipelineModel {
                streaming: Some(s.spec_other()),
                ..self
            }.with_state(s, BufferState::Idle),
            _ => self,
        }
    }
}

/// Two sample buffers of `N` words each, with the owner of each tracked
/// explicitly.
pub struct DoubleBufferPipeline<const N: usize> {
    first: [u16; N],
    second: [u16; N],
    first_state: BufferState,
    second_state: BufferState,
    streaming: Option<Slot>,
}

impl<const N: usize> View for DoubleBufferPipeline<N> {
    type V = PipelineModel;

    closed spec fn view(&self) -> PipelineModel {
        PipelineModel {
            first: self.first@,
            second: self.second@,
            first_state: self.first_state,
            second_state: self.second_state,
            streaming: self.streaming,
        }
    }
}

impl<const N: usize> DoubleBufferPipeline<N> {
    #[verifier::type_invariant]
    spec fn inv(self) -> bool {
        self@.wf()
    }

    /// The array that `slot` holds.
    pub closed spec fn contents(self, slot: Slot) -> [u16; N] {
        match slot {
            Slot::First => self.first,
            Slot::Second => self.second,
        }
    }

    /// The model holds, for each buffer, the view of the array that the
    /// buffer holds: `N` words.
    pub proof fn lemma_contents(self, slot: Slot)
        ensures
            self@.buffer(slot) == self.contents(slot)@,
            self@.buffer(slot).len() == N,
    {
    }

    /// A pipeline over two buffers, not yet armed: the producer owns both.
    pub fn new(first: [u16; N], second: [u16; N]) -> (p: Self)
        ensures
            p@ == (PipelineModel {
                first: first@,
                second: second@,
                first_state: BufferState::Idle,
                second_state: BufferState::Idle,
                streaming: None,
            }),
            p@.wf(),
    {
        DoubleBufferPipeline {
            first,
            second,
            first_state: BufferState::Idle,
            second_state: BufferState::Idle,
            streaming: None,
        }
    }

    /// Arm the pipeline: the engine takes the first buffer and streaming
    /// begins. Returns whether this call armed it; an armed pipeline is
    /// left as it is.
    pub fn arm(&mut self) -> (armed_now: bool)
        ensures
            armed_now == !old(self)@.armed(),
            final(self)@ == old(self)@.arm(),
            final(self)@.armed(),
            final(self)@.wf(),
    {
        proof {
            use_type_invariant(&*self);
        }
        match self.streaming {
            Some(_) => false,
            None => {
                *self = DoubleBufferPipeline {
                    first: self.first,
                    second: self.second,
                    first_state: BufferState::InFlight,
                    second_state: self.second_state,
                    streaming: Some(Slot::First),
                };
                true
            },
        }
    }

    /// Whether the pipeline has been armed.
    pub fn is_armed(&self) -> (b: bool)
        ensures
            b == self@.armed(),
            self@.wf(),
    {
        proof {
            use_type_invariant(self);
        }
        self.streaming.is_some()
    }

    /// The buffer that the engine streams, once armed.
    pub fn streaming(&self) -> (s: Option<Slot>)
        ensures
            s == self@.streaming,
    {
        self.streaming
    }

    /// The owner of a buffer.
    pub fn state(&self, slot: Slot) -> (s: BufferState)
        ensures
            s == self@.state(slot),
    {
        match slot {
            Slot::First => self.first_state,
            Slot::Second => self.second_state,
        }
    }

    /// The contents of a buffer, for reading.
    pub fn buffer(&self, slot: Slot) -> (b: &[u16; N])
        ensures
            *b == self.contents(slot),
            b@ == self@.buffer(slot),
    {
        match slot {
            Slot::First => &self.first,
            Slot::Second => &self.second,
        }
    }

    /// The buffer that the next hand-off will fill: none before arming,
    /// when no engine runs to take it, and none while the engine holds
    /// both buffers.
    pub fn idle_slot(&self) -> (s: Option<Slot>)
        ensures
            s == self@.idle_slot(),
    {
        match self.streaming {
            Some(s) => {
                let o = s.other();
                match self.state(o) {
                    BufferState::Idle => Some(o),
                    BufferState::InFlight => None,
                }
            },
            None => None,
        }
    }

    /// Acquire the idle buffer, let `f` fill it, and hand the buffer that
    /// `f` returns to the engine as the next one to stream.
    ///
    /// `f` gets the idle buffer by value and gives back the block to
    /// stream, which need not be the one it was given. Where there is no
    /// idle buffer to hand over (before arming, or while the engine has not
    /// yet given back the buffer it streams) `f` is not called and nothing
    /// changes.
    /// Returns the buffer that was handed over, for the caller to pass on
    /// to the engine.
    pub fn process<F>(&mut self, f: F) -> (handed: Option<Slot>) where
        F: FnOnce([u16; N]) -> [u16; N],

        requires
            old(self)@.idle_slot() matches Some(slot) ==> call_requires(
                f,
                (old(self).contents(slot),),
            ),
        ensures
            handed == old(self)@.idle_slot(),
            handed is None ==> *final(self) == *old(self),
            handed matches Some(slot) ==> call_ensures(
                f,
                (old(self).contents(slot),),
                final(self).contents(slot),
            ),
            handed matches Some(slot) ==> final(self)@ == old(self)@.hand_off(
                slot,
                final(self)@.buffer(slot),
            ),
            final(self)@.wf(),
    {
        proof {
            use_type_invariant(&*self);
        }
        match self.idle_slot() {
            None => None,
            Some(Slot::First) => {
                let filled = f(self.first);
                *self = DoubleBufferPipeline {
                    first: filled,
                    second: self.second,
                    first_state: BufferState::InFlight,
                    second_state: self.second_state,
                    streaming: self.streaming,
                };
                Some(Slot::First)
            },
            Some(Slot::Second) => {
                let filled = f(self.second);
                *self = DoubleBufferPipeline {
                    first: self.first,
                    second: filled,
                    first_state: self.first_state,
                    second_state: BufferState::InFlight,
                    streaming: self.streaming,
                };
                Some(Slot::Second)
            },
        }
    }

    /// The engine signals that it has finished the buffer it streamed and
    /// has gone on with the queued one: the finished buffer returns to the
    /// producer. Returns whether a queued buffer took over. With nothing
    /// queued (the producer missed its deadline, or the pipeline is not
    /// armed) nothing changes and the result is `false`.
    pub fn complete_transfer(&mut self) -> (switched: bool)
        ensures
            switched == old(self)@.queued(),
            final(self)@ == old(self)@.complete(),
            final(self)@.wf(),
    {
        proof {
            use_type_invariant(&*self);
        }
        match self.streaming {
            Some(Slot::First) => match self.second_state {
                BufferState::InFlight => {
                    *self = DoubleBufferPipeline {
                        first: self.first,
                        second: self.second,
                        first_state: BufferState::Idle,
                        second_state: self.second_state,
                        streaming: Some(Slot::Second),
                    };
                    true
                },
                BufferState::Idle => false,
            },
            Some(Slot::Second) => match self.first_state {
                BufferState::InFlight => {
                    *self = DoubleBufferPipeline {
                        first: self.first,
                        second: self.second,
                        first_state: self.first_state,
                        second_state: BufferState::Idle,
                        streaming: Some(Slot::First),
                    };
                    true
                },
                BufferState::Idle => false,
            },
            None => false,
        }
    }
}

/// What can happen to a pipeline: it is armed, the producer runs a
/// hand-off that leaves a block of data, or the engine signals completion.
pub enum Event {
    Arm,
    Process(Seq<u16>),
    Complete,
}

impl PipelineModel {
    /// The buffers that the producer owns.
    pub open spec fn producer_owned(self) -> Set<Slot> {
        Set::new(|s: Slot| self.state(s) == BufferState::Idle)
    }

    /// The buffers that the engine owns.
    pub open spec fn engine_owned(self) -> Set<Slot> {
        Set::new(|s: Slot| self.state(s) == BufferState::InFlight)
    }

    /// The pipeline after one event. A hand-off without an idle buffer
    /// changes nothing.
    pub open spec fn apply(self, event: Event) -> PipelineModel {
        match event {
            Event::Arm => self.arm(),
            Event::Process(data) => match self.idle_slot() {
                Some(slot) => self.hand_off(slot, data),
                None => self,
            },
            Event::Complete => self.complete(),
        }
    }

    /// The pipeline after a sequence of events, first to last.
    pub open spec fn run(self, events: Seq<Event>) -> PipelineModel
        decreases events.len(),
    {
        if events.len() == 0 {
            self
        } else {
            self.run(events.drop_last()).apply(events.last())
        }
    }
}

/// In a well-formed pipeline the owners partition the buffers: no buffer is
/// the producer's and the engine's at once, and each is one or the other's.
/// The buffer that a hand-off may write is the producer's, and it is not
/// the buffer that the engine streams. Once armed, the engine owns the
/// buffer it streams.
pub proof fn lemma_owners_partition(m: PipelineModel)
    requires
        m.wf(),
    ensures
        m.producer_owned().disjoint(m.engine_owned()),
        forall|s: Slot| m.producer_owned().contains(s) || m.engine_owned().contains(s),
        m.idle_slot() matches Some(w) ==> m.producer_owned().contains(w) && m.streaming != Some(
            w,
        ),
        m.streaming matches Some(s) ==> m.engine_owned().contains(s),
{
    assert forall|s: Slot| m.producer_owned().contains(s) || m.engine_owned().contains(s) by {
        match m.state(s) {
            BufferState::Idle => {},
            BufferState::InFlight => {},
        }
    }
}

/// Every event keeps a well-formed pipeline well formed.
pub proof fn lemma_apply_keeps_wf(m: PipelineModel, event: Event)
    requires
        m.wf(),
    ensures
        m.apply(event).wf(),
{
}

/// Exclusivity: after any sequence of arming, hand-offs and completions,
/// from any well-formed start, the pipeline is well formed, so its owners
/// partition the buffers.
pub proof fn lemma_exclusive_always(m: PipelineModel, events: Seq<Event>)
    requires
        m.wf(),
    ensures
        m.run(events).wf(),
        m.run(events).producer_owned().disjoint(m.run(events).engine_owned()),
    decreases events.len(),
{
    if events.len() > 0 {
        lemma_exclusive_always(m, events.drop_last());
        lemma_apply_keeps_wf(m.run(events.drop_last()), events.last());
    }
    lemma_owners_partition(m.run(events));
}

/// Liveness: a hand-off is never refused twice with a completion in
/// between. Right after arming the second buffer is idle. After a hand-off
/// one completion gives the producer the buffer that the engine was
/// streaming. And whatever the state of an armed pipeline, after a
/// completion signal the producer owns a buffer.
pub proof fn lemma_completion_frees_a_buffer(m: PipelineModel, data: Seq<u16>)
    requires
        m.wf(),
    ensures
        !m.armed() ==> m.arm().idle_slot() == Some(Slot::Second),
        m.armed() ==> m.complete().idle_slot() is Some,
        m.idle_slot() matches Some(slot) ==> m.hand_off(slot, data).idle_slot() is None
            && m.hand_off(slot, data).complete().idle_slot() == m.streaming,
{
}

} // verus!
