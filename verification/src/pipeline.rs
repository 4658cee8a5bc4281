//! The driver of the pipeline, as a state machine.
//!
//! The driver never blocks and never computes on sample values. It is told
//! what happened (an [`Event`]) and answers with what to do next (an
//! [`Action`]): wait for audio, analyze a frame, deliver a tensor, or stop.
//! Whoever runs it performs the action and reports back. Between two waits
//! for audio the driver hands out every frame that the stream holds so far,
//! and a completed tensor is handed out before the next frame is cut.

use crate::batching::{lemma_batch_assembly, rows, Batcher, Batching};
use crate::config::{Config, ConfigurationError};
use crate::framing::{
    frame_count, joined, lemma_advanced_offset, lemma_frames_of_chunked_stream, FrameBuffer,
    Framing,
};
use vstd::arithmetic::div_mod::lemma_fundamental_div_mod;
use vstd::prelude::*;

verus! {

/// Where the driver stands.
#[derive(Debug, Clone, Copy, PartialEq, Eq, Structural)]
pub enum Phase {
    /// Every extractable frame has been handed out; waiting for audio.
    Idle,
    /// A frame is out for analysis; its feature vector is awaited.
    Draining,
    /// A tensor is out for delivery; the outcome is awaited.
    Emitting,
    /// The pipeline has ended.
    Stopped,
}

/// Why the pipeline ended.
#[derive(Debug, Clone, Copy, PartialEq, Eq, Structural)]
pub enum StopReason {
    /// The audio source closed its end: the normal way to finish.
    InputClosed,
    /// A tensor could not be delivered: the consumer is gone.
    ConsumerGone,
}

/// An event that the driver cannot take.
#[derive(Debug, Clone, Copy, PartialEq, Eq, Structural)]
pub enum Rejection {
    /// The event is not one that the current phase awaits.
    UnexpectedEvent,
    /// The feature vector does not have `n_mels` entries.
    VectorLength,
}

/// What happened outside the driver.
#[derive(Debug)]
pub enum Event<T> {
    /// The source delivered a chunk of samples.
    Chunk(Vec<T>),
    /// The frame handed out last was analyzed into this feature vector.
    Features(Vec<T>),
    /// The tensor handed out last reached the consumer.
    Delivered,
    /// The tensor handed out last could not be delivered.
    SendFailed,
    /// The source closed its end.
    Closed,
}

/// What the driver asks for next.
#[derive(Debug)]
pub enum Action<T> {
    /// Wait for the next chunk, then report `Chunk` or `Closed`.
    AwaitChunk,
    /// Analyze this frame, then report `Features`.
    Analyze(Vec<T>),
    /// Deliver this tensor, then report `Delivered` or `SendFailed`.
    Emit(Vec<Vec<T>>),
    /// Stop: the pipeline has ended.
    Stop(StopReason),
}

/// An event, by the values it carries.
pub enum EventView<T> {
    Chunk(Seq<T>),
    Features(Seq<T>),
    Delivered,
    SendFailed,
    Closed,
}

/// An action, by the values it carries.
pub enum ActionView<T> {
    AwaitChunk,
    Analyze(Seq<T>),
    Emit(Seq<Seq<T>>),
    Stop(StopReason),
}

impl<T> View for Event<T> {
    type V = EventView<T>;

    open spec fn view(&self) -> EventView<T> {
        match *self {
            Event::Chunk(chunk) => EventView::Chunk(chunk@),
            Event::Features(vector) => EventView::Features(vector@),
            Event::Delivered => EventView::Delivered,
            Event::SendFailed => EventView::SendFailed,
            Event::Closed => EventView::Closed,
        }
    }
}

impl<T> View for Action<T> {
    type V = ActionView<T>;

    open spec fn view(&self) -> ActionView<T> {
        match *self {
            Action::AwaitChunk => ActionView::AwaitChunk,
            Action::Analyze(frame) => ActionView::Analyze(frame@),
            Action::Emit(tensor) => ActionView::Emit(rows(tensor)),
            Action::Stop(reason) => ActionView::Stop(reason),
        }
    }
}

/// The mathematical state of the driver.
pub struct PipelineState<T> {
    pub frames: Framing<T>,
    pub batches: Batching<T>,
    pub phase: Phase,
}

impl<T> PipelineState<T> {
    /// The state in which a driver starts: nothing has arrived, and audio is
    /// awaited.
    pub open spec fn initial(
        window_size: nat,
        hop_length: nat,
        n_mels: nat,
        input_time_steps: nat,
    ) -> Self {
        PipelineState {
            frames: Framing::fresh(window_size, hop_length),
            batches: Batching::fresh(n_mels, input_time_steps),
            phase: Phase::Idle,
        }
    }

    /// Both component states are valid, and the driver waits for audio only
    /// when no frame can be cut from what has arrived.
    pub open spec fn valid(self) -> bool {
        &&& self.frames.valid()
        &&& self.batches.valid()
        &&& self.phase == Phase::Idle ==> !self.frames.ready()
    }

    /// Why `event` cannot be taken in this state, or `None` if it can.
    pub open spec fn rejection(self, event: EventView<T>) -> Option<Rejection> {
        match (self.phase, event) {
            (Phase::Idle, EventView::Chunk(_)) => None,
            (Phase::Idle, EventView::Closed) => None,
            (Phase::Draining, EventView::Features(vector)) => if vector.len()
                == self.batches.n_mels {
                None
            } else {
                Some(Rejection::VectorLength)
            },
            (Phase::Emitting, EventView::Delivered) => None,
            (Phase::Emitting, EventView::SendFailed) => None,
            _ => Some(Rejection::UnexpectedEvent),
        }
    }

    /// Goes on draining: cuts the next frame if the stream holds one, and
    /// otherwise falls idle.
    pub open spec fn resumed(self) -> (Self, ActionView<T>) {
        if self.frames.ready() {
            (
                PipelineState { frames: self.frames.advanced(), phase: Phase::Draining, ..self },
                ActionView::Analyze(self.frames.next_frame()),
            )
        } else {
            (PipelineState { phase: Phase::Idle, ..self }, ActionView::AwaitChunk)
        }
    }

    /// The transition function: the state that follows when `event` is taken,
    /// and the action that it calls for.
    pub open spec fn step(self, event: EventView<T>) -> (Self, ActionView<T>) {
        match event {
            EventView::Chunk(chunk) => PipelineState {
                frames: self.frames.extended(chunk),
                ..self
            }.resumed(),
            EventView::Features(vector) => {
                let filled = PipelineState { batches: self.batches.appended(vector), ..self };
                match self.batches.yielded(vector) {
                    Some(tensor) => (
                        PipelineState { phase: Phase::Emitting, ..filled },
                        ActionView::Emit(tensor),
                    ),
                    None => filled.resumed(),
                }
            },
            EventView::Delivered => self.resumed(),
            EventView::SendFailed => (
                PipelineState { phase: Phase::Stopped, ..self },
                ActionView::Stop(StopReason::ConsumerGone),
            ),
            EventView::Closed => (
                PipelineState { phase: Phase::Stopped, ..self },
                ActionView::Stop(StopReason::InputClosed),
            ),
        }
    }
}

/// The pipeline driver: a frame buffer, a batcher, and the phase that says
/// which of them is waiting for what.
pub struct Pipeline<T> {
    frames: FrameBuffer<T>,
    batcher: Batcher<T>,
    phase: Phase,
}

impl<T> View for Pipeline<T> {
    type V = PipelineState<T>;

    closed spec fn view(&self) -> PipelineState<T> {
        PipelineState { frames: self.frames@, batches: self.batcher@, phase: self.phase }
    }
}

impl<T: Copy> Pipeline<T> {
    /// Both components are well formed and the state is valid.
    pub closed spec fn wf(&self) -> bool {
        &&& self.frames.wf()
        &&& self.batcher.wf()
        &&& self@.valid()
    }

    /// A driver for the given configuration, waiting for its first chunk.
    pub fn new(config: &Config) -> (result: Result<Self, ConfigurationError>)
        ensures
            match result {
                Ok(pipeline) => {
                    &&& config.valid()
                    &&& pipeline.wf()
                    &&& pipeline@ == PipelineState::<T>::initial(
                        config.audio.window_size as nat,
                        config.audio.hop_length as nat,
                        config.audio.n_mels as nat,
                        config.model.input_time_steps as nat,
                    )
                },
                Err(e) => Config::violation(config.audio, config.model) == Some(e),
            },
    {
        match config.validate() {
            Ok(()) => {},
            Err(e) => {
                return Err(e);
            },
        }
        let frames = match FrameBuffer::new(
            config.audio.window_size as usize,
            config.audio.hop_length as usize,
        ) {
            Ok(frames) => frames,
            Err(e) => {
                return Err(e);
            },
        };
        let batcher = match Batcher::new(
            config.audio.n_mels as usize,
            config.model.input_time_steps as usize,
        ) {
            Ok(batcher) => batcher,
            Err(e) => {
                return Err(e);
            },
        };
        Ok(Pipeline { frames, batcher, phase: Phase::Idle })
    }

    /// The phase that the driver is in.
    pub fn phase(&self) -> (phase: Phase)
        ensures
            phase == self@.phase,
    {
        self.phase
    }

    /// The frame buffer, for reading.
    pub fn frames(&self) -> (frames: &FrameBuffer<T>)
        requires
            self.wf(),
        ensures
            frames.wf(),
            frames@ == self@.frames,
    {
        &self.frames
    }

    /// The batcher, for reading.
    pub fn batcher(&self) -> (batcher: &Batcher<T>)
        requires
            self.wf(),
        ensures
            batcher.wf(),
            batcher@ == self@.batches,
    {
        &self.batcher
    }

    /// A well-formed driver is in a valid state: in particular it waits for
    /// audio only when no frame can be cut from what has arrived.
    pub proof fn lemma_valid(&self)
        requires
            self.wf(),
        ensures
            self@.valid(),
    {
    }

    fn resume(&mut self) -> (action: Action<T>)
        requires
            old(self).frames.wf(),
            old(self).batcher.wf(),
        ensures
            final(self).wf(),
            final(self)@ == old(self)@.resumed().0,
            action@ == old(self)@.resumed().1,
    {
        proof {
            self.batcher.lemma_valid();
        }
        let action = match self.frames.try_take_frame() {
            Some(frame) => {
                self.phase = Phase::Draining;
                Action::Analyze(frame)
            },
            None => {
                self.phase = Phase::Idle;
                Action::AwaitChunk
            },
        };
        proof {
            self.frames.lemma_valid();
        }
        action
    }

    /// Takes one event and answers with the action that it calls for. An
    /// event that the current phase does not await is rejected and changes
    /// nothing.
    pub fn step(&mut self, event: Event<T>) -> (result: Result<Action<T>, Rejection>)
        requires
            old(self).wf(),
        ensures
            final(self).wf(),
            match result {
                Ok(action) => {
                    &&& old(self)@.rejection(event@) is None
                    &&& final(self)@ == old(self)@.step(event@).0
                    &&& action@ == old(self)@.step(event@).1
                },
                Err(e) => old(self)@.rejection(event@) == Some(e) && final(self)@ == old(self)@,
            },
    {
        match event {
            Event::Chunk(chunk) => {
                match self.phase {
                    Phase::Idle => {},
                    _ => {
                        return Err(Rejection::UnexpectedEvent);
                    },
                }
                self.frames.push(chunk);
                Ok(self.resume())
            },
            Event::Features(vector) => {
                match self.phase {
                    Phase::Draining => {},
                    _ => {
                        return Err(Rejection::UnexpectedEvent);
                    },
                }
                if vector.len() != self.batcher.n_mels() {
                    return Err(Rejection::VectorLength);
                }
                match self.batcher.push(vector) {
                    Some(tensor) => {
                        self.phase = Phase::Emitting;
                        Ok(Action::Emit(tensor))
                    },
                    None => Ok(self.resume()),
                }
            },
            Event::Delivered => {
                match self.phase {
                    Phase::Emitting => {},
                    _ => {
                        return Err(Rejection::UnexpectedEvent);
                    },
                }
                Ok(self.resume())
            },
            Event::SendFailed => {
                match self.phase {
                    Phase::Emitting => {},
                    _ => {
                        return Err(Rejection::UnexpectedEvent);
                    },
                }
                self.phase = Phase::Stopped;
                Ok(Action::Stop(StopReason::ConsumerGone))
            },
            Event::Closed => {
                match self.phase {
                    Phase::Idle => {},
                    _ => {
                        return Err(Rejection::UnexpectedEvent);
                    },
                }
                self.phase = Phase::Stopped;
                Ok(Action::Stop(StopReason::InputClosed))
            },
        }
    }
}

/// Where an action stands in a round of draining: an analysis may be followed
/// by a delivery before the next analysis, and both come before the wait
/// that ends the round.
pub open spec fn rank<T>(action: ActionView<T>) -> nat {
    match action {
        ActionView::Analyze(_) => 2,
        ActionView::Emit(_) => 1,
        _ => 0,
    }
}

impl<T> PipelineState<T> {
    /// The action is the one that the phase of this state waits on.
    pub open spec fn awaits(self, action: ActionView<T>) -> bool {
        match action {
            ActionView::AwaitChunk => self.phase == Phase::Idle,
            ActionView::Analyze(_) => self.phase == Phase::Draining,
            ActionView::Emit(_) => self.phase == Phase::Emitting,
            ActionView::Stop(_) => self.phase == Phase::Stopped,
        }
    }

    /// Performs `action` and every action that follows from it until the
    /// driver waits for audio or stops: each frame is analyzed by `analyze`,
    /// and each tensor is delivered. Gives the state that this ends in and
    /// the tensors delivered, in order.
    pub open spec fn settle(self, action: ActionView<T>, analyze: spec_fn(Seq<T>) -> Seq<T>) -> (
        Self,
        Seq<Seq<Seq<T>>>,
    )
        decreases
                self.frames.stream.len() + self.frames.hop_length - self.frames.consumed(),
                rank(action),
        when self.frames.hop_length >= 1
        via Self::settle_terminates
    {
        match action {
            ActionView::Analyze(frame) => {
                let next = self.step(EventView::Features(analyze(frame)));
                next.0.settle(next.1, analyze)
            },
            ActionView::Emit(tensor) => {
                let next = self.step(EventView::Delivered);
                let rest = next.0.settle(next.1, analyze);
                (rest.0, seq![tensor] + rest.1)
            },
            _ => (self, Seq::empty()),
        }
    }

    #[via_fn]
    proof fn settle_terminates(self, action: ActionView<T>, analyze: spec_fn(Seq<T>) -> Seq<T>) {
        lemma_advanced_offset(self.frames);
    }

    /// Takes in the chunks one by one and settles after each, as the worker
    /// that runs the driver does. Gives the state that this ends in and the
    /// tensors delivered, in order.
    pub open spec fn run(self, chunks: Seq<Seq<T>>, analyze: spec_fn(Seq<T>) -> Seq<T>) -> (
        Self,
        Seq<Seq<Seq<T>>>,
    )
        decreases chunks.len(),
    {
        if chunks.len() == 0 {
            (self, Seq::empty())
        } else {
            let taken = self.step(EventView::Chunk(chunks[0]));
            let first = taken.0.settle(taken.1, analyze);
            let rest = first.0.run(chunks.drop_first(), analyze);
            (rest.0, first.1 + rest.1)
        }
    }
}

/// Whether `event` is a report on `action`.
pub open spec fn answers<T>(action: ActionView<T>, event: EventView<T>) -> bool {
    match (action, event) {
        (ActionView::AwaitChunk, EventView::Chunk(_)) => true,
        (ActionView::AwaitChunk, EventView::Closed) => true,
        (ActionView::Analyze(_), EventView::Features(_)) => true,
        (ActionView::Emit(_), EventView::Delivered) => true,
        (ActionView::Emit(_), EventView::SendFailed) => true,
        _ => false,
    }
}

/// Every event that is taken leaves the state valid, and the action that it
/// calls for is the one that the new phase waits on.
pub proof fn lemma_step_keeps_the_protocol<T>(state: PipelineState<T>, event: EventView<T>)
    requires
        state.valid(),
        state.rejection(event) is None,
    ensures
        state.step(event).0.valid(),
        state.step(event).0.awaits(state.step(event).1),
{
    lemma_advanced_offset(state.frames);
    match event {
        EventView::Chunk(chunk) => {
            lemma_advanced_offset(state.frames.extended(chunk));
        },
        _ => {},
    }
}

/// A report on the action that the driver waits on is never rejected, as
/// long as a feature vector has `n_mels` entries.
pub proof fn lemma_answers_are_taken<T>(
    state: PipelineState<T>,
    action: ActionView<T>,
    event: EventView<T>,
)
    requires
        state.awaits(action),
        answers(action, event),
        event matches EventView::Features(vector) ==> vector.len() == state.batches.n_mels,
    ensures
        state.rejection(event) is None,
{
}

/// A round of draining analyzes every frame that the stream holds and that
/// was not taken before, pushes the feature vectors in order, and delivers
/// the tensors that they complete; it ends with the driver idle.
pub proof fn lemma_settle<T>(
    state: PipelineState<T>,
    action: ActionView<T>,
    analyze: spec_fn(Seq<T>) -> Seq<T>,
)
    requires
        state.frames.hop_length >= 1,
        action is AwaitChunk ==> state.phase == Phase::Idle && !state.frames.ready(),
        !(action is Stop),
    ensures
        ({
            let (drained, frames) = state.frames.drain();
            let vectors = match action {
                ActionView::Analyze(frame) => seq![analyze(frame)] + frames.map_values(analyze),
                _ => frames.map_values(analyze),
            };
            let (filled, tensors) = state.batches.feed(vectors);
            let delivered = match action {
                ActionView::Emit(tensor) => seq![tensor] + tensors,
                _ => tensors,
            };
            state.settle(action, analyze) == (
                PipelineState { frames: drained, batches: filled, phase: Phase::Idle },
                delivered,
            )
        }),
    decreases
            state.frames.stream.len() + state.frames.hop_length - state.frames.consumed(),
            rank(action),
{
    let frames = state.frames;
    lemma_advanced_offset(frames);
    let (drained, taken) = frames.drain();
    let later = taken.map_values(analyze);
    match action {
        ActionView::Analyze(frame) => {
            let vector = analyze(frame);
            let vectors = seq![vector] + later;
            assert(vectors[0] == vector);
            assert(vectors.drop_first() =~= later);
            let (next, then) = state.step(EventView::Features(vector));
            lemma_settle(next, then, analyze);
            lemma_resumed_round(frames, analyze);
        },
        ActionView::Emit(tensor) => {
            let (next, then) = state.step(EventView::Delivered);
            lemma_settle(next, then, analyze);
            lemma_resumed_round(frames, analyze);
        },
        _ => {
            assert(later =~= Seq::<Seq<T>>::empty());
        },
    }
}

/// The vectors of a round that goes on with the next frame are the vector of
/// that frame followed by the vectors of the round after it.
proof fn lemma_resumed_round<T>(frames: Framing<T>, analyze: spec_fn(Seq<T>) -> Seq<T>)
    requires
        frames.hop_length >= 1,
    ensures
        frames.ready() ==> frames.drain().0 == frames.advanced().drain().0
            && frames.drain().1.map_values(analyze) == seq![analyze(frames.next_frame())]
            + frames.advanced().drain().1.map_values(analyze),
        !frames.ready() ==> frames.drain().0 == frames && frames.drain().1.map_values(analyze)
            == Seq::<Seq<T>>::empty(),
{
    if frames.ready() {
        assert(frames.drain().1.map_values(analyze) =~= seq![analyze(frames.next_frame())]
            + frames.advanced().drain().1.map_values(analyze));
    } else {
        assert(frames.drain().1.map_values(analyze) =~= Seq::<Seq<T>>::empty());
    }
}

/// The pipeline is the composition of its parts: the tensors delivered while
/// chunks arrive are the batches of the feature vectors of the frames of the
/// stream, and between chunks the driver is idle with every frame taken.
pub proof fn lemma_run<T>(
    state: PipelineState<T>,
    chunks: Seq<Seq<T>>,
    analyze: spec_fn(Seq<T>) -> Seq<T>,
)
    requires
        state.frames.hop_length >= 1,
        state.phase == Phase::Idle,
        !state.frames.ready(),
    ensures
        ({
            let (fed, frames) = state.frames.feed(chunks);
            let (filled, tensors) = state.batches.feed(frames.map_values(analyze));
            state.run(chunks, analyze) == (
                PipelineState { frames: fed, batches: filled, phase: Phase::Idle },
                tensors,
            )
        }),
    decreases chunks.len(),
{
    if chunks.len() == 0 {
        assert(state.frames.feed(chunks).1.map_values(analyze) =~= Seq::<Seq<T>>::empty());
    } else {
        let arrived = state.frames.extended(chunks[0]);
        let (taken, action) = state.step(EventView::Chunk(chunks[0]));
        lemma_settle(taken, action, analyze);
        lemma_resumed_round(arrived, analyze);
        crate::framing::lemma_drain(arrived);
        let (drained, early) = arrived.drain();
        let (middle, first) = state.batches.feed(early.map_values(analyze));
        let settled = PipelineState { frames: drained, batches: middle, phase: Phase::Idle };
        assert(taken.settle(action, analyze) == (settled, first));
        lemma_run(settled, chunks.drop_first(), analyze);
        let (fed, late) = drained.feed(chunks.drop_first());
        crate::batching::lemma_feed_in_two_parts(
            state.batches,
            early.map_values(analyze),
            late.map_values(analyze),
        );
        assert((early + late).map_values(analyze) =~= early.map_values(analyze)
            + late.map_values(analyze));
    }
}

/// End to end: whatever the chunking, the pipeline delivers one tensor for
/// every `input_time_steps` frames of the stream; row `i` of tensor `j` is
/// the feature vector of frame `j * input_time_steps + i`; and the vectors of
/// the frames beyond the last whole tensor are retained.
pub proof fn lemma_pipeline_output<T>(
    window_size: nat,
    hop_length: nat,
    n_mels: nat,
    input_time_steps: nat,
    chunks: Seq<Seq<T>>,
    analyze: spec_fn(Seq<T>) -> Seq<T>,
)
    requires
        window_size >= 1,
        hop_length >= 1,
        input_time_steps >= 1,
    ensures
        ({
            let stream = joined(chunks);
            let count = frame_count(stream.len(), window_size, hop_length);
            let (end, tensors) = PipelineState::<T>::initial(
                window_size,
                hop_length,
                n_mels,
                input_time_steps,
            ).run(chunks, analyze);
            &&& end.phase == Phase::Idle
            &&& end.frames.stream == stream
            &&& end.frames.taken == count
            &&& end.batches.pushed.len() == count
            &&& tensors.len() == count / input_time_steps
            &&& forall|j: int|
                0 <= j < tensors.len() ==> (#[trigger] tensors[j]).len() == input_time_steps
            &&& forall|j: int, i: int|
                0 <= j < tensors.len() && 0 <= i < input_time_steps ==> {
                    let k = j * input_time_steps + i;
                    #[trigger] tensors[j][i] == analyze(
                        stream.subrange(k * hop_length, k * hop_length + window_size),
                    )
                }
            &&& end.batches.retained().len() == count % input_time_steps
        }),
{
    let start = PipelineState::<T>::initial(window_size, hop_length, n_mels, input_time_steps);
    let stream = joined(chunks);
    let count = frame_count(stream.len(), window_size, hop_length);
    assert(0 * hop_length == 0) by (nonlinear_arith);
    lemma_run(start, chunks, analyze);
    lemma_frames_of_chunked_stream(window_size, hop_length, chunks);
    let (fed, frames) = start.frames.feed(chunks);
    let vectors = frames.map_values(analyze);
    let whole = (count as int / input_time_steps as int) as nat;
    let rest = (count as int % input_time_steps as int) as nat;
    lemma_fundamental_div_mod(count as int, input_time_steps as int);
    assert(count == whole * input_time_steps + rest) by (nonlinear_arith)
        requires
            count == input_time_steps * whole + rest,
    ;
    lemma_batch_assembly(n_mels, input_time_steps, vectors, whole, rest);
    let (end, tensors) = start.run(chunks, analyze);
    assert forall|j: int| 0 <= j < tensors.len() implies (#[trigger] tensors[j]).len()
        == input_time_steps by {
        assert(0 <= j * input_time_steps && j * input_time_steps + input_time_steps <= count)
            by (nonlinear_arith)
            requires
                0 <= j < whole,
                input_time_steps >= 1,
                count == whole * input_time_steps + rest,
                rest >= 0,
        ;
    }
    assert forall|j: int, i: int| 0 <= j < tensors.len() && 0 <= i < input_time_steps implies {
        let k = j * input_time_steps + i;
        #[trigger] tensors[j][i] == analyze(
            stream.subrange(k * hop_length, k * hop_length + window_size),
        )
    } by {
        let k = j * input_time_steps + i;
        assert(0 <= k < count) by (nonlinear_arith)
            requires
                0 <= j < whole,
                0 <= i < input_time_steps,
                k == j * input_time_steps + i,
                count == whole * input_time_steps + rest,
                rest >= 0,
        ;
        assert(0 <= j * input_time_steps && j * input_time_steps + input_time_steps <= count)
            by (nonlinear_arith)
            requires
                0 <= j < whole,
                input_time_steps >= 1,
                count == whole * input_time_steps + rest,
                rest >= 0,
        ;
        assert(tensors[j] == vectors.subrange(
            j * input_time_steps,
            j * input_time_steps + input_time_steps,
        ));
        assert(tensors[j][i] == vectors[k]);
        assert(vectors[k] == analyze(frames[k]));
    }
}

} // verus!
