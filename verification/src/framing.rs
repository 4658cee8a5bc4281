//! Overlapping fixed-length frames cut from a stream that arrives in chunks.
//!
//! Frame `k` of a stream is the `window_size` samples that start at offset
//! `k * hop_length`. A [`FrameBuffer`] hands the frames out in order as soon
//! as the samples they cover have arrived, and keeps only the part of the
//! stream that a later frame can still reach.

use crate::config::ConfigurationError;
use vstd::arithmetic::div_mod::{
    lemma_div_is_ordered, lemma_div_pos_is_pos, lemma_fundamental_div_mod,
};
use vstd::prelude::*;

verus! {

/// How many whole frames a stream of `len` samples holds.
pub open spec fn frame_count(len: nat, window_size: nat, hop_length: nat) -> nat {
    if len >= window_size && hop_length > 0 {
        (1 + (len - window_size) / (hop_length as int)) as nat
    } else {
        0
    }
}

/// The mathematical state of a frame buffer: everything that was ever pushed,
/// and how many frames have been taken from it.
pub struct Framing<T> {
    /// All samples pushed so far, oldest first.
    pub stream: Seq<T>,
    /// Number of frames handed out so far.
    pub taken: nat,
    pub window_size: nat,
    pub hop_length: nat,
}

impl<T> Framing<T> {
    /// The state before any sample has arrived.
    pub open spec fn fresh(window_size: nat, hop_length: nat) -> Self {
        Framing { stream: Seq::empty(), taken: 0, window_size, hop_length }
    }

    /// The parameters are usable and every frame taken so far lay within the
    /// stream.
    pub open spec fn valid(self) -> bool {
        &&& self.window_size >= 2
        &&& self.hop_length >= 1
        &&& self.taken > 0 ==> (self.taken - 1) * self.hop_length + self.window_size
            <= self.stream.len()
    }

    /// Offset in the stream at which the next frame starts.
    pub open spec fn consumed(self) -> nat {
        self.taken * self.hop_length
    }

    /// Whether the samples of the next frame have all arrived.
    pub open spec fn ready(self) -> bool {
        self.consumed() + self.window_size <= self.stream.len()
    }

    /// Frame number `k` of the stream.
    pub open spec fn frame(self, k: nat) -> Seq<T> {
        self.stream.subrange(
            (k * self.hop_length) as int,
            (k * self.hop_length + self.window_size) as int,
        )
    }

    /// The frame that would be handed out next.
    pub open spec fn next_frame(self) -> Seq<T> {
        self.frame(self.taken)
    }

    /// The state after `chunk` has been appended to the stream.
    pub open spec fn extended(self, chunk: Seq<T>) -> Self {
        Framing { stream: self.stream + chunk, ..self }
    }

    /// The state after one more frame has been handed out.
    pub open spec fn advanced(self) -> Self {
        Framing { taken: self.taken + 1, ..self }
    }

    /// The samples that have arrived and that a later frame may still cover.
    pub open spec fn pending(self) -> Seq<T> {
        if self.consumed() <= self.stream.len() {
            self.stream.subrange(self.consumed() as int, self.stream.len() as int)
        } else {
            Seq::empty()
        }
    }

    /// The samples beyond the end of the stream that were already skipped over
    /// and must be discarded when they arrive. Non-zero only when frames are
    /// further apart than they are long.
    pub open spec fn debt(self) -> nat {
        if self.consumed() <= self.stream.len() {
            0
        } else {
            (self.consumed() - self.stream.len()) as nat
        }
    }
}

/// Accumulates audio chunks and yields the overlapping frames of the stream
/// that they form.
pub struct FrameBuffer<T> {
    samples: Vec<T>,
    skip: usize,
    window_size: usize,
    hop_length: usize,
    stream: Ghost<Seq<T>>,
    taken: Ghost<nat>,
}

impl<T> View for FrameBuffer<T> {
    type V = Framing<T>;

    closed spec fn view(&self) -> Framing<T> {
        Framing {
            stream: self.stream@,
            taken: self.taken@,
            window_size: self.window_size as nat,
            hop_length: self.hop_length as nat,
        }
    }
}

impl<T: Copy> FrameBuffer<T> {
    /// The buffer holds exactly the pending part of its stream, and remembers
    /// how many samples it still has to discard.
    pub closed spec fn wf(&self) -> bool {
        &&& self@.valid()
        &&& self.samples@ == self@.pending()
        &&& self.skip == self@.debt()
    }

    /// An empty buffer for frames of `window_size` samples, `hop_length`
    /// samples apart.
    pub fn new(window_size: usize, hop_length: usize) -> (result: Result<
        Self,
        ConfigurationError,
    >)
        ensures
            match result {
                Ok(buffer) => {
                    &&& window_size >= 2
                    &&& hop_length >= 1
                    &&& buffer.wf()
                    &&& buffer@ == Framing::<T>::fresh(window_size as nat, hop_length as nat)
                },
                Err(e) => if window_size < 2 {
                    e == ConfigurationError::WindowSize
                } else {
                    hop_length == 0 && e == ConfigurationError::HopLength
                },
            },
    {
        if window_size < 2 {
            return Err(ConfigurationError::WindowSize);
        }
        if hop_length == 0 {
            return Err(ConfigurationError::HopLength);
        }
        let buffer = FrameBuffer {
            samples: Vec::new(),
            skip: 0,
            window_size,
            hop_length,
            stream: Ghost(Seq::empty()),
            taken: Ghost(0),
        };
        assert(buffer@.pending() =~= Seq::<T>::empty());
        Ok(buffer)
    }

    /// Samples per frame.
    pub fn window_size(&self) -> (n: usize)
        ensures
            n == self@.window_size,
    {
        self.window_size
    }

    /// Samples between the starts of consecutive frames.
    pub fn hop_length(&self) -> (n: usize)
        ensures
            n == self@.hop_length,
    {
        self.hop_length
    }

    /// Number of samples held for frames yet to come.
    pub fn len(&self) -> (n: usize)
        requires
            self.wf(),
        ensures
            n == self@.pending().len(),
    {
        self.samples.len()
    }

    /// A well-formed buffer is in a valid state.
    pub proof fn lemma_valid(&self)
        requires
            self.wf(),
        ensures
            self@.valid(),
    {
    }

    /// Appends `chunk` to the stream.
    pub fn push(&mut self, chunk: Vec<T>)
        requires
            old(self).wf(),
        ensures
            final(self).wf(),
            final(self)@ == old(self)@.extended(chunk@),
    {
        let ghost before = self@;
        let mut chunk = chunk;
        let n: usize = chunk.len();
        self.stream = Ghost(before.stream + chunk@);
        if self.skip >= n {
            self.skip = self.skip - n;
            assert(self.samples@ =~= self@.pending());
        } else if self.skip > 0 {
            let mut tail = chunk.split_off(self.skip);
            self.samples.append(&mut tail);
            self.skip = 0;
            assert(self.samples@ =~= self@.pending());
        } else {
            self.samples.append(&mut chunk);
            assert(self.samples@ =~= self@.pending());
        }
    }

    /// Hands out the next frame if its samples have all arrived, and moves the
    /// start of the following frame `hop_length` samples on.
    pub fn try_take_frame(&mut self) -> (frame: Option<Vec<T>>)
        requires
            old(self).wf(),
        ensures
            final(self).wf(),
            match frame {
                Some(samples) => {
                    &&& old(self)@.ready()
                    &&& samples@ == old(self)@.next_frame()
                    &&& final(self)@ == old(self)@.advanced()
                },
                None => !old(self)@.ready() && final(self)@ == old(self)@,
            },
    {
        let ghost before = self@;
        if self.skip > 0 || self.samples.len() < self.window_size {
            return None;
        }
        let mut frame: Vec<T> = Vec::with_capacity(self.window_size);
        let mut i: usize = 0;
        while i < self.window_size
            invariant
                i <= self.window_size <= self.samples.len(),
                frame@ == self.samples@.subrange(0, i as int),
            decreases self.window_size - i,
        {
            frame.push(self.samples[i]);
            i = i + 1;
        }
        assert(frame@ =~= before.next_frame());
        proof {
            lemma_advanced_offset(before);
        }
        self.taken = Ghost(before.taken + 1);
        if self.hop_length <= self.samples.len() {
            let rest = self.samples.split_off(self.hop_length);
            self.samples = rest;
            assert(self.samples@ =~= self@.pending());
        } else {
            self.skip = self.hop_length - self.samples.len();
            self.samples.clear();
            assert(self.samples@ =~= self@.pending());
        }
        Some(frame)
    }
}

/// Handing out a frame moves the start of the next one `hop_length` samples
/// on.
pub proof fn lemma_advanced_offset<T>(state: Framing<T>)
    ensures
        state.advanced().consumed() == state.consumed() + state.hop_length,
{
    assert((state.taken + 1) * state.hop_length == state.taken * state.hop_length
        + state.hop_length) by (nonlinear_arith);
}

/// The samples of all the chunks, in order of arrival.
pub open spec fn joined<T>(chunks: Seq<Seq<T>>) -> Seq<T>
    decreases chunks.len(),
{
    if chunks.len() == 0 {
        Seq::empty()
    } else {
        chunks[0] + joined(chunks.drop_first())
    }
}

impl<T> Framing<T> {
    /// Takes frames for as long as one is ready. Gives the state that this
    /// ends in and the frames taken, in order.
    pub open spec fn drain(self) -> (Self, Seq<Seq<T>>)
        decreases self.stream.len() + self.hop_length - self.consumed(),
    {
        if self.hop_length >= 1 && self.ready() {
            proof {
                lemma_advanced_offset(self);
            }
            let rest = self.advanced().drain();
            (rest.0, seq![self.next_frame()] + rest.1)
        } else {
            (self, Seq::empty())
        }
    }

    /// Takes in the chunks one by one and drains after each, as the pipeline
    /// driver does. Gives the state that this ends in and the frames taken,
    /// in order.
    pub open spec fn feed(self, chunks: Seq<Seq<T>>) -> (Self, Seq<Seq<T>>)
        decreases chunks.len(),
    {
        if chunks.len() == 0 {
            (self, Seq::empty())
        } else {
            let first = self.extended(chunks[0]).drain();
            let rest = first.0.feed(chunks.drop_first());
            (rest.0, first.1 + rest.1)
        }
    }
}

/// A frame is ready exactly while fewer frames were taken than the stream
/// holds.
pub proof fn lemma_ready_iff_frames_left<T>(state: Framing<T>)
    requires
        state.hop_length >= 1,
    ensures
        state.ready() <==> state.taken < frame_count(
            state.stream.len(),
            state.window_size,
            state.hop_length,
        ),
{
    let len = state.stream.len() as int;
    let window = state.window_size as int;
    let hop = state.hop_length as int;
    let taken = state.taken as int;
    if len >= window {
        let room = len - window;
        let q = room / hop;
        lemma_fundamental_div_mod(room, hop);
        if taken <= q {
            assert(taken * hop <= room) by (nonlinear_arith)
                requires
                    0 <= taken <= q,
                    hop >= 1,
                    room == hop * q + room % hop,
                    0 <= room % hop,
            ;
        } else {
            assert(taken * hop > room) by (nonlinear_arith)
                requires
                    taken >= q + 1,
                    hop >= 1,
                    room == hop * q + room % hop,
                    room % hop < hop,
            ;
        }
    } else {
        assert(taken * hop >= 0) by (nonlinear_arith)
            requires
                taken >= 0,
                hop >= 1,
        ;
    }
}

/// Draining takes every frame that the stream holds and that was not taken
/// before, in order, and leaves none ready.
pub proof fn lemma_drain<T>(state: Framing<T>)
    requires
        state.hop_length >= 1,
    ensures
        ({
            let total = frame_count(state.stream.len(), state.window_size, state.hop_length);
            let (end, frames) = state.drain();
            &&& end == Framing {
                taken: if state.taken <= total {
                    total
                } else {
                    state.taken
                },
                ..state
            }
            &&& !end.ready()
            &&& frames.len() == end.taken - state.taken
            &&& forall|i: int|
                0 <= i < frames.len() ==> #[trigger] frames[i] == state.frame(
                    (state.taken + i) as nat,
                )
        }),
    decreases state.stream.len() + state.hop_length - state.consumed(),
{
    lemma_ready_iff_frames_left(state);
    if state.ready() {
        let next = state.advanced();
        lemma_advanced_offset(state);
        lemma_drain(next);
        let rest = next.drain();
        let frames = state.drain().1;
        assert(frames == seq![state.next_frame()] + rest.1);
        assert forall|i: int| 0 <= i < frames.len() implies #[trigger] frames[i] == state.frame(
            (state.taken + i) as nat,
        ) by {
            if i > 0 {
                assert(frames[i] == rest.1[i - 1]);
                assert(next.frame((next.taken + (i - 1)) as nat) == state.frame(
                    (state.taken + i) as nat,
                ));
            }
        }
    }
}

/// Once no frame is ready, less than one window of samples is held back: the
/// buffer never grows beyond what the next frame still needs.
pub proof fn lemma_drained_buffer_is_short<T>(state: Framing<T>)
    requires
        state.window_size >= 1,
        !state.ready(),
    ensures
        state.pending().len() < state.window_size,
{
}

/// Frame `k` of a stream is still frame `k` after more samples arrive.
pub proof fn lemma_frame_is_stable<T>(state: Framing<T>, more: Seq<T>, k: nat)
    requires
        k * state.hop_length + state.window_size <= state.stream.len(),
    ensures
        state.extended(more).frame(k) == state.frame(k),
{
    assert(k * state.hop_length >= 0) by (nonlinear_arith);
    assert(state.extended(more).frame(k) =~= state.frame(k));
}

/// Feeding chunks to a drained buffer, draining after each, takes exactly the
/// frames that the longer stream holds beyond those taken before.
pub proof fn lemma_feed<T>(state: Framing<T>, chunks: Seq<Seq<T>>)
    requires
        state.hop_length >= 1,
        state.taken == frame_count(state.stream.len(), state.window_size, state.hop_length),
    ensures
        ({
            let (end, frames) = state.feed(chunks);
            &&& end == Framing {
                stream: state.stream + joined(chunks),
                taken: frame_count(end.stream.len(), state.window_size, state.hop_length),
                ..state
            }
            &&& frames.len() == end.taken - state.taken
            &&& forall|i: int|
                0 <= i < frames.len() ==> #[trigger] frames[i] == end.frame(
                    (state.taken + i) as nat,
                )
        }),
    decreases chunks.len(),
{
    if chunks.len() == 0 {
        assert(state.stream + joined(chunks) =~= state.stream);
    } else {
        let fed = state.extended(chunks[0]);
        let rest_chunks = chunks.drop_first();
        lemma_frame_count_grows(
            state.stream.len(),
            fed.stream.len(),
            state.window_size,
            state.hop_length,
        );
        lemma_drain(fed);
        let (mid, first) = fed.drain();
        lemma_feed(mid, rest_chunks);
        let (end, later) = mid.feed(rest_chunks);
        let frames = state.feed(chunks).1;
        assert(frames == first + later);
        assert(end.stream =~= state.stream + joined(chunks));
        assert(end.stream == mid.stream + joined(rest_chunks));
        assert forall|i: int| 0 <= i < frames.len() implies #[trigger] frames[i] == end.frame(
            (state.taken + i) as nat,
        ) by {
            if i < first.len() {
                let k = (state.taken + i) as nat;
                let before = Framing { taken: k, ..mid };
                lemma_ready_iff_frames_left(before);
                lemma_frame_is_stable(mid, joined(rest_chunks), k);
                assert(mid.extended(joined(rest_chunks)).frame(k) == end.frame(k));
                assert(fed.frame(k) == mid.frame(k));
            } else {
                assert(frames[i] == later[i - first.len()]);
            }
        }
    }
}

/// A longer stream holds at least as many frames.
pub proof fn lemma_frame_count_grows(shorter: nat, longer: nat, window_size: nat, hop_length: nat)
    requires
        shorter <= longer,
        hop_length >= 1,
    ensures
        frame_count(shorter, window_size, hop_length) <= frame_count(
            longer,
            window_size,
            hop_length,
        ),
{
    if shorter >= window_size {
        lemma_div_is_ordered(
            shorter - window_size,
            longer - window_size,
            hop_length as int,
        );
    } else if longer >= window_size {
        lemma_div_pos_is_pos(longer - window_size, hop_length as int);
    }
}

/// The frames taken from a chunked stream are the frames of the stream as a
/// whole: feeding the chunks in order to an empty buffer, and draining after
/// each, takes `frame_count` frames, and frame `k` is the `window_size`
/// samples of the whole stream that start at `k * hop_length`.
pub proof fn lemma_frames_of_chunked_stream<T>(
    window_size: nat,
    hop_length: nat,
    chunks: Seq<Seq<T>>,
)
    requires
        window_size >= 1,
        hop_length >= 1,
    ensures
        ({
            let stream = joined(chunks);
            let (end, frames) = Framing::<T>::fresh(window_size, hop_length).feed(chunks);
            &&& end.stream == stream
            &&& end.taken == frames.len()
            &&& frames.len() == if stream.len() >= window_size {
                1 + (stream.len() - window_size) / (hop_length as int)
            } else {
                0
            }
            &&& forall|k: int|
                0 <= k < frames.len() ==> #[trigger] frames[k] == stream.subrange(
                    k * hop_length,
                    k * hop_length + window_size,
                )
        }),
{
    let start = Framing::<T>::fresh(window_size, hop_length);
    lemma_feed(start, chunks);
    let (end, frames) = start.feed(chunks);
    assert(end.stream =~= joined(chunks));
    assert forall|k: int| 0 <= k < frames.len() implies #[trigger] frames[k] == joined(
        chunks,
    ).subrange(k * hop_length, k * hop_length + window_size) by {
        assert(frames[k] == end.frame(k as nat));
    }
}

/// Only the stream matters, not where it was cut: two ways of chunking the
/// same samples give the same frames and leave the buffer in the same state.
pub proof fn lemma_chunking_is_irrelevant<T>(
    window_size: nat,
    hop_length: nat,
    one: Seq<Seq<T>>,
    other: Seq<Seq<T>>,
)
    requires
        window_size >= 1,
        hop_length >= 1,
        joined(one) == joined(other),
    ensures
        Framing::<T>::fresh(window_size, hop_length).feed(one) == Framing::<T>::fresh(
            window_size,
            hop_length,
        ).feed(other),
{
    let start = Framing::<T>::fresh(window_size, hop_length);
    lemma_feed(start, one);
    lemma_feed(start, other);
    assert(start.feed(one).1 =~= start.feed(other).1);
}

} // verus!
