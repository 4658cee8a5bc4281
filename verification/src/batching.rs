//! Grouping of consecutive feature vectors into fixed-height tensors.
//!
//! Batch `j` of a run of vectors is the `input_time_steps` vectors that start
//! at position `j * input_time_steps`; batches never overlap. A [`Batcher`]
//! hands each batch out the moment its last vector arrives.

use crate::config::ConfigurationError;
use vstd::arithmetic::div_mod::{lemma_fundamental_div_mod, lemma_fundamental_div_mod_converse};
use vstd::prelude::*;

verus! {

/// The rows of a tensor, oldest first, each as a sequence of values.
pub open spec fn rows<T>(tensor: Vec<Vec<T>>) -> Seq<Seq<T>> {
    Seq::new(tensor.len() as nat, |i: int| tensor[i]@)
}

/// The mathematical state of a batcher: every vector that was ever pushed.
pub struct Batching<T> {
    /// All vectors pushed so far, oldest first.
    pub pushed: Seq<Seq<T>>,
    /// Length of every vector.
    pub n_mels: nat,
    /// Number of vectors per batch.
    pub input_time_steps: nat,
}

impl<T> Batching<T> {
    /// The state before any vector has arrived.
    pub open spec fn fresh(n_mels: nat, input_time_steps: nat) -> Self {
        Batching { pushed: Seq::empty(), n_mels, input_time_steps }
    }

    /// The parameters are usable and every vector has `n_mels` entries.
    pub open spec fn valid(self) -> bool {
        &&& self.n_mels >= 1
        &&& self.input_time_steps >= 1
        &&& forall|i: int| 0 <= i < self.pushed.len() ==> #[trigger] self.pushed[i].len() == self.n_mels
    }

    /// Number of batches completed so far.
    pub open spec fn emitted(self) -> nat {
        self.pushed.len() / self.input_time_steps
    }

    /// Batch number `j`: its rows are the vectors in the order they arrived.
    pub open spec fn batch(self, j: nat) -> Seq<Seq<T>> {
        self.pushed.subrange(
            (j * self.input_time_steps) as int,
            (j * self.input_time_steps + self.input_time_steps) as int,
        )
    }

    /// The vectors that have arrived since the last complete batch.
    pub open spec fn retained(self) -> Seq<Seq<T>> {
        self.pushed.subrange(
            (self.emitted() * self.input_time_steps) as int,
            self.pushed.len() as int,
        )
    }

    /// The state after `vector` has arrived.
    pub open spec fn appended(self, vector: Seq<T>) -> Self {
        Batching { pushed: self.pushed.push(vector), ..self }
    }

    /// What the arrival of `vector` yields: the batch that it completes, if it
    /// completes one.
    pub open spec fn yielded(self, vector: Seq<T>) -> Option<Seq<Seq<T>>> {
        let next = self.appended(vector);
        if next.pushed.len() % self.input_time_steps == 0 {
            Some(next.batch((next.emitted() - 1) as nat))
        } else {
            None
        }
    }
}

/// Collects feature vectors and emits a tensor of `input_time_steps` rows
/// each time that many have arrived.
pub struct Batcher<T> {
    pending: Vec<Vec<T>>,
    n_mels: usize,
    input_time_steps: usize,
    pushed: Ghost<Seq<Seq<T>>>,
}

impl<T> View for Batcher<T> {
    type V = Batching<T>;

    closed spec fn view(&self) -> Batching<T> {
        Batching {
            pushed: self.pushed@,
            n_mels: self.n_mels as nat,
            input_time_steps: self.input_time_steps as nat,
        }
    }
}

impl<T> Batcher<T> {
    /// The batcher holds exactly the vectors that no batch has taken yet.
    pub closed spec fn wf(&self) -> bool {
        &&& self@.valid()
        &&& rows(self.pending) == self@.retained()
    }

    /// An empty batcher for vectors of `n_mels` entries, `input_time_steps`
    /// of them per tensor.
    pub fn new(n_mels: usize, input_time_steps: usize) -> (result: Result<Self, ConfigurationError>)
        ensures
            match result {
                Ok(batcher) => {
                    &&& n_mels >= 1
                    &&& input_time_steps >= 1
                    &&& batcher.wf()
                    &&& batcher@ == Batching::<T>::fresh(n_mels as nat, input_time_steps as nat)
                },
                Err(e) => if n_mels == 0 {
                    e == ConfigurationError::MelBands
                } else {
                    input_time_steps == 0 && e == ConfigurationError::TimeSteps
                },
            },
    {
        if n_mels == 0 {
            return Err(ConfigurationError::MelBands);
        }
        if input_time_steps == 0 {
            return Err(ConfigurationError::TimeSteps);
        }
        let batcher = Batcher {
            pending: Vec::new(),
            n_mels,
            input_time_steps,
            pushed: Ghost(Seq::empty()),
        };
        assert(rows(batcher.pending) =~= batcher@.retained());
        Ok(batcher)
    }

    /// Length that every vector must have.
    pub fn n_mels(&self) -> (n: usize)
        ensures
            n == self@.n_mels,
    {
        self.n_mels
    }

    /// Number of vectors per tensor.
    pub fn input_time_steps(&self) -> (n: usize)
        ensures
            n == self@.input_time_steps,
    {
        self.input_time_steps
    }

    /// Number of vectors held back for the tensor that is filling.
    pub fn retained(&self) -> (n: usize)
        requires
            self.wf(),
        ensures
            n == self@.retained().len(),
    {
        self.pending.len()
    }

    /// A well-formed batcher is in a valid state.
    pub proof fn lemma_valid(&self)
        requires
            self.wf(),
        ensures
            self@.valid(),
    {
    }

    /// Takes in the next vector. Returns the tensor that it completes, rows in
    /// order of arrival, or `None` while the tensor is still filling.
    pub fn push(&mut self, mel_vector: Vec<T>) -> (batch: Option<Vec<Vec<T>>>)
        requires
            old(self).wf(),
            mel_vector.len() == old(self)@.n_mels,
        ensures
            final(self).wf(),
            final(self)@ == old(self)@.appended(mel_vector@),
            match batch {
                Some(tensor) => old(self)@.yielded(mel_vector@) == Some(rows(tensor)),
                None => old(self)@.yielded(mel_vector@) is None,
            },
    {
        let ghost before = self@;
        let ghost held = rows(self.pending);
        proof {
            let steps = before.input_time_steps as int;
            let done = before.pushed.len() as int / steps;
            lemma_count_after_push(before.pushed.len() as int, steps);
            assert((done + 1) * steps == done * steps + steps) by (nonlinear_arith);
        }
        self.pushed = Ghost(before.pushed.push(mel_vector@));
        self.pending.push(mel_vector);
        assert(rows(self.pending) =~= held.push(mel_vector@));
        if self.pending.len() >= self.input_time_steps {
            let mut tensor: Vec<Vec<T>> = Vec::new();
            std::mem::swap(&mut tensor, &mut self.pending);
            assert(rows(self.pending) =~= self@.retained());
            assert(rows(tensor) =~= self@.batch((self@.emitted() - 1) as nat));
            Some(tensor)
        } else {
            assert(rows(self.pending) =~= self@.retained());
            None
        }
    }
}

impl<T> Batching<T> {
    /// Takes in the vectors one by one. Gives the state that this ends in
    /// and the batches yielded on the way, in order.
    pub open spec fn feed(self, vectors: Seq<Seq<T>>) -> (Self, Seq<Seq<Seq<T>>>)
        decreases vectors.len(),
    {
        if vectors.len() == 0 {
            (self, Seq::empty())
        } else {
            let rest = self.appended(vectors[0]).feed(vectors.drop_first());
            match self.yielded(vectors[0]) {
                Some(batch) => (rest.0, seq![batch] + rest.1),
                None => rest,
            }
        }
    }
}

/// One more vector either completes a batch, and the count of batches goes
/// up by one, or it does not, and the count stays.
pub proof fn lemma_count_after_push(len: int, steps: int)
    requires
        len >= 0,
        steps >= 1,
    ensures
        (len + 1) / steps == len / steps + if (len + 1) % steps == 0 {
            1int
        } else {
            0int
        },
        (len + 1) % steps == 0 <==> len % steps + 1 == steps,
        (len / steps) * steps + len % steps == len,
        0 <= len % steps < steps,
{
    lemma_fundamental_div_mod(len, steps);
    assert((len / steps) * steps == steps * (len / steps)) by (nonlinear_arith);
    if len % steps + 1 == steps {
        assert(len + 1 == (len / steps + 1) * steps + 0) by (nonlinear_arith)
            requires
                len == steps * (len / steps) + (len % steps),
                len % steps + 1 == steps,
        ;
        lemma_fundamental_div_mod_converse(len + 1, steps, len / steps + 1, 0);
    } else {
        assert(len + 1 == (len / steps) * steps + (len % steps + 1)) by (nonlinear_arith)
            requires
                len == steps * (len / steps) + (len % steps),
        ;
        lemma_fundamental_div_mod_converse(len + 1, steps, len / steps, len % steps + 1);
    }
}

/// Batch `j` of a run of vectors is still batch `j` after more vectors
/// arrive.
pub proof fn lemma_batch_is_stable<T>(state: Batching<T>, more: Seq<Seq<T>>, j: nat)
    requires
        j * state.input_time_steps + state.input_time_steps <= state.pushed.len(),
    ensures
        (Batching { pushed: state.pushed + more, ..state }).batch(j) == state.batch(j),
{
    assert(j * state.input_time_steps >= 0) by (nonlinear_arith);
    assert((Batching { pushed: state.pushed + more, ..state }).batch(j) =~= state.batch(j));
}

/// Taking in a run of vectors yields exactly the batches that it completes.
pub proof fn lemma_feed<T>(state: Batching<T>, vectors: Seq<Seq<T>>)
    requires
        state.input_time_steps >= 1,
    ensures
        ({
            let (end, batches) = state.feed(vectors);
            &&& end == Batching { pushed: state.pushed + vectors, ..state }
            &&& batches.len() == end.emitted() - state.emitted()
            &&& forall|i: int|
                0 <= i < batches.len() ==> #[trigger] batches[i] == end.batch(
                    (state.emitted() + i) as nat,
                )
        }),
    decreases vectors.len(),
{
    if vectors.len() == 0 {
        assert(state.pushed + vectors =~= state.pushed);
    } else {
        let next = state.appended(vectors[0]);
        let later = vectors.drop_first();
        lemma_count_after_push(state.pushed.len() as int, state.input_time_steps as int);
        lemma_feed(next, later);
        let (end, rest) = next.feed(later);
        let batches = state.feed(vectors).1;
        assert(next.pushed + later =~= state.pushed + vectors);
        match state.yielded(vectors[0]) {
            Some(batch) => {
                assert(batches == seq![batch] + rest);
                assert forall|i: int| 0 <= i < batches.len() implies #[trigger] batches[i]
                    == end.batch((state.emitted() + i) as nat) by {
                    if i == 0 {
                        let steps = state.input_time_steps as int;
                        let done = state.emitted() as int;
                        assert(done * steps + steps == next.pushed.len()) by (nonlinear_arith)
                            requires
                                next.pushed.len() == state.pushed.len() + 1,
                                done * steps + (state.pushed.len() as int) % steps
                                    == state.pushed.len(),
                                (state.pushed.len() as int) % steps + 1 == steps,
                        ;
                        lemma_batch_is_stable(next, later, state.emitted());
                    } else {
                        assert(batches[i] == rest[i - 1]);
                    }
                }
            },
            None => {},
        }
    }
}

/// Taking in one run of vectors and then another is taking in the two runs
/// joined.
pub proof fn lemma_feed_in_two_parts<T>(
    state: Batching<T>,
    first: Seq<Seq<T>>,
    second: Seq<Seq<T>>,
)
    ensures
        ({
            let (middle, early) = state.feed(first);
            let (end, late) = middle.feed(second);
            state.feed(first + second) == (end, early + late)
        }),
    decreases first.len(),
{
    if first.len() == 0 {
        assert(first + second =~= second);
        assert(Seq::<Seq<Seq<T>>>::empty() + state.feed(second).1 =~= state.feed(second).1);
    } else {
        let next = state.appended(first[0]);
        lemma_feed_in_two_parts(next, first.drop_first(), second);
        assert((first + second).drop_first() =~= first.drop_first() + second);
        assert((first + second)[0] == first[0]);
        let (middle, early) = next.feed(first.drop_first());
        let (end, late) = middle.feed(second);
        match state.yielded(first[0]) {
            Some(batch) => {
                assert(seq![batch] + (early + late) =~= (seq![batch] + early) + late);
            },
            None => {},
        }
    }
}

/// Batch assembly: of `k * input_time_steps + r` vectors pushed into an
/// empty batcher, with `r` below `input_time_steps`, the first
/// `k * input_time_steps` leave as `k` batches, each holding its vectors in
/// the order they were pushed, and the last `r` are retained.
pub proof fn lemma_batch_assembly<T>(
    n_mels: nat,
    input_time_steps: nat,
    vectors: Seq<Seq<T>>,
    k: nat,
    r: nat,
)
    requires
        input_time_steps >= 1,
        r < input_time_steps,
        vectors.len() == k * input_time_steps + r,
    ensures
        ({
            let (end, batches) = Batching::<T>::fresh(n_mels, input_time_steps).feed(vectors);
            &&& end.pushed == vectors
            &&& batches.len() == k
            &&& forall|j: int|
                0 <= j < k ==> #[trigger] batches[j] == vectors.subrange(
                    j * input_time_steps,
                    j * input_time_steps + input_time_steps,
                )
            &&& end.retained() == vectors.subrange(
                (k * input_time_steps) as int,
                vectors.len() as int,
            )
            &&& end.retained().len() == r
        }),
{
    let start = Batching::<T>::fresh(n_mels, input_time_steps);
    lemma_feed(start, vectors);
    let (end, batches) = start.feed(vectors);
    assert(start.pushed + vectors =~= vectors);
    lemma_fundamental_div_mod_converse(
        vectors.len() as int,
        input_time_steps as int,
        k as int,
        r as int,
    );
    assert(k * input_time_steps >= 0) by (nonlinear_arith);
}

} // verus!
