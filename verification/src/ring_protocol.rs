//! The order in which a ring's producer touches shared memory, and why a consumer
//! that runs at the same time never takes a torn frame for a good one.
//!
//! The producer first publishes how far its batch will reach, then fills the slots,
//! then publishes the batch. The consumer copies the slots first and afterwards looks
//! how far the producer had reached.

use vstd::arithmetic::div_mod::*;
use vstd::arithmetic::mul::*;
use vstd::prelude::*;

verus! {

/// What the producer has done to the memory of a ring.
pub struct RingMemory {
    /// Frames that the slots have room for.
    pub capacity: nat,
    /// Samples in a frame.
    pub channels: nat,
    /// The samples in memory; position `j` of the stream goes to slot `j` modulo their number.
    pub slots: Seq<i16>,
    /// All samples of all batches so far, the one in flight included.
    pub stream: Seq<i16>,
    /// How many samples of `stream` have been put into slots.
    pub stored: nat,
    /// Frames of all batches, the one in flight included.
    pub reserved: nat,
    /// Frames of all batches that were completed.
    pub write: nat,
}

impl RingMemory {
    /// What holds between any two steps of the producer: every stored sample that the
    /// batch in flight cannot reach is in its slot.
    pub open spec fn valid(self) -> bool {
        &&& self.capacity > 0
        &&& self.channels > 0
        &&& self.slots.len() == self.capacity * self.channels
        &&& self.stream.len() == self.reserved * self.channels
        &&& self.write <= self.reserved <= self.write + self.capacity
        &&& self.write * self.channels <= self.stored <= self.stream.len()
        &&& forall|j: int|
            0 <= j < self.stored && (self.reserved - self.capacity) * self.channels <= j
                ==> #[trigger] self.slots[j % self.slots.len() as int] == self.stream[j]
    }

    /// Whether no batch is in flight.
    pub open spec fn idle(self) -> bool {
        &&& self.write == self.reserved
        &&& self.stored == self.stream.len()
    }

    /// Whether `batch` can be announced now.
    pub open spec fn may_reserve(self, batch: Seq<i16>) -> bool {
        &&& self.idle()
        &&& batch.len() % self.channels == 0
        &&& batch.len() <= self.slots.len()
    }

    /// The memory after the reach of `batch` was published.
    pub open spec fn reserve(self, batch: Seq<i16>) -> RingMemory {
        RingMemory {
            stream: self.stream + batch,
            reserved: self.reserved + batch.len() / self.channels,
            ..self
        }
    }

    /// Whether a sample of the batch in flight is still to be stored.
    pub open spec fn may_store(self) -> bool {
        self.stored < self.stream.len()
    }

    /// The memory after one more sample of the batch in flight was put into its slot.
    pub open spec fn store(self) -> RingMemory {
        RingMemory {
            slots: self.slots.update(
                self.stored as int % self.slots.len() as int,
                self.stream[self.stored as int],
            ),
            stored: self.stored + 1,
            ..self
        }
    }

    /// Whether the batch in flight is complete.
    pub open spec fn may_publish(self) -> bool {
        self.stored == self.stream.len()
    }

    /// The memory after the batch in flight was published.
    pub open spec fn publish(self) -> RingMemory {
        RingMemory { write: self.reserved, ..self }
    }

    /// Whether the producer gets from this memory to `next` in one step.
    pub open spec fn steps_to(self, next: RingMemory) -> bool {
        ||| exists|batch: Seq<i16>| #[trigger] self.may_reserve(batch) && next == self.reserve(batch)
        ||| self.may_store() && next == self.store()
        ||| self.may_publish() && next == self.publish()
    }

    /// Whether the stream has `samples` samples after the first `read` frames.
    pub open spec fn covers(self, read: nat, samples: nat) -> bool {
        read * self.channels + samples <= self.stream.len()
    }

    /// The `samples` samples of the stream after the first `read` frames.
    pub open spec fn stretch(self, read: nat, samples: nat) -> Seq<i16> {
        self.stream.subrange(
            (read * self.channels) as int,
            (read * self.channels + samples) as int,
        )
    }

    /// Whether the producer's progress up to this memory is kept in `later`.
    pub open spec fn precedes(self, later: RingMemory) -> bool {
        &&& later.capacity == self.capacity
        &&& later.channels == self.channels
        &&& self.write <= later.write
        &&& self.reserved <= later.reserved
        &&& self.stream.len() <= later.stream.len()
        &&& forall|j: int| 0 <= j < self.stream.len() ==> self.stream[j] == later.stream[j]
    }
}

/// A history of the memory: each state comes from the one before by a step of the
/// producer, or is the same.
pub open spec fn is_history(trace: Seq<RingMemory>) -> bool {
    &&& trace.len() > 0
    &&& trace[0].valid()
    &&& forall|t: int|
        0 <= t < trace.len() - 1 ==> trace[t] == #[trigger] trace[t + 1] || trace[t].steps_to(
            trace[t + 1],
        )
}

/// Two stream positions less than the number of slots apart lie in different slots.
proof fn lemma_distinct_slots(a: int, b: int, size: int)
    requires
        size > 0,
        a % size == b % size,
        -size < a - b < size,
    ensures
        a == b,
{
    lemma_fundamental_div_mod(a, size);
    lemma_fundamental_div_mod(b, size);
    let d = a / size - b / size;
    assert(a - b == size * d) by (nonlinear_arith)
        requires
            a == size * (a / size) + a % size,
            b == size * (b / size) + b % size,
            a % size == b % size,
            d == a / size - b / size,
    ;
    assert(d == 0) by (nonlinear_arith)
        requires
            a - b == size * d,
            -size < a - b < size,
    ;
}

impl RingMemory {
    /// Announcing a batch keeps the memory valid.
    pub proof fn lemma_reserve(self, batch: Seq<i16>)
        requires
            self.valid(),
            self.may_reserve(batch),
        ensures
            self.reserve(batch).valid(),
            self.precedes(self.reserve(batch)),
    {
        let next = self.reserve(batch);
        let c = self.channels as int;
        let frames = batch.len() as int / c;
        lemma_fundamental_div_mod(batch.len() as int, c);
        assert(next.stream.len() == next.reserved * c) by (nonlinear_arith)
            requires
                next.stream.len() == self.reserved * c + batch.len(),
                batch.len() == c * frames,
                next.reserved == self.reserved + frames,
        ;
        assert(frames <= self.capacity) by (nonlinear_arith)
            requires
                c * frames <= self.capacity * c,
                c > 0,
        ;
        assert((self.reserved - self.capacity) * c <= (next.reserved - self.capacity) * c)
            by (nonlinear_arith)
            requires
                self.reserved <= next.reserved,
                c > 0,
        ;
    }

    /// Storing a sample keeps the memory valid.
    pub proof fn lemma_store(self)
        requires
            self.valid(),
            self.may_store(),
        ensures
            self.store().valid(),
            self.precedes(self.store()),
    {
        let next = self.store();
        let size = self.slots.len() as int;
        assert(size > 0) by (nonlinear_arith)
            requires
                size == self.capacity * self.channels,
                self.capacity > 0,
                self.channels > 0,
        ;
        lemma_mod_bound(self.stored as int, size);
        assert forall|j: int|
            0 <= j < next.stored && (next.reserved - next.capacity) * next.channels
                <= j implies #[trigger] next.slots[j % size] == next.stream[j] by {
            lemma_mod_bound(j, size);
            if j < self.stored {
                assert(self.slots[j % size] == self.stream[j]);
                assert(self.stored - j < size) by (nonlinear_arith)
                    requires
                        self.stored < self.reserved * self.channels,
                        (self.reserved - self.capacity) * self.channels <= j,
                        size == self.capacity * self.channels,
                ;
                if j % size == self.stored as int % size {
                    lemma_distinct_slots(j, self.stored as int, size);
                }
            }
        }
    }

    /// Publishing a complete batch keeps the memory valid.
    pub proof fn lemma_publish(self)
        requires
            self.valid(),
            self.may_publish(),
        ensures
            self.publish().valid(),
            self.publish().idle(),
            self.precedes(self.publish()),
    {
    }
}

/// Along a history the memory stays valid and the producer's progress is never undone.
pub proof fn lemma_history(trace: Seq<RingMemory>, from: int, to: int)
    requires
        is_history(trace),
        0 <= from <= to < trace.len(),
    ensures
        trace[from].valid(),
        trace[to].valid(),
        trace[from].precedes(trace[to]),
    decreases to,
{
    if to > 0 {
        let prev = to - 1;
        if from < to {
            lemma_history(trace, from, prev);
        } else {
            lemma_history(trace, prev, prev);
        }
        let memory = trace[prev];
        assert(trace[prev + 1] == trace[to]);
        if memory != trace[to] {
            if memory.may_store() && trace[to] == memory.store() {
                memory.lemma_store();
            } else if memory.may_publish() && trace[to] == memory.publish() {
                memory.lemma_publish();
            } else {
                let batch = choose|batch: Seq<i16>| #[trigger]
                    memory.may_reserve(batch) && trace[to] == memory.reserve(batch);
                memory.lemma_reserve(batch);
            }
        }
    }
}

/// A consumer's attempt to read: at time `start` it looks how many frames are complete, loads
/// slot `i` at time `loads[i]`, and looks at time `end` how far the producer has reached.
pub struct ReadAttempt {
    pub start: int,
    pub loads: Seq<int>,
    pub end: int,
    /// Frames that were read or skipped before.
    pub read: nat,
    /// Frames that are asked for.
    pub need: nat,
}

impl ReadAttempt {
    /// The attempt of a consumer that is not interrupted.
    pub open spec fn at_once(read: nat, need: nat, channels: nat) -> ReadAttempt {
        ReadAttempt {
            start: 0,
            loads: Seq::new(need * channels, |i: int| 0int),
            end: 0,
            read,
            need,
        }
    }

    /// Whether the attempt takes place during a history, a load for each sample.
    pub open spec fn runs_in(self, trace: Seq<RingMemory>) -> bool {
        &&& 0 <= self.start <= self.end < trace.len()
        &&& self.loads.len() == self.need * trace[0].channels
        &&& forall|i: int|
            0 <= i < self.loads.len() ==> self.start <= #[trigger] self.loads[i] <= self.end
    }

    /// Whether the attempt succeeds: the frames are complete at its start, and at its end the
    /// producer has reached no further than the capacity past the first of them.
    pub open spec fn accepted(self, trace: Seq<RingMemory>) -> bool {
        &&& self.read + self.need <= trace[self.start].write
        &&& trace[self.end].reserved - self.read <= trace[0].capacity
    }

    /// The samples that the attempt loads.
    pub open spec fn taken(self, trace: Seq<RingMemory>) -> Seq<i16> {
        Seq::new(
            self.loads.len(),
            |i: int|
                trace[self.loads[i]].slots[(self.read * trace[0].channels + i)
                    % trace[0].slots.len() as int],
        )
    }
}

/// A read that is accepted is not torn, whatever the producer did meanwhile: it gives the
/// samples of the stream from its position on, with none of a later batch among them.
pub proof fn successful_read_is_not_torn(trace: Seq<RingMemory>, attempt: ReadAttempt)
    requires
        is_history(trace),
        attempt.runs_in(trace),
        attempt.accepted(trace),
    ensures
        trace[attempt.end].covers(attempt.read, attempt.loads.len()),
        attempt.taken(trace) == trace[attempt.end].stretch(attempt.read, attempt.loads.len()),
{
    let start = attempt.start;
    let end = attempt.end;
    let loads = attempt.loads;
    let read = attempt.read;
    let need = attempt.need;
    let c = trace[0].channels as int;
    let size = trace[0].slots.len() as int;
    lemma_history(trace, 0, end);
    lemma_history(trace, start, end);
    lemma_history(trace, 0, start);
    assert(read * c + loads.len() <= trace[start].stream.len()) by (nonlinear_arith)
        requires
            loads.len() == need * c,
            read + need <= trace[start].write,
            trace[start].write <= trace[start].reserved,
            trace[start].stream.len() == trace[start].reserved * c,
            c > 0,
    ;
    assert(0 <= read * c) by (nonlinear_arith)
        requires
            c > 0,
    ;
    assert forall|i: int| 0 <= i < loads.len() implies trace[#[trigger] loads[i]].slots[(read * c + i)
        % size] == trace[end].stream[read * c + i] by {
        let t = loads[i];
        let j = read * c + i;
        lemma_history(trace, 0, t);
        lemma_history(trace, start, t);
        lemma_history(trace, t, end);
        let memory = trace[t];
        assert(j < memory.write * c) by (nonlinear_arith)
            requires
                j == read * c + i,
                i < need * c,
                read + need <= trace[start].write,
                trace[start].write <= memory.write,
                c > 0,
        ;
        assert((memory.reserved - memory.capacity) * c <= j) by (nonlinear_arith)
            requires
                j == read * c + i,
                i >= 0,
                memory.reserved <= trace[end].reserved,
                trace[end].reserved - read <= memory.capacity,
                c > 0,
        ;
        assert(memory.slots[j % memory.slots.len() as int] == memory.stream[j]);
    }
    let wanted = trace[end].stretch(read, loads.len());
    assert forall|i: int| 0 <= i < loads.len() implies attempt.taken(trace)[i] == wanted[i] by {
        assert(attempt.taken(trace)[i] == trace[loads[i]].slots[(read * c + i) % size]);
    }
    assert(attempt.taken(trace) =~= wanted);
}

/// A read over which the producer has announced a batch by its end is refused.
pub proof fn overtaken_read_is_refused(trace: Seq<RingMemory>, attempt: ReadAttempt)
    requires
        is_history(trace),
        attempt.runs_in(trace),
        trace[attempt.end].reserved > attempt.read + trace[0].capacity,
    ensures
        !attempt.accepted(trace),
{
}

} // verus!
